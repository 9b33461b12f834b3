//! Finding the websocket URL of a named Showdown server.

use crate::text::{decimal, push_decimal, str_eq};
use vstd::prelude::*;

verus! {

/// A parsed URL, from the `url` crate.
#[verifier::external_type_specification]
#[verifier::external_body]
pub struct ExUrl(url::Url);

/// Why a text is not a URL, from the `url` crate.
#[verifier::external_type_specification]
#[verifier::external_body]
pub struct ExParseError(url::ParseError);

/// Name for what `url::Url::parse` returns for a text.
pub uninterp spec fn url_parse(text: Seq<char>) -> Result<url::Url, url::ParseError>;

/// Calls `url::Url::parse(text)`, which reads `text` as an absolute URL and
/// depends on `text` alone. The contract names the result; which URL it is
/// stays unstated.
#[verifier::external_body]
fn parse_url(text: &str) -> (r: Result<url::Url, url::ParseError>)
    ensures
        r == url_parse(text@),
{
    url::Url::parse(text)
}

/// Where a server listens, as the server list describes it.
pub struct Server {
    pub host: String,
    pub port: u16,
}

/// The address of the description of server `name` in the server list.
pub open spec fn server_info_url_text(name: Seq<char>) -> Seq<char> {
    "https://pokemonshowdown.com/servers/"@ + name + ".json"@
}

/// The websocket URL of the main server, which needs no lookup.
pub open spec fn main_server_url_text() -> Seq<char> {
    "wss://sim3.psim.us/showdown/websocket"@
}

/// The websocket URL of a server listening at `host:port`: secure on port 443.
pub open spec fn websocket_url_text(host: Seq<char>, port: u16) -> Seq<char> {
    let protocol = if port == 443 {
        "wss"@
    } else {
        "ws"@
    };
    protocol + "://"@ + host + ":"@ + decimal(port as nat) + "/showdown/websocket"@
}

/// The URL text for a server: the main one, or one the server list described.
pub open spec fn server_url_text(server: Option<(Seq<char>, u16)>) -> Seq<char> {
    match server {
        None => main_server_url_text(),
        Some((host, port)) => websocket_url_text(host, port),
    }
}

/// Where the server list describes server `name`; `None` for the main server
/// `showdown`, whose URL is known.
pub fn server_info_url(name: &str) -> (r: Option<String>)
    ensures
        name@ == "showdown"@ ==> r is None,
        name@ != "showdown"@ ==> (r matches Some(url) && url@ == server_info_url_text(name@)),
{
    if str_eq(name, "showdown") {
        None
    } else {
        let mut url = "https://pokemonshowdown.com/servers/".to_owned();
        url.append(name);
        url.append(".json");
        Some(url)
    }
}

/// The view of an optional server: its host and port.
pub open spec fn server_view(server: Option<&Server>) -> Option<(Seq<char>, u16)> {
    match server {
        Some(s) => Some((s.host@, s.port)),
        None => None,
    }
}

/// The text of the websocket URL for `server`, the main server when `None`.
pub fn server_url_string(server: Option<&Server>) -> (r: String)
    ensures
        r@ == server_url_text(server_view(server)),
{
    match server {
        None => "wss://sim3.psim.us/showdown/websocket".to_owned(),
        Some(server) => {
            let mut url = if server.port == 443 {
                "wss".to_owned()
            } else {
                "ws".to_owned()
            };
            url.append("://");
            url.append(server.host.as_str());
            url.append(":");
            push_decimal(&mut url, server.port);
            url.append("/showdown/websocket");
            url
        },
    }
}

/// A server address that is not a valid URL.
pub struct InvalidUrl(pub url::ParseError);

/// The websocket URL for `server`, the main server when `None`.
pub fn server_url(server: Option<&Server>) -> (r: Result<url::Url, InvalidUrl>)
    ensures
        match url_parse(server_url_text(server_view(server))) {
            Ok(url) => r == Ok::<url::Url, InvalidUrl>(url),
            Err(e) => r == Err::<url::Url, InvalidUrl>(InvalidUrl(e)),
        },
{
    let text = server_url_string(server);
    match parse_url(text.as_str()) {
        Ok(url) => Ok(url),
        Err(e) => Err(InvalidUrl(e)),
    }
}

} // verus!
