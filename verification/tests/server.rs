use showdown::server::{server_info_url, server_url, server_url_string, Server};

#[test]
fn main_server_needs_no_lookup() {
    assert_eq!(server_info_url("showdown"), None);
    assert_eq!(
        server_url_string(None),
        "wss://sim3.psim.us/showdown/websocket"
    );
    let url = server_url(None).ok().unwrap();
    assert_eq!(url.as_str(), "wss://sim3.psim.us/showdown/websocket");
}

#[test]
fn other_servers_are_looked_up() {
    assert_eq!(
        server_info_url("smogtours").unwrap(),
        "https://pokemonshowdown.com/servers/smogtours.json"
    );
}

#[test]
fn websocket_url_depends_on_port() {
    let server = Server {
        host: "sim3.psim.us".to_string(),
        port: 8002,
    };
    assert_eq!(
        server_url_string(Some(&server)),
        "ws://sim3.psim.us:8002/showdown/websocket"
    );
    assert_eq!(
        server_url(Some(&server)).ok().unwrap().as_str(),
        "ws://sim3.psim.us:8002/showdown/websocket"
    );
    let secure = Server {
        host: "example.com".to_string(),
        port: 443,
    };
    assert_eq!(
        server_url_string(Some(&secure)),
        "wss://example.com:443/showdown/websocket"
    );
    let zero = Server {
        host: "h".to_string(),
        port: 0,
    };
    assert_eq!(server_url_string(Some(&zero)), "ws://h:0/showdown/websocket");
}

#[test]
fn invalid_host_is_an_error() {
    let server = Server {
        host: "bad host".to_string(),
        port: 80,
    };
    let error = server_url(Some(&server)).err().unwrap();
    assert_eq!(error.0, url::ParseError::IdnaError);
}
