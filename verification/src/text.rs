//! Text primitives over `&str`: finding and splitting at an ASCII separator,
//! prefix and suffix removal, and equality, all stated over the character view.
//! The proofs go through the UTF-8 encoding that backs every `&str`.

use vstd::prelude::*;
use vstd::string::StringSliceAdditionalSpecFns;
use vstd::utf8::*;

verus! {

/// Index of the first occurrence of `c` in `s`, if there is one.
pub open spec fn find_char(s: Seq<char>, c: char) -> Option<int>
    decreases s.len(),
{
    if s.len() == 0 {
        None
    } else if s[0] == c {
        Some(0)
    } else {
        match find_char(s.drop_first(), c) {
            Some(i) => Some(i + 1),
            None => None,
        }
    }
}

/// `s` cut at its first `c`: the text before it and the text after it.
/// Without a `c`, the whole of `s` and an empty rest.
pub open spec fn split_once(s: Seq<char>, c: char) -> (Seq<char>, Seq<char>) {
    match find_char(s, c) {
        Some(i) => (s.take(i), s.skip(i + 1)),
        None => (s, Seq::empty()),
    }
}

/// All the pieces of `s` between occurrences of `c`, in order (at least one).
pub open spec fn split_all(s: Seq<char>, c: char) -> Seq<Seq<char>>
    decreases s.len(),
{
    match find_char(s, c) {
        Some(i) => {
            proof {
                lemma_find_char(s, c);
            }
            seq![s.take(i)] + split_all(s.skip(i + 1), c)
        },
        None => seq![s],
    }
}

pub proof fn lemma_find_char(s: Seq<char>, c: char)
    ensures
        match find_char(s, c) {
            Some(i) => {
                &&& 0 <= i < s.len()
                &&& s[i] == c
                &&& forall|j: int| 0 <= j < i ==> s[j] != c
            },
            None => forall|j: int| 0 <= j < s.len() ==> s[j] != c,
        },
    decreases s.len(),
{
    if s.len() > 0 && s[0] != c {
        lemma_find_char(s.drop_first(), c);
        assert forall|j: int| 1 <= j < s.len() implies s[j] == s.drop_first()[j - 1] by {}
    }
}

/// The UTF-8 encoding of a concatenation is the concatenation of the encodings.
pub proof fn lemma_encode_concat(a: Seq<char>, b: Seq<char>)
    ensures
        encode_utf8(a + b) == encode_utf8(a) + encode_utf8(b),
    decreases a.len(),
{
    if a.len() == 0 {
        assert(a + b =~= b);
    } else {
        lemma_encode_concat(a.drop_first(), b);
        assert((a + b).drop_first() =~= a.drop_first() + b);
        assert(encode_scalar(a[0] as u32) + (encode_utf8(a.drop_first()) + encode_utf8(b))
            =~= (encode_scalar(a[0] as u32) + encode_utf8(a.drop_first())) + encode_utf8(b));
    }
}

proof fn lemma_scalar_bytes(v: u32, b: u8)
    by (bit_vector)
    requires
        b < 0x80,
        v <= 0x10FFFF,
    ensures
        v <= 0x7F ==> (v & 0x7F) as u8 == v as u8,
        v <= 0x7F ==> (v as u8) as u32 == v,
        v <= 0x7F && v != b as u32 ==> (v & 0x7F) as u8 != b,
        0x80 <= v ==> (0xC0 | ((v >> 6) & 0x1F) as u8) != b,
        0x80 <= v ==> (0xE0 | ((v >> 12) & 0x0F) as u8) != b,
        0x80 <= v ==> (0xF0 | ((v >> 18) & 0x7) as u8) != b,
        (0x80 | (v & 0x3F) as u8) != b,
        (0x80 | ((v >> 6) & 0x3F) as u8) != b,
        (0x80 | ((v >> 12) & 0x3F) as u8) != b,
{
}

/// The encoding of an ASCII character is that single byte.
pub proof fn lemma_encode_ascii_char(c: char)
    requires
        (c as u32) < 0x80,
    ensures
        encode_scalar(c as u32) == seq![(c as u32) as u8],
{
    lemma_scalar_bytes(c as u32, 0);
}

/// The encoding of a character other than the ASCII character `b` holds no byte `b`.
pub proof fn lemma_encode_other_char(d: char, b: u8)
    requires
        b < 0x80,
        d as u32 != b as u32,
    ensures
        !encode_scalar(d as u32).contains(b),
{
    char_is_scalar(d);
    lemma_scalar_bytes(d as u32, b);
}

/// The encoding of a one-character text is the encoding of that character.
pub proof fn lemma_encode_single(d: char)
    ensures
        encode_utf8(seq![d]) == encode_scalar(d as u32),
{
    assert(seq![d].drop_first() =~= Seq::<char>::empty());
    assert(seq![d][0] == d);
    assert(encode_utf8(Seq::<char>::empty()) == Seq::<u8>::empty());
    assert(encode_utf8(seq![d]) == encode_scalar(d as u32) + encode_utf8(seq![d].drop_first()));
    assert(encode_scalar(d as u32) + Seq::<u8>::empty() =~= encode_scalar(d as u32));
}

/// Where the first ASCII character `c` of a text sits in its UTF-8 encoding:
/// the encoding is that of the text before it, the byte of `c`, and that of the
/// text after it; the encoding of the text before it holds no such byte.
pub proof fn lemma_encode_find(x: Seq<char>, c: char)
    requires
        (c as u32) < 0x80,
    ensures
        match find_char(x, c) {
            Some(k) => {
                &&& encode_utf8(x) == encode_utf8(x.take(k)) + seq![(c as u32) as u8]
                    + encode_utf8(x.skip(k + 1))
                &&& !encode_utf8(x.take(k)).contains((c as u32) as u8)
            },
            None => !encode_utf8(x).contains((c as u32) as u8),
        },
    decreases x.len(),
{
    let b = (c as u32) as u8;
    if x.len() > 0 {
        let e0 = encode_scalar(x[0] as u32);
        let rest = x.drop_first();
        assert(encode_utf8(x) == e0 + encode_utf8(rest));
        if x[0] == c {
            lemma_encode_ascii_char(c);
            assert(x.take(0) =~= Seq::<char>::empty());
            assert(x.skip(1) =~= rest);
            assert(encode_utf8(x.take(0)) =~= Seq::<u8>::empty());
            assert(encode_utf8(x) =~= encode_utf8(x.take(0)) + seq![b] + encode_utf8(x.skip(1)));
        } else {
            lemma_scalar_bytes(c as u32, 0);
            if x[0] as u32 == c as u32 {
                char_u32_cast(x[0], x[0] as u32);
                char_u32_cast(c, c as u32);
            }
            lemma_encode_other_char(x[0], b);
            lemma_encode_find(rest, c);
            match find_char(rest, c) {
                Some(k1) => {
                    let k = k1 + 1;
                    lemma_find_char(rest, c);
                    assert(x.take(k) =~= seq![x[0]] + rest.take(k1));
                    assert(x.skip(k + 1) =~= rest.skip(k1 + 1));
                    lemma_encode_concat(seq![x[0]], rest.take(k1));
                    lemma_encode_single(x[0]);
                    let p = encode_utf8(rest.take(k1));
                    assert(encode_utf8(x.take(k)) == e0 + p);
                    assert(encode_utf8(x) =~= encode_utf8(x.take(k)) + seq![b] + encode_utf8(
                        x.skip(k + 1),
                    ));
                    assert forall|q: int| 0 <= q < (e0 + p).len() implies (e0 + p)[q] != b by {
                        if q < e0.len() {
                            assert((e0 + p)[q] == e0[q]);
                        } else {
                            assert((e0 + p)[q] == p[q - e0.len()]);
                        }
                    }
                },
                None => {
                    let t = encode_utf8(rest);
                    assert forall|q: int| 0 <= q < (e0 + t).len() implies (e0 + t)[q] != b by {
                        if q < e0.len() {
                            assert((e0 + t)[q] == e0[q]);
                        } else {
                            assert((e0 + t)[q] == t[q - e0.len()]);
                        }
                    }
                },
            }
        }
    }
}

/// A text is fixed by its encoding.
pub proof fn lemma_encode_injective(x: Seq<char>, y: Seq<char>)
    requires
        encode_utf8(x) == encode_utf8(y),
    ensures
        x == y,
{
    encode_utf8_decode_utf8(x);
    encode_utf8_decode_utf8(y);
}

/// The encoding of a text is empty only when the text is.
proof fn lemma_encode_len(x: Seq<char>)
    ensures
        encode_utf8(x).len() >= x.len(),
    decreases x.len(),
{
    if x.len() > 0 {
        lemma_encode_len(x.drop_first());
        char_is_scalar(x[0]);
    }
}

/// Cuts `s` around the ASCII character at character index `k`, whose encoding
/// starts at byte index `i`.
fn cut_around<'a>(s: &'a str, c: char, i: usize, Ghost(k): Ghost<int>) -> (r: (&'a str, &'a str))
    requires
        (c as u32) < 0x80,
        0 <= k < s@.len(),
        s@[k] == c,
        i == encode_utf8(s@.take(k)).len(),
    ensures
        r.0@ == s@.take(k),
        r.1@ == s@.skip(k + 1),
{
    let ghost b: u8 = (c as u32) as u8;
    let ghost p = encode_utf8(s@.take(k));
    let ghost q = encode_utf8(s@.skip(k + 1));
    let ghost e = s.spec_bytes();
    proof {
        lemma_scalar_bytes(c as u32, 0);
        assert(s@ =~= s@.take(k) + seq![c] + s@.skip(k + 1));
        lemma_encode_concat(s@.take(k) + seq![c], s@.skip(k + 1));
        lemma_encode_concat(s@.take(k), seq![c]);
        lemma_encode_single(c);
        lemma_encode_ascii_char(c);
        assert(e =~= p + seq![b] + q);
        encode_utf8_valid_utf8(s@);
        is_char_boundary_iff_is_leading_byte(e, i as int);
    }
    let (head, rest) = s.split_at(i);
    assert(head.spec_bytes() =~= p);
    proof {
        lemma_encode_injective(head@, s@.take(k));
    }
    let ghost r = rest.spec_bytes();
    assert(r =~= seq![b] + q);
    proof {
        encode_utf8_valid_utf8(rest@);
        reveal_with_fuel(is_char_boundary, 2);
        assert(length_of_first_scalar(r) == 1);
        assert(is_char_boundary(r, 1));
    }
    let (_, tail) = rest.split_at(1);
    assert(tail.spec_bytes() =~= q);
    proof {
        lemma_encode_injective(tail@, s@.skip(k + 1));
    }
    (head, tail)
}

/// Splits `s` around its first occurrence of the ASCII character `c`.
pub fn split_first<'a>(s: &'a str, c: char) -> (r: Option<(&'a str, &'a str)>)
    requires
        (c as u32) < 0x80,
    ensures
        match find_char(s@, c) {
            Some(i) => r matches Some((a, b)) && a@ == s@.take(i) && b@ == s@.skip(i + 1),
            None => r is None,
        },
{
    let bytes = s.as_bytes();
    let b: u8 = (c as u32) as u8;
    let n = bytes.len();
    proof {
        lemma_scalar_bytes(c as u32, 0);
        lemma_encode_find(s@, c);
        lemma_find_char(s@, c);
    }
    let mut i: usize = 0;
    while i < n
        invariant
            n == bytes@.len(),
            bytes@ == encode_utf8(s@),
            b == (c as u32) as u8,
            (c as u32) < 0x80,
            i <= n,
            forall|q: int| 0 <= q < i ==> bytes@[q] != b,
            match find_char(s@, c) {
                Some(k) => {
                    &&& 0 <= k < s@.len()
                    &&& s@[k] == c
                    &&& encode_utf8(s@) == encode_utf8(s@.take(k)) + seq![b] + encode_utf8(
                        s@.skip(k + 1),
                    )
                    &&& !encode_utf8(s@.take(k)).contains(b)
                },
                None => !encode_utf8(s@).contains(b),
            },
        decreases n - i,
    {
        if bytes[i] == b {
            let ghost e = bytes@;
            assert(e.contains(b));
            let ghost k = find_char(s@, c)->Some_0;
            let ghost p = encode_utf8(s@.take(k));
            assert(i == p.len()) by {
                if i < p.len() {
                    assert(e[i as int] == p[i as int]);
                    assert(p.contains(b));
                } else if i > p.len() {
                    assert(e[p.len() as int] == b);
                }
            }
            return Some(cut_around(s, c, i, Ghost(k)));
        }
        i += 1;
    }
    proof {
        if find_char(s@, c) is Some {
            let k = find_char(s@, c)->Some_0;
            let p = encode_utf8(s@.take(k));
            assert(bytes@[p.len() as int] == b);
        }
    }
    None
}

/// `s` without its first character, when that character is `c`.
pub open spec fn strip_first(s: Seq<char>, c: char) -> Option<Seq<char>> {
    if s.len() > 0 && s[0] == c {
        Some(s.drop_first())
    } else {
        None
    }
}

/// `s` without its last character, when that character is `c`.
pub open spec fn strip_last(s: Seq<char>, c: char) -> Option<Seq<char>> {
    if s.len() > 0 && s.last() == c {
        Some(s.drop_last())
    } else {
        None
    }
}

/// Removes a leading ASCII character `c` from `s`.
pub fn strip_prefix_char<'a>(s: &'a str, c: char) -> (r: Option<&'a str>)
    requires
        (c as u32) < 0x80,
    ensures
        match strip_first(s@, c) {
            Some(t) => r matches Some(u) && u@ == t,
            None => r is None,
        },
{
    let bytes = s.as_bytes();
    let b: u8 = (c as u32) as u8;
    proof {
        lemma_scalar_bytes(c as u32, 0);
        lemma_encode_find(s@, c);
        lemma_find_char(s@, c);
    }
    if bytes.len() > 0 && bytes[0] == b {
        let ghost k = find_char(s@, c)->Some_0;
        proof {
            let p = encode_utf8(s@.take(k));
            if p.len() > 0 {
                assert(bytes@[0] == p[0]);
                assert(p.contains(b));
            }
            lemma_encode_len(s@.take(k));
            assert(s@.skip(1) =~= s@.drop_first());
        }
        let (_, tail) = cut_around(s, c, 0, Ghost(k));
        Some(tail)
    } else {
        proof {
            if s@.len() > 0 && s@[0] == c {
                assert(s@.take(0) =~= Seq::<char>::empty());
                assert(bytes@[0] == b);
            }
        }
        None
    }
}

/// Removes a trailing ASCII character `c` from `s`.
pub fn strip_suffix_char<'a>(s: &'a str, c: char) -> (r: Option<&'a str>)
    requires
        (c as u32) < 0x80,
    ensures
        match strip_last(s@, c) {
            Some(t) => r matches Some(u) && u@ == t,
            None => r is None,
        },
{
    let bytes = s.as_bytes();
    let b: u8 = (c as u32) as u8;
    let n = bytes.len();
    proof {
        lemma_scalar_bytes(c as u32, 0);
        lemma_encode_len(s@);
    }
    if n == 0 {
        return None;
    }
    let ghost k = s@.len() - 1;
    let ghost last = s@[k];
    let ghost p = encode_utf8(s@.take(k));
    let ghost el = encode_scalar(last as u32);
    proof {
        assert(s@ =~= s@.take(k) + seq![last]);
        lemma_encode_concat(s@.take(k), seq![last]);
        lemma_encode_single(last);
        assert(bytes@ =~= p + el);
        char_is_scalar(last);
    }
    if bytes[n - 1] == b {
        proof {
            if last != c {
                if last as u32 == c as u32 {
                    char_u32_cast(last, last as u32);
                    char_u32_cast(c, c as u32);
                }
                lemma_encode_other_char(last, b);
                assert(bytes@[n - 1] == el[el.len() - 1]);
            }
            lemma_encode_ascii_char(c);
            assert(s@.skip(k + 1) =~= Seq::<char>::empty());
        }
        let (head, _) = cut_around(s, c, n - 1, Ghost(k));
        Some(head)
    } else {
        proof {
            if last == c {
                lemma_encode_ascii_char(c);
                assert(bytes@[n - 1] == b);
            }
        }
        None
    }
}

/// Whether two texts are the same.
pub fn str_eq(x: &str, y: &str) -> (r: bool)
    ensures
        r == (x@ == y@),
{
    let a = x.as_bytes();
    let b = y.as_bytes();
    if a.len() != b.len() {
        return false;
    }
    let n = a.len();
    let mut i: usize = 0;
    while i < n
        invariant
            n == a@.len(),
            n == b@.len(),
            a@ == encode_utf8(x@),
            b@ == encode_utf8(y@),
            i <= n,
            forall|q: int| 0 <= q < i ==> a@[q] == b@[q],
        decreases n - i,
    {
        if a[i] != b[i] {
            return false;
        }
        i += 1;
    }
    proof {
        assert(a@ =~= b@);
        lemma_encode_injective(x@, y@);
    }
    true
}

/// The pieces of `s` around its first `c`; the rest is empty when there is no `c`.
pub fn split_pair<'a>(s: &'a str, c: char) -> (r: (&'a str, &'a str))
    requires
        (c as u32) < 0x80,
    ensures
        (r.0@, r.1@) == split_once(s@, c),
{
    match split_first(s, c) {
        Some(parts) => parts,
        None => {
            let empty = "";
            proof {
                reveal_strlit("");
            }
            (s, empty)
        },
    }
}

/// The first piece of `s` up to its first `c`.
pub fn first_piece<'a>(s: &'a str, c: char) -> (r: &'a str)
    requires
        (c as u32) < 0x80,
    ensures
        r@ == split_once(s@, c).0,
{
    split_pair(s, c).0
}

/// The first piece of `split_all` is the text up to the first separator.
pub proof fn lemma_split_all_first(s: Seq<char>, c: char)
    ensures
        split_all(s, c).len() >= 1,
        split_all(s, c)[0] == split_once(s, c).0,
        find_char(s, c) matches Some(i) ==> split_all(s, c) == seq![s.take(i)] + split_all(
            s.skip(i + 1),
            c,
        ),
        find_char(s, c) is None ==> split_all(s, c) == seq![s],
{
}

/// The decimal digit with value `d`.
pub open spec fn digit(d: nat) -> char {
    seq!['0', '1', '2', '3', '4', '5', '6', '7', '8', '9'][d as int]
}

/// The decimal notation of `n`, without leading zeros.
pub open spec fn decimal(n: nat) -> Seq<char>
    decreases n,
{
    if n < 10 {
        seq![digit(n)]
    } else {
        decimal(n / 10) + seq![digit(n % 10)]
    }
}

fn digit_str(d: u16) -> (r: &'static str)
    requires
        d < 10,
    ensures
        r@ == seq![digit(d as nat)],
{
    match d {
        0 => {
            proof {
                reveal_strlit("0");
            }
            "0"
        },
        1 => {
            proof {
                reveal_strlit("1");
            }
            "1"
        },
        2 => {
            proof {
                reveal_strlit("2");
            }
            "2"
        },
        3 => {
            proof {
                reveal_strlit("3");
            }
            "3"
        },
        4 => {
            proof {
                reveal_strlit("4");
            }
            "4"
        },
        5 => {
            proof {
                reveal_strlit("5");
            }
            "5"
        },
        6 => {
            proof {
                reveal_strlit("6");
            }
            "6"
        },
        7 => {
            proof {
                reveal_strlit("7");
            }
            "7"
        },
        8 => {
            proof {
                reveal_strlit("8");
            }
            "8"
        },
        _ => {
            proof {
                reveal_strlit("9");
            }
            "9"
        },
    }
}

/// Appends the decimal notation of `n` to `out`.
pub fn push_decimal(out: &mut String, n: u16)
    ensures
        final(out)@ == old(out)@ + decimal(n as nat),
    decreases n,
{
    if n >= 10 {
        push_decimal(out, n / 10);
    }
    let ghost before = out@;
    out.append(digit_str(n % 10));
    proof {
        if n >= 10 {
            assert(out@ =~= old(out)@ + decimal(n as nat));
        } else {
            assert(out@ =~= old(out)@ + decimal(n as nat));
        }
    }
}

pub open spec fn is_digit(c: char) -> bool {
    '0' <= c <= '9'
}

pub open spec fn digits_value(s: Seq<char>) -> int
    decreases s.len(),
{
    if s.len() == 0 {
        0
    } else {
        digits_value(s.drop_last()) * 10 + (s.last() as int - '0' as int)
    }
}

/// Whether a number text starts with `-`, and what follows its sign.
pub open spec fn sign_and_digits(s: Seq<char>) -> (bool, Seq<char>) {
    if s.len() > 0 && s[0] == '-' {
        (true, s.drop_first())
    } else if s.len() > 0 && s[0] == '+' {
        (false, s.drop_first())
    } else {
        (false, s)
    }
}

/// What `str::parse::<i64>` gives: an optional sign, one or more decimal
/// digits, and a value in range.
pub open spec fn parse_i64(s: Seq<char>) -> Option<i64> {
    let (negative, digits) = sign_and_digits(s);
    if digits.len() == 0 || !(forall|i: int| 0 <= i < digits.len() ==> is_digit(#[trigger] digits[i])) {
        None
    } else {
        let value = if negative {
            -digits_value(digits)
        } else {
            digits_value(digits)
        };
        if i64::MIN <= value <= i64::MAX {
            Some(value as i64)
        } else {
            None
        }
    }
}

proof fn lemma_ascii_byte(c: char)
    requires
        '\0' <= c <= '\u{7f}',
    ensures
        (c as u8) as int == c as int,
{
    lemma_scalar_bytes(c as u32, 0);
    assert(c as u8 == (c as u32) as u8);
}

/// The signed decimal integer that `s` spells, as `str::parse::<i64>` reads it.
pub fn str_to_i64(s: &str) -> (r: Option<i64>)
    ensures
        r == parse_i64(s@),
{
    if !s.is_ascii() {
        proof {
            let k = choose|k: int| 0 <= k < s@.len() && !('\0' <= #[trigger] s@[k] <= '\u{7f}');
            let start: int = if s@.len() > 0 && (s@[0] == '-' || s@[0] == '+') {
                1
            } else {
                0
            };
            let digits = s@.skip(start);
            assert(digits[k - start] == s@[k]);
            assert(!is_digit(digits[k - start]));
        }
        return None;
    }
    let bytes = s.as_bytes();
    let n = bytes.len();
    proof {
        vstd::string::is_ascii_spec_bytes(s);
        assert(bytes@.len() == s@.len());
    }
    proof {
        if n > 0 {
            lemma_ascii_byte(s@[0]);
        }
    }
    let (negative, start): (bool, usize) = if n > 0 && bytes[0] == 0x2du8 {
        (true, 1)
    } else if n > 0 && bytes[0] == 0x2bu8 {
        (false, 1)
    } else {
        (false, 0)
    };
    let ghost digits = s@.skip(start as int);
    assert(start == 1 ==> digits =~= s@.drop_first());
    assert(start == 0 ==> digits =~= s@);
    assert((negative, digits) == sign_and_digits(s@));
    if start == n {
        return None;
    }
    let cap: u128 = 0x1_0000_0000_0000_0000;
    let mut acc: u128 = 0;
    let mut i: usize = start;
    while i < n
        invariant
            n == bytes@.len(),
            n == s@.len(),
            is_ascii_chars(s@),
            (negative, digits) == sign_and_digits(s@),
            start <= i <= n,
            cap == 0x1_0000_0000_0000_0000u128,
            bytes@ == Seq::new(s@.len(), |j| s@.index(j) as u8),
            digits == s@.skip(start as int),
            forall|j: int| 0 <= j < i - start ==> is_digit(#[trigger] digits[j]),
            acc as int == if digits_value(digits.take(i - start)) < cap {
                digits_value(digits.take(i - start))
            } else {
                cap as int
            },
            digits_value(digits.take(i - start)) >= 0,
        decreases n - i,
    {
        let b = bytes[i];
        proof {
            assert(b == s@[i as int] as u8);
            assert(digits[i - start] == s@[i as int]);
            assert('\0' <= s@[i as int] <= '\u{7f}');
            lemma_ascii_byte(s@[i as int]);
        }
        if b < 0x30u8 || b > 0x39u8 {
            proof {
                assert(!is_digit(digits[i - start]));
            }
            return None;
        }
        let ghost prev = digits.take(i - start);
        let ghost next = digits.take(i - start + 1);
        proof {
            assert(next.drop_last() =~= prev);
            assert(next.last() == s@[i as int]);
            assert(is_digit(digits[i - start]));
        }
        let d = (b - 0x30u8) as u128;
        let grown = acc * 10 + d;
        acc = if grown < cap {
            grown
        } else {
            cap
        };
        i += 1;
    }
    assert(digits.take(n - start) =~= digits);
    if negative {
        if acc <= 0x8000_0000_0000_0000u128 {
            Some((0i128 - acc as i128) as i64)
        } else {
            None
        }
    } else {
        if acc <= 0x7fff_ffff_ffff_ffffu128 {
            Some(acc as i64)
        } else {
            None
        }
    }
}

/// Cutting at the first separator loses nothing: when `c` occurs, the text is
/// the part before it, `c`, and the part after it, and the part before holds no
/// `c`; otherwise the first part is the whole text and the rest is empty.
pub proof fn split_once_rejoins(s: Seq<char>, c: char)
    ensures
        find_char(s, c) is Some ==> {
            &&& split_once(s, c).0 + seq![c] + split_once(s, c).1 == s
            &&& !split_once(s, c).0.contains(c)
        },
        find_char(s, c) is None ==> split_once(s, c).0 == s && split_once(s, c).1.len() == 0,
        find_char(s, c) is None <==> !s.contains(c),
{
    lemma_find_char(s, c);
    if let Some(i) = find_char(s, c) {
        assert(s.take(i) + seq![c] + s.skip(i + 1) =~= s);
        assert(!s.take(i).contains(c)) by {
            if s.take(i).contains(c) {
                let j = choose|j: int| 0 <= j < s.take(i).len() && s.take(i)[j] == c;
                assert(s[j] == c);
            }
        }
    }
}

/// The first `c` of a text whose first part holds no `c` is right after that part.
pub proof fn lemma_find_after(a: Seq<char>, c: char, b: Seq<char>)
    requires
        !a.contains(c),
    ensures
        find_char(a + seq![c] + b, c) == Some(a.len() as int),
        split_once(a + seq![c] + b, c) == (a, b),
    decreases a.len(),
{
    let s = a + seq![c] + b;
    if a.len() == 0 {
        assert(s[0] == c);
        assert(s.skip(1) =~= b);
        assert(s.take(0) =~= a);
    } else {
        assert(s[0] == a[0]);
        assert(!a.drop_first().contains(c)) by {
            if a.drop_first().contains(c) {
                let j = choose|j: int| 0 <= j < a.drop_first().len() && a.drop_first()[j] == c;
                assert(a[j + 1] == c);
            }
        }
        lemma_find_after(a.drop_first(), c, b);
        assert(s.drop_first() =~= a.drop_first() + seq![c] + b);
        assert(s.take(a.len() as int) =~= a);
        assert(s.skip(a.len() as int + 1) =~= b);
    }
}

proof fn lemma_digit(d: nat)
    requires
        d < 10,
    ensures
        is_digit(digit(d)),
        digit(d) as int - '0' as int == d,
{
    let t = seq!['0', '1', '2', '3', '4', '5', '6', '7', '8', '9'];
    assert(t[0] == '0' && t[1] == '1' && t[2] == '2' && t[3] == '3' && t[4] == '4');
    assert(t[5] == '5' && t[6] == '6' && t[7] == '7' && t[8] == '8' && t[9] == '9');
}

/// A text of two parts holds `c` only where one of its parts does.
pub proof fn lemma_no_char_concat(a: Seq<char>, b: Seq<char>, c: char)
    requires
        !a.contains(c),
        !b.contains(c),
    ensures
        !(a + b).contains(c),
{
    if (a + b).contains(c) {
        let j = choose|j: int| 0 <= j < (a + b).len() && (a + b)[j] == c;
        if j < a.len() {
            assert(a[j] == c);
        } else {
            assert(b[j - a.len()] == c);
        }
    }
}

/// Splitting a text without any `c` gives the text alone.
pub proof fn lemma_split_all_whole(a: Seq<char>, c: char)
    requires
        !a.contains(c),
    ensures
        split_all(a, c) == seq![a],
{
    lemma_find_char(a, c);
    if let Some(i) = find_char(a, c) {
        assert(a.contains(c));
    }
}

/// Splitting `a`, `c`, `b` where `a` holds no `c` gives `a` and then the pieces of `b`.
pub proof fn lemma_split_all_after(a: Seq<char>, c: char, b: Seq<char>)
    requires
        !a.contains(c),
    ensures
        split_all(a + seq![c] + b, c) == seq![a] + split_all(b, c),
{
    lemma_find_after(a, c, b);
    let s = a + seq![c] + b;
    assert(s.take(a.len() as int) =~= a);
    assert(s.skip(a.len() as int + 1) =~= b);
}

/// The digits of a decimal notation.
proof fn lemma_decimal_digits(n: nat)
    ensures
        decimal(n).len() > 0,
        forall|i: int| 0 <= i < decimal(n).len() ==> is_digit(#[trigger] decimal(n)[i]),
        digits_value(decimal(n)) == n,
    decreases n,
{
    lemma_digit(n % 10);
    if n < 10 {
        assert(decimal(n).drop_last() =~= Seq::<char>::empty());
        assert(decimal(n).last() == digit(n));
        assert(digits_value(decimal(n)) == digits_value(decimal(n).drop_last()) * 10 + (
        decimal(n).last() as int - '0' as int));
    } else {
        lemma_decimal_digits(n / 10);
        let d = decimal(n);
        assert(d.last() == digit(n % 10));
        assert(digits_value(d) == digits_value(d.drop_last()) * 10 + (d.last() as int
            - '0' as int));
        assert((n / 10) * 10 + n % 10 == n);
        assert(d.drop_last() =~= decimal(n / 10));
        assert forall|i: int| 0 <= i < d.len() implies is_digit(#[trigger] d[i]) by {
            if i < d.len() - 1 {
                assert(d[i] == decimal(n / 10)[i]);
            }
        }
    }
}

/// A number written in decimal reads back as that number.
pub proof fn parse_i64_reads_decimal(n: nat)
    requires
        n <= i64::MAX,
    ensures
        parse_i64(decimal(n)) == Some(n as i64),
{
    lemma_decimal_digits(n);
    assert(decimal(n)[0] != '-' && decimal(n)[0] != '+') by {
        assert(is_digit(decimal(n)[0]));
    }
}

} // verus!
