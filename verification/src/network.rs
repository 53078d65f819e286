//! Text that the network tools build: the address the echo server binds
//! or the echo clients connect to, and the header lines `httpget` prints.
use vstd::prelude::*;
use crate::text::{decimal, push_decimal};
use vstd::utf8::{
    encode_utf8,
    encode_utf8_decode_utf8,
    encode_utf8_valid_utf8,
    is_ascii_chars,
    is_ascii_chars_encode_utf8,
    valid_utf8,
};

verus! {

/// The options of the echo server and clients: the host to bind or
/// connect to (`127.0.0.1` by default) and the port (`8080` by default).
pub struct Opt {
    pub bind: String,
    pub port: u32,
}

/// `host:port`, the port in decimal.
pub open spec fn address_text(bind: Seq<char>, port: nat) -> Seq<char> {
    bind + seq![':'] + decimal(port)
}

impl Opt {
    /// The address to bind or connect to, such as `127.0.0.1:8080`.
    pub fn bind_address(&self) -> (s: String)
        ensures
            s@ == address_text(self.bind@, self.port as nat),
    {
        proof {
            reveal_strlit(":");
        }
        let mut s = String::new();
        s.append(self.bind.as_str());
        s.append(":");
        push_decimal(&mut s, self.port as u64);
        assert(s@ =~= address_text(self.bind@, self.port as nat));
        s
    }
}

/// A header of an HTTP response as `httpget` prints it: `key: value` and a
/// line break.
pub open spec fn header_text(key: Seq<char>, value: Seq<char>) -> Seq<char> {
    key + seq![':', ' '] + value + seq!['\n']
}

/// Whether a byte of a header value is visible ASCII or a tab, the bytes
/// that the `http` crate's `HeaderValue::to_str` accepts.
pub open spec fn is_visible_ascii(b: u8) -> bool {
    32 <= b < 127 || b == 9
}

/// The characters of bytes that are all ASCII.
pub open spec fn ascii_chars(bytes: Seq<u8>) -> Seq<char> {
    bytes.map_values(|b: u8| b as char)
}

/// `std::str::from_utf8`: the text whose UTF-8 encoding is `bytes`, `None`
/// where `bytes` is not valid UTF-8. std documents that it fails exactly on
/// bytes that are not UTF-8 and that the text it gives has `bytes` as its
/// encoding.
#[verifier::external_body]
fn text_of_utf8(bytes: &[u8]) -> (r: Option<&str>)
    ensures
        r is Some <==> valid_utf8(bytes@),
        r matches Some(s) ==> encode_utf8(s@) == bytes@,
{
    std::str::from_utf8(bytes).ok()
}

/// Bytes that are all ASCII are the UTF-8 encoding of their characters.
proof fn lemma_ascii_encoding(bytes: Seq<u8>)
    requires
        forall|i: int| 0 <= i < bytes.len() ==> #[trigger] bytes[i] < 128,
    ensures
        encode_utf8(ascii_chars(bytes)) == bytes,
        valid_utf8(bytes),
{
    let c = ascii_chars(bytes);
    assert(is_ascii_chars(c));
    is_ascii_chars_encode_utf8(c);
    assert forall|i: int| 0 <= i < bytes.len() implies (#[trigger] c[i]) as u8 == bytes[i] by {
        assert(c[i] == bytes[i] as char);
        assert(bytes[i] < 128);
    }
    assert(encode_utf8(c) =~= bytes);
    encode_utf8_valid_utf8(c);
}

/// The line printed for the header `key` with the value whose bytes are
/// `value`; `None` where the value holds a byte that is neither visible
/// ASCII nor a tab.
pub fn header_line(key: &str, value: &[u8]) -> (r: Option<String>)
    ensures
        r is Some <==> forall|i: int| 0 <= i < value@.len() ==> is_visible_ascii(#[trigger] value@[i]),
        r matches Some(s) ==> s@ == header_text(key@, ascii_chars(value@)),
{
    let mut i: usize = 0;
    while i < value.len()
        invariant
            i <= value@.len(),
            forall|k: int| 0 <= k < i ==> is_visible_ascii(#[trigger] value@[k]),
        decreases value.len() - i,
    {
        let b = value[i];
        if !(32 <= b && b < 127 || b == 9) {
            return None;
        }
        i = i + 1;
    }
    proof {
        lemma_ascii_encoding(value@);
        encode_utf8_decode_utf8(ascii_chars(value@));
    }
    match text_of_utf8(value) {
        None => None,
        Some(text) => {
            proof {
                encode_utf8_decode_utf8(text@);
            }
            proof {
                reveal_strlit(": ");
                reveal_strlit("\n");
            }
            let mut s = String::new();
            s.append(key);
            s.append(": ");
            s.append(text);
            s.append("\n");
            assert(s@ =~= header_text(key@, ascii_chars(value@)));
            Some(s)
        },
    }
}

/// The port is the part of an address after its last colon: the address
/// gives back the port, whatever the host.
pub proof fn lemma_address_ends_with_port(bind: Seq<char>, port: nat)
    ensures
        address_text(bind, port).subrange(
            bind.len() as int + 1,
            address_text(bind, port).len() as int,
        ) == decimal(port),
        address_text(bind, port)[bind.len() as int] == ':',
        address_text(bind, port).take(bind.len() as int) == bind,
        !decimal(port).contains(':'),
{
    let a = address_text(bind, port);
    assert(a.subrange(bind.len() as int + 1, a.len() as int) =~= decimal(port));
    assert(a.take(bind.len() as int) =~= bind);
    lemma_decimal_digits(port);
}

/// Every character of a decimal rendering is a digit.
pub proof fn lemma_decimal_digits(n: nat)
    ensures
        forall|i: int| 0 <= i < decimal(n).len() ==> '0' <= #[trigger] decimal(n)[i] <= '9',
        !decimal(n).contains(':'),
    decreases n,
{
    if n >= 10 {
        lemma_decimal_digits(n / 10);
        let d = decimal(n / 10);
        assert forall|i: int| 0 <= i < decimal(n).len() implies '0' <= #[trigger] decimal(n)[i] <= '9' by {
            if i < d.len() {
                assert(decimal(n)[i] == d[i]);
            }
        }
    }
    assert(!decimal(n).contains(':')) by {
        if decimal(n).contains(':') {
            let i = choose|i: int| 0 <= i < decimal(n).len() && decimal(n)[i] == ':';
            assert('0' <= decimal(n)[i] <= '9');
        }
    }
}

} // verus!
