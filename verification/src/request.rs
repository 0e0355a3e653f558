//! Building the provider's update request URL. Each query value — host,
//! domain, shared secret, resolved address — is percent-encoded with the
//! `application/x-www-form-urlencoded` rules, so an embedded `&` or `=` in a
//! secret or hostname cannot corrupt the query string.

use vstd::prelude::*;
use vstd::string::StrSliceExecFns;
use vstd::string::StringExecFns;
use vstd::string::StringSliceAdditionalSpecFns;
use vstd::utf8::encode_utf8;
use crate::text::digit_char;

verus! {

/// Whether the form-urlencoded serializer leaves the byte `b` as it is:
/// ASCII alphanumerics and `* - . _`.
pub open spec fn keeps_byte(b: u8) -> bool {
    ||| b == 42  // *
    ||| b == 45  // -
    ||| b == 46  // .
    ||| 48 <= b <= 57  // 0-9
    ||| 65 <= b <= 90  // A-Z
    ||| b == 95  // _
    ||| 97 <= b <= 122  // a-z
}

/// The uppercase hexadecimal digit for the value `n`.
pub open spec fn hex_upper(n: int) -> char {
    if n < 10 {
        digit_char(n)
    } else {
        ((55 + n) as u8) as char
    }
}

/// How the form-urlencoded serializer writes one byte: kept bytes as
/// themselves, a space as `+`, every other byte as `%` and two uppercase
/// hexadecimal digits.
pub open spec fn encode_byte(b: u8) -> Seq<char> {
    if keeps_byte(b) {
        seq![b as char]
    } else if b == 32 {
        seq!['+']
    } else {
        seq!['%', hex_upper(b as int / 16), hex_upper(b as int % 16)]
    }
}

/// The form-urlencoded serialization of `bytes`.
pub open spec fn form_encoded(bytes: Seq<u8>) -> Seq<char>
    decreases bytes.len(),
{
    if bytes.len() == 0 {
        Seq::empty()
    } else {
        encode_byte(bytes[0]) + form_encoded(bytes.drop_first())
    }
}

/// Relies on `url::form_urlencoded::byte_serialize`: the
/// `application/x-www-form-urlencoded` byte serializer, which keeps ASCII
/// alphanumerics and `* - . _`, turns a space into `+`, and writes every
/// other byte as `%` plus two uppercase hexadecimal digits, byte by byte
/// over the UTF-8 encoding of the input.
#[verifier::external_body]
fn form_encode(s: &str) -> (r: String)
    ensures
        r@ == form_encoded(s.spec_bytes()),
{
    url::form_urlencoded::byte_serialize(s.as_bytes()).collect()
}

/// The update URL for one host: the fixed update endpoint with the four
/// query values, each form-urlencoded.
pub open spec fn update_url_spec(
    host: Seq<char>,
    domain: Seq<char>,
    password: Seq<char>,
    ip: Seq<char>,
) -> Seq<char> {
    "https://dynamicdns.park-your-domain.com/update"@ + "?host="@ + form_encoded(
        encode_utf8(host),
    ) + "&domain="@ + form_encoded(encode_utf8(domain)) + "&password="@ + form_encoded(
        encode_utf8(password),
    ) + "&ip="@ + form_encoded(encode_utf8(ip))
}

/// Builds the update request URL for one host, exactly as
/// `update_url_spec` lays it out.
pub fn build_update_url(host: &str, domain: &str, password: &str, ip: &str) -> (r: String)
    ensures
        r@ == update_url_spec(host@, domain@, password@, ip@),
{
    let mut u = String::from_str("https://dynamicdns.park-your-domain.com/update");
    u.append("?host=");
    let eh = form_encode(host);
    u.append(eh.as_str());
    u.append("&domain=");
    let ed = form_encode(domain);
    u.append(ed.as_str());
    u.append("&password=");
    let ep = form_encode(password);
    u.append(ep.as_str());
    u.append("&ip=");
    let ei = form_encode(ip);
    u.append(ei.as_str());
    proof {
        assert(u@ =~= update_url_spec(host@, domain@, password@, ip@));
    }
    u
}

} // verus!
