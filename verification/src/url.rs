//! URLs of the local console API, with query values percent-encoded by the
//! `urlencoding` crate.

use vstd::prelude::*;
use vstd::string::StringExecFns;
use crate::text::{decimal, decimal_text, owned};
use vstd::string::StringSliceAdditionalSpecFns;

verus! {

/// Whether a byte is left as is by percent-encoding: ASCII letters and
/// digits, `-`, `.`, `_` and `~`.
pub open spec fn is_unreserved_byte(b: u8) -> bool {
    ||| 0x30 <= b <= 0x39
    ||| 0x41 <= b <= 0x5A
    ||| 0x61 <= b <= 0x7A
    ||| b == 0x2D
    ||| b == 0x2E
    ||| b == 0x5F
    ||| b == 0x7E
}

/// The upper-case hexadecimal digit for `d < 16`.
pub open spec fn hex_digit(d: u8) -> char {
    seq!['0', '1', '2', '3', '4', '5', '6', '7', '8', '9', 'A', 'B', 'C', 'D', 'E', 'F'][d as int]
}

/// `bytes` percent-encoded: unreserved bytes as themselves, every other
/// byte as `%` and two upper-case hexadecimal digits.
pub open spec fn percent_encoded(bytes: Seq<u8>) -> Seq<char>
    decreases bytes.len(),
{
    if bytes.len() == 0 {
        Seq::empty()
    } else {
        let b = bytes[0];
        let head = if is_unreserved_byte(b) {
            seq![b as char]
        } else {
            seq!['%', hex_digit(b / 16), hex_digit(b % 16)]
        };
        head + percent_encoded(bytes.drop_first())
    }
}

/// `urlencoding::encode`: the UTF-8 bytes of `data`, every byte but ASCII
/// alphanumerics and `-`, `.`, `_`, `~` written as `%XX` in upper-case hex.
#[verifier::external_body]
fn url_encode(data: &str) -> (res: String)
    ensures
        res@ == percent_encoded(data.spec_bytes()),
{
    urlencoding::encode(data).into_owned()
}

/// The URL of `path` on the console listening on local `port`.
pub fn console_url(port: u16, path: &str) -> (res: String)
    ensures
        res@ == "http://127.0.0.1:"@ + decimal(port as nat) + path@,
{
    let mut url = owned("http://127.0.0.1:");
    url.append(decimal_text(port as u64).as_str());
    url.append(path);
    url
}

/// The URL of the split-readiness diagnostic for `model_ref` on the console
/// listening on local `port`; the model reference is percent-encoded.
pub fn split_readiness_url(model_ref: &str, port: u16) -> (res: String)
    ensures
        res@ == "http://127.0.0.1:"@ + decimal(port as nat) + "/api/diagnostics/split-readiness?model_ref="@
            + percent_encoded(model_ref.spec_bytes()),
{
    let mut url = console_url(port, "/api/diagnostics/split-readiness?model_ref=");
    url.append(url_encode(model_ref).as_str());
    url
}

} // verus!
