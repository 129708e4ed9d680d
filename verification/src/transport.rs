//! Text-safe transport form for setup keys: base64 over the JSON text.
//! This layer only re-wraps bytes; it alters no cryptographic content.

use vstd::prelude::*;
use vstd::utf8::encode_utf8;
use crate::keys::SetupKeys;
use crate::json::json_of_keys;

verus! {

/// What standard padded base64 encodes a byte string to.
pub uninterp spec fn b64_of(data: Seq<u8>) -> Seq<char>;

/// Relies on base64::engine::general_purpose::STANDARD through
/// base64::Engine::encode: canonical padded base64, a pure function of
/// the input bytes; distinct inputs have distinct encodings.
#[verifier::external_body]
fn b64_encode(data: &[u8]) -> (r: String)
    ensures
        r@ == b64_of(data@),
        forall|v: Seq<u8>| b64_of(v) == r@ ==> v == data@,
{
    base64::Engine::encode(&base64::engine::general_purpose::STANDARD, data)
}

/// Relies on base64::engine::general_purpose::STANDARD through
/// base64::Engine::decode: the engine requires canonical padding and
/// refuses stray trailing bits, so decoding succeeds exactly on
/// canonical encodings and inverts the encoder, whose outputs are
/// distinct for distinct inputs.
#[verifier::external_body]
fn b64_decode(s: &str) -> (r: Option<Vec<u8>>)
    ensures
        r matches Some(v) ==> b64_of(v@) == s@
            && (forall|w: Seq<u8>| b64_of(w) == s@ ==> w == v@),
        r is None ==> !(exists|v: Seq<u8>| b64_of(v) == s@),
{
    base64::Engine::decode(&base64::engine::general_purpose::STANDARD, s).ok()
}

/// Relies on String::from_utf8: succeeds exactly on valid UTF-8 —
/// which every encoded character sequence is — and returns the string
/// those bytes encode.
#[verifier::external_body]
fn string_from_utf8(bytes: Vec<u8>) -> (r: Option<String>)
    ensures
        r matches Some(s) ==> encode_utf8(s@) == bytes@,
        r is None ==> !(exists|t: Seq<char>| encode_utf8(t) == bytes@),
{
    String::from_utf8(bytes).ok()
}

impl SetupKeys {
    /// The base64 wrapping of the canonical JSON text of the keys.
    pub fn to_base64(&self) -> (r: String)
        ensures
            r@ == b64_of(encode_utf8(json_of_keys(*self))),
    {
        let json = self.to_json();
        let bytes = json.as_str().as_bytes();
        b64_encode(bytes)
    }

    /// Unwrap the base64 transport form: succeeds exactly on the
    /// spellings `to_base64` gives, and inverts it.
    pub fn from_base64(encoded: &str) -> (r: Option<SetupKeys>)
        ensures
            r matches Some(k) ==> encoded@ == b64_of(encode_utf8(json_of_keys(k))),
            r is None ==> !(exists|k: SetupKeys| encoded@ == b64_of(encode_utf8(json_of_keys(k)))),
    {
        let bytes = match b64_decode(encoded) {
            Some(b) => b,
            None => {
                return None;
            },
        };
        proof {
            assert forall|k: SetupKeys| encoded@ == b64_of(encode_utf8(json_of_keys(k)))
                implies encode_utf8(json_of_keys(k)) == bytes@ by {
                let target = encode_utf8(json_of_keys(k));
                assert(b64_of(target) == encoded@) by {
                    assert(encoded@ == b64_of(encode_utf8(json_of_keys(k))));
                }
            }
        }
        let ghost bv = bytes@;
        let json = match string_from_utf8(bytes) {
            Some(s) => s,
            None => {
                proof {
                    assert forall|k: SetupKeys| encoded@ != b64_of(encode_utf8(json_of_keys(k))) by {
                        if encoded@ == b64_of(encode_utf8(json_of_keys(k))) {
                            assert(encode_utf8(json_of_keys(k)) == bv);
                        }
                    }
                }
                return None;
            },
        };
        proof {
            assert forall|k: SetupKeys| encoded@ == b64_of(encode_utf8(json_of_keys(k)))
                implies json@ == json_of_keys(k) by {
                assert(encode_utf8(json_of_keys(k)) == bv);
                vstd::utf8::encode_utf8_decode_utf8(json@);
                vstd::utf8::encode_utf8_decode_utf8(json_of_keys(k));
            }
        }
        match SetupKeys::from_json(json.as_str()) {
            Some(k) => Some(k),
            None => None,
        }
    }
}

} // verus!
