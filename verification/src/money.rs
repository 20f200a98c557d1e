//! Currency codes.

use vstd::prelude::*;
use vstd::utf8::{encode_utf8, valid_utf8};
use vstd::string::StringSliceAdditionalSpecFns;

verus! {

/// Whether `b` is an ASCII letter (`u8::is_ascii_alphabetic`).
pub open spec fn is_ascii_letter(b: u8) -> bool {
    (65 <= b <= 90) || (97 <= b <= 122)
}

/// ASCII upper-casing of one byte (`u8::to_ascii_uppercase`).
pub open spec fn upper_byte(b: u8) -> u8 {
    if 97 <= b <= 122 {
        (b - 32) as u8
    } else {
        b
    }
}

/// The normalized three-letter code for the UTF-8 bytes of a candidate code:
/// the upper-cased bytes when there are exactly three ASCII letters, else nothing.
pub open spec fn normalized_code(bytes: Seq<u8>) -> Option<Seq<u8>> {
    if bytes.len() == 3 && forall|i: int| 0 <= i < 3 ==> is_ascii_letter(#[trigger] bytes[i]) {
        Some(bytes.map_values(|b: u8| upper_byte(b)))
    } else {
        None
    }
}

/// An ISO-4217-style currency code (e.g. `USD`, `EUR`), stored as three bytes;
/// not validated against the full ISO list.
#[derive(Debug, Clone, Copy, PartialEq, Eq, Hash)]
pub struct Currency(pub [u8; 3]);

/// `core::str::from_utf8`: the bytes as a string slice when they are valid UTF-8.
#[verifier::external_body]
fn str_from_utf8(v: &[u8]) -> (r: Option<&str>)
    ensures
        r is Some <==> valid_utf8(v@),
        r matches Some(s) ==> s.spec_bytes() == v@,
{
    core::str::from_utf8(v).ok()
}

fn is_letter(b: u8) -> (r: bool)
    ensures
        r == is_ascii_letter(b),
{
    (65 <= b && b <= 90) || (97 <= b && b <= 122)
}

fn upper(b: u8) -> (r: u8)
    ensures
        r == upper_byte(b),
{
    if 97 <= b && b <= 122 {
        b - 32
    } else {
        b
    }
}

impl Currency {
    /// Construct from a 3-letter code, upper-casing ASCII letters.
    pub fn new(code: &str) -> (r: Option<Self>)
        ensures
            r is Some <==> normalized_code(code.spec_bytes()) is Some,
            r matches Some(c) ==> c.0@ == normalized_code(code.spec_bytes())->0,
    {
        let bytes = code.as_bytes();
        if bytes.len() != 3 || !is_letter(bytes[0]) || !is_letter(bytes[1]) || !is_letter(
            bytes[2],
        ) {
            proof {
                if bytes@.len() == 3 {
                    assert(!(forall|i: int| 0 <= i < 3 ==> is_ascii_letter(#[trigger] bytes@[i])))
                        by {
                        if !is_ascii_letter(bytes@[0]) {
                            assert(!is_ascii_letter(bytes@[0]));
                        } else if !is_ascii_letter(bytes@[1]) {
                            assert(!is_ascii_letter(bytes@[1]));
                        } else {
                            assert(!is_ascii_letter(bytes@[2]));
                        }
                    }
                }
            }
            return None;
        }
        proof {
            assert forall|i: int| 0 <= i < 3 implies is_ascii_letter(#[trigger] bytes@[i]) by {
                if i == 0 {
                } else if i == 1 {
                } else {
                }
            }
        }
        let out = Currency([upper(bytes[0]), upper(bytes[1]), upper(bytes[2])]);
        assert(out.0@ == bytes@.map_values(|b: u8| upper_byte(b)));
        Some(out)
    }

    /// The code as a string slice (`"???"` if the bytes are not UTF-8).
    pub fn code(&self) -> (s: &str)
        ensures
            valid_utf8(self.0@) ==> s.spec_bytes() == self.0@,
            !valid_utf8(self.0@) ==> s@ == "???"@,
            (forall|i: int| 0 <= i < 3 ==> #[trigger] self.0@[i] < 128) ==> s@ == self.0@.map_values(
                |b: u8| b as char,
            ),
    {
        proof {
            if forall|i: int| 0 <= i < 3 ==> #[trigger] self.0@[i] < 128 {
                let cs = self.0@.map_values(|b: u8| b as char);
                assert(vstd::utf8::is_ascii_chars(cs));
                vstd::utf8::is_ascii_chars_encode_utf8(cs);
                assert(encode_utf8(cs) == self.0@);
                vstd::utf8::encode_utf8_valid_utf8(cs);
            }
        }
        match str_from_utf8(self.0.as_slice()) {
            Some(s) => {
                proof {
                    if forall|i: int| 0 <= i < 3 ==> #[trigger] self.0@[i] < 128 {
                        let cs = self.0@.map_values(|b: u8| b as char);
                        vstd::utf8::encode_utf8_decode_utf8(cs);
                        vstd::utf8::encode_utf8_decode_utf8(s@);
                    }
                }
                s
            },
            None => "???",
        }
    }
}

/// Normalizing a currency code is idempotent: the code of a constructed
/// currency constructs the same currency again.
pub proof fn lemma_currency_code_round_trip(bytes: Seq<u8>)
    requires
        normalized_code(bytes) is Some,
    ensures
        normalized_code(normalized_code(bytes)->0) == normalized_code(bytes),
{
    let n = normalized_code(bytes)->0;
    assert forall|i: int| 0 <= i < 3 implies is_ascii_letter(#[trigger] n[i]) by {
        assert(is_ascii_letter(bytes[i]));
    }
    assert(n.map_values(|b: u8| upper_byte(b)) == n);
}

/// A constructed currency code is upper case: each of its three bytes is an
/// ASCII capital, and it is the given letter or that letter's capital.
pub proof fn lemma_currency_code_is_upper_case(bytes: Seq<u8>)
    requires
        normalized_code(bytes) is Some,
    ensures
        normalized_code(bytes)->0.len() == 3,
        forall|i: int|
            0 <= i < 3 ==> {
                let c = #[trigger] normalized_code(bytes)->0[i];
                &&& 65 <= c <= 90
                &&& (c == bytes[i] || c + 32 == bytes[i])
            },
{
    let n = normalized_code(bytes)->0;
    assert forall|i: int| 0 <= i < 3 implies {
        let c = #[trigger] n[i];
        &&& 65 <= c <= 90
        &&& (c == bytes[i] || c + 32 == bytes[i])
    } by {
        assert(is_ascii_letter(bytes[i]));
    }
}

/// Two codes that differ only in ASCII letter case construct the same
/// currency (or are both refused).
pub proof fn lemma_currency_case_insensitive(a: Seq<u8>, b: Seq<u8>)
    requires
        a.len() == b.len(),
        forall|i: int|
            0 <= i < a.len() ==> (#[trigger] a[i] == b[i] || (65 <= a[i] <= 90 && b[i] == a[i]
                + 32) || (65 <= b[i] <= 90 && a[i] == b[i] + 32)),
    ensures
        normalized_code(a) == normalized_code(b),
{
    if a.len() == 3 {
        assert forall|i: int| 0 <= i < 3 implies (is_ascii_letter(#[trigger] a[i])
            <==> is_ascii_letter(b[i])) by {
            assert(a[i] == b[i] || (65 <= a[i] <= 90 && b[i] == a[i] + 32) || (65 <= b[i] <= 90
                && a[i] == b[i] + 32));
        }
        if forall|i: int| 0 <= i < 3 ==> is_ascii_letter(#[trigger] a[i]) {
            assert forall|i: int| 0 <= i < 3 implies is_ascii_letter(#[trigger] b[i]) by {
                assert(is_ascii_letter(a[i]));
            }
        }
        if forall|i: int| 0 <= i < 3 ==> is_ascii_letter(#[trigger] b[i]) {
            assert forall|i: int| 0 <= i < 3 implies is_ascii_letter(#[trigger] a[i]) by {
                assert(is_ascii_letter(b[i]));
                assert(is_ascii_letter(a[i]) <==> is_ascii_letter(b[i]));
            }
        }
        if normalized_code(a) is Some {
            assert forall|i: int| 0 <= i < 3 implies upper_byte(#[trigger] a[i]) == upper_byte(
                b[i],
            ) by {
                assert(a[i] == b[i] || (65 <= a[i] <= 90 && b[i] == a[i] + 32) || (65 <= b[i]
                    <= 90 && a[i] == b[i] + 32));
            }
            assert(a.map_values(|x: u8| upper_byte(x)) =~= b.map_values(|x: u8| upper_byte(x)));
        }
    }
}

} // verus!
