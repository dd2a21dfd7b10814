//! Base64 with the standard alphabet and padding (RFC 4648, section 4), and
//! the two calls into the `base64` crate that the library makes.
use base64::engine::general_purpose::STANDARD;
use base64::Engine;
use vstd::prelude::*;

verus! {

/// The symbol of the standard alphabet for a value below 64.
pub open spec fn symbol(v: int) -> char
    recommends
        0 <= v < 64,
{
    if v < 26 {
        (65 + v) as char
    } else if v < 52 {
        (71 + v) as char
    } else if v < 62 {
        (v - 4) as char
    } else if v == 62 {
        '+'
    } else {
        '/'
    }
}

/// The padded Base64 form of a sequence of bytes: four symbols for every
/// three bytes.
pub open spec fn encoded(b: Seq<u8>) -> Seq<char>
    decreases b.len(),
{
    if b.len() == 0 {
        Seq::empty()
    } else if b.len() == 1 {
        seq![symbol((b[0] / 4) as int), symbol(b[0] % 4 * 16), '=', '=']
    } else if b.len() == 2 {
        seq![
            symbol((b[0] / 4) as int),
            symbol(b[0] % 4 * 16 + b[1] / 16),
            symbol(b[1] % 16 * 4),
            '=',
        ]
    } else {
        seq![
            symbol((b[0] / 4) as int),
            symbol(b[0] % 4 * 16 + b[1] / 16),
            symbol(b[1] % 16 * 4 + b[2] / 64),
            symbol((b[2] % 64) as int),
        ] + encoded(b.skip(3))
    }
}

/// The bytes whose Base64 form is `s`, if there are any.
pub open spec fn decoded(s: Seq<char>) -> Option<Seq<u8>> {
    if exists|b: Seq<u8>| #[trigger] encoded(b) == s {
        Some(choose|b: Seq<u8>| #[trigger] encoded(b) == s)
    } else {
        None
    }
}

/// Whether `c` can occur in Base64 text.
pub open spec fn in_alphabet(c: char) -> bool {
    'A' <= c <= 'Z' || 'a' <= c <= 'z' || '0' <= c <= '9' || c == '+' || c == '/' || c == '='
}

/// Base64 text holds letters, digits, `+`, `/` and `=` only.
pub proof fn law_encoded_in_alphabet(b: Seq<u8>)
    ensures
        forall|i: int| 0 <= i < encoded(b).len() ==> in_alphabet(#[trigger] encoded(b)[i]),
    decreases b.len(),
{
    if b.len() >= 3 {
        law_encoded_in_alphabet(b.skip(3));
        assert forall|i: int| 0 <= i < encoded(b).len() implies in_alphabet(
            #[trigger] encoded(b)[i],
        ) by {
            if i >= 4 {
                assert(encoded(b)[i] == encoded(b.skip(3))[i - 4]);
            }
        }
    }
}

proof fn symbol_injective(v: int, w: int)
    requires
        0 <= v < 64,
        0 <= w < 64,
        symbol(v) == symbol(w),
    ensures
        v == w,
{
}

/// The first four symbols of an encoding, and the rest of it.
proof fn encoded_unfolds(b: Seq<u8>)
    requires
        b.len() > 0,
    ensures
        encoded(b).len() >= 4,
        encoded(b)[0] == symbol((b[0] / 4) as int),
        b.len() == 1 ==> {
            &&& encoded(b)[1] == symbol(b[0] % 4 * 16)
            &&& encoded(b)[2] == '='
        },
        b.len() >= 2 ==> {
            &&& encoded(b)[1] == symbol(b[0] % 4 * 16 + b[1] / 16)
            &&& encoded(b)[2] != '='
        },
        b.len() == 2 ==> {
            &&& encoded(b)[2] == symbol(b[1] % 16 * 4)
            &&& encoded(b)[3] == '='
        },
        b.len() >= 3 ==> {
            &&& encoded(b)[2] == symbol(b[1] % 16 * 4 + b[2] / 64)
            &&& encoded(b)[3] == symbol((b[2] % 64) as int)
            &&& encoded(b)[3] != '='
            &&& encoded(b).skip(4) == encoded(b.skip(3))
        },
{
    if b.len() >= 3 {
        assert(encoded(b).skip(4) == encoded(b.skip(3)));
    }
}

/// Different bytes have different Base64 forms.
pub proof fn law_encoded_injective(a: Seq<u8>, b: Seq<u8>)
    requires
        encoded(a) == encoded(b),
    ensures
        a == b,
    decreases a.len(),
{
    if a.len() > 0 {
        encoded_unfolds(a);
    }
    if b.len() > 0 {
        encoded_unfolds(b);
    }
    if a.len() == 0 || b.len() == 0 {
        assert(a == b);
    } else {
        symbol_injective((a[0] / 4) as int, (b[0] / 4) as int);
        if a.len() >= 3 {
            assert(b.len() >= 3);
            law_encoded_injective(a.skip(3), b.skip(3));
            symbol_injective(a[0] % 4 * 16 + a[1] / 16, b[0] % 4 * 16 + b[1] / 16);
            symbol_injective(a[1] % 16 * 4 + a[2] / 64, b[1] % 16 * 4 + b[2] / 64);
            symbol_injective((a[2] % 64) as int, (b[2] % 64) as int);
            assert(a == a.take(3) + a.skip(3));
            assert(b == b.take(3) + b.skip(3));
            assert(a.take(3) == b.take(3));
        } else if a.len() == 2 {
            assert(b.len() == 2);
            symbol_injective(a[0] % 4 * 16 + a[1] / 16, b[0] % 4 * 16 + b[1] / 16);
            symbol_injective(a[1] % 16 * 4, b[1] % 16 * 4);
            assert(a == b);
        } else {
            assert(b.len() == 1);
            symbol_injective(a[0] % 4 * 16, b[0] % 4 * 16);
            assert(a == b);
        }
    }
}

/// Decoding gives back the bytes that were encoded.
pub proof fn law_decoded_encoded(b: Seq<u8>)
    ensures
        decoded(encoded(b)) == Some(b),
{
    let c = decoded(encoded(b))->0;
    law_encoded_injective(c, b);
}

/// What decodes is the Base64 form of its decoding.
pub proof fn law_encoded_decoded(s: Seq<char>)
    requires
        decoded(s) is Some,
    ensures
        encoded(decoded(s)->0) == s,
{
}

/// Declares `base64::DecodeError`.
#[verifier::external_type_specification]
#[verifier::external_body]
pub struct ExDecodeError(base64::DecodeError);

/// Calls `Engine::encode` of the `STANDARD` engine, which claims the padded
/// form of RFC 4648 over the standard alphabet.
#[verifier::external_body]
pub(crate) fn base64_encode(bytes: &[u8]) -> (r: String)
    ensures
        r@ == encoded(bytes@),
{
    STANDARD.encode(bytes)
}

/// Calls `Engine::decode` of the `STANDARD` engine. What is claimed of it:
/// that engine takes canonical padding only and no stray bits in the last
/// symbol, so it gives the bytes whose encoding the text is, and an error
/// where the text is no encoding.
#[verifier::external_body]
pub(crate) fn base64_decode(s: &str) -> (r: Result<Vec<u8>, base64::DecodeError>)
    ensures
        match r {
            Ok(b) => encoded(b@) == s@,
            Err(_) => forall|b: Seq<u8>| #[trigger] encoded(b) != s@,
        },
{
    STANDARD.decode(s)
}

} // verus!
