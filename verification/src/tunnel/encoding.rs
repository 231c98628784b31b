//! Standard Base64, as keys are written down.
use base64::engine::general_purpose::STANDARD;
use base64::Engine;
use vstd::prelude::*;

verus! {

broadcast use vstd::seq_lib::group_seq_properties;

/// The character of the standard Base64 alphabet for a 6-bit value.
pub open spec fn base64_char(v: int) -> char {
    if v < 26 {
        (65 + v) as char
    } else if v < 52 {
        (71 + v) as char
    } else if v < 62 {
        (v - 4) as char
    } else if v == 62 {
        '+'
    } else {
        '/'
    }
}

/// Standard Base64 with padding.
pub open spec fn base64(b: Seq<u8>) -> Seq<char>
    decreases b.len(),
{
    if b.len() == 0 {
        Seq::empty()
    } else if b.len() == 1 {
        seq![base64_char(b[0] as int / 4), base64_char((b[0] % 4) * 16), '=', '=']
    } else if b.len() == 2 {
        seq![
            base64_char(b[0] as int / 4),
            base64_char((b[0] % 4) * 16 + b[1] / 16),
            base64_char((b[1] % 16) * 4),
            '=',
        ]
    } else {
        seq![
            base64_char(b[0] as int / 4),
            base64_char((b[0] % 4) * 16 + b[1] / 16),
            base64_char((b[1] % 16) * 4 + b[2] / 64),
            base64_char((b[2] % 64) as int),
        ] + base64(b.skip(3))
    }
}

/// The bytes that a text denotes in Base64, if it is the Base64 form of any.
pub open spec fn base64_bytes(s: Seq<char>) -> Option<Seq<u8>> {
    if exists|b: Seq<u8>| base64(b) == s {
        Some(choose|b: Seq<u8>| base64(b) == s)
    } else {
        None
    }
}

proof fn base64_char_injective(v: int, w: int)
    requires
        0 <= v < 64,
        0 <= w < 64,
        base64_char(v) == base64_char(w),
    ensures
        v == w,
{
}

/// The characters that Base64 text is made of.
pub open spec fn is_base64_char(c: char) -> bool {
    ||| 'A' <= c <= 'Z'
    ||| 'a' <= c <= 'z'
    ||| '0' <= c <= '9'
    ||| c == '+'
    ||| c == '/'
    ||| c == '='
}

/// Base64 text has four characters for every three bytes begun, each of the alphabet or padding.
pub proof fn base64_shape(b: Seq<u8>)
    ensures
        base64(b).len() == 4 * ((b.len() + 2) / 3),
        forall|i: int| 0 <= i < base64(b).len() ==> is_base64_char(#[trigger] base64(b)[i]),
    decreases b.len(),
{
    if b.len() >= 3 {
        base64_shape(b.skip(3));
        let t = base64(b);
        assert forall|i: int| 0 <= i < t.len() implies is_base64_char(#[trigger] t[i]) by {
            if i >= 4 {
                assert(t[i] == base64(b.skip(3))[i - 4]);
            }
        }
    }
}

/// The byte at `i`, or zero past the end.
spec fn byte_at(b: Seq<u8>, i: int) -> int {
    if i < b.len() {
        b[i] as int
    } else {
        0
    }
}

/// The first four characters of Base64 text.
proof fn base64_first_group(b: Seq<u8>)
    requires
        b.len() > 0,
    ensures
        base64(b).len() >= 4,
        base64(b)[0] == base64_char(byte_at(b, 0) / 4),
        base64(b)[1] == base64_char((byte_at(b, 0) % 4) * 16 + byte_at(b, 1) / 16),
        b.len() == 1 ==> base64(b)[2] == '=',
        b.len() > 1 ==> base64(b)[2] == base64_char((byte_at(b, 1) % 16) * 4 + byte_at(b, 2) / 64),
        b.len() < 3 ==> base64(b)[3] == '=',
        b.len() >= 3 ==> base64(b)[3] == base64_char(byte_at(b, 2) % 64) && base64(b).skip(4)
            == base64(b.skip(3)),
{
    if b.len() >= 3 {
        assert(base64(b).skip(4) =~= base64(b.skip(3)));
    }
}

/// Different bytes have different Base64 forms.
pub proof fn base64_injective(a: Seq<u8>, b: Seq<u8>)
    requires
        base64(a) == base64(b),
    ensures
        a == b,
    decreases a.len(),
{
    base64_shape(a);
    base64_shape(b);
    if a.len() == 0 {
        assert(a =~= b);
    } else {
        base64_first_group(a);
        base64_first_group(b);
        base64_char_injective(byte_at(a, 0) / 4, byte_at(b, 0) / 4);
        base64_char_injective(
            (byte_at(a, 0) % 4) * 16 + byte_at(a, 1) / 16,
            (byte_at(b, 0) % 4) * 16 + byte_at(b, 1) / 16,
        );
        assert(a[0] == b[0]);
        if a.len() == 1 {
            assert(a =~= b);
        } else {
            base64_char_injective(
                (byte_at(a, 1) % 16) * 4 + byte_at(a, 2) / 64,
                (byte_at(b, 1) % 16) * 4 + byte_at(b, 2) / 64,
            );
            assert(a[1] == b[1]);
            if a.len() == 2 {
                assert(a =~= b);
            } else {
                base64_char_injective(byte_at(a, 2) % 64, byte_at(b, 2) % 64);
                assert(a[2] == b[2]);
                base64_injective(a.skip(3), b.skip(3));
                assert(a =~= seq![a[0], a[1], a[2]] + a.skip(3));
                assert(b =~= seq![b[0], b[1], b[2]] + b.skip(3));
            }
        }
    }
}

/// Reading back the Base64 form of bytes gives the bytes.
pub proof fn base64_round_trip(b: Seq<u8>)
    ensures
        base64_bytes(base64(b)) == Some(b),
{
    let c = choose|c: Seq<u8>| base64(c) == base64(b);
    base64_injective(c, b);
}

/// `Engine::encode` of the standard engine: Base64 with padding. Inputs whose encoding would not
/// fit in memory make it panic.
#[verifier::external_body]
pub(crate) fn base64_encode(b: &[u8]) -> (r: String)
    requires
        b@.len() <= 0xffff,
    ensures
        r@ == base64(b@),
{
    STANDARD.encode(b)
}

/// `Engine::decode` of the standard engine, which asks for canonical padding and for trailing bits
/// that are zero: it accepts what `encode` writes and nothing else.
#[verifier::external_body]
fn base64_decode(s: &str) -> (r: Option<Vec<u8>>)
    ensures
        match r {
            Some(b) => base64(b@) == s@,
            None => forall|b: Seq<u8>| base64(b) != s@,
        },
{
    STANDARD.decode(s).ok()
}

/// The bytes that a text denotes in Base64.
pub fn decode(s: &str) -> (r: Option<Vec<u8>>)
    ensures
        match r {
            Some(b) => base64_bytes(s@) == Some(b@),
            None => base64_bytes(s@) is None,
        },
{
    let r = base64_decode(s);
    proof {
        if let Some(b) = &r {
            base64_round_trip(b@);
        }
    }
    r
}

} // verus!
