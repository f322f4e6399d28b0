//! The HTTP/1.1 wire codec: request parser and response serializer.

pub mod request;
pub mod response;

pub use crate::http::request::Request;
pub use crate::http::response::Response;

use vstd::prelude::*;

verus! {

/// The two-byte line terminator: carriage return, line feed.
pub open spec fn crlf() -> Seq<u8> {
    seq![13u8, 10u8]
}

/// The four-byte header terminator: two line terminators in a row.
pub open spec fn crlf2() -> Seq<u8> {
    seq![13u8, 10u8, 13u8, 10u8]
}

/// A single space, the start-line separator.
pub open spec fn sp() -> Seq<u8> {
    seq![32u8]
}

/// A single colon, the field separator.
pub open spec fn colon() -> Seq<u8> {
    seq![58u8]
}

/// A colon followed by a space, the separator a serialized field is
/// written with.
pub open spec fn colon_sp() -> Seq<u8> {
    seq![58u8, 32u8]
}

/// True iff every byte of `s` is an ASCII decimal digit.
pub open spec fn is_digits(s: Seq<u8>) -> bool {
    forall|i: int| 0 <= i < s.len() ==> 48 <= #[trigger] s[i] <= 57
}

/// The numeric value of a sequence of decimal digits.
pub open spec fn dec_value(s: Seq<u8>) -> nat
    decreases s.len(),
{
    if s.len() == 0 {
        0
    } else {
        dec_value(s.drop_last()) * 10 + (s.last() - 48) as nat
    }
}

/// The decimal digits of `n`, most significant first.
pub open spec fn dec_digits(n: nat) -> Seq<u8>
    decreases n,
{
    if n < 10 {
        seq![(48 + n) as u8]
    } else {
        dec_digits(n / 10).push((48 + n % 10) as u8)
    }
}

/// The decimal digits of a number name that number back: writing a length
/// into a field and reading the field returns the length.
pub proof fn lemma_dec_round_trip(n: nat)
    ensures
        dec_digits(n).len() >= 1,
        is_digits(dec_digits(n)),
        dec_value(dec_digits(n)) == n,
    decreases n,
{
    if n < 10 {
        assert(dec_digits(n) =~= seq![(48 + n) as u8]);
        assert(dec_digits(n).drop_last() =~= Seq::<u8>::empty());
        assert((48 + n) as u8 == 48 + n);
        assert(dec_value(Seq::<u8>::empty()) == 0);
    } else {
        lemma_dec_round_trip(n / 10);
        let d = dec_digits(n / 10).push((48 + n % 10) as u8);
        assert(d.drop_last() =~= dec_digits(n / 10));
        assert(d.last() == (48 + n % 10) as u8);
        assert((d.last() - 48) as nat == n % 10);
        assert(dec_value(d) == dec_value(dec_digits(n / 10)) * 10 + n % 10);
        assert(n / 10 * 10 + n % 10 == n) by (nonlinear_arith);
        assert forall|i: int| 0 <= i < d.len() implies 48 <= #[trigger] d[i] <= 57 by {
            if i < d.len() - 1 {
                assert(48 <= dec_digits(n / 10)[i] <= 57);
            }
        }
    }
}

/// A longer digit string never names a smaller number: every prefix's value
/// is bounded by the whole string's value.
pub proof fn lemma_dec_value_prefix(s: Seq<u8>, i: int)
    requires
        0 <= i <= s.len(),
    ensures
        dec_value(s.take(i)) <= dec_value(s),
    decreases s.len() - i,
{
    if i == s.len() {
        assert(s.take(i) =~= s);
    } else {
        lemma_dec_value_prefix(s, i + 1);
        assert(s.take(i + 1).drop_last() =~= s.take(i));
        assert(dec_value(s.take(i + 1)) == dec_value(s.take(i)) * 10 + (s.take(i + 1).last()
            - 48) as nat);
        assert(dec_value(s.take(i)) * 10 >= dec_value(s.take(i))) by (nonlinear_arith);
    }
}

/// The decimal digits of `n` as an owned vector.
pub fn u64_to_dec(n: u64) -> (r: Vec<u8>)
    ensures
        r@ == dec_digits(n as nat),
    decreases n,
{
    if n < 10 {
        let mut r: Vec<u8> = Vec::new();
        r.push(48 + n as u8);
        proof {
            assert(r@ =~= dec_digits(n as nat));
        }
        r
    } else {
        let mut r = u64_to_dec(n / 10);
        r.push(48 + (n % 10) as u8);
        r
    }
}

/// Parses a container's bytes as a decimal number: the digits' value when
/// they are well formed and fit, nothing when the bytes are empty, hold a
/// non-digit, or name a number too large for the result type.
pub fn parse_dec_u64(d: &crate::bytes::data::Data) -> (r: Option<u64>)
    requires
        d.wf(),
    ensures
        match r {
            Some(n) => is_digits(d@) && d@.len() >= 1 && n == dec_value(d@) && dec_value(d@)
                <= u64::MAX,
            None => !(is_digits(d@) && d@.len() >= 1 && dec_value(d@) <= u64::MAX),
        },
{
    let len = d.len();
    if len == 0 {
        return None;
    }
    let mut acc: u64 = 0;
    let mut i: usize = 0;
    while i < len
        invariant
            d.wf(),
            len == d@.len(),
            i <= len,
            is_digits(d@.take(i as int)),
            acc == dec_value(d@.take(i as int)),
        decreases len - i,
    {
        let b = d.byte_at(i);
        if b < 48 || b > 57 {
            proof {
                assert(!(48 <= d@[i as int] <= 57));
            }
            return None;
        }
        let digit = (b - 48) as u64;
        if acc > (u64::MAX - digit) / 10 {
            proof {
                assert(d@.take(i + 1).drop_last() =~= d@.take(i as int));
                assert(dec_value(d@.take(i + 1)) == acc * 10 + digit);
                assert(acc * 10 + digit > u64::MAX) by (nonlinear_arith)
                    requires
                        acc > (u64::MAX - digit) / 10,
                        digit <= 9,
                ;
                lemma_dec_value_prefix(d@, i + 1);
            }
            return None;
        }
        proof {
            assert(acc * 10 + digit <= u64::MAX) by (nonlinear_arith)
                requires
                    acc <= (u64::MAX - digit) / 10,
                    digit <= 9,
            ;
            assert(d@.take(i + 1).drop_last() =~= d@.take(i as int));
            assert(is_digits(d@.take(i + 1)));
        }
        acc = acc * 10 + digit;
        i = i + 1;
    }
    proof {
        assert(d@.take(len as int) =~= d@);
    }
    Some(acc)
}

/// The line terminator as an owned pattern.
pub fn crlf_pattern() -> (r: Vec<u8>)
    ensures
        r@ == crlf(),
{
    let mut r: Vec<u8> = Vec::new();
    r.push(13u8);
    r.push(10u8);
    proof {
        assert(r@ =~= crlf());
    }
    r
}

/// The space separator as an owned pattern.
pub fn sp_pattern() -> (r: Vec<u8>)
    ensures
        r@ == sp(),
{
    let mut r: Vec<u8> = Vec::new();
    r.push(32u8);
    proof {
        assert(r@ =~= sp());
    }
    r
}

/// The colon separator as an owned pattern.
pub fn colon_pattern() -> (r: Vec<u8>)
    ensures
        r@ == colon(),
{
    let mut r: Vec<u8> = Vec::new();
    r.push(58u8);
    proof {
        assert(r@ =~= colon());
    }
    r
}

} // verus!
