//! Text utilities: string comparison and construction at the boundary to
//! `std`, and verified decimal formatting and parsing over ASCII bytes.

use vstd::prelude::*;

use vstd::string::StrSliceExecFns;
use vstd::utf8::{encode_utf8, valid_utf8};

verus! {

/// Relies on str's `PartialEq`: string slices compare equal exactly when
/// their character sequences do.
#[verifier::external_body]
pub fn str_eq(a: &str, b: &str) -> (r: bool)
    ensures
        r == (a@ == b@),
{
    a == b
}

/// Relies on `String::from_utf8`: it succeeds exactly on valid UTF-8 and
/// returns the string that those bytes encode.
#[verifier::external_body]
pub fn string_from_utf8(v: Vec<u8>) -> (r: Option<String>)
    ensures
        r is Some <==> valid_utf8(v@),
        r matches Some(s) ==> encode_utf8(s@) == v@,
{
    String::from_utf8(v).ok()
}

/// The UTF-8 bytes of a string, as an owned vector.
pub fn string_to_bytes(s: &str) -> (r: Vec<u8>)
    ensures
        r@ == encode_utf8(s@),
{
    s.as_bytes_vec()
}

/// Whether `b` is an ASCII decimal digit.
pub open spec fn is_digit(b: u8) -> bool {
    48 <= b <= 57
}

/// Whether every byte of `s` is an ASCII decimal digit.
pub open spec fn all_digits(s: Seq<u8>) -> bool {
    forall|i: int| 0 <= i < s.len() ==> is_digit(#[trigger] s[i])
}

/// The ASCII decimal digits of `n`, most significant first, no sign and no
/// leading zero (except for zero itself).
pub open spec fn dec_digits(n: nat) -> Seq<u8>
    decreases n,
{
    if n < 10 {
        seq![(48 + n) as u8]
    } else {
        dec_digits(n / 10).push((48 + n % 10) as u8)
    }
}

/// The numeric value of a digit string, by the usual left-to-right fold.
pub open spec fn dec_value(s: Seq<u8>) -> nat
    decreases s.len(),
{
    if s.len() == 0 {
        0
    } else {
        dec_value(s.drop_last()) * 10 + (s.last() - 48) as nat
    }
}

/// Parse of an unsigned decimal: defined exactly on non-empty all-digit
/// strings whose value fits in a `u64`.
pub open spec fn spec_parse_u64(s: Seq<u8>) -> Option<u64> {
    if s.len() > 0 && all_digits(s) && dec_value(s) <= u64::MAX {
        Some(dec_value(s) as u64)
    } else {
        None
    }
}

/// `dec_digits` produces only digits.
pub proof fn lemma_dec_digits_are_digits(n: nat)
    ensures
        dec_digits(n).len() >= 1,
        all_digits(dec_digits(n)),
    decreases n,
{
    if n >= 10 {
        lemma_dec_digits_are_digits(n / 10);
    }
}

/// Formatting then parsing a number returns the number.
pub proof fn lemma_dec_round_trip(n: nat)
    ensures
        dec_value(dec_digits(n)) == n,
    decreases n,
{
    if n < 10 {
        let s = dec_digits(n);
        assert(s =~= seq![(48 + n) as u8]);
        assert(s.drop_last() =~= Seq::<u8>::empty());
        assert(dec_value(Seq::<u8>::empty()) == 0);
        assert(dec_value(s) == dec_value(s.drop_last()) * 10 + (s.last() - 48) as nat);
        assert(((48 + n) as u8 - 48) as nat == n);
    } else {
        lemma_dec_round_trip(n / 10);
        let s = dec_digits(n);
        assert(s.drop_last() =~= dec_digits(n / 10));
        assert(dec_value(s) == (n / 10) * 10 + n % 10);
        assert((n / 10) * 10 + n % 10 == n) by (nonlinear_arith);
    }
}

/// Extending a digit string can only grow its value.
pub proof fn lemma_dec_value_prefix_le(s: Seq<u8>, i: int)
    requires
        0 <= i <= s.len(),
        all_digits(s),
    ensures
        dec_value(s.take(i)) <= dec_value(s),
    decreases s.len() - i,
{
    if i < s.len() {
        lemma_dec_value_prefix_le(s, i + 1);
        let t = s.take(i + 1);
        assert(t.drop_last() =~= s.take(i));
        assert(dec_value(t) == dec_value(s.take(i)) * 10 + (t.last() - 48) as nat);
        assert(dec_value(s.take(i)) <= dec_value(s.take(i)) * 10) by (nonlinear_arith);
    } else {
        assert(s.take(i) =~= s);
    }
}

/// Encoding distributes over concatenation of character strings.
pub proof fn lemma_encode_utf8_concat(a: Seq<char>, b: Seq<char>)
    ensures
        encode_utf8(a + b) == encode_utf8(a) + encode_utf8(b),
    decreases a.len(),
{
    if a.len() == 0 {
        assert(a + b =~= b);
        assert(encode_utf8(a) =~= Seq::<u8>::empty());
        assert(encode_utf8(a) + encode_utf8(b) =~= encode_utf8(b));
    } else {
        lemma_encode_utf8_concat(a.drop_first(), b);
        assert((a + b)[0] == a[0]);
        assert((a + b).drop_first() =~= a.drop_first() + b);
        assert(encode_utf8(a + b) =~= encode_utf8(a) + encode_utf8(b));
    }
}

/// Formats `n` as ASCII decimal digits.
pub fn u64_to_dec(n: u64) -> (r: Vec<u8>)
    ensures
        r@ == dec_digits(n as nat),
    decreases n,
{
    if n < 10 {
        let mut r: Vec<u8> = Vec::new();
        r.push(48 + n as u8);
        assert(r@ =~= dec_digits(n as nat));
        r
    } else {
        let mut r = u64_to_dec(n / 10);
        r.push(48 + (n % 10) as u8);
        r
    }
}

/// Parses an unsigned decimal from ASCII bytes; `None` on an empty string,
/// a non-digit byte, or overflow past `u64::MAX`.
pub fn parse_u64(s: &[u8]) -> (r: Option<u64>)
    ensures
        r == spec_parse_u64(s@),
{
    if s.len() == 0 {
        return None;
    }
    let mut acc: u64 = 0;
    let mut i: usize = 0;
    proof {
        assert(s@.take(0) =~= Seq::<u8>::empty());
    }
    while i < s.len()
        invariant
            0 <= i <= s@.len(),
            all_digits(s@.take(i as int)),
            acc == dec_value(s@.take(i as int)),
        decreases s@.len() - i,
    {
        let b = s[i];
        if b < 48 || b > 57 {
            proof {
                assert(!is_digit(s@[i as int]));
            }
            return None;
        }
        let d = (b - 48) as u64;
        if acc > (u64::MAX - d) / 10 {
            // The running value would exceed `u64::MAX`, so the whole string
            // does as well.
            proof {
                let t = s@.take(i + 1);
                assert(t.drop_last() =~= s@.take(i as int));
                assert(dec_value(t) == acc * 10 + d);
                assert(acc * 10 + d > u64::MAX) by (nonlinear_arith)
                    requires
                        acc > (u64::MAX - d) / 10,
                        d <= 9,
                        acc <= u64::MAX,
                ;
                if all_digits(s@) {
                    lemma_dec_value_prefix_le(s@, i + 1);
                }
            }
            return None;
        }
        proof {
            let t = s@.take(i + 1);
            assert(t.drop_last() =~= s@.take(i as int));
            assert(acc * 10 + d <= u64::MAX) by (nonlinear_arith)
                requires
                    acc <= (u64::MAX - d) / 10,
                    d <= 9,
            ;
        }
        acc = acc * 10 + d;
        i = i + 1;
    }
    proof {
        assert(s@.take(s@.len() as int) =~= s@);
    }
    Some(acc)
}

/// All-ASCII byte strings are valid UTF-8.
pub proof fn lemma_ascii_bytes_valid_utf8(s: Seq<u8>)
    requires
        forall|i: int| 0 <= i < s.len() ==> s[i] < 128,
    ensures
        valid_utf8(s),
{
    assert(s.subrange(0, 0) =~= Seq::<u8>::empty());
    assert(vstd::utf8::partial_valid_utf8(s, 0));
    assert forall|i: int|
        0 <= 0 <= i < s.len() <= s.len() implies #[trigger] vstd::utf8::is_leading_byte_width_1(
        s[i],
    ) by {
        let b = s[i];
        assert(b < 128 ==> (b >> 7u8) == 0) by (bit_vector);
    }
    vstd::utf8::partial_valid_utf8_extend_ascii_block(s, 0, s.len() as int);
    assert(s.subrange(0, s.len() as int) =~= s);
}

/// Builds the string whose UTF-8 encoding is the given ASCII bytes.
pub fn bytes_to_string(v: Vec<u8>) -> (r: String)
    requires
        forall|i: int| 0 <= i < v@.len() ==> v@[i] < 128,
    ensures
        encode_utf8(r@) == v@,
{
    proof {
        lemma_ascii_bytes_valid_utf8(v@);
    }
    match string_from_utf8(v) {
        Some(s) => s,
        None => vstd::pervasive::unreached(),
    }
}

/// `dec_digits` yields ASCII bytes.
pub proof fn lemma_dec_digits_ascii(n: nat)
    ensures
        forall|i: int| 0 <= i < dec_digits(n).len() ==> dec_digits(n)[i] < 128,
{
    lemma_dec_digits_are_digits(n);
}

/// Formats `n` as a decimal string.
pub fn u64_to_string(n: u64) -> (r: String)
    ensures
        encode_utf8(r@) == dec_digits(n as nat),
{
    let digits = u64_to_dec(n);
    proof {
        lemma_dec_digits_ascii(n as nat);
    }
    bytes_to_string(digits)
}

} // verus!
