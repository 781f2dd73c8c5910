//! Decimal rendering of unsigned integers, for building report strings.

use vstd::prelude::*;

verus! {

/// The decimal digit character for a value below ten.
pub open spec fn spec_digit_char(d: int) -> char {
    ((48 + d) as u8) as char
}

/// The decimal digits of `n`, most significant first.
pub open spec fn spec_u64_digits(n: int) -> Seq<char>
    recommends
        n >= 0,
    decreases n,
{
    if n < 10 {
        seq![spec_digit_char(if n >= 0 {
            n
        } else {
            0
        })]
    } else {
        spec_u64_digits(n / 10).push(spec_digit_char(n % 10))
    }
}

/// Relies on String::from_utf8: ASCII bytes are valid UTF-8 and decode to
/// the characters with the same code points.
#[verifier::external_body]
pub(crate) fn string_from_ascii(bytes: Vec<u8>) -> (r: String)
    requires
        forall|i: int| 0 <= i < bytes@.len() ==> bytes@[i] < 128,
    ensures
        r@.len() == bytes@.len(),
        forall|i: int| 0 <= i < bytes@.len() ==> r@[i] == bytes@[i] as char,
{
    String::from_utf8(bytes).unwrap_or_default()
}

/// Render `n` in decimal.
pub fn u64_to_string(n: u64) -> (r: String)
    ensures
        r@ == spec_u64_digits(n as int),
{
    let mut digits: Vec<u8> = Vec::new();
    let mut m: u64 = n;
    loop
        invariant
            spec_u64_digits(n as int) == spec_u64_digits(m as int) + Seq::new(
                digits@.len(),
                |i: int| digits@[digits@.len() - 1 - i] as char,
            ),
            forall|i: int| 0 <= i < digits@.len() ==> 48 <= (#[trigger] digits@[i]) < 58,
        decreases m,
    {
        let d = (m % 10) as u8;
        let next = m / 10;
        if m < 10 {
            let ghost pre = digits@;
            digits.push(48 + d);
            let mut out: Vec<u8> = Vec::new();
            let len = digits.len();
            let mut i: usize = 0;
            while i < len
                invariant
                    len == digits@.len(),
                    i <= len,
                    out@.len() == i,
                    forall|j: int| 0 <= j < i ==> out@[j] == digits@[len - 1 - j],
                    forall|j: int| 0 <= j < digits@.len() ==> 48 <= (#[trigger] digits@[j]) < 58,
                decreases len - i,
            {
                out.push(digits[len - 1 - i]);
                i = i + 1;
            }
            let r = string_from_ascii(out);
            proof {
                assert(r@ =~= Seq::new(
                    digits@.len(),
                    |i: int| digits@[digits@.len() - 1 - i] as char,
                ));
                assert(spec_u64_digits(m as int) =~= seq![spec_digit_char(m as int)]);
                assert(digits@[digits@.len() - 1] as char == spec_digit_char(m as int));
                assert(r@ =~= spec_u64_digits(m as int) + Seq::new(
                    pre.len(),
                    |i: int| pre[pre.len() - 1 - i] as char,
                ));
            }
            return r;
        }
        proof {
            assert(m / 10 < m) by (nonlinear_arith)
                requires
                    m >= 10,
            ;
            assert(spec_u64_digits(m as int) == spec_u64_digits(m as int / 10).push(
                spec_digit_char(m as int % 10),
            ));
            let ghost pre = digits@;
            let ghost d8: u8 = (48 + (m as int % 10)) as u8;
            assert(Seq::new(
                pre.push(d8).len(),
                |i: int| pre.push(d8)[pre.push(d8).len() - 1 - i] as char,
            ) =~= seq![spec_digit_char(m as int % 10)] + Seq::new(
                pre.len(),
                |i: int| pre[pre.len() - 1 - i] as char,
            ));
        }
        digits.push(48 + d);
        m = next;
    }
}

} // verus!
