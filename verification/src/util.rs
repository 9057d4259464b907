//! Digit extraction, the GS1 mod-10 checksum, canonical digit strings and the
//! UPC-E to UPC-A expansion.

use vstd::prelude::*;
use vstd::string::StrSliceExecFns;

use crate::GtinError;
use crate::GTIN;

verus! {

/// Weight of the digit standing `pos` places from the right end of the
/// sequence handed to the check-digit computation: 3 at even positions,
/// 1 at odd ones.
pub open spec fn gs1_weight(pos: int) -> int {
    if pos % 2 == 0 {
        3
    } else {
        1
    }
}

/// Weighted sum of the GS1 mod-10 algorithm over a digit sequence: every
/// digit is multiplied by the weight of its position counted from the right
/// end of the sequence.
pub open spec fn weighted_sum(s: Seq<u8>) -> int
    decreases s.len(),
{
    if s.len() == 0 {
        0
    } else {
        gs1_weight(s.len() - 1) * s[0] + weighted_sum(s.drop_first())
    }
}

/// The check digit that closes the digit sequence `s`: the digit that brings
/// the weighted sum of the full code to a multiple of 10.
pub open spec fn check_digit_spec(s: Seq<u8>) -> int {
    (10 - weighted_sum(s) % 10) % 10
}

/// A full digit sequence is a valid GTIN when its length fits one of the
/// supported formats and its last digit closes the digits before it.
pub open spec fn valid_gtin_spec(s: Seq<u8>) -> bool {
    &&& 8 <= s.len() <= 14
    &&& s.last() as int == check_digit_spec(s.drop_last())
}

/// Every element of `s` is a single decimal digit.
pub open spec fn digits_in_range(s: Seq<u8>) -> bool {
    forall|i: int| 0 <= i < s.len() ==> s[i] <= 9
}

/// Checksum correctness: for the supported lengths, the computed check
/// digit is exactly the digit that closes a code — appending `d` to the
/// digits `s` yields a valid GTIN if and only if `d` is the check digit
/// of `s`.
pub proof fn lemma_check_digit_closes(s: Seq<u8>, d: u8)
    requires
        7 <= s.len() <= 13,
        d <= 9,
    ensures
        valid_gtin_spec(s.push(d)) <==> d as int == check_digit_spec(s),
{
    assert(s.push(d).drop_last() =~= s);
}

/// A leading zero never changes the weighted sum: it keeps every other
/// digit at its position counted from the right and contributes nothing.
pub proof fn lemma_weighted_sum_prepend_zero(s: Seq<u8>)
    ensures
        weighted_sum(seq![0u8] + s) == weighted_sum(s),
{
    let t = seq![0u8] + s;
    assert(t.drop_first() =~= s);
}

/// Computes the GS1 mod-10 check digit over the digits of a code, the check
/// digit itself excluded.
pub fn calculate_checksum_digit(digits: &[u8]) -> (r: u8)
    ensures
        r as int == check_digit_spec(digits@),
        r <= 9,
{
    let len = digits.len();
    let mut sum: u128 = 0;
    let mut i: usize = len;
    while i > 0
        invariant
            i <= len,
            len == digits@.len(),
            sum == weighted_sum(digits@.subrange(i as int, len as int)),
            sum <= 765 * (len - i),
        decreases i,
    {
        i = i - 1;
        let d = digits[i];
        proof {
            assert(digits@.subrange(i as int, len as int).drop_first() =~= digits@.subrange(
                i + 1,
                len as int,
            ));
        }
        if (len - 1 - i) % 2 == 0 {
            sum = sum + 3 * (d as u128);
        } else {
            sum = sum + (d as u128);
        }
    }
    proof {
        assert(digits@.subrange(0, len as int) =~= digits@);
    }
    ((10 - sum % 10) % 10) as u8
}

/// Checks a full digit sequence: the length must fit one of the supported
/// formats and the last digit must equal the check digit of the digits
/// before it.
pub fn validate_gtin(digits: &[u8]) -> (r: bool)
    ensures
        r == valid_gtin_spec(digits@),
{
    if digits.len() < 8 || digits.len() > 14 {
        return false;
    }
    let checksum_index = digits.len() - 1;
    let checksum_digit = digits[checksum_index];
    let prefix = vstd::slice::slice_subrange(digits, 0, checksum_index);
    proof {
        assert(prefix@ =~= digits@.drop_last());
    }
    checksum_digit == calculate_checksum_digit(prefix)
}

/// Whether `c` is one of the characters `'0'` through `'9'`.
pub open spec fn is_decimal_digit(c: char) -> bool {
    48 <= c as u32 <= 57
}

/// Numeric value of a decimal digit character.
pub open spec fn digit_value(c: char) -> u8
    recommends
        is_decimal_digit(c),
{
    (c as u32 - 48) as u8
}

/// The decimal digits of a character sequence, in order, everything else
/// discarded.
pub open spec fn extracted_digits(s: Seq<char>) -> Seq<u8>
    decreases s.len(),
{
    if s.len() == 0 {
        Seq::empty()
    } else if is_decimal_digit(s.last()) {
        extracted_digits(s.drop_last()).push(digit_value(s.last()))
    } else {
        extracted_digits(s.drop_last())
    }
}

/// Extraction only ever produces single decimal digits.
pub proof fn lemma_extracted_digits_in_range(s: Seq<char>)
    ensures
        digits_in_range(extracted_digits(s)),
    decreases s.len(),
{
    if s.len() > 0 {
        lemma_extracted_digits_in_range(s.drop_last());
    }
}

/// Keeps the ASCII decimal digits of the input, in order, as their numeric
/// values; every other character is discarded.
pub fn extract_digits(input: &str) -> (r: Vec<u8>)
    ensures
        r@ == extracted_digits(input@),
        digits_in_range(r@),
{
    let len = input.unicode_len();
    let mut out: Vec<u8> = Vec::new();
    let mut i: usize = 0;
    while i < len
        invariant
            i <= len,
            len == input@.len(),
            out@ == extracted_digits(input@.subrange(0, i as int)),
        decreases len - i,
    {
        let c = input.get_char(i);
        let u = c as u32;
        if 48 <= u && u <= 57 {
            out.push((u - 48) as u8);
        }
        proof {
            let head = input@.subrange(0, i as int + 1);
            assert(head.drop_last() =~= input@.subrange(0, i as int));
            assert(head.last() == input@[i as int]);
        }
        i = i + 1;
    }
    proof {
        assert(input@.subrange(0, len as int) =~= input@);
        lemma_extracted_digits_in_range(input@);
    }
    out
}

/// The character that writes the decimal digit `d`.
pub open spec fn digit_char(d: u8) -> char
    recommends
        d <= 9,
{
    if d == 0 {
        '0'
    } else if d == 1 {
        '1'
    } else if d == 2 {
        '2'
    } else if d == 3 {
        '3'
    } else if d == 4 {
        '4'
    } else if d == 5 {
        '5'
    } else if d == 6 {
        '6'
    } else if d == 7 {
        '7'
    } else if d == 8 {
        '8'
    } else {
        '9'
    }
}

/// The canonical text form of a digit sequence: its digits written out one
/// after the other, with nothing in between.
pub open spec fn digit_string(s: Seq<u8>) -> Seq<char> {
    Seq::new(s.len(), |i: int| digit_char(s[i]))
}

/// Extracting digits from a canonical digit string gives the digits back.
pub proof fn lemma_extract_digit_string(s: Seq<u8>)
    requires
        digits_in_range(s),
    ensures
        extracted_digits(digit_string(s)) == s,
    decreases s.len(),
{
    let t = digit_string(s);
    if s.len() == 0 {
        assert(extracted_digits(t) =~= s);
    } else {
        lemma_extract_digit_string(s.drop_last());
        assert(t.drop_last() =~= digit_string(s.drop_last()));
        assert(is_decimal_digit(t.last()) && digit_value(t.last()) == s.last());
        assert(extracted_digits(t) =~= s);
    }
}

fn digit_str(d: u8) -> (r: &'static str)
    requires
        d <= 9,
    ensures
        r@ == seq![digit_char(d)],
{
    proof {
        reveal_strlit("0");
        reveal_strlit("1");
        reveal_strlit("2");
        reveal_strlit("3");
        reveal_strlit("4");
        reveal_strlit("5");
        reveal_strlit("6");
        reveal_strlit("7");
        reveal_strlit("8");
        reveal_strlit("9");
    }
    let r = if d == 0 {
        "0"
    } else if d == 1 {
        "1"
    } else if d == 2 {
        "2"
    } else if d == 3 {
        "3"
    } else if d == 4 {
        "4"
    } else if d == 5 {
        "5"
    } else if d == 6 {
        "6"
    } else if d == 7 {
        "7"
    } else if d == 8 {
        "8"
    } else {
        "9"
    };
    proof {
        assert(r@ =~= seq![digit_char(d)]);
    }
    r
}

/// Writes a digit sequence as its canonical text form.
pub fn digits_to_string(digits: &[u8]) -> (r: String)
    requires
        digits_in_range(digits@),
    ensures
        r@ == digit_string(digits@),
{
    let mut r = String::new();
    let mut i: usize = 0;
    while i < digits.len()
        invariant
            i <= digits@.len(),
            digits_in_range(digits@),
            r@ == digit_string(digits@.subrange(0, i as int)),
        decreases digits@.len() - i,
    {
        let piece = digit_str(digits[i]);
        r.append(piece);
        proof {
            assert(digit_string(digits@.subrange(0, i as int + 1)) =~= digit_string(
                digits@.subrange(0, i as int),
            ) + seq![digit_char(digits@[i as int])]);
        }
        i = i + 1;
    }
    proof {
        assert(digits@.subrange(0, digits@.len() as int) =~= digits@);
    }
    r
}

/// The six core digits of a UPC-E encoding: a 7-digit form carries a
/// trailing check digit, an 8-digit form a leading number-system digit and a
/// trailing check digit; both are dropped.
pub open spec fn upce_core(s: Seq<u8>) -> Seq<u8>
    recommends
        6 <= s.len() <= 8,
{
    if s.len() == 7 {
        s.subrange(0, 6)
    } else if s.len() == 8 {
        s.subrange(1, 7)
    } else {
        s
    }
}

/// The first eleven digits of the UPC-A code that a six-digit UPC-E core
/// compresses: a leading zero, five manufacturer digits and five item
/// digits, laid out according to the compression-type selector `c[5]`.
pub open spec fn expanded_body(c: Seq<u8>) -> Seq<u8>
    recommends
        c.len() == 6,
{
    if c[5] <= 2 {
        seq![0u8, c[0], c[1], c[5], 0u8, 0u8, 0u8, 0u8, c[2], c[3], c[4]]
    } else if c[5] == 3 {
        seq![0u8, c[0], c[1], c[2], 0u8, 0u8, 0u8, 0u8, 0u8, c[3], c[4]]
    } else if c[5] == 4 {
        seq![0u8, c[0], c[1], c[2], c[3], 0u8, 0u8, 0u8, 0u8, 0u8, c[4]]
    } else {
        seq![0u8, c[0], c[1], c[2], c[3], c[4], 0u8, 0u8, 0u8, 0u8, c[5]]
    }
}

/// The full 12-digit UPC-A sequence that a UPC-E encoding expands to: the
/// eleven reconstructed digits closed by their check digit.
pub open spec fn upca_expansion(s: Seq<u8>) -> Seq<u8>
    recommends
        6 <= s.len() <= 8,
{
    let body = expanded_body(upce_core(s));
    body.push(check_digit_spec(body) as u8)
}

/// Reconstructs the full 12-digit UPC-A code from a UPC-E encoding of 6, 7
/// or 8 digits; any other length fails. The reconstructed code always
/// carries a fresh check digit, so it satisfies the checksum invariant
/// whenever the input holds decimal digits.
pub fn expand_upce_to_upca(upce: &[u8]) -> (r: Result<GTIN, GtinError>)
    ensures
        !(6 <= upce@.len() <= 8) ==> r == Err::<GTIN, GtinError>(GtinError::ConversionFailed),
        6 <= upce@.len() <= 8 ==> (r matches Ok(g) && g is UpcA && g.spec_digits()
            == upca_expansion(upce@) && valid_gtin_spec(g.spec_digits())),
        6 <= upce@.len() <= 8 && digits_in_range(upce@) ==> (r matches Ok(g) && g.wf()),
{
    let len = upce.len();
    if len < 6 || len > 8 {
        return Err(GtinError::ConversionFailed);
    }
    let core: [u8; 6] = if len == 8 {
        [upce[1], upce[2], upce[3], upce[4], upce[5], upce[6]]
    } else {
        [upce[0], upce[1], upce[2], upce[3], upce[4], upce[5]]
    };
    proof {
        assert(core@ =~= upce_core(upce@));
    }
    let body: [u8; 11] = if core[5] <= 2 {
        [0, core[0], core[1], core[5], 0, 0, 0, 0, core[2], core[3], core[4]]
    } else if core[5] == 3 {
        [0, core[0], core[1], core[2], 0, 0, 0, 0, 0, core[3], core[4]]
    } else if core[5] == 4 {
        [0, core[0], core[1], core[2], core[3], 0, 0, 0, 0, 0, core[4]]
    } else {
        [0, core[0], core[1], core[2], core[3], core[4], 0, 0, 0, 0, core[5]]
    };
    proof {
        assert(body@ =~= expanded_body(core@));
    }
    let check_digit = calculate_checksum_digit(body.as_slice());
    let full: [u8; 12] = [
        body[0],
        body[1],
        body[2],
        body[3],
        body[4],
        body[5],
        body[6],
        body[7],
        body[8],
        body[9],
        body[10],
        check_digit,
    ];
    proof {
        assert(full@ =~= body@.push(check_digit));
        assert(full@.drop_last() =~= body@);
    }
    Ok(GTIN::UpcA(full))
}

pub(crate) fn eq_digit_slices(a: &[u8], b: &[u8]) -> (r: bool)
    ensures
        r <==> a@ == b@,
{
    if a.len() != b.len() {
        return false;
    }
    let mut i: usize = 0;
    while i < a.len()
        invariant
            i <= a@.len(),
            a@.len() == b@.len(),
            forall|j: int| 0 <= j < i ==> a@[j] == b@[j],
        decreases a@.len() - i,
    {
        if a[i] != b[i] {
            return false;
        }
        i = i + 1;
    }
    proof {
        assert(a@ =~= b@);
    }
    true
}

} // verus!
