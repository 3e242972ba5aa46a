//! Validation of an eleven-digit national identification number.
//!
//! [`Pesel::new`] checks that a candidate string consists of exactly eleven
//! decimal digits and, when it does, records their values in input order.
//! [`Pesel::checksum`] computes the weighted check digit over a run of ten
//! digits, so that a caller can compare it against an identifier's final
//! digit.

use vstd::prelude::*;

verus! {

/// A validated identifier: exactly eleven decimal digit values, in the order
/// they appeared in the input string.
#[derive(Debug, Clone, Copy, PartialEq, Eq)]
pub struct Pesel(pub [u8; 11]);

impl View for Pesel {
    type V = Seq<u8>;

    open spec fn view(&self) -> Seq<u8> {
        self.0@
    }
}

/// `c` is one of the decimal digit characters `'0'` through `'9'`.
pub open spec fn is_decimal_digit(c: char) -> bool {
    48 <= c as u32 && c as u32 <= 57
}

/// The numeric value of a decimal digit character.
pub open spec fn digit_value(c: char) -> u8 {
    (c as u32 - 48) as u8
}

/// The digit values of a character sequence, in order.
pub open spec fn digits_of(s: Seq<char>) -> Seq<u8> {
    s.map(|_i: int, c: char| digit_value(c))
}

/// A well-formed input: exactly eleven characters, all decimal digits.
pub open spec fn valid_pesel_string(s: Seq<char>) -> bool {
    s.len() == 11 && (forall|i: int| 0 <= i < s.len() ==> is_decimal_digit(s[i]))
}

/// The fixed positional weight of digit `i` in the checksum: the table
/// `[1, 3, 7, 9, 1, 3, 7, 9, 1, 3]`.
pub open spec fn weight(i: int) -> int {
    if i == 0 {
        1
    } else if i == 1 {
        3
    } else if i == 2 {
        7
    } else if i == 3 {
        9
    } else if i == 4 {
        1
    } else if i == 5 {
        3
    } else if i == 6 {
        7
    } else if i == 7 {
        9
    } else if i == 8 {
        1
    } else {
        3
    }
}

/// The weighted sum of a digit sequence: the sum over `i` of
/// `weight(i) * ds[i]`.
pub open spec fn weighted_sum(ds: Seq<u8>) -> int
    decreases ds.len(),
{
    if ds.len() == 0 {
        0
    } else {
        weighted_sum(ds.drop_last()) + weight(ds.len() - 1) * ds.last()
    }
}

/// The check digit of a digit sequence: `(10 - sum mod 10) mod 10`.
pub open spec fn checksum_value(ds: Seq<u8>) -> int {
    (10 - weighted_sum(ds) % 10) % 10
}

impl Pesel {
    /// Every stored value is a decimal digit.
    pub open spec fn wf(&self) -> bool {
        forall|i: int| 0 <= i < 11 ==> self@[i] <= 9
    }

    /// Parses a candidate identifier string.
    ///
    /// Succeeds exactly when the input is eleven characters long and every
    /// character is a decimal digit; the identifier then holds the digit
    /// values in input order. Any other input, whatever its length or
    /// content, is answered with a `"Wrong format"` error.
    pub fn new(pesel: &str) -> (r: Result<Pesel, String>)
        ensures
            r is Ok <==> valid_pesel_string(pesel@),
            r matches Ok(p) ==> p@ == digits_of(pesel@) && p.wf(),
            r matches Err(e) ==> e@ == "Wrong format"@,
    {
        if pesel.unicode_len() != 11 {
            return Err(String::from_str("Wrong format"));
        }
        let mut digits: [u8; 11] = [0u8; 11];
        let mut i: usize = 0;
        while i < 11
            invariant
                pesel@.len() == 11,
                i <= 11,
                forall|j: int| 0 <= j < i ==> is_decimal_digit(pesel@[j]),
                forall|j: int| 0 <= j < i ==> digits[j] == digit_value(pesel@[j]),
            decreases 11 - i,
        {
            let c = pesel.get_char(i);
            let v = c as u32;
            if v < 48 || 57 < v {
                return Err(String::from_str("Wrong format"));
            }
            digits[i] = (v - 48) as u8;
            i = i + 1;
        }
        let p = Pesel(digits);
        proof {
            assert(p@ =~= digits_of(pesel@));
        }
        Ok(p)
    }

    /// The check digit over the first ten digits of an identifier.
    ///
    /// The caller supplies ten digit values; the result is the single decimal
    /// digit `(10 - (Σ weight(i) · digits[i]) mod 10) mod 10`.
    pub fn checksum(digits: [u8; 10]) -> (r: u8)
        requires
            forall|i: int| 0 <= i < 10 ==> digits[i] <= 9,
        ensures
            r as int == checksum_value(digits@),
            r <= 9,
    {
        let weights: [u8; 10] = [1, 3, 7, 9, 1, 3, 7, 9, 1, 3];
        assert(forall|j: int| 0 <= j < 10 ==> weights[j] as int == weight(j));
        let mut sumprod: u32 = 0;
        let mut i: usize = 0;
        while i < 10
            invariant
                i <= 10,
                forall|j: int| 0 <= j < 10 ==> digits[j] <= 9,
                forall|j: int| 0 <= j < 10 ==> weights[j] as int == weight(j),
                sumprod <= 81 * i,
                sumprod as int == weighted_sum(digits@.take(i as int)),
            decreases 10 - i,
        {
            let ghost prefix = digits@.take(i as int);
            let wv: u8 = weights[i];
            let dv: u8 = digits[i];
            assert(wv as int == weight(i as int));
            assert(wv <= 9);
            assert(dv <= 9);
            assert((wv as int) * (dv as int) <= 81) by (nonlinear_arith)
                requires
                    0 <= wv as int <= 9,
                    0 <= dv as int <= 9,
            ;
            let term: u32 = (wv as u32) * (dv as u32);
            sumprod = sumprod + term;
            i = i + 1;
            proof {
                assert(digits@.take(i as int).drop_last() =~= prefix);
                assert(digits@.take(i as int).last() == digits[i - 1]);
            }
        }
        proof {
            assert(digits@.take(10) =~= digits@);
        }
        ((10 - sumprod % 10) % 10) as u8
    }
}

/// Parsing is deterministic: any two identifiers whose digits were read off
/// the same valid input are structurally equal, so parsing the same string
/// twice yields equal results.
pub proof fn lemma_new_deterministic(s: Seq<char>, p1: Pesel, p2: Pesel)
    requires
        valid_pesel_string(s),
        p1@ == digits_of(s),
        p2@ == digits_of(s),
    ensures
        p1 == p2,
{
    assert(p1.0 =~= p2.0);
}

proof fn lemma_weighted_sum_nonneg(ds: Seq<u8>)
    ensures
        weighted_sum(ds) >= 0,
    decreases ds.len(),
{
    if ds.len() > 0 {
        lemma_weighted_sum_nonneg(ds.drop_last());
        vstd::arithmetic::mul::lemma_mul_nonnegative(weight(ds.len() - 1), ds.last() as int);
    }
}

proof fn lemma_weighted_sum_point_diff(a: Seq<u8>, b: Seq<u8>, i: int)
    requires
        a.len() == b.len(),
        0 <= i < a.len(),
        forall|j: int| 0 <= j < a.len() && j != i ==> a[j] == b[j],
    ensures
        weighted_sum(a) - weighted_sum(b) == weight(i) * (a[i] - b[i]),
    decreases a.len(),
{
    let l = a.len() - 1;
    if i == l {
        assert(a.drop_last() =~= b.drop_last());
        assert(weight(l) * (a[l] as int) - weight(l) * (b[l] as int) == weight(l) * (a[l]
            - b[l])) by (nonlinear_arith);
    } else {
        lemma_weighted_sum_point_diff(a.drop_last(), b.drop_last(), i);
        assert(a.last() == b.last());
    }
}

proof fn lemma_weight_times_delta(w: int, d: int)
    requires
        w == 1 || w == 3 || w == 7 || w == 9,
        1 <= d <= 9,
    ensures
        (w * d) % 10 != 0,
{
    if d == 1 {
        assert((w * 1) % 10 != 0);
    } else if d == 2 {
        assert((w * 2) % 10 != 0);
    } else if d == 3 {
        assert((w * 3) % 10 != 0);
    } else if d == 4 {
        assert((w * 4) % 10 != 0);
    } else if d == 5 {
        assert((w * 5) % 10 != 0);
    } else if d == 6 {
        assert((w * 6) % 10 != 0);
    } else if d == 7 {
        assert((w * 7) % 10 != 0);
    } else if d == 8 {
        assert((w * 8) % 10 != 0);
    } else {
        assert((w * 9) % 10 != 0);
    }
}

proof fn lemma_shifted_residue(s: int, t: int)
    requires
        s >= 0,
        t >= 0,
        t % 10 != 0,
    ensures
        (s + t) % 10 != s % 10,
{
    vstd::arithmetic::div_mod::lemma_add_mod_noop(s, t, 10);
    vstd::arithmetic::div_mod::lemma_mod_bound(s, 10);
    vstd::arithmetic::div_mod::lemma_mod_bound(t, 10);
    let m = s % 10;
    let k = t % 10;
    if m + k < 10 {
        vstd::arithmetic::div_mod::lemma_small_mod((m + k) as nat, 10);
    } else {
        vstd::arithmetic::div_mod::lemma_mod_multiples_vanish(1, m + k - 10, 10);
        vstd::arithmetic::div_mod::lemma_small_mod((m + k - 10) as nat, 10);
    }
}

proof fn lemma_check_digit_injective(x: int, y: int)
    requires
        x % 10 != y % 10,
    ensures
        (10 - x % 10) % 10 != (10 - y % 10) % 10,
{
    vstd::arithmetic::div_mod::lemma_mod_bound(x, 10);
    vstd::arithmetic::div_mod::lemma_mod_bound(y, 10);
    let mx = x % 10;
    let my = y % 10;
    if mx != 0 {
        vstd::arithmetic::div_mod::lemma_small_mod((10 - mx) as nat, 10);
    }
    if my != 0 {
        vstd::arithmetic::div_mod::lemma_small_mod((10 - my) as nat, 10);
    }
}

/// The checksum detects every single-digit change: two ten-digit inputs that
/// agree everywhere but in one position have different check digits, because
/// every positional weight is coprime to ten.
pub proof fn lemma_checksum_sensitive(a: Seq<u8>, b: Seq<u8>, i: int)
    requires
        a.len() == 10,
        b.len() == 10,
        forall|j: int| 0 <= j < 10 ==> a[j] <= 9,
        forall|j: int| 0 <= j < 10 ==> b[j] <= 9,
        0 <= i < 10,
        a[i] != b[i],
        forall|j: int| 0 <= j < 10 && j != i ==> a[j] == b[j],
    ensures
        checksum_value(a) != checksum_value(b),
{
    lemma_weighted_sum_point_diff(a, b, i);
    lemma_weighted_sum_nonneg(a);
    lemma_weighted_sum_nonneg(b);
    let sa = weighted_sum(a);
    let sb = weighted_sum(b);
    let w = weight(i);
    if a[i] > b[i] {
        lemma_weight_times_delta(w, a[i] - b[i]);
        lemma_shifted_residue(sb, w * (a[i] - b[i]));
    } else {
        lemma_weight_times_delta(w, b[i] - a[i]);
        assert(w * (b[i] - a[i]) == -(w * (a[i] - b[i]))) by (nonlinear_arith);
        lemma_shifted_residue(sa, w * (b[i] - a[i]));
    }
    lemma_check_digit_injective(sa, sb);
}

} // verus!
