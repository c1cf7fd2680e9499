//! Verified parsing of numeric record cells.
//!
//! Labels are unsigned 32-bit decimal numerals; feature cells must be
//! well-formed decimal literals (optional sign, digits, optional fraction,
//! optional exponent).  A cell that fits neither shape is a malformed
//! record.

use vstd::prelude::*;

verus! {

/// The character is a decimal digit.
pub open spec fn is_digit(c: char) -> bool {
    48 <= c as int <= 57
}

/// Digit value of a decimal digit character.
pub open spec fn digit_val(c: char) -> nat {
    (c as int - 48) as nat
}

/// Value of a string of decimal digits.
pub open spec fn dec_val(s: Seq<char>) -> nat
    decreases s.len(),
{
    if s.len() == 0 {
        0
    } else {
        dec_val(s.drop_last()) * 10 + digit_val(s.last())
    }
}

/// The string is a decimal numeral whose value fits in a `u32`.
pub open spec fn is_u32_numeral(s: Seq<char>) -> bool {
    &&& s.len() > 0
    &&& forall|i: int| 0 <= i < s.len() ==> is_digit(#[trigger] s[i])
    &&& dec_val(s) <= u32::MAX
}

/// Outcome of parsing a `u32` numeral.
pub open spec fn spec_parse_u32(s: Seq<char>) -> Option<u32> {
    if is_u32_numeral(s) {
        Some(dec_val(s) as u32)
    } else {
        None
    }
}

/// The value of a digit-string prefix is no more than the whole string's.
pub proof fn lemma_dec_val_prefix_le(s: Seq<char>, j: int)
    requires
        0 <= j <= s.len(),
    ensures
        dec_val(s.subrange(0, j)) <= dec_val(s),
    decreases s.len() - j,
{
    if j < s.len() {
        lemma_dec_val_prefix_le(s, j + 1);
        assert(s.subrange(0, j + 1).drop_last() =~= s.subrange(0, j));
    } else {
        assert(s.subrange(0, j) =~= s);
    }
}

/// Parses a decimal numeral into a `u32`.  Returns `None` when the string
/// is empty, holds a non-digit, or its value exceeds `u32::MAX`.
pub fn parse_u32(s: &str) -> (r: Option<u32>)
    ensures
        r == spec_parse_u32(s@),
{
    let n: usize = s.unicode_len();
    if n == 0 {
        return None;
    }
    let mut val: u64 = 0;
    let mut i: usize = 0;
    while i < n
        invariant
            n == s@.len(),
            i <= n,
            val == dec_val(s@.subrange(0, i as int)),
            val <= u32::MAX,
            forall|t: int| 0 <= t < i ==> is_digit(#[trigger] s@[t]),
        decreases n - i,
    {
        let c: char = s.get_char(i);
        let u: u32 = c as u32;
        if u < 48 || u > 57 {
            assert(!is_digit(s@[i as int]));
            return None;
        }
        let d: u64 = (u - 48) as u64;
        let new_val: u64 = val * 10 + d;
        proof {
            assert(s@.subrange(0, i + 1).drop_last() =~= s@.subrange(0, i as int));
            assert(new_val == dec_val(s@.subrange(0, i + 1)));
        }
        if new_val > 0xFFFF_FFFF {
            proof {
                lemma_dec_val_prefix_le(s@, i + 1);
            }
            return None;
        }
        val = new_val;
        i = i + 1;
    }
    proof {
        assert(s@.subrange(0, i as int) =~= s@);
    }
    Some(val as u32)
}

/// The decimal digit character for a digit value.
pub open spec fn digit_char(d: nat) -> char {
    if d == 0 {
        '0'
    } else if d == 1 {
        '1'
    } else if d == 2 {
        '2'
    } else if d == 3 {
        '3'
    } else if d == 4 {
        '4'
    } else if d == 5 {
        '5'
    } else if d == 6 {
        '6'
    } else if d == 7 {
        '7'
    } else if d == 8 {
        '8'
    } else {
        '9'
    }
}

/// The canonical decimal numeral of `v`: most significant digit first, no
/// leading zero except for zero itself.
pub open spec fn dec_digits(v: nat) -> Seq<char>
    decreases v,
{
    if v < 10 {
        seq![digit_char(v)]
    } else {
        dec_digits(v / 10).push(digit_char(v % 10))
    }
}

/// A digit's character carries that digit's value.
pub proof fn lemma_digit_char_val(d: nat)
    requires
        d < 10,
    ensures
        digit_val(digit_char(d)) == d,
        is_digit(digit_char(d)),
{
}

/// The canonical numeral of a value decodes back to that value: rendering
/// and parsing decimal numerals are inverse.
pub proof fn lemma_dec_digits_val(v: nat)
    ensures
        dec_val(dec_digits(v)) == v,
        dec_digits(v).len() >= 1,
        forall|i: int| 0 <= i < dec_digits(v).len() ==> is_digit(#[trigger] dec_digits(v)[i]),
    decreases v,
{
    if v < 10 {
        lemma_digit_char_val(v);
        assert(dec_val(Seq::<char>::empty()) == 0);
        assert(dec_digits(v).drop_last() =~= Seq::<char>::empty());
    } else {
        lemma_dec_digits_val(v / 10);
        lemma_digit_char_val(v % 10);
        assert(dec_digits(v).drop_last() =~= dec_digits(v / 10));
        assert(dec_val(dec_digits(v)) == (v / 10) * 10 + v % 10);
        assert((v / 10) * 10 + v % 10 == v) by {
            vstd::arithmetic::div_mod::lemma_fundamental_div_mod(v as int, 10);
        };
    }
}

/// One-character string for a decimal digit value.
fn digit_str(d: u64) -> (r: &'static str)
    requires
        d < 10,
    ensures
        r@ =~= seq![digit_char(d as nat)],
{
    proof {
        reveal_strlit("0");
        reveal_strlit("1");
        reveal_strlit("2");
        reveal_strlit("3");
        reveal_strlit("4");
        reveal_strlit("5");
        reveal_strlit("6");
        reveal_strlit("7");
        reveal_strlit("8");
        reveal_strlit("9");
    }
    if d == 0 {
        "0"
    } else if d == 1 {
        "1"
    } else if d == 2 {
        "2"
    } else if d == 3 {
        "3"
    } else if d == 4 {
        "4"
    } else if d == 5 {
        "5"
    } else if d == 6 {
        "6"
    } else if d == 7 {
        "7"
    } else if d == 8 {
        "8"
    } else {
        "9"
    }
}

/// Renders `v` as its canonical decimal numeral.
pub fn u64_to_decimal(v: u64) -> (r: String)
    ensures
        r@ == dec_digits(v as nat),
{
    let mut rev: Vec<u64> = Vec::new();
    let mut x: u64 = v;
    while x >= 10
        invariant
            dec_digits(v as nat) =~= dec_digits(x as nat) + rev@.reverse().map_values(
                |d: u64| digit_char(d as nat),
            ),
            forall|i: int| 0 <= i < rev@.len() ==> (#[trigger] rev@[i]) < 10,
        decreases x,
    {
        let ghost pre = rev@;
        rev.push(x % 10);
        proof {
            assert(rev@.reverse() =~= seq![x % 10].add(pre.reverse()));
            assert(rev@.reverse().map_values(|d: u64| digit_char(d as nat)) =~= seq![
                digit_char((x % 10) as nat),
            ].add(pre.reverse().map_values(|d: u64| digit_char(d as nat))));
            assert(dec_digits(x as nat) =~= dec_digits((x / 10) as nat).push(
                digit_char((x % 10) as nat),
            ));
            assert(dec_digits(v as nat) =~= dec_digits((x / 10) as nat) + rev@.reverse()
                .map_values(|d: u64| digit_char(d as nat)));
        }
        x = x / 10;
    }
    let mut out: String = digit_str(x).to_owned();
    proof {
        assert(out@ =~= dec_digits(x as nat));
    }
    let mut k: usize = rev.len();
    while k > 0
        invariant
            k <= rev@.len(),
            forall|i: int| 0 <= i < rev@.len() ==> (#[trigger] rev@[i]) < 10,
            out@ == dec_digits(x as nat) + rev@.reverse().map_values(
                |d: u64| digit_char(d as nat),
            ).subrange(0, (rev@.len() - k) as int),
        decreases k,
    {
        let ghost written = rev@.len() - k;
        out.append(digit_str(rev[k - 1]));
        proof {
            let m = rev@.reverse().map_values(|d: u64| digit_char(d as nat));
            assert(m[written] == digit_char(rev@[k - 1] as nat));
            assert(m.subrange(0, written + 1) =~= m.subrange(0, written).push(m[written]));
            assert(out@ =~= dec_digits(x as nat) + m.subrange(0, written + 1));
        }
        k = k - 1;
    }
    proof {
        let m = rev@.reverse().map_values(|d: u64| digit_char(d as nat));
        assert(m.subrange(0, rev@.len() as int) =~= m);
    }
    out
}

/// Position after an optional leading sign at `i`.
pub open spec fn sign_skip(s: Seq<char>, i: int) -> int {
    if 0 <= i < s.len() && (s[i] == '+' || s[i] == '-') {
        i + 1
    } else {
        i
    }
}

/// Position after the run of digits starting at `i`.
pub open spec fn digit_run_end(s: Seq<char>, i: int) -> int
    decreases s.len() - i,
{
    if 0 <= i < s.len() && is_digit(s[i]) {
        digit_run_end(s, i + 1)
    } else {
        i
    }
}

/// Position after an optional fraction part at `i`, or -1 when a decimal
/// point is not followed by at least one digit.
pub open spec fn frac_end(s: Seq<char>, i: int) -> int {
    if 0 <= i < s.len() && s[i] == '.' {
        if digit_run_end(s, i + 1) == i + 1 {
            -1
        } else {
            digit_run_end(s, i + 1)
        }
    } else {
        i
    }
}

/// Position after an optional exponent part at `i`, or -1 when a malformed
/// position is handed in or the exponent misses its digits.
pub open spec fn exp_end(s: Seq<char>, i: int) -> int {
    if i == -1 {
        -1
    } else if 0 <= i < s.len() && (s[i] == 'e' || s[i] == 'E') {
        if digit_run_end(s, sign_skip(s, i + 1)) == sign_skip(s, i + 1) {
            -1
        } else {
            digit_run_end(s, sign_skip(s, i + 1))
        }
    } else {
        i
    }
}

/// The string is a well-formed decimal literal: an optional sign, at least
/// one digit, an optional fraction of at least one digit, and an optional
/// exponent with an optional sign and at least one digit.
pub open spec fn is_number_lit(s: Seq<char>) -> bool {
    digit_run_end(s, sign_skip(s, 0)) != sign_skip(s, 0) && exp_end(
        s,
        frac_end(s, digit_run_end(s, sign_skip(s, 0))),
    ) == s.len()
}

/// Scans the run of digits starting at `from`.
fn digit_scan(s: &str, from: usize) -> (r: usize)
    requires
        from <= s@.len(),
    ensures
        r == digit_run_end(s@, from as int),
        from <= r <= s@.len(),
{
    let n: usize = s.unicode_len();
    let mut i: usize = from;
    while i < n
        invariant
            n == s@.len(),
            from <= i <= n,
            digit_run_end(s@, from as int) == digit_run_end(s@, i as int),
        decreases n - i,
    {
        let u: u32 = s.get_char(i) as u32;
        if u < 48 || u > 57 {
            return i;
        }
        i = i + 1;
    }
    i
}

/// Checks that the cell is a well-formed decimal literal.
pub fn is_numeric_cell(s: &str) -> (r: bool)
    ensures
        r == is_number_lit(s@),
{
    let n: usize = s.unicode_len();
    let mut i: usize = 0;
    if n > 0 {
        let c0: char = s.get_char(0);
        if c0 == '+' || c0 == '-' {
            i = 1;
        }
    }
    assert(i == sign_skip(s@, 0));
    let run: usize = digit_scan(s, i);
    if run == i {
        return false;
    }
    let mut pos: usize = run;
    if pos < n {
        let c: char = s.get_char(pos);
        if c == '.' {
            let fr: usize = digit_scan(s, pos + 1);
            if fr == pos + 1 {
                assert(frac_end(s@, run as int) == -1);
                return false;
            }
            pos = fr;
        }
    }
    assert(pos == frac_end(s@, run as int));
    if pos < n {
        let c: char = s.get_char(pos);
        if c == 'e' || c == 'E' {
            let mut k: usize = pos + 1;
            if k < n {
                let cs: char = s.get_char(k);
                if cs == '+' || cs == '-' {
                    k = k + 1;
                }
            }
            assert(k == sign_skip(s@, pos + 1));
            let ex: usize = digit_scan(s, k);
            if ex == k {
                assert(exp_end(s@, frac_end(s@, run as int)) == -1);
                return false;
            }
            pos = ex;
        }
    }
    assert(pos == exp_end(s@, frac_end(s@, run as int)));
    pos == n
}

} // verus!
