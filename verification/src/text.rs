//! Decimal rendering of integers, used by the layout serializer.

use vstd::prelude::*;

verus! {

broadcast use vstd::seq::group_seq_axioms;

/// The character for a single decimal digit value.
pub open spec fn dec_digit_char(d: int) -> char {
    seq!['0', '1', '2', '3', '4', '5', '6', '7', '8', '9'][d]
}

/// Decimal rendering of a nonnegative integer, most significant digit first,
/// without leading zeros (except for the number 0 itself).
pub open spec fn dec_digits(n: int) -> Seq<char>
    decreases n,
{
    if n < 10 {
        seq![dec_digit_char(n)]
    } else {
        dec_digits(n / 10).push(dec_digit_char(n % 10))
    }
}

/// The one-character string for a decimal digit value.
fn dec_digit_str(d: usize) -> (r: &'static str)
    requires
        d < 10,
    ensures
        r@ == seq![dec_digit_char(d as int)],
{
    proof {
        reveal_strlit("0");
        reveal_strlit("1");
        reveal_strlit("2");
        reveal_strlit("3");
        reveal_strlit("4");
        reveal_strlit("5");
        reveal_strlit("6");
        reveal_strlit("7");
        reveal_strlit("8");
        reveal_strlit("9");
    }
    if d == 0 {
        "0"
    } else if d == 1 {
        "1"
    } else if d == 2 {
        "2"
    } else if d == 3 {
        "3"
    } else if d == 4 {
        "4"
    } else if d == 5 {
        "5"
    } else if d == 6 {
        "6"
    } else if d == 7 {
        "7"
    } else if d == 8 {
        "8"
    } else {
        "9"
    }
}

/// Appends the decimal rendering of `n` to `s`.
pub fn push_dec(s: &mut String, n: usize)
    ensures
        final(s)@ == old(s)@ + dec_digits(n as int),
    decreases n,
{
    if n < 10 {
        let d = dec_digit_str(n);
        s.append(d);
        proof {
            assert(final(s)@ =~= old(s)@ + dec_digits(n as int));
        }
    } else {
        push_dec(s, n / 10);
        let d = dec_digit_str(n % 10);
        s.append(d);
        proof {
            assert(final(s)@ =~= old(s)@ + dec_digits(n as int));
        }
    }
}

/// The decimal rendering of `n` as a fresh string.
pub fn dec_string(n: usize) -> (r: String)
    ensures
        r@ == dec_digits(n as int),
{
    let mut s = String::new();
    push_dec(&mut s, n);
    proof {
        assert(s@ =~= dec_digits(n as int));
    }
    s
}

/// Whether a character is a decimal digit.
pub open spec fn is_digit(c: char) -> bool {
    48 <= c as int <= 57
}

/// The value of a decimal digit character.
pub open spec fn digit_val(c: char) -> int {
    c as int - 48
}

/// The value of the digit run `s[i..j)`, read most significant digit
/// first.
pub open spec fn digits_val(s: Seq<char>, i: int, j: int) -> int
    decreases j - i,
{
    if j <= i {
        0
    } else {
        digits_val(s, i, j - 1) * 10 + digit_val(s[j - 1])
    }
}

/// The end of the digit run starting at `i`.
pub open spec fn scan_digits(s: Seq<char>, i: int) -> int
    decreases s.len() - i,
    when 0 <= i <= s.len()
{
    if i < s.len() && is_digit(s[i]) {
        scan_digits(s, i + 1)
    } else {
        i
    }
}

/// A digit run that denotes a number the way the serializer writes one: at
/// least one digit, no leading zero.
pub open spec fn digits_canonical(s: Seq<char>, i: int, j: int) -> bool {
    &&& 0 <= i < j <= s.len()
    &&& forall|m: int| i <= m < j ==> is_digit(#[trigger] s[m])
    &&& (s[i] != '0' || j == i + 1)
}

proof fn lemma_digit_char_val(c: char)
    requires
        is_digit(c),
    ensures
        dec_digit_char(digit_val(c)) == c,
        0 <= digit_val(c) <= 9,
{
    let d = digit_val(c);
    if d == 0 {
        assert(dec_digit_char(0) == '0');
        assert(c as int == '0' as int);
    } else if d == 1 {
        assert(dec_digit_char(1) == '1');
    } else if d == 2 {
        assert(dec_digit_char(2) == '2');
    } else if d == 3 {
        assert(dec_digit_char(3) == '3');
    } else if d == 4 {
        assert(dec_digit_char(4) == '4');
    } else if d == 5 {
        assert(dec_digit_char(5) == '5');
    } else if d == 6 {
        assert(dec_digit_char(6) == '6');
    } else if d == 7 {
        assert(dec_digit_char(7) == '7');
    } else if d == 8 {
        assert(dec_digit_char(8) == '8');
    } else {
        assert(dec_digit_char(9) == '9');
    }
}

/// The value of a digit run is nonnegative and at least its leading
/// digit's value.
pub proof fn lemma_digits_val_bounds(s: Seq<char>, i: int, j: int)
    requires
        i < j <= s.len(),
        forall|m: int| i <= m < j ==> is_digit(#[trigger] s[m]),
    ensures
        digits_val(s, i, j) >= digit_val(s[i]),
        digits_val(s, i, j) >= 0,
    decreases j - i,
{
    if j == i + 1 {
    } else {
        lemma_digits_val_bounds(s, i, j - 1);
        assert(digits_val(s, i, j - 1) * 10 >= digits_val(s, i, j - 1)) by (nonlinear_arith)
            requires
                digits_val(s, i, j - 1) >= 0,
        ;
    }
}

/// Growing a digit run never shrinks its value.
pub proof fn lemma_digits_val_mono(s: Seq<char>, i: int, j1: int, j2: int)
    requires
        i <= j1 <= j2 <= s.len(),
        forall|m: int| i <= m < j2 ==> is_digit(#[trigger] s[m]),
    ensures
        digits_val(s, i, j1) <= digits_val(s, i, j2),
        digits_val(s, i, j1) >= 0,
    decreases j2 - j1,
{
    if i < j1 {
        lemma_digits_val_bounds(s, i, j1);
    }
    if j1 < j2 {
        lemma_digits_val_mono(s, i, j1, j2 - 1);
        assert(digits_val(s, i, j2 - 1) * 10 >= digits_val(s, i, j2 - 1)) by (nonlinear_arith)
            requires
                digits_val(s, i, j2 - 1) >= 0,
        ;
    }
}

/// The rendered digit for a value is a digit character carrying that
/// value.
pub proof fn lemma_dec_digit_char_of(d: int)
    requires
        0 <= d <= 9,
    ensures
        is_digit(dec_digit_char(d)),
        digit_val(dec_digit_char(d)) == d,
{
    if d == 0 {
        assert(dec_digit_char(0) == '0');
    } else if d == 1 {
        assert(dec_digit_char(1) == '1');
    } else if d == 2 {
        assert(dec_digit_char(2) == '2');
    } else if d == 3 {
        assert(dec_digit_char(3) == '3');
    } else if d == 4 {
        assert(dec_digit_char(4) == '4');
    } else if d == 5 {
        assert(dec_digit_char(5) == '5');
    } else if d == 6 {
        assert(dec_digit_char(6) == '6');
    } else if d == 7 {
        assert(dec_digit_char(7) == '7');
    } else if d == 8 {
        assert(dec_digit_char(8) == '8');
    } else {
        assert(dec_digit_char(9) == '9');
    }
}

/// A decimal rendering holds only digits, never starts with a zero unless
/// it is the single digit 0, and has more than one digit exactly for
/// values of 10 and above.
pub proof fn lemma_dec_digits_shape(v: int)
    requires
        v >= 0,
    ensures
        dec_digits(v).len() >= 1,
        forall|m: int| 0 <= m < dec_digits(v).len() ==> is_digit(#[trigger] dec_digits(v)[m]),
        dec_digits(v).len() > 1 ==> dec_digits(v)[0] != '0',
        v < 10 ==> dec_digits(v).len() == 1,
        v >= 10 ==> dec_digits(v).len() > 1,
    decreases v,
{
    if v < 10 {
        lemma_dec_digit_char_of(v);
    } else {
        lemma_dec_digits_shape(v / 10);
        lemma_dec_digit_char_of(v % 10);
        assert(dec_digits(v) == dec_digits(v / 10).push(dec_digit_char(v % 10)));
        assert(dec_digits(v)[0] == dec_digits(v / 10)[0]);
        if dec_digits(v / 10).len() == 1 {
            assert(v / 10 < 10);
            assert(v / 10 >= 1);
            assert(digit_val(dec_digits(v / 10)[0]) == v / 10);
            if dec_digits(v)[0] == '0' {
                assert(digit_val('0' as char) == 0);
            }
        }
    }
}

/// Reading the decimal rendering of a value back gives the value: for a
/// region of `s` that carries `dec_digits(v)`, the digit run's value is
/// `v`.
pub proof fn lemma_digits_val_embed(s: Seq<char>, i: int, v: int)
    requires
        v >= 0,
        0 <= i,
        i + dec_digits(v).len() <= s.len(),
        forall|m: int|
            0 <= m < dec_digits(v).len() ==> s[i + m] == #[trigger] dec_digits(v)[m],
    ensures
        digits_val(s, i, i + dec_digits(v).len()) == v,
    decreases v,
{
    lemma_dec_digits_shape(v);
    if v < 10 {
        lemma_dec_digit_char_of(v);
        assert(s[i + 0] == dec_digits(v)[0]);
        assert(digits_val(s, i, i) == 0);
        assert(digits_val(s, i, i + 1) == digit_val(s[i]));
    } else {
        lemma_dec_digits_shape(v / 10);
        lemma_dec_digit_char_of(v % 10);
        let l = dec_digits(v).len() as int;
        assert(dec_digits(v) == dec_digits(v / 10).push(dec_digit_char(v % 10)));
        assert forall|m: int| 0 <= m < dec_digits(v / 10).len() implies s[i + m]
            == #[trigger] dec_digits(v / 10)[m] by {
            assert(dec_digits(v)[m] == dec_digits(v / 10)[m]);
            assert(s[i + m] == dec_digits(v)[m]);
        }
        lemma_digits_val_embed(s, i, v / 10);
        assert(s[i + (l - 1)] == dec_digits(v)[l - 1]);
        assert(dec_digits(v)[l - 1] == dec_digit_char(v % 10));
        assert(digits_val(s, i, i + l) == digits_val(s, i, i + l - 1) * 10 + digit_val(
            s[i + l - 1],
        ));
    }
}

/// A maximal digit run scans to its end: when everything from `i` to `k`
/// is a digit and `k` is the end of the string or holds something else,
/// the run ends at `k`.
pub proof fn lemma_scan_digits_run(s: Seq<char>, i: int, k: int)
    requires
        0 <= i <= k <= s.len(),
        forall|m: int| i <= m < k ==> is_digit(#[trigger] s[m]),
        k == s.len() || !is_digit(s[k]),
    ensures
        scan_digits(s, i) == k,
    decreases k - i,
{
    if i < k {
        lemma_scan_digits_run(s, i + 1, k);
    }
}

/// Rendering the value of a canonical digit run gives back exactly that
/// run.
pub proof fn lemma_digits_roundtrip(s: Seq<char>, i: int, j: int)
    requires
        digits_canonical(s, i, j),
    ensures
        dec_digits(digits_val(s, i, j)) == s.subrange(i, j),
    decreases j - i,
{
    let v = digits_val(s, i, j);
    assert(i < j <= s.len());
    if j == i + 1 {
        lemma_digit_char_val(s[i]);
        assert(digits_val(s, i, i) == 0);
        assert(v == digit_val(s[i]));
        assert(dec_digits(v) =~= s.subrange(i, j));
    } else {
        let a = digits_val(s, i, j - 1);
        let d = digit_val(s[j - 1]);
        assert(s[i] != '0');
        lemma_digits_val_bounds(s, i, j - 1);
        assert(digit_val(s[i]) >= 1);
        assert(a >= 1);
        lemma_digit_char_val(s[j - 1]);
        assert(v == a * 10 + d);
        assert(v >= 10) by (nonlinear_arith)
            requires
                a >= 1,
                d >= 0,
                v == a * 10 + d,
        ;
        assert(v / 10 == a && v % 10 == d) by {
            vstd::arithmetic::div_mod::lemma_div_multiples_vanish_fancy(a, d, 10);
            assert(10 * a + d == a * 10 + d) by (nonlinear_arith);
            vstd::arithmetic::div_mod::lemma_mod_multiples_vanish(a, d, 10);
            vstd::arithmetic::div_mod::lemma_small_mod(d as nat, 10);
        }
        lemma_digits_roundtrip(s, i, j - 1);
        assert(dec_digits(v) == dec_digits(a).push(dec_digit_char(d)));
        let t = s.subrange(i, j);
        assert(t.drop_last() =~= s.subrange(i, j - 1));
        assert(t.last() == s[j - 1]);
        assert(t =~= t.drop_last().push(t.last()));
        assert(dec_digits(v) == s.subrange(i, j));
    }
}

/// Whether the character at position `j` is a decimal digit.
pub fn is_digit_at(s: &str, j: usize) -> (r: bool)
    requires
        j < s@.len(),
    ensures
        r == is_digit(s@[j as int]),
{
    let c = s.get_char(j);
    48 <= c as u32 && c as u32 <= 57
}

/// Reads the digit run starting at `i` as a number below 2^32: its value
/// and the run's end.  Fails when there is no digit at `i`, when a
/// multi-digit run starts with `0`, or when the value does not fit.
pub fn parse_number(s: &str, i: usize) -> (r: Result<(usize, usize), crate::error::LayoutError>)
    requires
        i <= s@.len(),
    ensures
        r matches Ok(t) ==> {
            &&& digits_canonical(s@, i as int, t.1 as int)
            &&& t.1 == scan_digits(s@, i as int)
            &&& i < t.1 <= s@.len()
            &&& t.0 == digits_val(s@, i as int, t.1 as int)
            &&& t.0 <= 0xFFFF_FFFF
        },
        r is Err ==> !(digits_canonical(s@, i as int, scan_digits(s@, i as int)) && digits_val(
            s@,
            i as int,
            scan_digits(s@, i as int),
        ) <= 0xFFFF_FFFF),
        r matches Err(e) ==> e is LayoutParseError,
{
    let len = s.unicode_len();
    let mut j = i;
    while j < len && is_digit_at(s, j)
        invariant
            i <= j <= len,
            len == s@.len(),
            scan_digits(s@, i as int) == scan_digits(s@, j as int),
            forall|m: int| i <= m < j ==> is_digit(#[trigger] s@[m]),
        decreases len - j,
    {
        j = j + 1;
    }
    proof {
        assert(scan_digits(s@, j as int) == j);
        assert(scan_digits(s@, i as int) == j);
    }
    if j == i {
        return Err(crate::error::LayoutError::LayoutParseError { offset: i });
    }
    if s.get_char(i) == '0' && j > i + 1 {
        return Err(crate::error::LayoutError::LayoutParseError { offset: i });
    }
    let mut acc: usize = 0;
    let mut m = i;
    while m < j
        invariant
            i <= m <= j <= len,
            len == s@.len(),
            forall|q: int| i <= q < j ==> is_digit(#[trigger] s@[q]),
            j == scan_digits(s@, i as int),
            digits_canonical(s@, i as int, j as int),
            acc == digits_val(s@, i as int, m as int),
            acc <= 0xFFFF_FFFF,
        decreases j - m,
    {
        let c = s.get_char(m);
        let d: usize = (c as u32 - 48) as usize;
        proof {
            assert(is_digit(s@[m as int]));
            assert(d == digit_val(s@[m as int]));
        }
        if acc > (0xFFFF_FFFFusize - d) / 10 {
            proof {
                vstd::arithmetic::div_mod::lemma_fundamental_div_mod(0xFFFF_FFFF - d, 10);
                assert(acc * 10 >= (acc as int) * 10) by (nonlinear_arith);
                assert((acc as int) * 10 + d > 0xFFFF_FFFF) by (nonlinear_arith)
                    requires
                        acc as int > (0xFFFF_FFFF - d as int) / 10,
                        0 <= d <= 9,
                        0xFFFF_FFFF - d as int == 10 * ((0xFFFF_FFFF - d as int) / 10) + (
                        0xFFFF_FFFF - d as int) % 10,
                        0 <= (0xFFFF_FFFF - d as int) % 10 < 10,
                ;
                assert(digits_val(s@, i as int, m + 1 as int) > 0xFFFF_FFFF);
                lemma_digits_val_mono(s@, i as int, m + 1 as int, j as int);
            }
            return Err(crate::error::LayoutError::LayoutParseError { offset: i });
        }
        proof {
            vstd::arithmetic::div_mod::lemma_fundamental_div_mod(0xFFFF_FFFF - d, 10);
            assert((acc as int) * 10 + d <= 0xFFFF_FFFF) by (nonlinear_arith)
                requires
                    acc as int <= (0xFFFF_FFFF - d as int) / 10,
                    0 <= d <= 9,
                    0xFFFF_FFFF - d as int == 10 * ((0xFFFF_FFFF - d as int) / 10) + (0xFFFF_FFFF
                        - d as int) % 10,
                    0 <= (0xFFFF_FFFF - d as int) % 10 < 10,
            ;
        }
        acc = acc * 10 + d;
        m = m + 1;
    }
    Ok((acc, j))
}

} // verus!
