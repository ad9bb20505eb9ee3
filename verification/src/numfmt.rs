//! Decimal rendering and parsing.
//!
//! Quantities that the application treats as reals are carried as
//! integers in thousandths (milli-units).  This module renders such
//! values to decimal strings, renders non-negative hundredths with a
//! fixed two digits after the point, and parses decimal strings back
//! into milli-units.  Every function is specified against character
//! sequences, digit by digit.

use vstd::prelude::*;

verus! {

/// Largest milli-unit magnitude accepted for a real-valued option.
pub const REAL_LIMIT: i64 = 1_000_000_000_000;

/// Relies on `String::push` of std: appending one character extends
/// the string by exactly that character.
pub assume_specification[ String::push ](s: &mut String, c: char)
    ensures
        final(s)@ == old(s)@.push(c),
;

/// Relies on `String::pop` of std: it removes and returns the last
/// character, or leaves an empty string as it is.
pub assume_specification[ String::pop ](s: &mut String) -> (r: Option<char>)
    ensures
        old(s)@.len() == 0 ==> r is None && final(s)@ == old(s)@,
        old(s)@.len() > 0 ==> r == Option::Some(old(s)@.last()) && final(s)@ == old(s)@.drop_last(),
;

/// The decimal digit character for `d` in `0 ..= 9`.
pub open spec fn digit_char(d: int) -> char {
    if d == 0 {
        '0'
    } else if d == 1 {
        '1'
    } else if d == 2 {
        '2'
    } else if d == 3 {
        '3'
    } else if d == 4 {
        '4'
    } else if d == 5 {
        '5'
    } else if d == 6 {
        '6'
    } else if d == 7 {
        '7'
    } else if d == 8 {
        '8'
    } else {
        '9'
    }
}

/// The usual decimal rendering of `n`, most significant digit first,
/// without leading zeros (except for `n == 0` itself).
pub open spec fn dec_rep(n: nat) -> Seq<char>
    decreases n,
{
    if n < 10 {
        seq![digit_char(n as int)]
    } else {
        dec_rep(n / 10) + seq![digit_char((n % 10) as int)]
    }
}

/// One decimal digit as a string slice.
fn digit_str(d: u64) -> (r: &'static str)
    requires
        d < 10,
    ensures
        r@ == seq![digit_char(d as int)],
{
    proof {
        reveal_strlit("0");
        reveal_strlit("1");
        reveal_strlit("2");
        reveal_strlit("3");
        reveal_strlit("4");
        reveal_strlit("5");
        reveal_strlit("6");
        reveal_strlit("7");
        reveal_strlit("8");
        reveal_strlit("9");
    }
    if d == 0 {
        "0"
    } else if d == 1 {
        "1"
    } else if d == 2 {
        "2"
    } else if d == 3 {
        "3"
    } else if d == 4 {
        "4"
    } else if d == 5 {
        "5"
    } else if d == 6 {
        "6"
    } else if d == 7 {
        "7"
    } else if d == 8 {
        "8"
    } else {
        "9"
    }
}

/// Renders `n` in decimal.
pub fn u64_to_dec(n: u64) -> (r: String)
    ensures
        r@ == dec_rep(n as nat),
    decreases n,
{
    if n < 10 {
        String::from_str(digit_str(n))
    } else {
        let mut s = u64_to_dec(n / 10);
        s.append(digit_str(n % 10));
        s
    }
}

/// The fractional tail of a milli-unit value: empty for a whole
/// number, otherwise a point and one to three digits with trailing
/// zeros trimmed.
pub open spec fn frac_rep(f: int) -> Seq<char> {
    if f == 0 {
        Seq::<char>::empty()
    } else if f % 10 != 0 {
        seq!['.', digit_char(f / 100), digit_char((f / 10) % 10), digit_char(f % 10)]
    } else if f % 100 != 0 {
        seq!['.', digit_char(f / 100), digit_char((f / 10) % 10)]
    } else {
        seq!['.', digit_char(f / 100)]
    }
}

/// Decimal rendering of a milli-unit value: optional sign, whole part,
/// and trimmed fractional tail.
pub open spec fn milli_rep(v: int) -> Seq<char> {
    if v >= 0 {
        dec_rep((v / 1000) as nat) + frac_rep(v % 1000)
    } else {
        seq!['-'] + dec_rep(((-v) / 1000) as nat) + frac_rep((-v) % 1000)
    }
}

/// Renders a milli-unit value in decimal, trimming trailing zeros of
/// the fraction.
pub fn render_milli(v: i64) -> (r: String)
    requires
        -REAL_LIMIT <= v <= REAL_LIMIT,
    ensures
        r@ == milli_rep(v as int),
{
    proof {
        reveal_strlit("-");
        reveal_strlit(".");
    }
    let a: u64 = if v < 0 {
        (-v) as u64
    } else {
        v as u64
    };
    let mut s = if v < 0 {
        String::from_str("-")
    } else {
        String::new()
    };
    let whole = u64_to_dec(a / 1000);
    s.append(whole.as_str());
    let f = a % 1000;
    if f != 0 {
        s.append(".");
        s.append(digit_str(f / 100));
        if f % 10 != 0 {
            s.append(digit_str((f / 10) % 10));
            s.append(digit_str(f % 10));
        } else if f % 100 != 0 {
            s.append(digit_str((f / 10) % 10));
        }
    }
    proof {
        if v >= 0 {
            assert(s@ =~= milli_rep(v as int));
        } else {
            assert(s@ =~= milli_rep(v as int));
        }
    }
    s
}

/// Decimal rendering of a non-negative value counted in hundredths,
/// always with two digits after the point.
pub open spec fn hundredths_rep(h: int) -> Seq<char> {
    dec_rep((h / 100) as nat) + seq!['.', digit_char((h / 10) % 10), digit_char(h % 10)]
}

/// Renders a non-negative count of hundredths with exactly two digits
/// after the point.
pub fn render_hundredths(h: u64) -> (r: String)
    ensures
        r@ == hundredths_rep(h as int),
{
    proof {
        reveal_strlit(".");
    }
    let mut s = u64_to_dec(h / 100);
    s.append(".");
    s.append(digit_str((h / 10) % 10));
    s.append(digit_str(h % 10));
    proof {
        assert(s@ =~= hundredths_rep(h as int));
    }
    s
}

/// Whether `c` is a decimal digit.
pub open spec fn is_digit(c: char) -> bool {
    48 <= (c as u32) <= 57
}

/// Numeric value of a digit character.
pub open spec fn digit_val(c: char) -> int {
    (c as u32) - 48
}

/// Every character of `s` is a decimal digit.
pub open spec fn all_digits(s: Seq<char>) -> bool {
    forall|i: int| 0 <= i < s.len() ==> is_digit(#[trigger] s[i])
}

/// The number written by a digit string, most significant first.
pub open spec fn digits_val(s: Seq<char>) -> int
    decreases s.len(),
{
    if s.len() == 0 {
        0
    } else {
        digits_val(s.drop_last()) * 10 + digit_val(s.last())
    }
}

/// Position of the first point in `s`, or `s.len()` when there is none.
pub open spec fn dot_pos(s: Seq<char>) -> int
    decreases s.len(),
{
    if s.len() == 0 {
        0
    } else if s[0] == '.' {
        0
    } else {
        1 + dot_pos(s.skip(1))
    }
}

/// The string without its leading sign.
pub open spec fn sign_body(s: Seq<char>) -> Seq<char> {
    if s.len() > 0 && s[0] == '-' {
        s.skip(1)
    } else {
        s
    }
}

/// Whether the string carries a leading minus sign.
pub open spec fn is_neg_str(s: Seq<char>) -> bool {
    s.len() > 0 && s[0] == '-'
}

/// Shape of an accepted decimal: optional sign, at least one whole
/// digit, and optionally a point followed by one to three digits.
pub open spec fn valid_real_str(s: Seq<char>) -> bool {
    let b = sign_body(s);
    let d = dot_pos(b);
    &&& d >= 1
    &&& all_digits(b.take(d))
    &&& (d == b.len() || (1 <= b.len() - d - 1 <= 3 && all_digits(b.skip(d + 1))))
}

/// Scale that brings a fraction of the given length to thousandths.
pub open spec fn frac_scale(len: int) -> int {
    if len == 1 {
        100
    } else if len == 2 {
        10
    } else {
        1
    }
}

/// The value in thousandths written by an accepted decimal string.
pub open spec fn real_milli_val(s: Seq<char>) -> int {
    let b = sign_body(s);
    let d = dot_pos(b);
    let mag = digits_val(b.take(d)) * 1000 + if d < b.len() {
        digits_val(b.skip(d + 1)) * frac_scale(b.len() - d - 1)
    } else {
        0
    };
    if is_neg_str(s) {
        -mag
    } else {
        mag
    }
}

/// What parsing yields: the value for an accepted, in-range decimal
/// string, nothing otherwise.
pub open spec fn parse_milli_spec(s: Seq<char>) -> Option<int> {
    if valid_real_str(s) && -REAL_LIMIT <= real_milli_val(s) <= REAL_LIMIT {
        Option::Some(real_milli_val(s))
    } else {
        Option::<int>::None
    }
}

/// A digit string writes a non-negative number.
proof fn lemma_digits_val_nonneg(s: Seq<char>)
    requires
        all_digits(s),
    ensures
        digits_val(s) >= 0,
    decreases s.len(),
{
    if s.len() > 0 {
        assert(all_digits(s.drop_last())) by {
            assert(forall|i: int|
                0 <= i < s.len() - 1 ==> is_digit(#[trigger] s.drop_last()[i]) == is_digit(s[i]));
        }
        lemma_digits_val_nonneg(s.drop_last());
        assert(is_digit(s.last()));
        assert(digits_val(s.drop_last()) * 10 >= 0) by (nonlinear_arith)
            requires
                digits_val(s.drop_last()) >= 0,
        ;
    }
}

/// Extending a digit string multiplies its value by ten and adds the
/// new digit.
proof fn lemma_digits_val_step(b: Seq<char>, k: int)
    requires
        0 <= k < b.len(),
    ensures
        digits_val(b.take(k + 1)) == digits_val(b.take(k)) * 10 + digit_val(b[k]),
{
    assert(b.take(k + 1).drop_last() =~= b.take(k));
    assert(b.take(k + 1).last() == b[k]);
}

/// A digit string is worth at least any of its prefixes.
proof fn lemma_digits_prefix_le(b: Seq<char>, k: int, l: int)
    requires
        0 <= k <= l <= b.len(),
        all_digits(b.take(l)),
    ensures
        digits_val(b.take(k)) <= digits_val(b.take(l)),
    decreases l - k,
{
    if k < l {
        lemma_digits_prefix_le(b, k, l - 1);
        assert(all_digits(b.take(l - 1))) by {
            assert(forall|i: int|
                0 <= i < l - 1 ==> is_digit(#[trigger] b.take(l - 1)[i]) == is_digit(b.take(l)[i]));
        }
        lemma_digits_val_nonneg(b.take(l - 1));
        lemma_digits_val_step(b, l - 1);
        assert(is_digit(b.take(l)[l - 1]));
        assert(digits_val(b.take(l - 1)) * 10 >= digits_val(b.take(l - 1))) by (nonlinear_arith)
            requires
                digits_val(b.take(l - 1)) >= 0,
        ;
    }
}

/// `dot_pos` finds exactly the first point.
proof fn lemma_dot_pos_at(b: Seq<char>, j: int)
    requires
        0 <= j <= b.len(),
        forall|i: int| 0 <= i < j ==> b[i] != '.',
        j == b.len() || b[j] == '.',
    ensures
        dot_pos(b) == j,
    decreases j,
{
    if b.len() == 0 {
    } else if j == 0 {
    } else {
        assert(b[0] != '.');
        lemma_dot_pos_at(b.skip(1), j - 1);
    }
}

/// Where `dot_pos` lands inside the string, a point stands there, and
/// none stands earlier.
proof fn lemma_dot_pos_found(b: Seq<char>)
    ensures
        0 <= dot_pos(b) <= b.len(),
        dot_pos(b) < b.len() ==> b[dot_pos(b)] == '.',
        forall|i: int| 0 <= i < dot_pos(b) ==> b[i] != '.',
    decreases b.len(),
{
    if b.len() == 0 {
    } else if b[0] == '.' {
    } else {
        lemma_dot_pos_found(b.skip(1));
        assert forall|i: int| 0 <= i < dot_pos(b) implies b[i] != '.' by {
            if i > 0 {
                assert(b.skip(1)[i - 1] != '.');
            }
        }
    }
}

/// The decimal rendering of `n` consists of digits and writes back
/// exactly `n`.
pub proof fn lemma_dec_rep_digits(n: nat)
    ensures
        all_digits(dec_rep(n)),
        digits_val(dec_rep(n)) == n,
        dec_rep(n).len() >= 1,
    decreases n,
{
    reveal_with_fuel(digits_val, 3);
    if n < 10 {
        let s = dec_rep(n);
        assert(s =~= seq![digit_char(n as int)]);
        assert(is_digit(digit_char(n as int)));
        assert(s.drop_last() =~= Seq::<char>::empty());
        assert(digits_val(s) == digit_val(digit_char(n as int)));
    } else {
        lemma_dec_rep_digits(n / 10);
        let pre = dec_rep(n / 10);
        let c = digit_char((n % 10) as int);
        let s = dec_rep(n);
        assert(s == pre + seq![c]);
        assert(s.drop_last() =~= pre);
        assert(s.last() == c);
        assert forall|i: int| 0 <= i < s.len() implies is_digit(#[trigger] s[i]) by {
            if i < pre.len() {
                assert(s[i] == pre[i]);
            } else {
                assert(s[i] == c);
            }
        }
        vstd::arithmetic::div_mod::lemma_fundamental_div_mod(n as int, 10);
        assert(digits_val(s) == digits_val(pre) * 10 + digit_val(c));
    }
}

/// The trimmed fractional tail of a non-zero fraction: a point, then
/// one to three digits that scale back to exactly `f` thousandths.
proof fn lemma_frac_digits(f: int)
    requires
        1 <= f <= 999,
    ensures
        2 <= frac_rep(f).len() <= 4,
        frac_rep(f)[0] == '.',
        all_digits(frac_rep(f).skip(1)),
        digits_val(frac_rep(f).skip(1)) * frac_scale(frac_rep(f).len() - 1) == f,
{
    reveal_with_fuel(digits_val, 5);
    vstd::arithmetic::div_mod::lemma_mod_bound(f, 10);
    vstd::arithmetic::div_mod::lemma_mod_bound(f, 100);
    vstd::arithmetic::div_mod::lemma_mod_bound(f / 10, 10);
    assert(0 <= f / 100 <= 9) by (nonlinear_arith)
        requires
            1 <= f <= 999,
    ;
    vstd::arithmetic::div_mod::lemma_fundamental_div_mod(f, 10);
    vstd::arithmetic::div_mod::lemma_fundamental_div_mod(f / 10, 10);
    vstd::arithmetic::div_mod::lemma_div_denominator(f, 10, 10);
    assert(f / 10 / 10 == f / 100);
    let d2 = digit_char(f / 100);
    let d1 = digit_char((f / 10) % 10);
    let d0 = digit_char(f % 10);
    if f % 10 != 0 {
        let tail = frac_rep(f).skip(1);
        assert(tail =~= seq![d2, d1, d0]);
        assert(tail.drop_last() =~= seq![d2, d1]);
        assert(tail.drop_last().drop_last() =~= seq![d2]);
        assert(seq![d2].drop_last() =~= Seq::<char>::empty());
        assert(digits_val(tail) == (digit_val(d2) * 10 + digit_val(d1)) * 10 + digit_val(d0));
    } else if f % 100 != 0 {
        let tail = frac_rep(f).skip(1);
        assert(tail =~= seq![d2, d1]);
        assert(tail.drop_last() =~= seq![d2]);
        assert(seq![d2].drop_last() =~= Seq::<char>::empty());
        assert(digits_val(tail) == digit_val(d2) * 10 + digit_val(d1));
        vstd::arithmetic::div_mod::lemma_fundamental_div_mod(f, 100);
    } else {
        let tail = frac_rep(f).skip(1);
        assert(tail =~= seq![d2]);
        assert(seq![d2].drop_last() =~= Seq::<char>::empty());
        assert(digits_val(tail) == digit_val(d2));
        vstd::arithmetic::div_mod::lemma_fundamental_div_mod(f, 100);
    }
}

/// A digit string holds no point and no sign.
proof fn lemma_digits_not_special(s: Seq<char>)
    requires
        all_digits(s),
    ensures
        forall|i: int| 0 <= i < s.len() ==> s[i] != '.' && s[i] != '-',
{
    assert forall|i: int| 0 <= i < s.len() implies s[i] != '.' && s[i] != '-' by {
        assert(is_digit(s[i]));
    }
}

/// An in-range milli-unit value, rendered and parsed again, comes back
/// exactly.
#[verifier::rlimit(100)]
pub proof fn lemma_milli_roundtrip(m: int)
    requires
        -REAL_LIMIT <= m <= REAL_LIMIT,
    ensures
        parse_milli_spec(milli_rep(m)) == Option::Some(m),
{
    let a = if m >= 0 {
        m
    } else {
        -m
    };
    let q = a / 1000;
    let f = a % 1000;
    vstd::arithmetic::div_mod::lemma_mod_bound(a, 1000);
    vstd::arithmetic::div_mod::lemma_fundamental_div_mod(a, 1000);
    lemma_dec_rep_digits(q as nat);
    let whole = dec_rep(q as nat);
    lemma_digits_not_special(whole);
    let s = milli_rep(m);
    let unsigned = whole + frac_rep(f);
    assert(s == if m >= 0 {
        unsigned
    } else {
        seq!['-'] + unsigned
    });
    // The sign splits off exactly.
    let b = sign_body(s);
    if m >= 0 {
        assert(s[0] == whole[0]);
        assert(!is_neg_str(s));
        assert(b == s);
    } else {
        assert(s[0] == '-');
        assert(is_neg_str(s));
        assert(b =~= unsigned);
    }
    assert(b == unsigned);
    let d = whole.len() as int;
    if f == 0 {
        assert(b =~= whole);
        lemma_dot_pos_at(b, d);
        assert(b.take(d) =~= whole);
        assert(valid_real_str(s));
        assert(real_milli_val(s) == if m >= 0 {
            q * 1000
        } else {
            -(q * 1000)
        });
        assert(q * 1000 == a);
    } else {
        lemma_frac_digits(f);
        assert forall|i: int| 0 <= i < d implies b[i] != '.' by {
            assert(b[i] == whole[i]);
        }
        assert(b[d] == frac_rep(f)[0]);
        lemma_dot_pos_at(b, d);
        assert(b.take(d) =~= whole);
        assert(b.skip(d + 1) =~= frac_rep(f).skip(1));
        assert(b.len() - d - 1 == frac_rep(f).len() - 1);
        assert(valid_real_str(s));
        let mag = digits_val(b.take(d)) * 1000 + digits_val(b.skip(d + 1)) * frac_scale(
            b.len() - d - 1,
        );
        assert(mag == q * 1000 + f);
        assert(mag == a);
        assert(real_milli_val(s) == if m >= 0 {
            a
        } else {
            -a
        });
    }
}

/// Whether the character at `i` is a decimal digit.
fn char_at_is_digit(s: &str, i: usize) -> (r: bool)
    requires
        i < s@.len(),
    ensures
        r == is_digit(s@[i as int]),
{
    let cu = s.get_char(i) as u32;
    48 <= cu && cu <= 57
}

/// The digit at position `i`.
fn digit_at(s: &str, i: usize) -> (d: u64)
    requires
        i < s@.len(),
        is_digit(s@[i as int]),
    ensures
        d as int == digit_val(s@[i as int]),
        d < 10,
{
    (s.get_char(i) as u32 - 48) as u64
}

/// Compares two strings character by character.
pub fn str_eq(a: &str, b: &str) -> (r: bool)
    ensures
        r == (a@ == b@),
{
    let la = a.unicode_len();
    let lb = b.unicode_len();
    if la != lb {
        return false;
    }
    let mut i: usize = 0;
    while i < la
        invariant
            a@.len() == la,
            b@.len() == lb,
            la == lb,
            i <= la,
            forall|t: int| 0 <= t < i ==> a@[t] == b@[t],
        decreases la - i,
    {
        let ca = a.get_char(i);
        let cb = b.get_char(i);
        if ca != cb {
            return false;
        }
        i += 1;
    }
    proof {
        assert(a@ =~= b@);
    }
    true
}

/// Parses a decimal string into thousandths.  Accepted shape: optional
/// minus, at least one whole digit, optionally a point with one to
/// three fraction digits; the value must not exceed `REAL_LIMIT` in
/// magnitude.
#[verifier::rlimit(60)]
pub fn parse_milli(s: &str) -> (r: Option<i64>)
    ensures
        r is Some <==> parse_milli_spec(s@) is Some,
        r is Some ==> parse_milli_spec(s@) == Option::Some(r->0 as int),
{
    let len = s.unicode_len();
    let neg = len > 0 && s.get_char(0) == '-';
    let start: usize = if neg {
        1
    } else {
        0
    };
    let ghost b = sign_body(s@);
    proof {
        assert(neg == is_neg_str(s@));
        assert(b =~= s@.skip(start as int));
        assert(b.len() == len - start);
        assert(forall|t: int| 0 <= t < b.len() ==> b[t] == s@[start + t]);
    }
    let mut i: usize = start;
    let mut intval: i64 = 0;
    let mut over = false;
    while i < len && char_at_is_digit(s, i)
        invariant
            s@.len() == len,
            b == sign_body(s@),
            neg == is_neg_str(s@),
            start == if neg {
                1usize
            } else {
                0usize
            },
            b.len() == len - start,
            forall|t: int| 0 <= t < b.len() ==> b[t] == s@[start + t],
            start <= i <= len,
            all_digits(b.take(i - start)),
            !over ==> intval as int == digits_val(b.take(i - start)) && 0 <= intval
                <= 1_000_000_000,
            over ==> digits_val(b.take(i - start)) > 1_000_000_000,
        decreases len - i,
    {
        let d = digit_at(s, i);
        proof {
            assert(b[i - start] == s@[i as int]);
            lemma_digits_val_step(b, i - start);
            assert(all_digits(b.take(i - start + 1))) by {
                assert(forall|t: int|
                    0 <= t < i - start ==> #[trigger] b.take(i - start + 1)[t] == b.take(
                        i - start,
                    )[t]);
                assert(b.take(i - start + 1)[i - start] == b[i - start]);
            }
        }
        if !over {
            let nv = intval * 10 + (d as i64);
            if nv > 1_000_000_000 {
                over = true;
            } else {
                intval = nv;
            }
        } else {
            proof {
                lemma_digits_val_nonneg(b.take(i - start));
                assert(digits_val(b.take(i - start)) * 10 + digit_val(b[i - start])
                    > 1_000_000_000) by (nonlinear_arith)
                    requires
                        digits_val(b.take(i - start)) > 1_000_000_000,
                        digit_val(b[i - start]) >= 0,
                ;
            }
        }
        i += 1;
    }
    let ghost q = i - start;
    if i >= len {
        // Whole number: the point position is the end of the body.
        proof {
            assert forall|t: int| 0 <= t < q implies b[t] != '.' by {
                assert(is_digit(b.take(q)[t]));
            }
            lemma_dot_pos_at(b, q);
        }
        if i == start {
            return Option::None;
        }
        if over {
            proof {
                assert(real_milli_val(s@) > REAL_LIMIT || real_milli_val(s@) < -REAL_LIMIT) by {
                    assert(digits_val(b.take(q)) * 1000 > 1_000_000_000_000) by (nonlinear_arith)
                        requires
                            digits_val(b.take(q)) > 1_000_000_000,
                    ;
                }
            }
            return Option::None;
        }
        let mag = intval * 1000;
        let v = if neg {
            -mag
        } else {
            mag
        };
        proof {
            assert(b.take(q) =~= b);
            assert(valid_real_str(s@));
            assert(real_milli_val(s@) == v as int);
        }
        return Option::Some(v);
    }
    let c = s.get_char(i);
    proof {
        assert(c == b[q]);
        assert(!is_digit(c));
    }
    if c != '.' {
        proof {
            lemma_dot_pos_found(b);
            if valid_real_str(s@) {
                let d = dot_pos(b);
                if d > q {
                    assert(is_digit(b.take(d)[q]));
                } else if d < q {
                    assert(is_digit(b.take(q)[d]));
                    assert(b[d] == '.');
                } else {
                    assert(b[d] == '.');
                }
                assert(false);
            }
        }
        return Option::None;
    }
    proof {
        assert forall|t: int| 0 <= t < q implies b[t] != '.' by {
            assert(is_digit(b.take(q)[t]));
        }
        lemma_dot_pos_at(b, q);
    }
    if i == start {
        return Option::None;
    }
    let ghost fb = b.skip(q + 1);
    proof {
        assert(fb.len() == b.len() - q - 1);
        assert(forall|t: int| 0 <= t < fb.len() ==> fb[t] == s@[i + 1 + t]);
    }
    let mut j: usize = i + 1;
    let mut fracval: i64 = 0;
    let mut cnt: usize = 0;
    while j < len && cnt < 4 && char_at_is_digit(s, j)
        invariant
            s@.len() == len,
            b == sign_body(s@),
            neg == is_neg_str(s@),
            start == if neg {
                1usize
            } else {
                0usize
            },
            b.len() == len - start,
            forall|t: int| 0 <= t < b.len() ==> b[t] == s@[start + t],
            q == i - start,
            start < i < len,
            fb == b.skip(q + 1),
            fb.len() == len - i - 1,
            forall|t: int| 0 <= t < fb.len() ==> fb[t] == s@[i + 1 + t],
            i + 1 <= j <= len,
            cnt == j - i - 1,
            all_digits(fb.take(cnt as int)),
            cnt <= 3 ==> fracval as int == digits_val(fb.take(cnt as int)),
            cnt == 0 ==> fracval == 0,
            cnt == 1 ==> fracval <= 9,
            cnt == 2 ==> fracval <= 99,
            cnt >= 3 ==> fracval <= 999,
            0 <= fracval,
            cnt <= 4,
        decreases len - j,
    {
        let d = digit_at(s, j);
        proof {
            assert(fb[cnt as int] == s@[j as int]);
            lemma_digits_val_step(fb, cnt as int);
            assert(all_digits(fb.take(cnt + 1))) by {
                assert(forall|t: int|
                    0 <= t < cnt ==> #[trigger] fb.take(cnt + 1)[t] == fb.take(cnt as int)[t]);
                assert(fb.take(cnt + 1)[cnt as int] == fb[cnt as int]);
            }
        }
        if cnt < 3 {
            fracval = fracval * 10 + (d as i64);
        }
        cnt = cnt + 1;
        j += 1;
    }
    if cnt == 0 || cnt >= 4 {
        proof {
            if valid_real_str(s@) {
                assert(dot_pos(b) == q);
                assert(1 <= b.len() - q - 1 <= 3);
                if cnt == 0 && j < len {
                    assert(is_digit(b.skip(q + 1)[0]));
                    assert(b.skip(q + 1)[0] == b[q + 1]);
                    assert(b[q + 1] == s@[j as int]);
                }
                assert(false);
            }
        }
        return Option::None;
    }
    if j < len {
        proof {
            if valid_real_str(s@) {
                assert(dot_pos(b) == q);
                assert(is_digit(b.skip(q + 1)[j - start - q - 1]));
                assert(b.skip(q + 1)[j - start - q - 1] == b[j - start]);
                assert(b[j - start] == s@[j as int]);
                assert(false);
            }
        }
        return Option::None;
    }
    if over {
        proof {
            lemma_digits_val_nonneg(fb.take(cnt as int));
            assert(real_milli_val(s@) > REAL_LIMIT || real_milli_val(s@) < -REAL_LIMIT) by {
                assert(digits_val(b.take(q)) * 1000 > 1_000_000_000_000) by (nonlinear_arith)
                    requires
                        digits_val(b.take(q)) > 1_000_000_000,
                ;
                assert(fb.take(cnt as int) =~= fb);
                assert(digits_val(fb) * frac_scale(fb.len() as int) >= 0) by (nonlinear_arith)
                    requires
                        digits_val(fb) >= 0,
                        frac_scale(fb.len() as int) >= 1,
                ;
            }
        }
        return Option::None;
    }
    let scale: i64 = if cnt == 1 {
        100
    } else if cnt == 2 {
        10
    } else {
        1
    };
    let mag = intval * 1000 + fracval * scale;
    proof {
        assert(fb.take(cnt as int) =~= fb);
        assert(valid_real_str(s@));
        assert(real_milli_val(s@) == if neg {
            -(mag as int)
        } else {
            mag as int
        });
    }
    if mag > REAL_LIMIT {
        return Option::None;
    }
    let v = if neg {
        -mag
    } else {
        mag
    };
    Option::Some(v)
}

} // verus!
