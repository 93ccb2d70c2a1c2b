//! The text forms in which MySQL sends numbers, dates and times over the text
//! protocol, and how they are read back into their parts.

use vstd::prelude::*;
use crate::text::{chars_of, dec_digits, dec_padded, digit_char, join_with, lemma_split_join, split_char, split_on, zero_pad};

verus! {

/// `c` is a decimal digit.
pub open spec fn is_digit(c: char) -> bool {
    '0' <= c && c <= '9'
}

/// Every character of `s` is a decimal digit.
pub open spec fn all_digits(s: Seq<char>) -> bool {
    forall|i: int| 0 <= i < s.len() ==> is_digit(#[trigger] s[i])
}

/// A non-empty run of decimal digits.
pub open spec fn is_numeral(s: Seq<char>) -> bool {
    s.len() > 0 && all_digits(s)
}

/// The value of a run of decimal digits, most significant first.
pub open spec fn digits_value(s: Seq<char>) -> nat
    decreases s.len(),
{
    if s.len() == 0 {
        0
    } else {
        digits_value(s.drop_last()) * 10 + ((s.last() as int - 48) as nat)
    }
}

/// Ten to the power `n`.
pub open spec fn pow10(n: nat) -> nat
    decreases n,
{
    if n == 0 {
        1
    } else {
        10 * pow10((n - 1) as nat)
    }
}

proof fn lemma_pow10_mono(n: nat, m: nat)
    requires
        n <= m,
    ensures
        pow10(n) <= pow10(m),
    decreases m,
{
    if n < m {
        lemma_pow10_mono(n, (m - 1) as nat);
    }
}

proof fn lemma_pow10_19()
    ensures
        pow10(19) == 10000000000000000000,
{
    reveal_with_fuel(pow10, 20);
}

/// A run of `n` digits is worth less than `10^n`.
pub proof fn lemma_digits_value_bound(s: Seq<char>)
    requires
        all_digits(s),
    ensures
        digits_value(s) < pow10(s.len()),
    decreases s.len(),
{
    if s.len() > 0 {
        let t = s.drop_last();
        assert(all_digits(t)) by {
            assert forall|i: int| 0 <= i < t.len() implies is_digit(#[trigger] t[i]) by {
                assert(t[i] == s[i]);
            }
        }
        lemma_digits_value_bound(t);
        assert(is_digit(s[s.len() - 1]));
    }
}

/// A longer run of digits is worth at least as much as its prefix.
proof fn lemma_digits_value_grows(s: Seq<char>, i: int)
    requires
        all_digits(s),
        0 <= i <= s.len(),
    ensures
        digits_value(s.take(i)) <= digits_value(s),
    decreases s.len() - i,
{
    if i < s.len() {
        lemma_digits_value_grows(s, i + 1);
        assert(s.take(i + 1).drop_last() =~= s.take(i));
        assert(is_digit(s[i]));
    } else {
        assert(s.take(i) =~= s);
    }
}

/// The value of the digits `cs[start..end]`, when they form a numeral whose
/// value fits in a `u64`.
pub fn numeral_value(cs: &Vec<char>, start: usize, end: usize) -> (r: Option<u64>)
    requires
        start <= end <= cs@.len(),
    ensures
        r is Some <==> (is_numeral(cs@.subrange(start as int, end as int)) && digits_value(
            cs@.subrange(start as int, end as int),
        ) <= u64::MAX),
        r matches Some(v) ==> v == digits_value(cs@.subrange(start as int, end as int)),
        is_numeral(cs@.subrange(start as int, end as int)) && end - start <= 19 ==> r is Some,
{
    let ghost s = cs@.subrange(start as int, end as int);
    proof {
        if all_digits(s) && s.len() <= 19 {
            lemma_digits_value_bound(s);
            lemma_pow10_mono(s.len(), 19);
            lemma_pow10_19();
        }
    }
    if start == end {
        return None;
    }
    let mut v: u64 = 0;
    let mut i: usize = start;
    assert(s.take(0) =~= Seq::<char>::empty());
    while i < end
        invariant
            start <= i <= end <= cs@.len(),
            s == cs@.subrange(start as int, end as int),
            all_digits(s.take(i - start)),
            v == digits_value(s.take(i - start)),
            all_digits(s) && s.len() <= 19 ==> digits_value(s) <= u64::MAX,
        decreases end - i,
    {
        let c = cs[i];
        assert(s[i - start] == c);
        if !('0' <= c && c <= '9') {
            return None;
        }
        let ghost k = (i - start) as int;
        assert(s.take(k + 1).drop_last() =~= s.take(k));
        assert(s.take(k + 1).last() == c);
        let d: u64 = ((c as u32) - 48) as u64;
        match v.checked_mul(10) {
            None => {
                proof {
                    if all_digits(s) {
                        lemma_digits_value_grows(s, k + 1);
                    }
                }
                return None;
            },
            Some(m) => match m.checked_add(d) {
                None => {
                    proof {
                        if all_digits(s) {
                            lemma_digits_value_grows(s, k + 1);
                        }
                    }
                    return None;
                },
                Some(w) => {
                    v = w;
                },
            },
        }
        assert(all_digits(s.take(k + 1))) by {
            assert forall|j: int| 0 <= j < k + 1 implies is_digit(#[trigger] s.take(k + 1)[j]) by {
                if j < k {
                    assert(s.take(k + 1)[j] == s.take(k)[j]);
                }
            }
        }
        i = i + 1;
    }
    assert(s.take(end - start) =~= s);
    Some(v)
}

/// `n` zero characters.
pub open spec fn zeros(n: nat) -> Seq<char> {
    Seq::new(n, |i: int| '0')
}

proof fn lemma_digit_char(c: char)
    requires
        is_digit(c),
    ensures
        digit_char((c as int - 48) as nat) == c,
{
}

/// A numeral's decimal rendering is no longer than the numeral.
proof fn lemma_dec_digits_len(n: nat, k: nat)
    requires
        k >= 1,
        n < pow10(k),
    ensures
        dec_digits(n).len() <= k,
    decreases n,
{
    if n >= 10 {
        assert(k >= 2) by {
            if k == 1 {
                reveal_with_fuel(pow10, 2);
            }
        }
        assert(pow10(k) == 10 * pow10((k - 1) as nat));
        assert(n / 10 < pow10((k - 1) as nat)) by (nonlinear_arith)
            requires
                n < 10 * pow10((k - 1) as nat),
        ;
        lemma_dec_digits_len(n / 10, (k - 1) as nat);
    }
}

/// Digits worth nothing are all zeros.
proof fn lemma_zero_value(p: Seq<char>)
    requires
        all_digits(p),
        digits_value(p) == 0,
    ensures
        p == zeros(p.len()),
    decreases p.len(),
{
    if p.len() > 0 {
        let q = p.drop_last();
        assert(all_digits(q)) by {
            assert forall|i: int| 0 <= i < q.len() implies is_digit(#[trigger] q[i]) by {
                assert(q[i] == p[i]);
            }
        }
        assert(is_digit(p[p.len() - 1]));
        assert(digits_value(q) == 0);
        assert(p[p.len() - 1] == '0');
        lemma_zero_value(q);
        assert forall|i: int| 0 <= i < p.len() implies p[i] == zeros(p.len())[i] by {
            if i < q.len() {
                assert(p[i] == q[i]);
                assert(q[i] == zeros(q.len())[i]);
            }
        }
        assert(p =~= zeros(p.len()));
    }
}

/// Reading a numeral and rendering its value zero-padded to the numeral's
/// width gives the numeral back.
pub proof fn lemma_numeral_round_trip(s: Seq<char>)
    requires
        is_numeral(s),
    ensures
        dec_padded(digits_value(s), s.len()) == s,
    decreases s.len(),
{
    let p = s.drop_last();
    let c = s.last();
    assert(is_digit(c));
    let d = (c as int - 48) as nat;
    lemma_digit_char(c);
    assert(all_digits(p)) by {
        assert forall|i: int| 0 <= i < p.len() implies is_digit(#[trigger] p[i]) by {
            assert(p[i] == s[i]);
        }
    }
    let n = digits_value(s);
    assert(n == digits_value(p) * 10 + d);
    if n < 10 {
        assert(digits_value(p) == 0);
        lemma_zero_value(p);
        assert(n == d);
        assert(dec_digits(n) == seq![c]);
        assert(p.push(c) =~= s);
        if s.len() > 1 {
            assert(zero_pad(seq![c], s.len()) == Seq::new((s.len() - 1) as nat, |i: int| '0') + seq![c]);
            assert(Seq::new((s.len() - 1) as nat, |i: int| '0') == zeros(p.len()));
            assert(zeros(p.len()) + seq![c] =~= p.push(c));
        }
        assert(dec_padded(n, s.len()) =~= s);
    } else {
        assert(p.len() > 0);
        assert(n / 10 == digits_value(p) && n % 10 == d) by (nonlinear_arith)
            requires
                n == digits_value(p) * 10 + d,
                d < 10,
        ;
        lemma_numeral_round_trip(p);
        lemma_digits_value_bound(p);
        lemma_dec_digits_len(digits_value(p), p.len());
        let x = dec_digits(digits_value(p));
        assert(dec_digits(n) == x.push(c));
        assert(zero_pad(x, p.len()) == p);
        assert(p.push(c) =~= s);
        if x.len() < p.len() {
            let z = Seq::new((p.len() - x.len()) as nat, |i: int| '0');
            assert(zero_pad(x, p.len()) == z + x);
            assert(zero_pad(x.push(c), s.len()) == z + x.push(c));
            assert(z + x.push(c) =~= (z + x).push(c));
        } else {
            assert(zero_pad(x, p.len()) == x);
            assert(zero_pad(x.push(c), s.len()) == x.push(c));
        }
        assert(dec_padded(n, s.len()) =~= s);
    }
}

/// Appending zeros to a numeral multiplies its value by ten per zero.
pub proof fn lemma_append_zeros(f: Seq<char>, z: nat)
    requires
        is_numeral(f),
    ensures
        is_numeral(f + zeros(z)),
        digits_value(f + zeros(z)) == digits_value(f) * pow10(z),
    decreases z,
{
    if z == 0 {
        assert(f + zeros(0) =~= f);
        assert(pow10(0) == 1);
        assert(digits_value(f) * pow10(z) == digits_value(f));
    } else {
        lemma_append_zeros(f, (z - 1) as nat);
        let g = f + zeros((z - 1) as nat);
        assert(f + zeros(z) =~= g.push('0'));
        assert((f + zeros(z)).drop_last() =~= g);
        assert((f + zeros(z)).last() == '0');
        assert(digits_value(f + zeros(z)) == digits_value(g) * 10);
        assert(all_digits(f + zeros(z))) by {
            assert forall|i: int| 0 <= i < (f + zeros(z)).len() implies is_digit(#[trigger] (f + zeros(z))[i]) by {
                if i < g.len() {
                    assert((f + zeros(z))[i] == g[i]);
                }
            }
        }
        let a = digits_value(f);
        let b = pow10((z - 1) as nat);
        assert(pow10(z) == 10 * b);
        assert(a * b * 10 == a * (10 * b)) by (nonlinear_arith);
        assert(digits_value(g) == a * b);
    }
}

/// The pieces split off a text at `sep`, when there are two or three, joined
/// back with `sep` give the text.
pub proof fn lemma_split_pieces(t: Seq<char>, sep: char)
    ensures
        split_on(t, sep).len() == 2 ==> t == split_on(t, sep)[0].push(sep) + split_on(t, sep)[1],
        split_on(t, sep).len() == 3 ==> t == split_on(t, sep)[0].push(sep) + split_on(t, sep)[1].push(sep) + split_on(
            t,
            sep,
        )[2],
{
    let p = split_on(t, sep);
    lemma_split_join(t, sep);
    if p.len() == 2 {
        assert(p.drop_last().len() == 1);
        assert(join_with(p.drop_last(), sep) == p[0]);
        assert(join_with(p, sep) == join_with(p.drop_last(), sep).push(sep) + p.last());
    }
    if p.len() == 3 {
        let q = p.drop_last();
        assert(q.drop_last().len() == 1);
        assert(join_with(q.drop_last(), sep) == p[0]);
        assert(join_with(q, sep) == join_with(q.drop_last(), sep).push(sep) + q.last());
        assert(join_with(p, sep) == join_with(q, sep).push(sep) + p.last());
        assert(p[0].push(sep) + p[1] + seq![sep] + p[2] =~= p[0].push(sep) + p[1].push(sep) + p[2]);
        assert((p[0].push(sep) + p[1]).push(sep) + p[2] =~= p[0].push(sep) + p[1].push(sep) + p[2]);
    }
}

// ---------------------------------------------------------------------------
// Integers

/// The value of an integer written as an optional minus sign and digits.
pub open spec fn integer_text_value(t: Seq<char>) -> Option<int> {
    if t.len() > 0 && t[0] == '-' {
        if is_numeral(t.skip(1)) {
            Some(-(digits_value(t.skip(1)) as int))
        } else {
            None
        }
    } else if is_numeral(t) {
        Some(digits_value(t) as int)
    } else {
        None
    }
}

/// A signed or unsigned 64-bit integer read from text.
pub enum IntegerText {
    Signed(i64),
    Unsigned(u64),
}

/// How an integer read from `t` is held: as `i64` when it fits, else as
/// `u64` when it fits, else not at all.
pub open spec fn integer_text(t: Seq<char>) -> Option<IntegerText> {
    match integer_text_value(t) {
        Some(v) => if i64::MIN <= v <= i64::MAX {
            Some(IntegerText::Signed(v as i64))
        } else if 0 <= v <= u64::MAX {
            Some(IntegerText::Unsigned(v as u64))
        } else {
            None
        },
        None => None,
    }
}

/// Reads an integer written as an optional minus sign and digits.
pub fn read_integer(t: &str) -> (r: Option<IntegerText>)
    ensures
        r == integer_text(t@),
{
    let cs = chars_of(t);
    let n = cs.len();
    let negative = n > 0 && cs[0] == '-';
    let start: usize = if negative { 1 } else { 0 };
    assert(cs@.subrange(start as int, n as int) =~= if negative { t@.skip(1) } else { t@ });
    match numeral_value(&cs, start, n) {
        None => None,
        Some(m) => {
            if negative {
                if m <= 9223372036854775808u64 {
                    if m == 9223372036854775808u64 {
                        Some(IntegerText::Signed(i64::MIN))
                    } else {
                        let v: i64 = m as i64;
                        Some(IntegerText::Signed(-v))
                    }
                } else {
                    None
                }
            } else if m <= 9223372036854775807u64 {
                Some(IntegerText::Signed(m as i64))
            } else {
                Some(IntegerText::Unsigned(m))
            }
        },
    }
}

// ---------------------------------------------------------------------------
// Decimal and floating-point numbers

/// One step of reading JSON number syntax: an optional minus sign, an integer
/// part without leading zeros, an optional fraction and an optional exponent.
/// State 9 means the text cannot be such a number.
pub open spec fn number_step(st: u8, c: char) -> u8 {
    let digit = '0' <= c && c <= '9';
    let exp = c == 'e' || c == 'E';
    if st == 0 {
        if c == '-' { 1 } else if c == '0' { 2 } else if digit { 3 } else { 9 }
    } else if st == 1 {
        if c == '0' { 2 } else if digit { 3 } else { 9 }
    } else if st == 2 {
        if c == '.' { 4 } else if exp { 6 } else { 9 }
    } else if st == 3 {
        if digit { 3 } else if c == '.' { 4 } else if exp { 6 } else { 9 }
    } else if st == 4 {
        if digit { 5 } else { 9 }
    } else if st == 5 {
        if digit { 5 } else if exp { 6 } else { 9 }
    } else if st == 6 {
        if c == '+' || c == '-' { 7 } else if digit { 8 } else { 9 }
    } else if st == 7 || st == 8 {
        if digit { 8 } else { 9 }
    } else {
        9
    }
}

/// The reading state after the characters of `t`.
pub open spec fn number_state(t: Seq<char>) -> u8
    decreases t.len(),
{
    if t.len() == 0 {
        0
    } else {
        number_step(number_state(t.drop_last()), t.last())
    }
}

/// `t` is a number in JSON syntax, as MySQL writes DECIMAL, FLOAT and DOUBLE
/// values.
pub open spec fn number_text(t: Seq<char>) -> bool {
    let st = number_state(t);
    st == 2 || st == 3 || st == 5 || st == 8
}

/// A sign of a JSON number: nothing or `-`.
pub open spec fn json_sign(s: Seq<char>) -> bool {
    s == Seq::<char>::empty() || s == seq!['-']
}

/// A numeral that does not start with `0`.
pub open spec fn nonzero_numeral(s: Seq<char>) -> bool {
    is_numeral(s) && s[0] != '0'
}

/// The integer part of a JSON number: `0`, or digits not starting with `0`.
pub open spec fn json_int_part(s: Seq<char>) -> bool {
    s == seq!['0'] || nonzero_numeral(s)
}

/// The fraction part of a JSON number: nothing, or `.` and digits.
pub open spec fn json_frac_part(s: Seq<char>) -> bool {
    s.len() == 0 || (s[0] == '.' && is_numeral(s.skip(1)))
}

/// `c` starts an exponent.
pub open spec fn is_exp_char(c: char) -> bool {
    c == 'e' || c == 'E'
}

/// The exponent part of a JSON number: nothing, or `e`/`E`, an optional
/// sign and digits.
pub open spec fn json_exp_part(s: Seq<char>) -> bool {
    s.len() == 0 || (is_exp_char(s[0]) && (is_numeral(s.skip(1)) || (s.len() > 1 && (s[1] == '+' || s[1] == '-')
        && is_numeral(s.skip(2)))))
}

/// A JSON number without its exponent: sign, integer part and fraction.
pub open spec fn json_mantissa(m: Seq<char>) -> bool {
    exists|sign: Seq<char>, whole: Seq<char>, frac: Seq<char>|
        json_sign(sign) && json_int_part(whole) && json_frac_part(frac) && m == sign + whole + frac
}

/// JSON number syntax: an optional minus sign, an integer part (`0` or digits
/// not starting with `0`), an optional fraction (`.` and digits) and an
/// optional exponent (`e` or `E`, an optional sign, digits).
pub open spec fn json_number_syntax(t: Seq<char>) -> bool {
    exists|m: Seq<char>, x: Seq<char>| json_mantissa(m) && json_exp_part(x) && t == m + x
}

/// The reading state after reading `s` from state `st`.
pub open spec fn number_run(st: u8, s: Seq<char>) -> u8
    decreases s.len(),
{
    if s.len() == 0 {
        st
    } else {
        number_step(number_run(st, s.drop_last()), s.last())
    }
}

proof fn lemma_run_from_start(t: Seq<char>)
    ensures
        number_state(t) == number_run(0, t),
    decreases t.len(),
{
    if t.len() > 0 {
        lemma_run_from_start(t.drop_last());
    }
}

proof fn lemma_run_concat(st: u8, a: Seq<char>, b: Seq<char>)
    ensures
        number_run(st, a + b) == number_run(number_run(st, a), b),
    decreases b.len(),
{
    if b.len() == 0 {
        assert(a + b =~= a);
    } else {
        assert((a + b).drop_last() =~= a + b.drop_last());
        assert((a + b).last() == b.last());
        lemma_run_concat(st, a, b.drop_last());
    }
}

proof fn lemma_run_one(st: u8, c: char)
    ensures
        number_run(st, seq![c]) == number_step(st, c),
        number_run(st, Seq::<char>::empty()) == st,
{
    reveal_with_fuel(number_run, 2);
    assert(seq![c].drop_last() =~= Seq::<char>::empty());
    assert(seq![c].last() == c);
}

/// Digits keep the states that read digits in a loop.
proof fn lemma_run_digits(st: u8, d: Seq<char>)
    requires
        all_digits(d),
        st == 3 || st == 5 || st == 8,
    ensures
        number_run(st, d) == st,
    decreases d.len(),
{
    if d.len() > 0 {
        let p = d.drop_last();
        assert(all_digits(p)) by {
            assert forall|i: int| 0 <= i < p.len() implies is_digit(#[trigger] p[i]) by {
                assert(p[i] == d[i]);
            }
        }
        lemma_run_digits(st, p);
        assert(is_digit(d[d.len() - 1]));
    }
}

/// A numeral read from state `st` ends in state `to`.
proof fn lemma_run_numeral(st: u8, d: Seq<char>, to: u8)
    requires
        is_numeral(d),
        (st == 3 && to == 3) || (st == 4 && to == 5) || (st == 5 && to == 5) || (st == 6 && to == 8) || (st == 7
            && to == 8) || (st == 8 && to == 8),
    ensures
        number_run(st, d) == to,
{
    let first = seq![d[0]];
    let rest = d.skip(1);
    assert(first + rest =~= d);
    lemma_run_concat(st, first, rest);
    lemma_run_one(st, d[0]);
    assert(is_digit(d[0]));
    assert(number_run(st, first) == to);
    assert(all_digits(rest)) by {
        assert forall|i: int| 0 <= i < rest.len() implies is_digit(#[trigger] rest[i]) by {
            assert(rest[i] == d[i + 1]);
        }
    }
    lemma_run_digits(to, rest);
}

/// Every text in JSON number syntax reads to an accepting state.
proof fn lemma_syntax_accepted(t: Seq<char>)
    requires
        json_number_syntax(t),
    ensures
        number_text(t),
{
    let (m, x) = choose|m: Seq<char>, x: Seq<char>| json_mantissa(m) && json_exp_part(x) && t == m + x;
    let (sign, whole, frac) = choose|sign: Seq<char>, whole: Seq<char>, frac: Seq<char>|
        json_sign(sign) && json_int_part(whole) && json_frac_part(frac) && m == sign + whole + frac;
    lemma_run_from_start(t);
    lemma_run_concat(0, m, x);
    lemma_run_concat(0, sign + whole, frac);
    lemma_run_concat(0, sign, whole);
    // the sign
    let s0 = number_run(0, sign);
    assert(s0 == 0 || s0 == 1) by {
        lemma_run_one(0, '-');
    }
    // the integer part
    let s1 = number_run(s0, whole);
    assert(s1 == 2 || s1 == 3) by {
        if whole == seq!['0'] {
            lemma_run_one(s0, '0');
        } else {
            let first = seq![whole[0]];
            let rest = whole.skip(1);
            assert(first + rest =~= whole);
            lemma_run_concat(s0, first, rest);
            lemma_run_one(s0, whole[0]);
            assert(is_digit(whole[0]));
            assert(number_run(s0, first) == 3);
            assert(all_digits(rest)) by {
                assert forall|i: int| 0 <= i < rest.len() implies is_digit(#[trigger] rest[i]) by {
                    assert(rest[i] == whole[i + 1]);
                }
            }
            lemma_run_digits(3, rest);
        }
    }
    // the fraction
    let s2 = number_run(s1, frac);
    assert(s2 == 2 || s2 == 3 || s2 == 5) by {
        if frac.len() > 0 {
            let dot = seq![frac[0]];
            let digits = frac.skip(1);
            assert(dot + digits =~= frac);
            lemma_run_concat(s1, dot, digits);
            lemma_run_one(s1, frac[0]);
            assert(number_run(s1, dot) == 4);
            lemma_run_numeral(4, digits, 5);
        }
    }
    // the exponent
    let s3 = number_run(s2, x);
    assert(s3 == 2 || s3 == 3 || s3 == 5 || s3 == 8) by {
        if x.len() > 0 {
            let e = seq![x[0]];
            lemma_run_one(s2, x[0]);
            assert(number_run(s2, e) == 6);
            if is_numeral(x.skip(1)) {
                assert(e + x.skip(1) =~= x);
                lemma_run_concat(s2, e, x.skip(1));
                lemma_run_numeral(6, x.skip(1), 8);
            } else {
                let eg = seq![x[0], x[1]];
                assert(eg.drop_last() =~= e);
                assert(eg.last() == x[1]);
                assert(number_run(s2, eg) == 7);
                assert(eg + x.skip(2) =~= x);
                lemma_run_concat(s2, eg, x.skip(2));
                lemma_run_numeral(7, x.skip(2), 8);
            }
        }
    }
}

/// What has been read when the reading is in state `st`.
spec fn state_language(st: u8, t: Seq<char>) -> bool {
    if st == 0 {
        t.len() == 0
    } else if st == 1 {
        t == seq!['-']
    } else if st == 2 {
        exists|sign: Seq<char>| json_sign(sign) && t == sign + seq!['0']
    } else if st == 3 {
        exists|sign: Seq<char>, whole: Seq<char>| json_sign(sign) && nonzero_numeral(whole) && t == sign + whole
    } else if st == 4 {
        exists|sign: Seq<char>, whole: Seq<char>|
            json_sign(sign) && json_int_part(whole) && t == sign + whole + seq!['.']
    } else if st == 5 {
        exists|sign: Seq<char>, whole: Seq<char>, f: Seq<char>|
            json_sign(sign) && json_int_part(whole) && is_numeral(f) && t == sign + whole + seq!['.'] + f
    } else if st == 6 {
        t.len() > 0 && json_mantissa(t.drop_last()) && is_exp_char(t.last())
    } else if st == 7 {
        t.len() > 1 && json_mantissa(t.drop_last().drop_last()) && is_exp_char(t[t.len() - 2]) && (t.last() == '+'
            || t.last() == '-')
    } else if st == 8 {
        exists|m: Seq<char>, x: Seq<char>| json_mantissa(m) && json_exp_part(x) && x.len() > 0 && t == m + x
    } else {
        true
    }
}

proof fn lemma_numeral_push(d: Seq<char>, c: char)
    requires
        all_digits(d),
        is_digit(c),
    ensures
        is_numeral(d.push(c)),
        d.len() > 0 ==> d.push(c)[0] == d[0],
{
    assert forall|i: int| 0 <= i < d.push(c).len() implies is_digit(#[trigger] d.push(c)[i]) by {
        if i < d.len() {
            assert(d.push(c)[i] == d[i]);
        }
    }
}

proof fn lemma_mantissa_of(sign: Seq<char>, whole: Seq<char>, frac: Seq<char>)
    requires
        json_sign(sign),
        json_int_part(whole),
        json_frac_part(frac),
    ensures
        json_mantissa(sign + whole + frac),
{
}

proof fn lemma_state_step(p: Seq<char>, c: char)
    requires
        state_language(number_state(p), p),
    ensures
        state_language(number_state(p.push(c)), p.push(c)),
{
    let t = p.push(c);
    let sp = number_state(p);
    assert(t.drop_last() =~= p);
    assert(t.last() == c);
    let st = number_step(sp, c);
    assert(number_state(t) == st);
    let e = Seq::<char>::empty();
    let digit = '0' <= c && c <= '9';
    if sp == 0 {
        assert(p =~= e);
        if c == '-' {
            assert(t =~= seq!['-']);
        } else if c == '0' {
            assert(t =~= e + seq!['0']);
            assert(json_sign(e) && t == e + seq!['0']);
        } else if digit {
            assert(t =~= e + seq![c]);
            assert(nonzero_numeral(seq![c]));
            assert(json_sign(e) && nonzero_numeral(seq![c]) && t == e + seq![c]);
        }
    } else if sp == 1 {
        assert(p == seq!['-']);
        if c == '0' {
            assert(t =~= seq!['-'] + seq!['0']);
            assert(json_sign(seq!['-']) && t == seq!['-'] + seq!['0']);
        } else if digit {
            assert(t =~= seq!['-'] + seq![c]);
            assert(nonzero_numeral(seq![c]));
            assert(json_sign(seq!['-']) && nonzero_numeral(seq![c]) && t == seq!['-'] + seq![c]);
        }
    } else if sp == 2 {
        let sign = choose|sign: Seq<char>| json_sign(sign) && p == sign + seq!['0'];
        if c == '.' {
            assert(t =~= sign + seq!['0'] + seq!['.']);
        } else if is_exp_char(c) {
            assert(p =~= sign + seq!['0'] + e);
            lemma_mantissa_of(sign, seq!['0'], e);
        }
    } else if sp == 3 {
        let (sign, whole) = choose|sign: Seq<char>, whole: Seq<char>|
            json_sign(sign) && nonzero_numeral(whole) && p == sign + whole;
        if digit {
            lemma_numeral_push(whole, c);
            assert(t =~= sign + whole.push(c));
            assert(nonzero_numeral(whole.push(c)));
        } else if c == '.' {
            assert(t =~= sign + whole + seq!['.']);
        } else if is_exp_char(c) {
            assert(p =~= sign + whole + e);
            lemma_mantissa_of(sign, whole, e);
        }
    } else if sp == 4 {
        let (sign, whole) = choose|sign: Seq<char>, whole: Seq<char>|
            json_sign(sign) && json_int_part(whole) && p == sign + whole + seq!['.'];
        if digit {
            assert(t =~= sign + whole + seq!['.'] + seq![c]);
            assert(is_numeral(seq![c]));
        }
    } else if sp == 5 {
        let (sign, whole, f) = choose|sign: Seq<char>, whole: Seq<char>, f: Seq<char>|
            json_sign(sign) && json_int_part(whole) && is_numeral(f) && p == sign + whole + seq!['.'] + f;
        if digit {
            lemma_numeral_push(f, c);
            assert(t =~= sign + whole + seq!['.'] + f.push(c));
        } else if is_exp_char(c) {
            let frac = seq!['.'] + f;
            assert(frac.skip(1) =~= f);
            assert(p =~= sign + whole + frac);
            lemma_mantissa_of(sign, whole, frac);
        }
    } else if sp == 6 {
        let m = p.drop_last();
        if c == '+' || c == '-' {
            assert(t.drop_last().drop_last() =~= m);
            assert(t[t.len() - 2] == p.last());
        } else if digit {
            let x = seq![p.last(), c];
            assert(x.skip(1) =~= seq![c]);
            assert(is_numeral(seq![c]));
            assert(t =~= m + x);
        }
    } else if sp == 7 {
        let m = p.drop_last().drop_last();
        if digit {
            let x = seq![p[p.len() - 2], p.last(), c];
            assert(x.skip(2) =~= seq![c]);
            assert(is_numeral(seq![c]));
            assert(x[1] == p.last());
            assert(t =~= m + x);
        }
    } else if sp == 8 {
        let (m, x) = choose|m: Seq<char>, x: Seq<char>| json_mantissa(m) && json_exp_part(x) && x.len() > 0 && p == m + x;
        if digit {
            let y = x.push(c);
            assert(t =~= m + y);
            if is_numeral(x.skip(1)) {
                lemma_numeral_push(x.skip(1), c);
                assert(y.skip(1) =~= x.skip(1).push(c));
            } else {
                lemma_numeral_push(x.skip(2), c);
                assert(y.skip(2) =~= x.skip(2).push(c));
            }
            assert(json_exp_part(y));
        }
    }
}

proof fn lemma_state_language(t: Seq<char>)
    ensures
        state_language(number_state(t), t),
    decreases t.len(),
{
    if t.len() > 0 {
        let p = t.drop_last();
        lemma_state_language(p);
        lemma_state_step(p, t.last());
        assert(p.push(t.last()) =~= t);
    }
}

/// Law of number syntax: the text read as a number is exactly the text in
/// JSON number syntax, an optional minus sign, an integer part that is `0` or
/// digits not starting with `0`, an optional fraction and an optional
/// exponent.  In particular a plain numeral such as `42` or `0` is a number.
pub proof fn lemma_number_syntax(t: Seq<char>)
    ensures
        number_text(t) <==> json_number_syntax(t),
        nonzero_numeral(t) || t == seq!['0'] ==> number_text(t),
{
    let e = Seq::<char>::empty();
    if json_number_syntax(t) {
        lemma_syntax_accepted(t);
    }
    if number_text(t) {
        lemma_state_language(t);
        let st = number_state(t);
        if st == 2 {
            let sign = choose|sign: Seq<char>| json_sign(sign) && t == sign + seq!['0'];
            assert(t =~= sign + seq!['0'] + e + e);
            lemma_mantissa_of(sign, seq!['0'], e);
            assert(t =~= (sign + seq!['0'] + e) + e);
        } else if st == 3 {
            let (sign, whole) = choose|sign: Seq<char>, whole: Seq<char>|
                json_sign(sign) && nonzero_numeral(whole) && t == sign + whole;
            lemma_mantissa_of(sign, whole, e);
            assert(t =~= (sign + whole + e) + e);
        } else if st == 5 {
            let (sign, whole, f) = choose|sign: Seq<char>, whole: Seq<char>, f: Seq<char>|
                json_sign(sign) && json_int_part(whole) && is_numeral(f) && t == sign + whole + seq!['.'] + f;
            let frac = seq!['.'] + f;
            assert(frac.skip(1) =~= f);
            lemma_mantissa_of(sign, whole, frac);
            assert(t =~= (sign + whole + frac) + e);
        }
    }
    if nonzero_numeral(t) || t == seq!['0'] {
        lemma_mantissa_of(e, t, e);
        assert(t =~= (e + t + e) + e);
        lemma_syntax_accepted(t);
    }
}

fn step_number(st: u8, c: char) -> (r: u8)
    ensures
        r == number_step(st, c),
{
    let digit = '0' <= c && c <= '9';
    let exp = c == 'e' || c == 'E';
    if st == 0 {
        if c == '-' { 1 } else if c == '0' { 2 } else if digit { 3 } else { 9 }
    } else if st == 1 {
        if c == '0' { 2 } else if digit { 3 } else { 9 }
    } else if st == 2 {
        if c == '.' { 4 } else if exp { 6 } else { 9 }
    } else if st == 3 {
        if digit { 3 } else if c == '.' { 4 } else if exp { 6 } else { 9 }
    } else if st == 4 {
        if digit { 5 } else { 9 }
    } else if st == 5 {
        if digit { 5 } else if exp { 6 } else { 9 }
    } else if st == 6 {
        if c == '+' || c == '-' { 7 } else if digit { 8 } else { 9 }
    } else if st == 7 || st == 8 {
        if digit { 8 } else { 9 }
    } else {
        9
    }
}

/// Whether `t` is a number in JSON syntax.
pub fn is_number_text(t: &str) -> (r: bool)
    ensures
        r == number_text(t@),
{
    let cs = chars_of(t);
    let n = cs.len();
    let mut st: u8 = 0;
    let mut i: usize = 0;
    assert(cs@.take(0) =~= Seq::<char>::empty());
    while i < n
        invariant
            n == cs@.len(),
            cs@ == t@,
            i <= n,
            st == number_state(cs@.take(i as int)),
        decreases n - i,
    {
        assert(cs@.take(i + 1).drop_last() =~= cs@.take(i as int));
        st = step_number(st, cs[i]);
        i = i + 1;
    }
    assert(cs@.take(n as int) =~= cs@);
    st == 2 || st == 3 || st == 5 || st == 8
}

// ---------------------------------------------------------------------------
// Dates and times

/// Year, month and day of a date written `YYYY-MM-DD`.
pub open spec fn date_text_parts(t: Seq<char>) -> Option<(nat, nat, nat)> {
    let p = split_on(t, '-');
    if p.len() == 3 && p[0].len() == 4 && p[1].len() == 2 && p[2].len() == 2 && all_digits(p[0])
        && all_digits(p[1]) && all_digits(p[2]) {
        Some((digits_value(p[0]), digits_value(p[1]), digits_value(p[2])))
    } else {
        None
    }
}

/// Seconds and microseconds of `SS` or `SS.f` with one to six fraction
/// digits (`.5` is half a second).
pub open spec fn seconds_text_parts(p: Seq<char>) -> Option<(nat, nat)> {
    if p.len() == 2 && all_digits(p) {
        Some((digits_value(p), 0))
    } else if 4 <= p.len() <= 9 && p[2] == '.' && all_digits(p.take(2)) && all_digits(p.skip(3)) {
        Some((digits_value(p.take(2)), digits_value(p.skip(3)) * pow10((9 - p.len()) as nat)))
    } else {
        None
    }
}

/// Hours, minutes, seconds and microseconds of a time of day written
/// `HH:MM:SS` with an optional fraction.
pub open spec fn clock_text_parts(t: Seq<char>) -> Option<(nat, nat, nat, nat)> {
    let p = split_on(t, ':');
    if p.len() == 3 && p[0].len() == 2 && all_digits(p[0]) && p[1].len() == 2 && all_digits(p[1]) {
        match seconds_text_parts(p[2]) {
            Some((s, us)) => Some((digits_value(p[0]), digits_value(p[1]), s, us)),
            None => None,
        }
    } else {
        None
    }
}

/// The parts of a date and time written `YYYY-MM-DD HH:MM:SS` with an
/// optional fraction.
pub open spec fn datetime_text_parts(t: Seq<char>) -> Option<(nat, nat, nat, nat, nat, nat, nat)> {
    let halves = split_on(t, ' ');
    if halves.len() == 2 {
        match (date_text_parts(halves[0]), clock_text_parts(halves[1])) {
            (Some((y, mo, d)), Some((h, mi, s, us))) => Some((y, mo, d, h, mi, s, us)),
            _ => None,
        }
    } else {
        None
    }
}

/// Sign, hours, minutes, seconds and microseconds of a duration written
/// `[-]H:MM:SS` with any number of hour digits (the hours fitting a `u64`)
/// and an optional fraction.
pub open spec fn time_text_parts(t: Seq<char>) -> Option<(bool, nat, nat, nat, nat)> {
    let negative = t.len() > 0 && t[0] == '-';
    let u = if negative { t.skip(1) } else { t };
    let p = split_on(u, ':');
    if p.len() == 3 && is_numeral(p[0]) && digits_value(p[0]) <= u64::MAX && p[1].len() == 2 && all_digits(p[1]) {
        match seconds_text_parts(p[2]) {
            Some((s, us)) => Some((negative, digits_value(p[0]), digits_value(p[1]), s, us)),
            None => None,
        }
    } else {
        None
    }
}

/// The numeral value of a whole piece of text.
fn piece_value(p: &String) -> (r: Option<u64>)
    ensures
        r is Some <==> (is_numeral(p@) && digits_value(p@) <= u64::MAX),
        r matches Some(v) ==> v == digits_value(p@),
        is_numeral(p@) && p@.len() <= 19 ==> r is Some,
{
    let cs = chars_of(p.as_str());
    assert(cs@.subrange(0, cs@.len() as int) =~= p@);
    numeral_value(&cs, 0, cs.len())
}

fn pow10_exec(n: usize) -> (r: u64)
    requires
        n <= 5,
    ensures
        r == pow10(n as nat),
{
    reveal_with_fuel(pow10, 6);
    if n == 0 {
        1
    } else if n == 1 {
        10
    } else if n == 2 {
        100
    } else if n == 3 {
        1000
    } else if n == 4 {
        10000
    } else {
        100000
    }
}

/// Reads `SS` or `SS.f`.
fn read_seconds(p: &String) -> (r: Option<(u64, u64)>)
    ensures
        match r {
            Some((s, us)) => seconds_text_parts(p@) == Some((s as nat, us as nat)),
            None => seconds_text_parts(p@) is None,
        },
{
    let cs = chars_of(p.as_str());
    let n = cs.len();
    if n == 2 {
        assert(cs@.subrange(0, 2) =~= p@);
        match numeral_value(&cs, 0, 2) {
            Some(s) => Some((s, 0)),
            None => None,
        }
    } else if 4 <= n && n <= 9 && cs[2] == '.' {
        assert(cs@.subrange(0, 2) =~= p@.take(2));
        assert(cs@.subrange(3, n as int) =~= p@.skip(3));
        match (numeral_value(&cs, 0, 2), numeral_value(&cs, 3, n)) {
            (Some(s), Some(f)) => {
                let scale = pow10_exec(9 - n);
                proof {
                    lemma_digits_value_bound(p@.skip(3));
                    lemma_pow10_mono((n - 3) as nat, 6);
                    lemma_pow10_mono((9 - n) as nat, 5);
                    reveal_with_fuel(pow10, 7);
                    assert(f * scale <= 100000000000) by (nonlinear_arith)
                        requires
                            f < 1000000,
                            scale <= 100000,
                    ;
                }
                Some((s, f * scale))
            },
            _ => None,
        }
    } else {
        None
    }
}

/// Reads a time of day `HH:MM:SS[.f]`.
fn read_clock(t: &String) -> (r: Option<(u64, u64, u64, u64)>)
    ensures
        match r {
            Some((h, mi, s, us)) => clock_text_parts(t@) == Some((h as nat, mi as nat, s as nat, us as nat)),
            None => clock_text_parts(t@) is None,
        },
{
    let p = split_char(t.as_str(), ':');
    if p.len() != 3 || p[0].as_str().unicode_len() != 2 || p[1].as_str().unicode_len() != 2 {
        return None;
    }
    match (piece_value(&p[0]), piece_value(&p[1]), read_seconds(&p[2])) {
        (Some(h), Some(mi), Some((s, us))) => Some((h, mi, s, us)),
        _ => None,
    }
}

/// Reads a date `YYYY-MM-DD`.
pub fn read_date(t: &String) -> (r: Option<(u64, u64, u64)>)
    ensures
        match r {
            Some((y, m, d)) => date_text_parts(t@) == Some((y as nat, m as nat, d as nat)),
            None => date_text_parts(t@) is None,
        },
{
    let p = split_char(t.as_str(), '-');
    if p.len() != 3 || p[0].as_str().unicode_len() != 4 || p[1].as_str().unicode_len() != 2
        || p[2].as_str().unicode_len() != 2 {
        return None;
    }
    match (piece_value(&p[0]), piece_value(&p[1]), piece_value(&p[2])) {
        (Some(y), Some(m), Some(d)) => Some((y, m, d)),
        _ => None,
    }
}

/// Reads a date and time `YYYY-MM-DD HH:MM:SS[.f]`.
pub fn read_datetime(t: &String) -> (r: Option<(u64, u64, u64, u64, u64, u64, u64)>)
    ensures
        match r {
            Some((y, mo, d, h, mi, s, us)) => datetime_text_parts(t@) == Some(
                (y as nat, mo as nat, d as nat, h as nat, mi as nat, s as nat, us as nat),
            ),
            None => datetime_text_parts(t@) is None,
        },
{
    let halves = split_char(t.as_str(), ' ');
    if halves.len() != 2 {
        return None;
    }
    match (read_date(&halves[0]), read_clock(&halves[1])) {
        (Some((y, mo, d)), Some((h, mi, s, us))) => Some((y, mo, d, h, mi, s, us)),
        _ => None,
    }
}

/// Reads a duration `[-]H:MM:SS[.f]`.
pub fn read_time(t: &String) -> (r: Option<(bool, u64, u64, u64, u64)>)
    ensures
        match r {
            Some((neg, h, mi, s, us)) => time_text_parts(t@) == Some((neg, h as nat, mi as nat, s as nat, us as nat)),
            None => time_text_parts(t@) is None,
        },
{
    let cs = chars_of(t.as_str());
    let n = cs.len();
    let negative = n > 0 && cs[0] == '-';
    let mut u = String::new();
    let start: usize = if negative { 1 } else { 0 };
    let mut i = start;
    while i < n
        invariant
            start <= i <= n,
            n == cs@.len(),
            u@ == cs@.subrange(start as int, i as int),
        decreases n - i,
    {
        crate::trusted::push_char(&mut u, cs[i]);
        assert(u@ =~= cs@.subrange(start as int, i + 1));
        i = i + 1;
    }
    assert(u@ =~= if negative { t@.skip(1) } else { t@ });
    let p = split_char(u.as_str(), ':');
    if p.len() != 3 || p[1].as_str().unicode_len() != 2 {
        return None;
    }
    match (piece_value(&p[0]), piece_value(&p[1]), read_seconds(&p[2])) {
        (Some(h), Some(mi), Some((s, us))) => Some((negative, h, mi, s, us)),
        _ => None,
    }
}

} // verus!
