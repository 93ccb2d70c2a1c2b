//! Text helpers with exact specifications: decimal rendering with zero padding,
//! substring search and splitting on a separator character.

use vstd::prelude::*;
use crate::trusted::push_char;

verus! {

/// The ASCII digit for `d` (meaningful for `0 <= d < 10`).
pub open spec fn digit_char(d: nat) -> char {
    (d + 48) as char
}

/// Decimal digits of `n`, most significant first, without leading zeros.
pub open spec fn dec_digits(n: nat) -> Seq<char>
    decreases n,
{
    if n < 10 {
        seq![digit_char(n)]
    } else {
        dec_digits(n / 10).push(digit_char(n % 10))
    }
}

/// `s` left-padded with `'0'` up to `width` characters (as `{:0width$}` does).
pub open spec fn zero_pad(s: Seq<char>, width: nat) -> Seq<char> {
    if s.len() >= width {
        s
    } else {
        Seq::new((width - s.len()) as nat, |i: int| '0') + s
    }
}

/// Decimal rendering of `n` padded with zeros to at least `width` characters.
pub open spec fn dec_padded(n: nat, width: nat) -> Seq<char> {
    zero_pad(dec_digits(n), width)
}

fn digit(d: u64) -> (c: char)
    requires
        d < 10,
    ensures
        c == digit_char(d as nat),
{
    let b: u8 = 48u8 + (d as u8);
    b as char
}

/// Appends the decimal digits of `n`.
pub fn push_decimal(out: &mut String, n: u64)
    ensures
        final(out)@ == old(out)@ + dec_digits(n as nat),
    decreases n,
{
    if n >= 10 {
        push_decimal(out, n / 10);
    }
    push_char(out, digit(n % 10));
    assert(final(out)@ =~= old(out)@ + dec_digits(n as nat));
}

} // verus!

verus! {

/// The characters of `s`, in order.
pub fn chars_of(s: &str) -> (v: Vec<char>)
    ensures
        v@ == s@,
{
    let mut v: Vec<char> = Vec::new();
    for c in it: s.chars()
        invariant
            v@ == it.seq().take(it.index() as int),
    {
        v.push(c);
    }
    v
}

} // verus!

verus! {

/// Appends `n` in decimal, left-padded with zeros to at least `width` characters.
pub fn push_decimal_padded(out: &mut String, n: u64, width: usize)
    ensures
        final(out)@ == old(out)@ + dec_padded(n as nat, width as nat),
{
    let mut digits = String::new();
    push_decimal(&mut digits, n);
    assert(digits@ =~= dec_digits(n as nat));
    let len = digits.as_str().unicode_len();
    let ghost start = out@;
    if len < width {
        let pad = width - len;
        let mut i: usize = 0;
        while i < pad
            invariant
                i <= pad,
                out@ == start + Seq::new(i as nat, |k: int| '0'),
            decreases pad - i,
        {
            push_char(out, '0');
            i = i + 1;
            assert(out@ =~= start + Seq::new(i as nat, |k: int| '0'));
        }
    }
    out.append(digits.as_str());
    assert(out@ =~= start + dec_padded(n as nat, width as nat));
}

/// `needle` occurs in `hay` at position `i`.
pub open spec fn occurs_at(hay: Seq<char>, needle: Seq<char>, i: int) -> bool {
    0 <= i && i + needle.len() <= hay.len() && hay.subrange(i, i + needle.len()) == needle
}

/// `needle` occurs somewhere in `hay` (as `str::contains` with a string pattern).
pub open spec fn has_substring(hay: Seq<char>, needle: Seq<char>) -> bool {
    exists|i: int| occurs_at(hay, needle, i)
}

fn occurs_at_exec(hay: &Vec<char>, needle: &Vec<char>, i: usize) -> (r: bool)
    requires
        i + needle.len() <= hay.len(),
    ensures
        r == occurs_at(hay@, needle@, i as int),
{
    let n = needle.len();
    let mut j: usize = 0;
    while j < n
        invariant
            n == needle.len(),
            i + n <= hay.len(),
            j <= n,
            forall|k: int| 0 <= k < j ==> hay@[i + k] == needle@[k],
        decreases n - j,
    {
        if hay[i + j] != needle[j] {
            assert(hay@.subrange(i as int, i + n)[j as int] != needle@[j as int]);
            return false;
        }
        j = j + 1;
    }
    assert(hay@.subrange(i as int, i + n) =~= needle@);
    true
}

/// Whether `needle` occurs in `hay`.
pub fn contains_str(hay: &str, needle: &str) -> (r: bool)
    ensures
        r == has_substring(hay@, needle@),
{
    let h = chars_of(hay);
    let n = chars_of(needle);
    if n.len() == 0 {
        assert(hay@.subrange(0, 0) =~= needle@);
        assert(occurs_at(hay@, needle@, 0));
        return true;
    }
    if n.len() > h.len() {
        return false;
    }
    let last = h.len() - n.len();
    let mut i: usize = 0;
    while i <= last
        invariant
            h@ == hay@,
            n@ == needle@,
            last == h.len() - n.len(),
            1 <= n.len() <= h.len(),
            i <= last + 1,
            forall|k: int| 0 <= k < i ==> !occurs_at(hay@, needle@, k),
        decreases last + 1 - i,
    {
        if occurs_at_exec(&h, &n, i) {
            return true;
        }
        i = i + 1;
    }
    assert forall|k: int| !occurs_at(hay@, needle@, k) by {
        if 0 <= k && k + needle@.len() <= hay@.len() {
            assert(k <= last);
        }
    }
    false
}

} // verus!

verus! {

/// The pieces of `s` between occurrences of `sep`, as `str::split` with a
/// char pattern yields them (the empty string gives one empty piece).
pub open spec fn split_on(s: Seq<char>, sep: char) -> Seq<Seq<char>>
    decreases s.len(),
{
    if s.len() == 0 {
        seq![Seq::<char>::empty()]
    } else {
        let p = split_on(s.drop_last(), sep);
        if s.last() == sep {
            p.push(Seq::<char>::empty())
        } else {
            p.update(p.len() - 1, p.last().push(s.last()))
        }
    }
}

/// The pieces joined back together with `sep` between neighbours.
pub open spec fn join_with(pieces: Seq<Seq<char>>, sep: char) -> Seq<char>
    decreases pieces.len(),
{
    if pieces.len() <= 1 {
        if pieces.len() == 0 {
            Seq::<char>::empty()
        } else {
            pieces[0]
        }
    } else {
        join_with(pieces.drop_last(), sep).push(sep) + pieces.last()
    }
}

/// Splitting always yields at least one piece.
pub proof fn lemma_split_nonempty(s: Seq<char>, sep: char)
    ensures
        split_on(s, sep).len() >= 1,
    decreases s.len(),
{
    if s.len() > 0 {
        lemma_split_nonempty(s.drop_last(), sep);
    }
}

/// Splitting on `sep` and joining the pieces with `sep` gives back the input,
/// and no piece contains the separator.
pub proof fn lemma_split_join(s: Seq<char>, sep: char)
    ensures
        join_with(split_on(s, sep), sep) == s,
        forall|i: int| 0 <= i < split_on(s, sep).len() ==> !(#[trigger] split_on(s, sep)[i]).contains(sep),
    decreases s.len(),
{
    if s.len() == 0 {
        assert(join_with(split_on(s, sep), sep) =~= s);
    } else {
        let q = s.drop_last();
        lemma_split_join(q, sep);
        lemma_split_nonempty(q, sep);
        let p = split_on(q, sep);
        if s.last() == sep {
            let r = p.push(Seq::<char>::empty());
            assert(r.drop_last() =~= p);
            assert(join_with(r, sep) =~= s);
            assert forall|i: int| 0 <= i < r.len() implies !(#[trigger] r[i]).contains(sep) by {
                if i < p.len() {
                    assert(r[i] == p[i]);
                }
            }
        } else {
            let last = p.last().push(s.last());
            let r = p.update(p.len() - 1, last);
            if p.len() == 1 {
                assert(join_with(r, sep) == r[0]);
                assert(join_with(p, sep) == p[0]);
                assert(join_with(r, sep) =~= s);
            } else {
                assert(r.drop_last() =~= p.drop_last());
                assert(join_with(p, sep) == join_with(p.drop_last(), sep).push(sep) + p.last());
                assert(r.last() == last);
                assert(join_with(r, sep) == join_with(p.drop_last(), sep).push(sep) + last);
                assert(join_with(p.drop_last(), sep).push(sep) + last =~= (join_with(p.drop_last(), sep).push(sep) + p.last()).push(s.last()));
                assert(q.push(s.last()) =~= s);
                assert(join_with(r, sep) =~= s);
            }
            assert forall|i: int| 0 <= i < r.len() implies !(#[trigger] r[i]).contains(sep) by {
                if i < p.len() - 1 {
                    assert(r[i] == p[i]);
                } else {
                    assert(!p[p.len() - 1].contains(sep));
                    if last.contains(sep) {
                        let k = choose|k: int| 0 <= k < last.len() && last[k] == sep;
                        if k < last.len() - 1 {
                            assert(p[p.len() - 1][k] == sep);
                        }
                    }
                }
            }
        }
    }
}

spec fn piece_views(v: Seq<String>) -> Seq<Seq<char>> {
    v.map_values(|x: String| x@)
}

/// Splits `s` at every `sep`.
pub fn split_char(s: &str, sep: char) -> (r: Vec<String>)
    ensures
        r@.len() == split_on(s@, sep).len(),
        forall|i: int| 0 <= i < r@.len() ==> (#[trigger] r@[i])@ == split_on(s@, sep)[i],
{
    let chars = chars_of(s);
    let mut done: Vec<String> = Vec::new();
    let mut cur = String::new();
    let n = chars.len();
    let mut i: usize = 0;
    assert(chars@.take(0) =~= Seq::<char>::empty());
    assert(piece_views(done@).push(cur@) =~= split_on(chars@.take(0), sep));
    while i < n
        invariant
            n == chars.len(),
            chars@ == s@,
            i <= n,
            piece_views(done@).push(cur@) == split_on(chars@.take(i as int), sep),
        decreases n - i,
    {
        let c = chars[i];
        let ghost before = chars@.take(i as int);
        assert(chars@.take(i + 1).drop_last() =~= before);
        assert(chars@.take(i + 1).last() == c);
        if c == sep {
            done.push(cur);
            cur = String::new();
            assert(piece_views(done@).push(cur@) =~= split_on(before, sep).push(Seq::<char>::empty()));
        } else {
            push_char(&mut cur, c);
            let ghost p = split_on(before, sep);
            assert(piece_views(done@).push(cur@) =~= p.update(p.len() - 1, p.last().push(c)));
        }
        i = i + 1;
    }
    assert(chars@.take(n as int) =~= s@);
    done.push(cur);
    assert(piece_views(done@) =~= split_on(s@, sep));
    assert forall|i: int| 0 <= i < done@.len() implies (#[trigger] done@[i])@ == split_on(s@, sep)[i] by {
        assert(piece_views(done@)[i] == done@[i]@);
    }
    done
}

/// ASCII lowercase code of `c` (other characters are left unchanged).
pub open spec fn ascii_lower_code(c: char) -> u32 {
    if 'A' <= c && c <= 'Z' {
        (c as u32 + 32) as u32
    } else {
        c as u32
    }
}

/// Equality up to ASCII case, as `str::eq_ignore_ascii_case`.
pub open spec fn eq_ignore_ascii_case(a: Seq<char>, b: Seq<char>) -> bool {
    a.len() == b.len() && forall|i: int| 0 <= i < a.len() ==> ascii_lower_code(#[trigger] a[i]) == ascii_lower_code(b[i])
}

fn lower_code(c: char) -> (r: u32)
    ensures
        r == ascii_lower_code(c),
{
    if 'A' <= c && c <= 'Z' {
        (c as u32) + 32
    } else {
        c as u32
    }
}

/// Whether `a` and `b` are equal up to ASCII case.
pub fn eq_ignore_case(a: &str, b: &str) -> (r: bool)
    ensures
        r == eq_ignore_ascii_case(a@, b@),
{
    let x = chars_of(a);
    let y = chars_of(b);
    if x.len() != y.len() {
        return false;
    }
    let n = x.len();
    let mut i: usize = 0;
    while i < n
        invariant
            x@ == a@,
            y@ == b@,
            n == x.len(),
            n == y.len(),
            i <= n,
            forall|k: int| 0 <= k < i ==> ascii_lower_code(#[trigger] x@[k]) == ascii_lower_code(y@[k]),
        decreases n - i,
    {
        if lower_code(x[i]) != lower_code(y[i]) {
            return false;
        }
        i = i + 1;
    }
    true
}

} // verus!
