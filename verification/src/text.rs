//! Character-level string helpers used by the templating code.

use vstd::prelude::*;
use vstd::string::StringExecFns;
use vstd::seq_lib::lemma_flatten_concat;

verus! {

/// Pushes one character onto a `String` (std's `String::push`: "Appends the
/// given char to the end of this String").
#[verifier::external_body]
pub(crate) fn push_char(s: &mut String, c: char)
    ensures
        final(s)@ == old(s)@.push(c),
{
    s.push(c);
}

/// The characters of a string slice, in order.
pub fn chars_of(s: &str) -> (v: Vec<char>)
    ensures
        v@ == s@,
{
    let mut v: Vec<char> = Vec::new();
    for c in it: s.chars()
        invariant
            v@ == it.seq().take(it.index() as int),
            it.seq() == s@,
    {
        v.push(c);
    }
    v
}


/// `s` with every occurrence of `pat` replaced by `rep`, the occurrences being
/// found from left to right without overlapping (the matching of std's
/// `str::replace`). An empty pattern leaves `s` as it is here; the executable
/// function below never receives one.
pub open spec fn replaced(s: Seq<char>, pat: Seq<char>, rep: Seq<char>) -> Seq<char>
    decreases s.len(),
{
    if pat.len() == 0 || s.len() < pat.len() {
        s
    } else if s.take(pat.len() as int) == pat {
        rep + replaced(s.skip(pat.len() as int), pat, rep)
    } else {
        seq![s[0]] + replaced(s.skip(1), pat, rep)
    }
}

/// `pat` occurs in `s` (as a contiguous run of characters).
pub open spec fn contains_seq(s: Seq<char>, pat: Seq<char>) -> bool {
    exists|i: int| 0 <= i <= s.len() - pat.len() && #[trigger] s.subrange(i, i + pat.len()) == pat
}

/// Does `pat` occur in `s` at position `i`?
fn matches_at(s: &Vec<char>, i: usize, pat: &Vec<char>) -> (r: bool)
    requires
        i + pat@.len() <= s@.len(),
    ensures
        r == (s@.subrange(i as int, i + pat@.len()) == pat@),
{
    let m = pat.len();
    let mut j: usize = 0;
    while j < m
        invariant
            j <= m,
            m == pat@.len(),
            i + m <= s.len(),
            forall|k: int| 0 <= k < j ==> s@[i + k] == pat@[k],
        decreases m - j,
    {
        if s[i + j] != pat[j] {
            assert(s@.subrange(i as int, i + m)[j as int] != pat@[j as int]);
            return false;
        }
        j = j + 1;
    }
    assert(s@.subrange(i as int, i + m) =~= pat@);
    true
}

/// A string with the characters of `v`.
pub(crate) fn string_of(v: &Vec<char>) -> (r: String)
    ensures
        r@ == v@,
{
    let mut out = String::new();
    let mut i: usize = 0;
    while i < v.len()
        invariant
            i <= v@.len(),
            out@ == v@.take(i as int),
        decreases v@.len() - i,
    {
        push_char(&mut out, v[i]);
        assert(v@.take(i + 1) =~= v@.take(i as int).push(v@[i as int]));
        i = i + 1;
    }
    assert(v@.take(i as int) =~= v@);
    out
}

/// Replaces every non-overlapping occurrence of `pat` in `s`, scanning from
/// left to right, by `rep`.
pub fn replace_all(s: &str, pat: &str, rep: &str) -> (r: String)
    requires
        pat@.len() > 0,
    ensures
        r@ == replaced(s@, pat@, rep@),
{
    let sv = chars_of(s);
    let pv = chars_of(pat);
    let n = sv.len();
    let m = pv.len();
    let mut out = String::new();
    let mut i: usize = 0;
    assert(sv@.skip(0) =~= sv@);
    while i < n
        invariant
            i <= n,
            n == sv@.len(),
            m == pv@.len(),
            m > 0,
            sv@ == s@,
            pv@ == pat@,
            out@ + replaced(sv@.skip(i as int), pv@, rep@) == replaced(sv@, pv@, rep@),
        decreases n - i,
    {
        let ghost rest = sv@.skip(i as int);
        if n - i >= m && matches_at(&sv, i, &pv) {
            assert(rest.take(m as int) =~= sv@.subrange(i as int, i + m));
            assert(rest.skip(m as int) =~= sv@.skip(i + m));
            out.append(rep);
            i = i + m;
            assert(out@ + replaced(sv@.skip(i as int), pv@, rep@) =~= replaced(sv@, pv@, rep@));
        } else {
            assert(rest.skip(1) =~= sv@.skip(i + 1));
            if n - i >= m {
                assert(rest.take(m as int) =~= sv@.subrange(i as int, i + m));
            } else {
                assert(replaced(rest, pv@, rep@) == rest);
                assert(replaced(rest.skip(1), pv@, rep@) == rest.skip(1));
                assert(rest =~= seq![rest[0]] + rest.skip(1));
            }
            push_char(&mut out, sv[i]);
            i = i + 1;
            assert(out@ + replaced(sv@.skip(i as int), pv@, rep@) =~= replaced(sv@, pv@, rep@));
        }
    }
    assert(sv@.skip(n as int) =~= Seq::<char>::empty());
    out
}

/// Does `pat` occur in `s`?
pub fn contains_chars(s: &Vec<char>, pat: &Vec<char>) -> (r: bool)
    ensures
        r == contains_seq(s@, pat@),
{
    let n = s.len();
    let m = pat.len();
    if m == 0 {
        assert(s@.subrange(0, 0 + pat@.len() as int) =~= pat@);
        return true;
    }
    if m > n {
        return false;
    }
    let mut i: usize = 0;
    while i <= n - m
        invariant
            0 < m <= n,
            n == s@.len(),
            m == pat@.len(),
            forall|k: int| 0 <= k < i ==> #[trigger] s@.subrange(k, k + m) != pat@,
        decreases n - m + 1 - i,
    {
        if matches_at(s, i, pat) {
            return true;
        }
        i = i + 1;
    }
    false
}


/// The decimal digit character for `d` (`'0'` to `'9'` for `d` below ten).
pub open spec fn digit_char(d: nat) -> char {
    (d + 48) as char
}

/// The decimal representation of `n`, without leading zeros (`"0"` for zero).
pub open spec fn decimal(n: nat) -> Seq<char>
    decreases n,
{
    if n < 10 {
        seq![digit_char(n)]
    } else {
        decimal(n / 10).push(digit_char(n % 10))
    }
}

/// `s` preceded by as many `'0'` as it takes to reach `width` characters;
/// `s` itself when it is at least that long already.
pub open spec fn zero_padded(s: Seq<char>, width: nat) -> Seq<char> {
    if s.len() >= width {
        s
    } else {
        Seq::new((width - s.len()) as nat, |i: int| '0') + s
    }
}

fn push_decimal(out: &mut Vec<char>, n: usize)
    ensures
        final(out)@ == old(out)@ + decimal(n as nat),
    decreases n,
{
    if n >= 10 {
        push_decimal(out, n / 10);
    }
    let d: u8 = (n % 10) as u8;
    out.push((d + 48u8) as char);
    assert(old(out)@ + decimal(n as nat) =~= final(out)@);
}

/// `n` written in decimal and padded on the left with zeros to at least
/// `width` characters (what `format!("{:0>width$}", n)` gives).
pub fn zero_padded_decimal(n: usize, width: usize) -> (r: Vec<char>)
    ensures
        r@ == zero_padded(decimal(n as nat), width as nat),
{
    let mut digits: Vec<char> = Vec::new();
    push_decimal(&mut digits, n);
    assert(digits@ =~= decimal(n as nat));
    if digits.len() >= width {
        return digits;
    }
    let fill = width - digits.len();
    let mut out: Vec<char> = Vec::new();
    let mut i: usize = 0;
    while i < fill
        invariant
            i <= fill,
            out@ == Seq::new(i as nat, |k: int| '0'),
        decreases fill - i,
    {
        out.push('0');
        i = i + 1;
        assert(out@ =~= Seq::new(i as nat, |k: int| '0'));
    }
    let mut j: usize = 0;
    while j < digits.len()
        invariant
            j <= digits@.len(),
            out@ == Seq::new(fill as nat, |k: int| '0') + digits@.take(j as int),
        decreases digits@.len() - j,
    {
        out.push(digits[j]);
        assert(digits@.take(j + 1) =~= digits@.take(j as int).push(digits@[j as int]));
        j = j + 1;
    }
    assert(digits@.take(j as int) =~= digits@);
    out
}

/// Are the two character sequences equal?
pub(crate) fn same_chars(a: &Vec<char>, b: &Vec<char>) -> (r: bool)
    ensures
        r == (a@ == b@),
{
    if a.len() != b.len() {
        return false;
    }
    let mut i: usize = 0;
    while i < a.len()
        invariant
            i <= a@.len(),
            a@.len() == b@.len(),
            forall|k: int| 0 <= k < i ==> a@[k] == b@[k],
        decreases a@.len() - i,
    {
        if a[i] != b[i] {
            return false;
        }
        i = i + 1;
    }
    assert(a@ =~= b@);
    true
}


/// Text in front that holds no character starting the pattern passes
/// through a replacement untouched.
pub proof fn lemma_replaced_passes_prefix(a: Seq<char>, b: Seq<char>, pat: Seq<char>, rep: Seq<char>)
    requires
        pat.len() > 0,
        !a.contains(pat[0]),
    ensures
        replaced(a + b, pat, rep) == a + replaced(b, pat, rep),
    decreases a.len(),
{
    if a.len() > 0 {
        let s = a + b;
        assert(s[0] == a[0]);
        if s.len() >= pat.len() {
            assert(s.take(pat.len() as int)[0] != pat[0]);
        } else {
            lemma_replaced_short(b, pat, rep);
            lemma_replaced_short(s, pat, rep);
        }
        assert(s.skip(1) =~= a.skip(1) + b);
        assert forall|i: int| 0 <= i < a.skip(1).len() implies a.skip(1)[i] != pat[0] by {
            assert(a.skip(1)[i] == a[i + 1]);
        }
        lemma_replaced_passes_prefix(a.skip(1), b, pat, rep);
        assert(a =~= seq![a[0]] + a.skip(1));
        assert(replaced(s, pat, rep) =~= a + replaced(b, pat, rep));
    } else {
        assert(a + b =~= b);
    }
}

/// An occurrence of the pattern at the start is replaced, and the scan goes
/// on after it.
pub proof fn lemma_replaced_match(pat: Seq<char>, b: Seq<char>, rep: Seq<char>)
    requires
        pat.len() > 0,
    ensures
        replaced(pat + b, pat, rep) == rep + replaced(b, pat, rep),
{
    assert((pat + b).take(pat.len() as int) =~= pat);
    assert((pat + b).skip(pat.len() as int) =~= b);
}

/// When the pattern does not start the text, its first character is kept
/// and the scan goes on after it.
pub proof fn lemma_replaced_no_match_here(s: Seq<char>, pat: Seq<char>, rep: Seq<char>)
    requires
        s.len() > 0,
        pat.len() > 0,
        s.len() < pat.len() || s.take(pat.len() as int) != pat,
    ensures
        replaced(s, pat, rep) == seq![s[0]] + replaced(s.skip(1), pat, rep),
{
    if s.len() < pat.len() {
        assert(s =~= seq![s[0]] + s.skip(1));
    }
}

/// A run that starts like the pattern but differs from it at its second
/// character, and holds no further character starting the pattern, passes
/// through a replacement untouched.
pub proof fn lemma_replaced_passes_other(q: Seq<char>, b: Seq<char>, pat: Seq<char>, rep: Seq<char>)
    requires
        q.len() > 1,
        pat.len() > 1,
        q[1] != pat[1],
        !q.skip(1).contains(pat[0]),
    ensures
        replaced(q + b, pat, rep) == q + replaced(b, pat, rep),
{
    let s = q + b;
    if s.len() >= pat.len() {
        assert(s.take(pat.len() as int)[1] != pat[1]);
    }
    lemma_replaced_no_match_here(s, pat, rep);
    assert(s.skip(1) =~= q.skip(1) + b);
    lemma_replaced_passes_prefix(q.skip(1), b, pat, rep);
    assert(q =~= seq![q[0]] + q.skip(1));
    assert(replaced(s, pat, rep) =~= q + replaced(b, pat, rep));
}

/// Text shorter than the pattern is left as it is.
pub proof fn lemma_replaced_short(s: Seq<char>, pat: Seq<char>, rep: Seq<char>)
    requires
        s.len() < pat.len(),
    ensures
        replaced(s, pat, rep) == s,
{
}

/// Text holding no character that starts the pattern is left as it is.
pub proof fn lemma_replaced_untouched(s: Seq<char>, pat: Seq<char>, rep: Seq<char>)
    requires
        pat.len() > 0,
        !s.contains(pat[0]),
    ensures
        replaced(s, pat, rep) == s,
{
    lemma_replaced_passes_prefix(s, Seq::empty(), pat, rep);
    assert(s + Seq::<char>::empty() =~= s);
}

/// The decimal digits of a number are digit characters.
pub proof fn lemma_decimal_digits(n: nat)
    ensures
        forall|i: int| 0 <= i < decimal(n).len() ==> '0' <= #[trigger] decimal(n)[i] <= '9',
        decimal(n).len() > 0,
    decreases n,
{
    if n >= 10 {
        lemma_decimal_digits(n / 10);
    }
}

/// Padding only puts zeros in front: the result is as long as the width or
/// the text, whichever is longer, ends with the text, and holds only `'0'`
/// before it.
pub proof fn lemma_zero_padded_shape(s: Seq<char>, width: nat)
    ensures
        zero_padded(s, width).len() == (if s.len() >= width { s.len() } else { width }),
        zero_padded(s, width).subrange(zero_padded(s, width).len() - s.len(), zero_padded(s, width).len() as int) == s,
        forall|i: int|
            0 <= i < zero_padded(s, width).len() - s.len() ==> #[trigger] zero_padded(s, width)[i] == '0',
{
    let z = zero_padded(s, width);
    assert(z.subrange(z.len() - s.len(), z.len() as int) =~= s);
}

/// The number that a string of decimal digits stands for.
pub open spec fn digits_value(s: Seq<char>) -> int
    decreases s.len(),
{
    if s.len() == 0 {
        0
    } else {
        digits_value(s.drop_last()) * 10 + ((s.last() as u32) - 48)
    }
}

/// Writing a number in decimal and reading the digits back gives it back.
pub proof fn lemma_decimal_value(n: nat)
    ensures
        digits_value(decimal(n)) == n,
    decreases n,
{
    let d = n % 10;
    assert((digit_char(d) as u32) == d + 48);
    assert(n == (n / 10) * 10 + d);
    if n >= 10 {
        lemma_decimal_value(n / 10);
        assert(decimal(n).drop_last() == decimal(n / 10));
        assert(decimal(n).last() == digit_char(d));
        assert(digits_value(decimal(n)) == digits_value(decimal(n / 10)) * 10 + d);
    } else {
        assert(decimal(n).drop_last() =~= Seq::<char>::empty());
        assert(decimal(n).last() == digit_char(d));
        assert(digits_value(decimal(n)) == digits_value(Seq::<char>::empty()) * 10 + d);
    }
}

proof fn lemma_zeros_value(k: nat)
    ensures
        digits_value(Seq::new(k, |i: int| '0')) == 0,
    decreases k,
{
    if k > 0 {
        assert(Seq::new(k, |i: int| '0').drop_last() =~= Seq::new((k - 1) as nat, |i: int| '0'));
        lemma_zeros_value((k - 1) as nat);
    }
}

proof fn lemma_leading_zeros_value(k: nat, s: Seq<char>)
    ensures
        digits_value(Seq::new(k, |i: int| '0') + s) == digits_value(s),
    decreases s.len(),
{
    let z = Seq::new(k, |i: int| '0');
    if s.len() == 0 {
        assert(z + s =~= z);
        lemma_zeros_value(k);
    } else {
        assert((z + s).drop_last() =~= z + s.drop_last());
        lemma_leading_zeros_value(k, s.drop_last());
    }
}

/// The decimal form of a number is its canonical one: it is made of digit
/// characters, reads back as the number, is `"0"` for zero and has no
/// leading zero otherwise.
pub proof fn lemma_decimal_canonical(n: nat)
    ensures
        decimal(n).len() > 0,
        forall|i: int| 0 <= i < decimal(n).len() ==> '0' <= #[trigger] decimal(n)[i] <= '9',
        digits_value(decimal(n)) == n,
        n == 0 ==> decimal(n) == seq!['0'],
        n > 0 ==> decimal(n)[0] != '0',
    decreases n,
{
    lemma_decimal_digits(n);
    lemma_decimal_value(n);
    if n >= 10 {
        lemma_decimal_canonical(n / 10);
        assert(decimal(n)[0] == decimal(n / 10)[0]);
    } else {
        assert((digit_char(n) as u32) == n + 48);
        if n == 0 {
            assert(decimal(n) =~= seq!['0']);
        }
    }
}

/// Zero padding does not change the number a string of digits stands for.
pub proof fn lemma_zero_padded_value(s: Seq<char>, width: nat)
    ensures
        digits_value(zero_padded(s, width)) == digits_value(s),
{
    if s.len() < width {
        lemma_leading_zeros_value((width - s.len()) as nat, s);
    }
}

/// A zero-padded number is made of digit characters.
pub proof fn lemma_zero_padded_digits(n: nat, width: nat)
    ensures
        forall|i: int|
            0 <= i < zero_padded(decimal(n), width).len() ==> '0' <= #[trigger] zero_padded(decimal(n), width)[i] <= '9',
{
    lemma_decimal_digits(n);
}


/// A piece of text that a replacement of `pat` passes through untouched
/// whatever follows it: it holds no character starting the pattern, or it
/// starts like the pattern, differs from it at its second character and
/// holds no further character starting it.
pub open spec fn inert_for(q: Seq<char>, pat: Seq<char>) -> bool {
    ||| !q.contains(pat[0])
    ||| (q.len() > 1 && q[1] != pat[1] && !q.skip(1).contains(pat[0]))
}

/// Pieces none of which holds `c` make a text without `c`.
pub proof fn lemma_flatten_lacks(pieces: Seq<Seq<char>>, c: char)
    requires
        forall|i: int| 0 <= i < pieces.len() ==> !(#[trigger] pieces[i]).contains(c),
    ensures
        !pieces.flatten().contains(c),
    decreases pieces.len(),
{
    if pieces.len() > 0 {
        let rest = pieces.drop_first();
        assert forall|i: int| 0 <= i < rest.len() implies !(#[trigger] rest[i]).contains(c) by {
            assert(rest[i] == pieces[i + 1]);
        }
        lemma_flatten_lacks(rest, c);
        let t = pieces.flatten();
        assert(t =~= pieces[0] + rest.flatten());
        assert forall|j: int| 0 <= j < t.len() implies t[j] != c by {
            if j < pieces[0].len() {
                assert(t[j] == pieces[0][j]);
            } else {
                assert(t[j] == rest.flatten()[j - pieces[0].len()]);
            }
        }
    }
}

/// Inert pieces in front pass through a replacement untouched.
pub proof fn lemma_replaced_passes_inert(pieces: Seq<Seq<char>>, b: Seq<char>, pat: Seq<char>, rep: Seq<char>)
    requires
        pat.len() > 1,
        forall|i: int| 0 <= i < pieces.len() ==> inert_for(#[trigger] pieces[i], pat),
    ensures
        replaced(pieces.flatten() + b, pat, rep) == pieces.flatten() + replaced(b, pat, rep),
    decreases pieces.len(),
{
    if pieces.len() == 0 {
        assert(pieces.flatten() + b =~= b);
        assert(pieces.flatten() + replaced(b, pat, rep) =~= replaced(b, pat, rep));
    } else {
        let q = pieces[0];
        let rest = pieces.drop_first();
        assert(inert_for(pieces[0], pat));
        assert forall|i: int| 0 <= i < rest.len() implies inert_for(#[trigger] rest[i], pat) by {
            assert(rest[i] == pieces[i + 1]);
        }
        lemma_replaced_passes_inert(rest, b, pat, rep);
        assert(pieces.flatten() + b =~= q + (rest.flatten() + b));
        if !q.contains(pat[0]) {
            lemma_replaced_passes_prefix(q, rest.flatten() + b, pat, rep);
        } else {
            lemma_replaced_passes_other(q, rest.flatten() + b, pat, rep);
        }
        assert(pieces.flatten() + replaced(b, pat, rep) =~= q + (rest.flatten() + replaced(b, pat, rep)));
    }
}

/// In a text made of pieces, one of which is the pattern and all others
/// inert, a replacement swaps that one piece for the replacement.
pub proof fn lemma_replaced_one_piece(
    before: Seq<Seq<char>>,
    after: Seq<Seq<char>>,
    pat: Seq<char>,
    rep: Seq<char>,
)
    requires
        pat.len() > 1,
        forall|i: int| 0 <= i < before.len() ==> inert_for(#[trigger] before[i], pat),
        forall|i: int| 0 <= i < after.len() ==> inert_for(#[trigger] after[i], pat),
    ensures
        replaced((before.push(pat) + after).flatten(), pat, rep) == (before.push(rep) + after).flatten(),
{
    lemma_flatten_concat(before.push(pat), after);
    lemma_flatten_concat(before.push(rep), after);
    before.lemma_flatten_push(pat);
    before.lemma_flatten_push(rep);
    let tail = pat + after.flatten();
    assert((before.push(pat) + after).flatten() =~= before.flatten() + tail);
    lemma_replaced_passes_inert(before, tail, pat, rep);
    lemma_replaced_match(pat, after.flatten(), rep);
    lemma_replaced_passes_inert(after, Seq::empty(), pat, rep);
    assert(after.flatten() + Seq::<char>::empty() =~= after.flatten());
    assert((before.push(rep) + after).flatten() =~= before.flatten() + (rep + after.flatten()));
}

} // verus!
