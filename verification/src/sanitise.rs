//! Turning an email subject into a safe file name stem.

use vstd::prelude::*;
use crate::text::{chars_of, string_of};

verus! {

/// Whether std's `char::is_alphanumeric` holds of `c` (the Unicode
/// `Alphabetic` or `Numeric` property).
pub uninterp spec fn unicode_alphanumeric(c: char) -> bool;

/// An ASCII letter or digit.
pub open spec fn ascii_alphanumeric(c: char) -> bool {
    ('a' <= c <= 'z') || ('A' <= c <= 'Z') || ('0' <= c <= '9')
}

/// Calls std's `char::is_alphanumeric` ("true if this char satisfies either
/// `is_alphabetic()` or `is_numeric()`", that is the Unicode `Alphabetic`
/// property or a number category). The contract ties the answer to the name
/// [`unicode_alphanumeric`] and states it for ASCII, where those are exactly
/// the letters and digits; the Unicode tables for other characters are not
/// restated here.
#[verifier::external_body]
fn is_alphanumeric(c: char) -> (r: bool)
    ensures
        r == unicode_alphanumeric(c),
        (c as u32) < 128 ==> (r <==> ascii_alphanumeric(c)),
{
    c.is_alphanumeric()
}

/// A character that may stay in a file name: alphanumeric (for ASCII, a
/// letter or a digit), space, hyphen or underscore.
pub open spec fn is_kept(c: char) -> bool {
    ||| (if (c as u32) < 128 { ascii_alphanumeric(c) } else { unicode_alphanumeric(c) })
    ||| c == ' '
    ||| c == '-'
    ||| c == '_'
}

/// The character that stands for `c` in a file name.
pub open spec fn sanitised_char(c: char) -> char {
    if is_kept(c) {
        c
    } else {
        '_'
    }
}

/// `s` with every character that may not stay replaced by `'_'`, cut to its
/// first `max_length` characters.
pub open spec fn sanitised(s: Seq<char>, max_length: nat) -> Seq<char> {
    let n = if s.len() <= max_length { s.len() } else { max_length };
    s.take(n as int).map_values(|c: char| sanitised_char(c))
}

/// Sanitises a string for use as a filename.
///
/// Keeps only alphanumeric characters, spaces, hyphens, and underscores.
/// Truncates to `max_length` characters.
pub fn sanitise_filename(s: &str, max_length: usize) -> (r: String)
    ensures
        r@ == sanitised(s@, max_length as nat),
        r@.len() <= max_length,
        forall|i: int| 0 <= i < r@.len() ==> is_kept(#[trigger] r@[i]),
{
    let cs = chars_of(s);
    let n = if cs.len() <= max_length { cs.len() } else { max_length };
    let mut out: Vec<char> = Vec::new();
    let mut i: usize = 0;
    while i < n
        invariant
            i <= n,
            n <= cs@.len(),
            out@ == cs@.take(i as int).map_values(|c: char| sanitised_char(c)),
        decreases n - i,
    {
        let c = cs[i];
        let kept = is_alphanumeric(c) || c == ' ' || c == '-' || c == '_';
        out.push(if kept { c } else { '_' });
        assert(cs@.take(i + 1) =~= cs@.take(i as int).push(c));
        assert(out@ =~= cs@.take(i + 1).map_values(|c: char| sanitised_char(c)));
        i = i + 1;
    }
    string_of(&out)
}


/// The length a file name stem is cut to when no other limit is set.
pub const DEFAULT_MAX_FILENAME_LENGTH: usize = 80;

/// `s` with every character that may not stay replaced by `'_'`.
pub open spec fn cleaned(s: Seq<char>) -> Seq<char> {
    s.map_values(|c: char| sanitised_char(c))
}

/// The first `n` characters of `s` (all of them when there are fewer).
pub open spec fn cut(s: Seq<char>, n: nat) -> Seq<char> {
    if s.len() <= n {
        s
    } else {
        s.take(n as int)
    }
}

/// Sanitises a string for use as a filename with the default limit: keeps
/// only alphanumeric characters, spaces, hyphens, and underscores, then
/// truncates to 80 characters.
pub fn sanitise_filename_default_length(s: &str) -> (r: String)
    ensures
        r@ == cut(cleaned(s@), DEFAULT_MAX_FILENAME_LENGTH as nat),
{
    let cs = chars_of(s);
    let mut clean: Vec<char> = Vec::new();
    let mut i: usize = 0;
    while i < cs.len()
        invariant
            i <= cs@.len(),
            clean@ == cleaned(cs@.take(i as int)),
        decreases cs@.len() - i,
    {
        let c = cs[i];
        let kept = is_alphanumeric(c) || c == ' ' || c == '-' || c == '_';
        clean.push(if kept { c } else { '_' });
        assert(cs@.take(i + 1) =~= cs@.take(i as int).push(c));
        assert(clean@ =~= cleaned(cs@.take(i + 1)));
        i = i + 1;
    }
    assert(cs@.take(i as int) =~= cs@);
    let mut out: Vec<char> = Vec::new();
    let mut j: usize = 0;
    while j < clean.len() && j < DEFAULT_MAX_FILENAME_LENGTH
        invariant
            j <= clean@.len(),
            j <= DEFAULT_MAX_FILENAME_LENGTH,
            out@ == clean@.take(j as int),
        decreases clean@.len() - j,
    {
        out.push(clean[j]);
        assert(clean@.take(j + 1) =~= clean@.take(j as int).push(clean@[j as int]));
        j = j + 1;
    }
    if clean.len() <= DEFAULT_MAX_FILENAME_LENGTH {
        assert(clean@.take(j as int) =~= clean@);
    }
    string_of(&out)
}

/// Cleaning the whole text and then cutting it gives the same as cutting
/// and cleaning what is kept: the sanitiser with the default limit of 80
/// is [`sanitise_filename`] with 80.
pub proof fn lemma_cut_after_cleaning(s: Seq<char>, n: nat)
    ensures
        cut(cleaned(s), n) == sanitised(s, n),
{
    assert(cut(cleaned(s), n) =~= sanitised(s, n));
}

/// Alphanumeric characters are kept as they are, at any code point: every
/// non-ASCII character for which std's `char::is_alphanumeric` holds, and
/// every ASCII letter and digit (the ASCII characters for which it holds);
/// so are space, `-` and `_`. Every other character becomes `_`.
pub proof fn lemma_alphanumerics_are_kept(c: char)
    ensures
        (c as u32) >= 128 && unicode_alphanumeric(c) ==> sanitised_char(c) == c,
        ascii_alphanumeric(c) ==> sanitised_char(c) == c,
        c == ' ' || c == '-' || c == '_' ==> sanitised_char(c) == c,
        (c as u32) >= 128 && !unicode_alphanumeric(c) ==> sanitised_char(c) == '_',
        (c as u32) < 128 && !ascii_alphanumeric(c) && c != ' ' && c != '-' && c != '_'
            ==> sanitised_char(c) == '_',
{
}

/// A subject within the limit made only of alphanumeric characters (at any
/// code point), spaces, hyphens and underscores is its own file name stem.
pub proof fn lemma_alphanumeric_subject_is_kept(s: Seq<char>, max_length: nat)
    requires
        s.len() <= max_length,
        forall|i: int|
            0 <= i < s.len() ==> {
                let c = #[trigger] s[i];
                ||| ((c as u32) >= 128 && unicode_alphanumeric(c))
                ||| ascii_alphanumeric(c)
                ||| c == ' '
                ||| c == '-'
                ||| c == '_'
            },
    ensures
        sanitised(s, max_length) == s,
{
    assert forall|i: int| 0 <= i < s.len() implies #[trigger] sanitised_char(s[i]) == s[i] by {
        lemma_alphanumerics_are_kept(s[i]);
    }
    assert(sanitised(s, max_length) =~= s);
}

/// Sanitising a file name stem a second time, with the same limit, leaves it
/// unchanged.
pub proof fn lemma_sanitise_idempotent(s: Seq<char>, max_length: nat)
    ensures
        sanitised(sanitised(s, max_length), max_length) == sanitised(s, max_length),
{
    let t = sanitised(s, max_length);
    assert forall|i: int| 0 <= i < t.len() implies #[trigger] sanitised_char(t[i]) == t[i] by {
        assert(is_kept(t[i]));
    }
    assert(sanitised(t, max_length) =~= t);
}

/// A subject made only of kept characters and no longer than the limit is
/// its own file name stem.
pub proof fn lemma_sanitise_keeps_clean_names(s: Seq<char>, max_length: nat)
    requires
        s.len() <= max_length,
        forall|i: int| 0 <= i < s.len() ==> is_kept(#[trigger] s[i]),
    ensures
        sanitised(s, max_length) == s,
{
    assert(sanitised(s, max_length) =~= s);
}


/// A sanitised name holds no path separator, dot, colon, NUL, brace or other
/// ASCII punctuation besides `-` and `_`: every ASCII character left is a
/// letter, a digit, a space, `-` or `_`.
pub proof fn lemma_sanitised_ascii_is_safe(s: Seq<char>, max_length: nat)
    ensures
        forall|i: int|
            0 <= i < sanitised(s, max_length).len() && (#[trigger] sanitised(s, max_length)[i] as u32) < 128
                ==> ascii_alphanumeric(sanitised(s, max_length)[i]) || sanitised(s, max_length)[i] == ' '
                || sanitised(s, max_length)[i] == '-' || sanitised(s, max_length)[i] == '_',
        !sanitised(s, max_length).contains('/'),
        !sanitised(s, max_length).contains('\\'),
        !sanitised(s, max_length).contains('.'),
        !sanitised(s, max_length).contains(':'),
        !sanitised(s, max_length).contains('\0'),
        !sanitised(s, max_length).contains('{'),
        !sanitised(s, max_length).contains('}'),
{
    let t = sanitised(s, max_length);
    assert forall|i: int| 0 <= i < t.len() implies is_kept(#[trigger] t[i]) by {}
}

} // verus!
