//! Verified text utilities: the character-level searching, trimming and
//! case-insensitive matching that pragma lines and macro markers need.

use vstd::prelude::*;
use vstd::string::StrSliceExecFns;
use vstd::string::StringExecFns;

verus! {

/// Appends one character to a `String`; relies on `String::push` of std.
pub assume_specification[ String::push ](s: &mut String, c: char)
    ensures
        final(s)@ == old(s)@.push(c),
;

/// The ASCII upper-case counterpart of a character; anything outside
/// `'a'..='z'` is left alone.
pub open spec fn upper_char(c: char) -> char {
    if c == 'a' {
        'A'
    } else if c == 'b' {
        'B'
    } else if c == 'c' {
        'C'
    } else if c == 'd' {
        'D'
    } else if c == 'e' {
        'E'
    } else if c == 'f' {
        'F'
    } else if c == 'g' {
        'G'
    } else if c == 'h' {
        'H'
    } else if c == 'i' {
        'I'
    } else if c == 'j' {
        'J'
    } else if c == 'k' {
        'K'
    } else if c == 'l' {
        'L'
    } else if c == 'm' {
        'M'
    } else if c == 'n' {
        'N'
    } else if c == 'o' {
        'O'
    } else if c == 'p' {
        'P'
    } else if c == 'q' {
        'Q'
    } else if c == 'r' {
        'R'
    } else if c == 's' {
        'S'
    } else if c == 't' {
        'T'
    } else if c == 'u' {
        'U'
    } else if c == 'v' {
        'V'
    } else if c == 'w' {
        'W'
    } else if c == 'x' {
        'X'
    } else if c == 'y' {
        'Y'
    } else if c == 'z' {
        'Z'
    } else {
        c
    }
}

/// A character sequence mapped to ASCII upper case.
pub open spec fn upper_seq(s: Seq<char>) -> Seq<char> {
    s.map_values(|c: char| upper_char(c))
}

#[verifier::when_used_as_spec(upper_char)]
pub fn upper_char_exec(c: char) -> (r: char)
    ensures
        r == upper_char(c),
{
    match c {
        'a' => 'A',
        'b' => 'B',
        'c' => 'C',
        'd' => 'D',
        'e' => 'E',
        'f' => 'F',
        'g' => 'G',
        'h' => 'H',
        'i' => 'I',
        'j' => 'J',
        'k' => 'K',
        'l' => 'L',
        'm' => 'M',
        'n' => 'N',
        'o' => 'O',
        'p' => 'P',
        'q' => 'Q',
        'r' => 'R',
        's' => 'S',
        't' => 'T',
        'u' => 'U',
        'v' => 'V',
        'w' => 'W',
        'x' => 'X',
        'y' => 'Y',
        'z' => 'Z',
        _ => c,
    }
}

/// The decimal digit character for a value below ten.
fn digit_char(d: usize) -> char
    requires
        d < 10,
{
    match d {
        0 => '0',
        1 => '1',
        2 => '2',
        3 => '3',
        4 => '4',
        5 => '5',
        6 => '6',
        7 => '7',
        8 => '8',
        _ => '9',
    }
}

/// A number written in decimal, for error messages.
pub fn usize_to_string(n: usize) -> String {
    let mut digits: Vec<char> = Vec::new();
    let mut rest = n;
    digits.push(digit_char(rest % 10));
    rest = rest / 10;
    while rest > 0
        decreases rest,
    {
        digits.push(digit_char(rest % 10));
        rest = rest / 10;
    }
    let mut out = String::new();
    let mut i = digits.len();
    while i > 0
        invariant
            i <= digits@.len(),
        decreases i,
    {
        i -= 1;
        out.push(digits[i]);
    }
    out
}

/// The string mapped to ASCII upper case.
pub fn to_upper(s: &str) -> (r: String)
    ensures
        r@ == upper_seq(s@),
{
    let slen = s.unicode_len();
    let mut out = String::new();
    let mut i: usize = 0;
    while i < slen
        invariant
            slen == s@.len(),
            i <= slen,
            out@ == upper_seq(s@.take(i as int)),
        decreases slen - i,
    {
        out.push(upper_char_exec(s.get_char(i)));
        proof {
            assert(upper_seq(s@.take(i + 1)) =~= upper_seq(s@.take(i as int)).push(
                upper_char(s@[i as int]),
            ));
        }
        i += 1;
    }
    proof {
        assert(s@.take(slen as int) =~= s@);
    }
    out
}

/// Character-for-character equality of two string slices.
pub fn str_eq(a: &str, b: &str) -> (r: bool)
    ensures
        r == (a@ == b@),
{
    let alen = a.unicode_len();
    let blen = b.unicode_len();
    if alen != blen {
        proof {
            assert(a@ != b@);
        }
        return false;
    }
    let mut i: usize = 0;
    while i < alen
        invariant
            alen == a@.len(),
            alen == b@.len(),
            i <= alen,
            forall|j: int| 0 <= j < i ==> a@[j] == b@[j],
        decreases alen - i,
    {
        if a.get_char(i) != b.get_char(i) {
            proof {
                assert(a@[i as int] != b@[i as int]);
            }
            return false;
        }
        i += 1;
    }
    proof {
        assert(a@ =~= b@);
    }
    true
}

/// Equality of two string slices up to ASCII case.
pub fn eq_ignore_case(a: &str, b: &str) -> (r: bool)
    ensures
        r == (upper_seq(a@) == upper_seq(b@)),
{
    let alen = a.unicode_len();
    let blen = b.unicode_len();
    if alen != blen {
        proof {
            assert(upper_seq(a@).len() != upper_seq(b@).len());
        }
        return false;
    }
    let mut i: usize = 0;
    while i < alen
        invariant
            alen == a@.len(),
            alen == b@.len(),
            i <= alen,
            forall|j: int| 0 <= j < i ==> upper_char(a@[j]) == upper_char(b@[j]),
        decreases alen - i,
    {
        if upper_char_exec(a.get_char(i)) != upper_char_exec(b.get_char(i)) {
            proof {
                assert(upper_seq(a@)[i as int] != upper_seq(b@)[i as int]);
            }
            return false;
        }
        i += 1;
    }
    proof {
        assert(upper_seq(a@) =~= upper_seq(b@));
    }
    true
}

/// Whether `s` begins with `prefix`, up to ASCII case.
pub fn starts_with_upper(s: &str, prefix: &str) -> (r: bool)
    ensures
        r == (s@.len() >= prefix@.len() && upper_seq(s@.take(prefix@.len() as int))
            == upper_seq(prefix@)),
{
    let slen = s.unicode_len();
    let plen = prefix.unicode_len();
    if slen < plen {
        return false;
    }
    let mut i: usize = 0;
    while i < plen
        invariant
            slen == s@.len(),
            plen == prefix@.len(),
            plen <= slen,
            i <= plen,
            forall|j: int| 0 <= j < i ==> upper_char(s@[j]) == upper_char(prefix@[j]),
        decreases plen - i,
    {
        if upper_char_exec(s.get_char(i)) != upper_char_exec(prefix.get_char(i)) {
            proof {
                assert(upper_seq(s@.take(plen as int))[i as int] != upper_seq(prefix@)[i as int]);
            }
            return false;
        }
        i += 1;
    }
    proof {
        assert(upper_seq(s@.take(plen as int)) =~= upper_seq(prefix@));
    }
    true
}

/// Whether `p` occurs in `s` as a contiguous run starting at `i`.
pub open spec fn matches_at(s: Seq<char>, p: Seq<char>, i: int) -> bool {
    0 <= i && i + p.len() <= s.len() && s.subrange(i, i + p.len()) == p
}

/// Whether `p` occurs anywhere in `s`.
pub open spec fn contains_seq(s: Seq<char>, p: Seq<char>) -> bool {
    exists|i: int| matches_at(s, p, i)
}

/// Whether `s` contains `pat` as a substring, as `str::contains` reports it.
pub fn contains_str(s: &str, pat: &str) -> (r: bool)
    ensures
        r == contains_seq(s@, pat@),
{
    let slen = s.unicode_len();
    let plen = pat.unicode_len();
    if plen > slen {
        proof {
            assert(forall|i: int| !matches_at(s@, pat@, i));
        }
        return false;
    }
    let mut i: usize = 0;
    while i <= slen - plen
        invariant
            slen == s@.len(),
            plen == pat@.len(),
            plen <= slen,
            i <= slen - plen + 1,
            forall|k: int| 0 <= k < i ==> !matches_at(s@, pat@, k),
        decreases slen - i,
    {
        let mut j: usize = 0;
        let mut hit = true;
        while j < plen
            invariant
                slen == s@.len(),
                plen == pat@.len(),
                i + plen <= slen,
                j <= plen,
                hit <==> (forall|k: int| 0 <= k < j ==> s@[i + k] == pat@[k]),
            decreases plen - j,
        {
            if s.get_char(i + j) != pat.get_char(j) {
                proof {
                    assert(s@[i + j as int] != pat@[j as int]);
                }
                hit = false;
                j = plen;
            } else {
                j += 1;
            }
        }
        if hit {
            proof {
                assert(s@.subrange(i as int, i + plen as int) =~= pat@);
                assert(matches_at(s@, pat@, i as int));
            }
            return true;
        }
        proof {
            assert(s@.subrange(i as int, i + plen as int) != pat@);
        }
        i += 1;
    }
    proof {
        assert(forall|k: int| matches_at(s@, pat@, k) ==> 0 <= k < i);
    }
    false
}

/// The first index of `c` in `s`, if any.
pub fn index_of_char(s: &str, c: char) -> (r: Option<usize>)
    ensures
        match r {
            Some(i) => i < s@.len() && s@[i as int] == c && forall|j: int|
                0 <= j < i ==> s@[j] != c,
            None => forall|j: int| 0 <= j < s@.len() ==> s@[j] != c,
        },
{
    let slen = s.unicode_len();
    let mut i: usize = 0;
    while i < slen
        invariant
            slen == s@.len(),
            i <= slen,
            forall|j: int| 0 <= j < i ==> s@[j] != c,
        decreases slen - i,
    {
        if s.get_char(i) == c {
            return Some(i);
        }
        i += 1;
    }
    None
}

/// The last index of `c` in `s`, if any.
pub fn rindex_of_char(s: &str, c: char) -> (r: Option<usize>)
    ensures
        match r {
            Some(i) => i < s@.len() && s@[i as int] == c && forall|j: int|
                i < j < s@.len() ==> s@[j] != c,
            None => forall|j: int| 0 <= j < s@.len() ==> s@[j] != c,
        },
{
    let slen = s.unicode_len();
    let mut i: usize = slen;
    while i > 0
        invariant
            slen == s@.len(),
            i <= slen,
            forall|j: int| i <= j < slen ==> s@[j] != c,
        decreases i,
    {
        i -= 1;
        if s.get_char(i) == c {
            return Some(i);
        }
    }
    None
}

/// `s` with every line break replaced by a single space.
pub open spec fn collapsed_lines(s: Seq<char>) -> Seq<char> {
    s.map_values(|c: char| if c == '\n' { ' ' } else { c })
}

pub fn collapse_newlines(s: &str) -> (r: String)
    ensures
        r@ == collapsed_lines(s@),
{
    let slen = s.unicode_len();
    let mut out = String::new();
    let mut i: usize = 0;
    while i < slen
        invariant
            slen == s@.len(),
            i <= slen,
            out@ == collapsed_lines(s@.take(i as int)),
        decreases slen - i,
    {
        let c = s.get_char(i);
        if c == '\n' {
            out.push(' ');
        } else {
            out.push(c);
        }
        proof {
            assert(collapsed_lines(s@.take(i + 1)) =~= collapsed_lines(s@.take(i as int)).push(
                if s@[i as int] == '\n' {
                    ' '
                } else {
                    s@[i as int]
                },
            ));
        }
        i += 1;
    }
    proof {
        assert(s@.take(slen as int) =~= s@);
    }
    out
}

/// A plain whitespace character, as `str::trim` understands the ASCII ones.
pub open spec fn is_space(c: char) -> bool {
    c == ' ' || c == '\t' || c == '\r' || c == '\n'
}

/// `s` without its leading and trailing whitespace.
pub open spec fn trimmed(s: Seq<char>) -> Seq<char>
    decreases s.len(),
{
    if s.len() > 0 && is_space(s[0]) {
        trimmed(s.drop_first())
    } else if s.len() > 0 && is_space(s[s.len() - 1]) {
        trimmed(s.drop_last())
    } else {
        s
    }
}

pub fn trim_spaces(s: &str) -> (r: String)
    ensures
        r@ == trimmed(s@),
{
    let slen = s.unicode_len();
    let mut lo: usize = 0;
    proof {
        assert(s@.skip(0) =~= s@);
    }
    while lo < slen && is_space_exec(s.get_char(lo))
        invariant
            slen == s@.len(),
            lo <= slen,
            forall|j: int| 0 <= j < lo ==> is_space(s@[j]),
            trimmed(s@) == trimmed(s@.skip(lo as int)),
        decreases slen - lo,
    {
        proof {
            lemma_trim_drop_first(s@.skip(lo as int));
            assert(s@.skip(lo as int).drop_first() =~= s@.skip(lo + 1));
        }
        lo += 1;
    }
    let mut hi: usize = slen;
    while hi > lo && is_space_exec(s.get_char(hi - 1))
        invariant
            slen == s@.len(),
            lo <= hi <= slen,
            lo < slen ==> !is_space(s@[lo as int]),
            trimmed(s@) == trimmed(s@.subrange(lo as int, hi as int)),
        decreases hi,
    {
        proof {
            lemma_trim_drop_last(s@.subrange(lo as int, hi as int));
            assert(s@.subrange(lo as int, hi as int).drop_last() =~= s@.subrange(
                lo as int,
                hi - 1,
            ));
        }
        hi -= 1;
    }
    proof {
        if lo == hi {
            assert(s@.subrange(lo as int, hi as int) =~= Seq::<char>::empty());
        }
        assert(trimmed(s@.subrange(lo as int, hi as int)) == s@.subrange(lo as int, hi as int));
    }
    let r = s.substring_char(lo, hi);
    r.to_owned()
}

pub fn is_space_exec(c: char) -> (r: bool)
    ensures
        r == is_space(c),
{
    c == ' ' || c == '\t' || c == '\r' || c == '\n'
}

pub proof fn lemma_trim_drop_first(s: Seq<char>)
    requires
        s.len() > 0,
        is_space(s[0]),
    ensures
        trimmed(s) == trimmed(s.drop_first()),
{
}

pub proof fn lemma_trim_drop_last(s: Seq<char>)
    requires
        s.len() > 0,
        !(s.len() > 0 && is_space(s[0])),
        is_space(s[s.len() - 1]),
    ensures
        trimmed(s) == trimmed(s.drop_last()),
{
}

} // verus!
