//! Character-level text utilities: whitespace trimming, leading-marker
//! counting, and first-occurrence search.  Each notion is defined once as a
//! recursive specification function over `Seq<char>`, and the executable
//! scanners are proved to compute exactly those functions on index ranges of
//! a character buffer.

use vstd::prelude::*;
use vstd::string::StrSliceExecFns;

verus! {

/// The whitespace characters recognised when trimming a line.
pub open spec fn is_space_char(c: char) -> bool {
    c == ' ' || c == '\t' || c == '\n' || c == '\r' || c == '\u{b}' || c == '\u{c}'
}

/// `s` with its leading whitespace removed.
pub open spec fn trim_front(s: Seq<char>) -> Seq<char>
    decreases s.len(),
{
    if s.len() > 0 && is_space_char(s[0]) {
        trim_front(s.drop_first())
    } else {
        s
    }
}

/// `s` with its trailing whitespace removed.
pub open spec fn trim_back(s: Seq<char>) -> Seq<char>
    decreases s.len(),
{
    if s.len() > 0 && is_space_char(s.last()) {
        trim_back(s.drop_last())
    } else {
        s
    }
}

/// `s` with surrounding whitespace removed.
pub open spec fn trimmed(s: Seq<char>) -> Seq<char> {
    trim_back(trim_front(s))
}

/// The length of the run of `#` characters at the start of `s`.
pub open spec fn hash_run(s: Seq<char>) -> nat
    decreases s.len(),
{
    if s.len() > 0 && s[0] == '#' {
        hash_run(s.drop_first()) + 1
    } else {
        0
    }
}

/// The index of the first occurrence of `c` in `s`, or `s.len()` if `c` does
/// not occur.
pub open spec fn find_char(s: Seq<char>, c: char) -> int
    decreases s.len(),
{
    if s.len() == 0 {
        0
    } else if s[0] == c {
        0
    } else {
        1 + find_char(s.drop_first(), c)
    }
}

/// `find_char` returns an index within `0 ..= s.len()`, everything before it
/// differs from `c`, and it points at `c` unless `c` is absent.
pub proof fn lemma_find_char_props(s: Seq<char>, c: char)
    ensures
        0 <= find_char(s, c) <= s.len(),
        forall|k: int| 0 <= k < find_char(s, c) ==> s[k] != c,
        find_char(s, c) < s.len() ==> s[find_char(s, c)] == c,
    decreases s.len(),
{
    if s.len() == 0 || s[0] == c {
    } else {
        lemma_find_char_props(s.drop_first(), c);
        assert forall|k: int| 0 <= k < find_char(s, c) implies s[k] != c by {
            if k > 0 {
                assert(s.drop_first()[k - 1] == s[k]);
            }
        }
    }
}

/// A position that is preceded only by non-`c` characters and holds `c` (or is
/// the end) is exactly `find_char`.
pub proof fn lemma_find_char_at(s: Seq<char>, c: char, m: int)
    requires
        0 <= m <= s.len(),
        forall|k: int| 0 <= k < m ==> s[k] != c,
        m < s.len() ==> s[m] == c,
    ensures
        find_char(s, c) == m,
    decreases s.len(),
{
    if m == 0 {
    } else {
        assert(s[0] != c);
        assert forall|k: int| 0 <= k < m - 1 implies s.drop_first()[k] != c by {
            assert(s.drop_first()[k] == s[k + 1]);
        }
        assert(m - 1 < s.drop_first().len() ==> s.drop_first()[m - 1] == s[m]);
        lemma_find_char_at(s.drop_first(), c, m - 1);
    }
}

/// A position preceded only by `#` characters and holding a non-`#` character
/// (or the end) is exactly `hash_run`.
pub proof fn lemma_hash_run_at(s: Seq<char>, h: int)
    requires
        0 <= h <= s.len(),
        forall|k: int| 0 <= k < h ==> s[k] == '#',
        h < s.len() ==> s[h] != '#',
    ensures
        hash_run(s) == h,
    decreases s.len(),
{
    if h == 0 {
    } else {
        assert(s[0] == '#');
        assert forall|k: int| 0 <= k < h - 1 implies s.drop_first()[k] == '#' by {
            assert(s.drop_first()[k] == s[k + 1]);
        }
        assert(h - 1 < s.drop_first().len() ==> s.drop_first()[h - 1] == s[h]);
        lemma_hash_run_at(s.drop_first(), h - 1);
    }
}

/// The leading run of `#` characters never extends past the end of `s`.
pub proof fn lemma_hash_run_le_len(s: Seq<char>)
    ensures
        hash_run(s) <= s.len(),
    decreases s.len(),
{
    if s.len() > 0 && s[0] == '#' {
        lemma_hash_run_le_len(s.drop_first());
    }
}

/// Trimming the front of `s` removes exactly the leading run of whitespace.
pub proof fn lemma_trim_front_skip(s: Seq<char>, i: int)
    requires
        0 <= i <= s.len(),
        forall|k: int| 0 <= k < i ==> is_space_char(s[k]),
        i < s.len() ==> !is_space_char(s[i]),
    ensures
        trim_front(s) == s.skip(i),
    decreases i,
{
    if i == 0 {
        assert(s.skip(0) =~= s);
    } else {
        assert(is_space_char(s[0]));
        assert forall|k: int| 0 <= k < i - 1 implies is_space_char(s.drop_first()[k]) by {
            assert(s.drop_first()[k] == s[k + 1]);
        }
        assert(i - 1 < s.drop_first().len() ==> s.drop_first()[i - 1] == s[i]);
        lemma_trim_front_skip(s.drop_first(), i - 1);
        assert(s.drop_first().skip(i - 1) =~= s.skip(i));
    }
}

/// Trimming the back of `s` removes exactly the trailing run of whitespace.
pub proof fn lemma_trim_back_take(s: Seq<char>, j: int)
    requires
        0 <= j <= s.len(),
        forall|k: int| j <= k < s.len() ==> is_space_char(s[k]),
        j > 0 ==> !is_space_char(s[j - 1]),
    ensures
        trim_back(s) == s.take(j),
    decreases s.len(),
{
    if j == s.len() {
        assert(s.take(j) =~= s);
    } else {
        assert(is_space_char(s.last()));
        assert forall|k: int| j <= k < s.drop_last().len() implies is_space_char(
            s.drop_last()[k],
        ) by {
            assert(s.drop_last()[k] == s[k]);
        }
        lemma_trim_back_take(s.drop_last(), j);
        assert(s.drop_last().take(j) =~= s.take(j));
    }
}

/// Trimming the back of a text that starts with a non-space character never
/// erases that character.
pub proof fn lemma_trim_back_keeps_head(s: Seq<char>)
    requires
        s.len() > 0,
        !is_space_char(s[0]),
    ensures
        trim_back(s).len() > 0,
        trim_back(s)[0] == s[0],
    decreases s.len(),
{
    if is_space_char(s.last()) {
        assert(s.len() > 1);
        assert(s.drop_last()[0] == s[0]);
        lemma_trim_back_keeps_head(s.drop_last());
    }
}

/// Trimming the back commutes with prepending a character, as long as the
/// text already starts with a non-space character.
pub proof fn lemma_trim_back_prepend(c: char, s: Seq<char>)
    requires
        s.len() > 0,
        !is_space_char(s[0]),
    ensures
        trim_back(seq![c] + s) == seq![c] + trim_back(s),
    decreases s.len(),
{
    let l = seq![c] + s;
    assert(l.last() == s.last());
    if !is_space_char(s.last()) {
    } else {
        assert(s.len() > 1);
        assert(s.drop_last()[0] == s[0]);
        lemma_trim_back_prepend(c, s.drop_last());
        assert(l.drop_last() =~= seq![c] + s.drop_last());
    }
}

/// Whether `c` is recognised as whitespace.
pub fn is_space(c: char) -> (r: bool)
    ensures
        r == is_space_char(c),
{
    c == ' ' || c == '\t' || c == '\n' || c == '\r' || c == '\u{b}' || c == '\u{c}'
}

/// Copies the characters of `s` into a vector, so that scanning can index
/// them directly.
pub fn chars_of(s: &str) -> (v: Vec<char>)
    ensures
        v@ == s@,
{
    let n: usize = s.unicode_len();
    let mut v: Vec<char> = Vec::new();
    let mut i: usize = 0;
    while i < n
        invariant
            i <= n,
            n == s@.len(),
            v@ == s@.take(i as int),
        decreases n - i,
    {
        let c = s.get_char(i);
        v.push(c);
        proof {
            assert(v@ =~= s@.take(i as int + 1));
        }
        i = i + 1;
    }
    proof {
        assert(s@.take(n as int) =~= s@);
    }
    v
}

/// Finds the first occurrence of `c` in `chars[lo..hi]`, returning its
/// absolute index, or `hi` if it does not occur.
pub fn find_range(chars: &Vec<char>, lo: usize, hi: usize, c: char) -> (r: usize)
    requires
        lo <= hi <= chars@.len(),
    ensures
        lo <= r <= hi,
        find_char(chars@.subrange(lo as int, hi as int), c) == r - lo,
        forall|k: int| lo <= k < r ==> chars@[k] != c,
        r < hi ==> chars@[r as int] == c,
{
    let mut i: usize = lo;
    while i < hi && chars[i] != c
        invariant
            lo <= i <= hi,
            hi <= chars@.len(),
            forall|k: int| lo <= k < i ==> chars@[k] != c,
        decreases hi - i,
    {
        i = i + 1;
    }
    proof {
        let s = chars@.subrange(lo as int, hi as int);
        assert forall|k: int| 0 <= k < i - lo implies s[k] != c by {
            assert(s[k] == chars@[lo + k]);
        }
        assert(i < hi ==> s[i - lo] == chars@[i as int]);
        lemma_find_char_at(s, c, i as int - lo as int);
    }
    i
}

/// Trims whitespace from both ends of `chars[lo..hi]`, returning the absolute
/// bounds of the trimmed text.
pub fn trim_range(chars: &Vec<char>, lo: usize, hi: usize) -> (r: (usize, usize))
    requires
        lo <= hi <= chars@.len(),
    ensures
        lo <= r.0 <= r.1 <= hi,
        trimmed(chars@.subrange(lo as int, hi as int)) == chars@.subrange(
            r.0 as int,
            r.1 as int,
        ),
{
    let mut a: usize = lo;
    while a < hi && is_space(chars[a])
        invariant
            lo <= a <= hi,
            hi <= chars@.len(),
            forall|k: int| lo <= k < a ==> is_space_char(chars@[k]),
        decreases hi - a,
    {
        a = a + 1;
    }
    let mut b: usize = hi;
    while b > a && is_space(chars[b - 1])
        invariant
            a <= b <= hi,
            hi <= chars@.len(),
            forall|k: int| b <= k < hi ==> is_space_char(chars@[k]),
        decreases b,
    {
        b = b - 1;
    }
    proof {
        let s = chars@.subrange(lo as int, hi as int);
        assert forall|k: int| 0 <= k < a - lo implies is_space_char(s[k]) by {
            assert(s[k] == chars@[lo + k]);
        }
        assert(a < hi ==> s[a - lo] == chars@[a as int]);
        lemma_trim_front_skip(s, a as int - lo as int);
        let t = s.skip(a as int - lo as int);
        assert(t =~= chars@.subrange(a as int, hi as int));
        assert forall|k: int| b - a <= k < t.len() implies is_space_char(t[k]) by {
            assert(t[k] == chars@[a + k]);
        }
        assert(b > a ==> t[b - a - 1] == chars@[b as int - 1]);
        lemma_trim_back_take(t, b as int - a as int);
        assert(t.take(b as int - a as int) =~= chars@.subrange(a as int, b as int));
    }
    (a, b)
}

/// Counts the `#` characters at the start of `chars[lo..hi]`.
pub fn hash_run_range(chars: &Vec<char>, lo: usize, hi: usize) -> (h: usize)
    requires
        lo <= hi <= chars@.len(),
    ensures
        lo + h <= hi,
        hash_run(chars@.subrange(lo as int, hi as int)) == h,
{
    let mut i: usize = lo;
    while i < hi && chars[i] == '#'
        invariant
            lo <= i <= hi,
            hi <= chars@.len(),
            forall|k: int| lo <= k < i ==> chars@[k] == '#',
        decreases hi - i,
    {
        i = i + 1;
    }
    proof {
        let s = chars@.subrange(lo as int, hi as int);
        assert forall|k: int| 0 <= k < i - lo implies s[k] == '#' by {
            assert(s[k] == chars@[lo + k]);
        }
        assert(i < hi ==> s[i - lo] == chars@[i as int]);
        lemma_hash_run_at(s, i as int - lo as int);
    }
    i - lo
}

} // verus!
