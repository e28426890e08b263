//! Verified character-level text utilities: searching, splitting on a
//! separator, joining lines, trimming surrounding whitespace, and
//! ASCII-case-insensitive comparison.
//!
//! Every executable function here is specified exactly against a spec
//! function over `Seq<char>`, so that the parsers and the record framing
//! built on top of them can state their behaviour precisely.

use vstd::prelude::*;

verus! {

/// True when a character is whitespace as this library trims it:
/// space, tab, line feed, carriage return, vertical tab, or form feed.
pub open spec fn is_space_char(c: char) -> bool {
    c == ' ' || c == '\t' || c == '\n' || c == '\r' || c == '\u{b}' || c == '\u{c}'
}

/// Index of the first occurrence of `c` in `s`, or `s.len()` when absent.
pub open spec fn find_char(s: Seq<char>, c: char) -> int
    decreases s.len(),
{
    if s.len() == 0 {
        0
    } else if s[0] == c {
        0
    } else {
        1 + find_char(s.drop_first(), c)
    }
}

pub proof fn lemma_find_char(s: Seq<char>, c: char)
    ensures
        0 <= find_char(s, c) <= s.len(),
        forall|k: int| 0 <= k < find_char(s, c) ==> s[k] != c,
        find_char(s, c) < s.len() ==> s[find_char(s, c)] == c,
    decreases s.len(),
{
    if s.len() > 0 && s[0] != c {
        lemma_find_char(s.drop_first(), c);
        assert forall|k: int| 0 <= k < find_char(s, c) implies s[k] != c by {
            if k > 0 {
                assert(s.drop_first()[k - 1] == s[k]);
            }
        }
        if find_char(s, c) < s.len() {
            assert(s.drop_first()[find_char(s, c) - 1] == s[find_char(s, c)]);
        }
    }
}

/// Any index that is a first occurrence (or the length, when the character
/// is absent) equals `find_char`.
pub proof fn lemma_find_char_unique(s: Seq<char>, c: char, r: int)
    requires
        0 <= r <= s.len(),
        forall|k: int| 0 <= k < r ==> s[k] != c,
        r < s.len() ==> s[r] == c,
    ensures
        r == find_char(s, c),
{
    lemma_find_char(s, c);
    let f = find_char(s, c);
    if r < f {
        assert(s[r] != c);
    } else if f < r {
        assert(s[f] != c);
    }
}

/// Searches `s` for `c`, starting at `from`; returns the index of the first
/// occurrence at or after `from`, or the length of `s` when there is none.
pub fn find_char_from(s: &str, c: char, from: usize) -> (r: usize)
    requires
        from <= s@.len(),
    ensures
        from <= r <= s@.len(),
        r - from == find_char(s@.subrange(from as int, s@.len() as int), c),
        forall|k: int| from <= k < r ==> s@[k] != c,
        r < s@.len() ==> s@[r as int] == c,
{
    let len = s.unicode_len();
    let mut i = from;
    while i < len
        invariant
            from <= i <= len,
            len == s@.len(),
            forall|k: int| from <= k < i ==> s@[k] != c,
        decreases len - i,
    {
        if s.get_char(i) == c {
            proof {
                let sub = s@.subrange(from as int, s@.len() as int);
                assert forall|k: int| 0 <= k < i - from implies sub[k] != c by {
                    assert(sub[k] == s@[k + from]);
                }
                lemma_find_char_unique(sub, c, i - from);
            }
            return i;
        }
        i += 1;
    }
    proof {
        let sub = s@.subrange(from as int, s@.len() as int);
        assert forall|k: int| 0 <= k < sub.len() implies sub[k] != c by {
            assert(sub[k] == s@[k + from]);
        }
        lemma_find_char_unique(sub, c, sub.len() as int);
    }
    len
}

/// The segments of `s` between occurrences of the separator `c`.
/// A string with `n` occurrences of `c` has exactly `n + 1` segments;
/// in particular the result is never empty, and separators at the ends
/// produce empty segments.
pub open spec fn split_char(s: Seq<char>, c: char) -> Seq<Seq<char>>
    decreases s.len(),
{
    let i = find_char(s, c);
    if 0 <= i < s.len() {
        seq![s.subrange(0, i)] + split_char(s.subrange(i + 1, s.len() as int), c)
    } else {
        seq![s]
    }
}

pub proof fn lemma_split_char_not_empty(s: Seq<char>, c: char)
    ensures
        split_char(s, c).len() >= 1,
    decreases s.len(),
{
    let i = find_char(s, c);
    if 0 <= i < s.len() {
        lemma_split_char_not_empty(s.subrange(i + 1, s.len() as int), c);
    }
}

/// When `c` does not occur in `s`, the split is the single segment `s`.
pub proof fn lemma_split_char_no_sep(s: Seq<char>, c: char)
    requires
        forall|k: int| 0 <= k < s.len() ==> s[k] != c,
    ensures
        split_char(s, c) =~= seq![s],
{
    lemma_find_char(s, c);
}

/// Splitting distributes over concatenation through an explicit separator.
pub proof fn lemma_split_char_append(a: Seq<char>, b: Seq<char>, c: char)
    ensures
        split_char(a + seq![c] + b, c) =~= split_char(a, c) + split_char(b, c),
    decreases a.len(),
{
    let s = a + seq![c] + b;
    let i = find_char(s, c);
    let ia = find_char(a, c);
    lemma_find_char(s, c);
    lemma_find_char(a, c);
    if ia < a.len() {
        // The first separator of `s` lies inside `a`.
        assert(s[ia] == c);
        assert forall|k: int| 0 <= k < ia implies s[k] != c by {
            assert(s[k] == a[k]);
        }
        lemma_find_char_unique(s, c, ia);
        assert(s.subrange(0, ia) =~= a.subrange(0, ia));
        assert(s.subrange(ia + 1, s.len() as int) =~= a.subrange(ia + 1, a.len() as int)
            + seq![c] + b);
        lemma_split_char_append(a.subrange(ia + 1, a.len() as int), b, c);
    } else {
        // `a` holds no separator, so the explicit one is the first.
        assert(s[a.len() as int] == c);
        assert forall|k: int| 0 <= k < a.len() implies s[k] != c by {
            assert(s[k] == a[k]);
        }
        lemma_find_char_unique(s, c, a.len() as int);
        assert(s.subrange(0, a.len() as int) =~= a);
        assert(s.subrange(a.len() as int + 1, s.len() as int) =~= b);
        lemma_split_char_no_sep(a, c);
    }
}

/// The segments of `split_char` joined back with the separator: the
/// inverse of splitting.
pub open spec fn join_char(ls: Seq<Seq<char>>, c: char) -> Seq<char>
    decreases ls.len(),
{
    if ls.len() == 0 {
        Seq::empty()
    } else if ls.len() == 1 {
        ls[0]
    } else {
        ls[0] + seq![c] + join_char(ls.drop_first(), c)
    }
}

pub proof fn lemma_join_split_char(s: Seq<char>, c: char)
    ensures
        join_char(split_char(s, c), c) =~= s,
    decreases s.len(),
{
    let i = find_char(s, c);
    lemma_find_char(s, c);
    if 0 <= i < s.len() {
        let rest = s.subrange(i + 1, s.len() as int);
        lemma_join_split_char(rest, c);
        lemma_split_char_not_empty(rest, c);
        let parts = seq![s.subrange(0, i)] + split_char(rest, c);
        assert(parts.drop_first() =~= split_char(rest, c));
    }
}

/// Joining a list extended by one more segment appends a separator and
/// that segment (the empty list simply becomes the segment).
pub proof fn lemma_join_char_push(ls: Seq<Seq<char>>, x: Seq<char>, c: char)
    ensures
        ls.len() == 0 ==> join_char(ls.push(x), c) =~= x,
        ls.len() > 0 ==> join_char(ls.push(x), c) =~= join_char(ls, c) + seq![c] + x,
    decreases ls.len(),
{
    if ls.len() > 0 {
        lemma_join_char_push(ls.drop_first(), x, c);
        assert(ls.push(x).drop_first() =~= ls.drop_first().push(x));
        if ls.len() == 1 {
            assert(join_char(ls.drop_first().push(x), c) =~= x);
        }
    } else {
        assert(ls.push(x)[0] =~= x);
    }
}

/// Compares two string slices character by character.
pub fn str_eq(a: &str, b: &str) -> (r: bool)
    ensures
        r == (a@ == b@),
{
    let alen = a.unicode_len();
    let blen = b.unicode_len();
    if alen != blen {
        return false;
    }
    let mut i: usize = 0;
    while i < alen
        invariant
            0 <= i <= alen,
            alen == a@.len(),
            alen == b@.len(),
            forall|k: int| 0 <= k < i ==> a@[k] == b@[k],
        decreases alen - i,
    {
        if a.get_char(i) != b.get_char(i) {
            return false;
        }
        i += 1;
    }
    proof {
        assert(a@ =~= b@);
    }
    true
}

/// `s` with the characters of `is_space_char` removed from its start.
pub open spec fn trim_start_spec(s: Seq<char>) -> Seq<char>
    decreases s.len(),
{
    if s.len() > 0 && is_space_char(s[0]) {
        trim_start_spec(s.drop_first())
    } else {
        s
    }
}

/// `s` with the characters of `is_space_char` removed from its end.
pub open spec fn trim_end_spec(s: Seq<char>) -> Seq<char>
    decreases s.len(),
{
    if s.len() > 0 && is_space_char(s.last()) {
        trim_end_spec(s.drop_last())
    } else {
        s
    }
}

/// `s` with surrounding whitespace removed.
pub open spec fn trim_spec(s: Seq<char>) -> Seq<char> {
    trim_end_spec(trim_start_spec(s))
}

proof fn lemma_trim_start_skip(s: Seq<char>, i: int)
    requires
        0 <= i <= s.len(),
        forall|k: int| 0 <= k < i ==> is_space_char(s[k]),
    ensures
        trim_start_spec(s) =~= trim_start_spec(s.subrange(i, s.len() as int)),
    decreases i,
{
    if i > 0 {
        assert(trim_start_spec(s) =~= trim_start_spec(s.drop_first()));
        assert(s.drop_first() =~= s.subrange(1, s.len() as int));
        lemma_trim_start_skip(s.drop_first(), i - 1);
        assert(s.drop_first().subrange(i - 1, s.drop_first().len() as int)
            =~= s.subrange(i, s.len() as int));
    } else {
        assert(s.subrange(0, s.len() as int) =~= s);
    }
}

proof fn lemma_trim_end_cut(s: Seq<char>, j: int)
    requires
        0 <= j <= s.len(),
        forall|k: int| j <= k < s.len() ==> is_space_char(s[k]),
    ensures
        trim_end_spec(s) =~= trim_end_spec(s.subrange(0, j)),
    decreases s.len() - j,
{
    if j < s.len() {
        assert(is_space_char(s.last()));
        assert(trim_end_spec(s) =~= trim_end_spec(s.drop_last()));
        assert(s.drop_last() =~= s.subrange(0, s.len() - 1));
        lemma_trim_end_cut(s.drop_last(), j);
        assert(s.drop_last().subrange(0, j) =~= s.subrange(0, j));
    } else {
        assert(s.subrange(0, s.len() as int) =~= s);
    }
}

/// Removes the surrounding whitespace of `is_space_char` from `s`.
pub fn trim_str(s: &str) -> (r: &str)
    ensures
        r@ == trim_spec(s@),
{
    let len = s.unicode_len();
    let mut i: usize = 0;
    while i < len && is_space(s.get_char(i))
        invariant
            0 <= i <= len,
            len == s@.len(),
            forall|k: int| 0 <= k < i ==> is_space_char(s@[k]),
        decreases len - i,
    {
        i += 1;
    }
    let mut j: usize = len;
    while j > i && is_space(s.get_char(j - 1))
        invariant
            i <= j <= len,
            len == s@.len(),
            forall|k: int| j <= k < len ==> is_space_char(s@[k]),
        decreases j,
    {
        j -= 1;
    }
    let r = s.substring_char(i, j);
    proof {
        lemma_trim_start_skip(s@, i as int);
        let tail = s@.subrange(i as int, len as int);
        if i < len {
            // The first kept character is not whitespace, so trimming the
            // start leaves the tail unchanged.
            assert(!is_space_char(tail[0]));
            assert(trim_start_spec(tail) =~= tail);
            assert forall|k: int| (j - i) <= k < tail.len() implies is_space_char(tail[k]) by {
                assert(tail[k] == s@[k + i]);
            }
            lemma_trim_end_cut(tail, j - i);
            if j > i {
                assert(!is_space_char(tail.subrange(0, j - i).last()));
            }
            assert(trim_end_spec(tail.subrange(0, j - i)) =~= tail.subrange(0, j - i));
            assert(tail.subrange(0, j - i) =~= s@.subrange(i as int, j as int));
        } else {
            assert(tail.len() == 0);
            assert(trim_start_spec(tail) =~= tail);
        }
    }
    r
}

/// The ASCII-lowercase counterpart of `c`: letters `A` through `Z` map to
/// their lowercase forms, every other character is unchanged.
pub open spec fn lower_char_spec(c: char) -> int {
    if 'A' <= c && c <= 'Z' {
        c as int + 32
    } else {
        c as int
    }
}

/// True when the two strings are equal up to ASCII case.
pub open spec fn eq_ignore_ascii_case_spec(a: Seq<char>, b: Seq<char>) -> bool {
    a.len() == b.len() && forall|k: int|
        0 <= k < a.len() ==> lower_char_spec(a[k]) == lower_char_spec(b[k])
}

/// Compares two string slices ignoring ASCII case, as
/// `str::eq_ignore_ascii_case` does.
pub fn str_eq_ignore_ascii_case(a: &str, b: &str) -> (r: bool)
    ensures
        r == eq_ignore_ascii_case_spec(a@, b@),
{
    let alen = a.unicode_len();
    let blen = b.unicode_len();
    if alen != blen {
        return false;
    }
    let mut i: usize = 0;
    while i < alen
        invariant
            0 <= i <= alen,
            alen == a@.len(),
            alen == b@.len(),
            forall|k: int| 0 <= k < i ==> lower_char_spec(a@[k]) == lower_char_spec(b@[k]),
        decreases alen - i,
    {
        let ca = a.get_char(i);
        let cb = b.get_char(i);
        let la: u32 = if 'A' <= ca && ca <= 'Z' {
            ca as u32 + 32
        } else {
            ca as u32
        };
        let lb: u32 = if 'A' <= cb && cb <= 'Z' {
            cb as u32 + 32
        } else {
            cb as u32
        };
        if la != lb {
            return false;
        }
        i += 1;
    }
    true
}

/// Executable counterpart of `is_space_char`.
pub fn is_space(c: char) -> (r: bool)
    ensures
        r == is_space_char(c),
{
    c == ' ' || c == '\t' || c == '\n' || c == '\r' || c == '\u{b}' || c == '\u{c}'
}

/// True when `p` is a prefix of `s`.
pub open spec fn starts_with_spec(s: Seq<char>, p: Seq<char>) -> bool {
    p.len() <= s.len() && s.subrange(0, p.len() as int) == p
}

/// Tests whether `s` starts with the prefix `p`.
pub fn str_starts_with(s: &str, p: &str) -> (r: bool)
    ensures
        r == starts_with_spec(s@, p@),
{
    let slen = s.unicode_len();
    let plen = p.unicode_len();
    if plen > slen {
        return false;
    }
    let head = s.substring_char(0, plen);
    str_eq(head, p)
}

} // verus!
