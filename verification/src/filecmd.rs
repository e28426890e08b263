//! The file-command record: the three-line, delimiter-framed block that
//! carries a key/value pair (the value possibly multi-line) through an
//! append-only, line-oriented file.
//!
//! A record is `"{key}<<{delimiter}"`, then the value verbatim, then the
//! delimiter alone, each line ended by a line feed.  The delimiter embeds
//! a freshly generated random token, so that text inside the value cannot
//! end the record early unless it contains that exact token.  The paired
//! reader recovers the value, and [`lemma_file_command_round_trip`] proves
//! the round trip exact.

use vstd::prelude::*;
use crate::text::{
    find_char_from, join_char, lemma_join_char_push, lemma_join_split_char,
    lemma_split_char_append, lemma_split_char_no_sep, split_char, starts_with_spec, str_eq,
    str_starts_with,
};

verus! {

/// True when `s` holds no line feed, so that it fits on one line of a
/// record.
pub open spec fn no_newline(s: Seq<char>) -> bool {
    forall|k: int| 0 <= k < s.len() ==> s[k] != '\n'
}

/// What a generated delimiter must satisfy for framing to work: it
/// occupies a single line.
pub open spec fn delimiter_ok(d: Seq<char>) -> bool {
    no_newline(d)
}

/// The characters of a rendered UUID: lowercase hexadecimal digits and
/// hyphens.
pub open spec fn is_uuid_char(c: char) -> bool {
    ('0' <= c && c <= '9') || ('a' <= c && c <= 'f') || c == '-'
}

/// The full text of one file-command record.
pub open spec fn record_text(key: Seq<char>, value: Seq<char>, delim: Seq<char>) -> Seq<char> {
    key + "<<"@ + delim + seq!['\n'] + value + seq!['\n'] + delim + seq!['\n']
}

/// Relies on `uuid::Uuid::new_v4` and its `Display` form: a fresh random
/// UUID rendered as 36 lowercase hexadecimal digits and hyphens.  The
/// value is random, so nothing relates two calls; only the shape of the
/// text is stated.
#[verifier::external_body]
fn random_uuid_text() -> (r: String)
    ensures
        r@.len() == 36,
        forall|k: int| 0 <= k < r@.len() ==> is_uuid_char(#[trigger] r@[k]),
{
    uuid::Uuid::new_v4().to_string()
}

/// Generates a fresh delimiter: the fixed recognizable prefix followed by
/// a random token.  Each call draws a new token, so two delimiters of one
/// run coincide only with negligible probability; nothing provable relates
/// two calls.
pub fn make_delimiter() -> (r: String)
    ensures
        delimiter_ok(r@),
        starts_with_spec(r@, "ghadelimiter_"@),
        r@.len() == 49,
{
    let mut d = "ghadelimiter_".to_owned();
    let token = random_uuid_text();
    d.append(token.as_str());
    proof {
        reveal_strlit("ghadelimiter_");
        assert(d@.subrange(0, 13) =~= "ghadelimiter_"@);
        assert forall|k: int| 0 <= k < d@.len() implies d@[k] != '\n' by {
            if k >= 13 {
                assert(d@[k] == token@[k - 13]);
                assert(is_uuid_char(token@[k - 13]));
            }
        }
    }
    d
}

/// Serializes one record.  This is the writer's whole computation; writing
/// the text to the stream and flushing it is the caller's side.
pub fn format_file_command(key: &str, value: &str, delimiter: &str) -> (r: String)
    ensures
        r@ == record_text(key@, value@, delimiter@),
{
    let mut r = String::new();
    r.append(key);
    r.append("<<");
    r.append(delimiter);
    r.append("\n");
    r.append(value);
    r.append("\n");
    r.append(delimiter);
    r.append("\n");
    proof {
        reveal_strlit("\n");
        assert("\n"@ =~= seq!['\n']);
        assert(r@ =~= record_text(key@, value@, delimiter@));
    }
    r
}

/// Index of the first line that starts with `p`, or `lines.len()` when
/// there is none.
pub open spec fn find_line_with_prefix(lines: Seq<Seq<char>>, p: Seq<char>) -> int
    decreases lines.len(),
{
    if lines.len() == 0 {
        0
    } else if starts_with_spec(lines[0], p) {
        0
    } else {
        1 + find_line_with_prefix(lines.drop_first(), p)
    }
}

pub proof fn lemma_find_line_with_prefix(lines: Seq<Seq<char>>, p: Seq<char>)
    ensures
        0 <= find_line_with_prefix(lines, p) <= lines.len(),
        forall|k: int| 0 <= k < find_line_with_prefix(lines, p) ==> !starts_with_spec(lines[k], p),
        find_line_with_prefix(lines, p) < lines.len() ==> starts_with_spec(
            lines[find_line_with_prefix(lines, p)],
            p,
        ),
    decreases lines.len(),
{
    if lines.len() > 0 && !starts_with_spec(lines[0], p) {
        lemma_find_line_with_prefix(lines.drop_first(), p);
        let f = find_line_with_prefix(lines, p);
        assert forall|k: int| 0 <= k < f implies !starts_with_spec(lines[k], p) by {
            if k > 0 {
                assert(lines.drop_first()[k - 1] == lines[k]);
            }
        }
        if f < lines.len() {
            assert(lines.drop_first()[f - 1] == lines[f]);
        }
    }
}

/// Index of the first line equal to `d`, or `lines.len()` when there is
/// none.
pub open spec fn find_line_eq(lines: Seq<Seq<char>>, d: Seq<char>) -> int
    decreases lines.len(),
{
    if lines.len() == 0 {
        0
    } else if lines[0] == d {
        0
    } else {
        1 + find_line_eq(lines.drop_first(), d)
    }
}

pub proof fn lemma_find_line_eq(lines: Seq<Seq<char>>, d: Seq<char>)
    ensures
        0 <= find_line_eq(lines, d) <= lines.len(),
        forall|k: int| 0 <= k < find_line_eq(lines, d) ==> lines[k] != d,
        find_line_eq(lines, d) < lines.len() ==> lines[find_line_eq(lines, d)] == d,
    decreases lines.len(),
{
    if lines.len() > 0 && lines[0] != d {
        lemma_find_line_eq(lines.drop_first(), d);
        let f = find_line_eq(lines, d);
        assert forall|k: int| 0 <= k < f implies lines[k] != d by {
            if k > 0 {
                assert(lines.drop_first()[k - 1] == lines[k]);
            }
        }
        if f < lines.len() {
            assert(lines.drop_first()[f - 1] == lines[f]);
        }
    }
}

pub proof fn lemma_find_line_eq_unique(lines: Seq<Seq<char>>, d: Seq<char>, r: int)
    requires
        0 <= r <= lines.len(),
        forall|k: int| 0 <= k < r ==> lines[k] != d,
        r < lines.len() ==> lines[r] == d,
    ensures
        r == find_line_eq(lines, d),
{
    lemma_find_line_eq(lines, d);
    let f = find_line_eq(lines, d);
    if r < f {
        assert(lines[r] != d);
    } else if f < r {
        assert(lines[f] != d);
    }
}

/// What the reader recovers from a buffer of records for `key`: the value
/// and the delimiter of the first record whose header names `key`, or
/// nothing when no complete record for `key` is present.
pub open spec fn read_file_command_spec(buffer: Seq<char>, key: Seq<char>) -> Option<
    (Seq<char>, Seq<char>),
> {
    let lines = split_char(buffer, '\n');
    let p = key + "<<"@;
    let h = find_line_with_prefix(lines, p);
    if h == lines.len() {
        None
    } else {
        let d = lines[h].subrange(p.len() as int, lines[h].len() as int);
        let e = h + 1 + find_line_eq(lines.subrange(h + 1, lines.len() as int), d);
        if e == lines.len() {
            None
        } else {
            Some((join_char(lines.subrange(h + 1, e), '\n'), d))
        }
    }
}

/// Splits `s` into its segments between occurrences of `c`.
pub fn split_str<'a>(s: &'a str, c: char) -> (r: Vec<&'a str>)
    ensures
        r.deep_view() =~~= split_char(s@, c),
{
    let len = s.unicode_len();
    let mut out: Vec<&'a str> = Vec::new();
    let mut start: usize = 0;
    proof {
        assert(s@.subrange(0, len as int) =~= s@);
    }
    loop
        invariant
            start <= len,
            len == s@.len(),
            out.deep_view() + split_char(s@.subrange(start as int, len as int), c) =~~= split_char(
                s@,
                c,
            ),
        decreases len - start,
    {
        let i = find_char_from(s, c, start);
        let seg = s.substring_char(start, i);
        proof {
            let rem = s@.subrange(start as int, len as int);
            if i < len {
                assert(rem =~= seg@ + seq![c] + s@.subrange(i as int + 1, len as int));
                lemma_split_char_append(seg@, s@.subrange(i as int + 1, len as int), c);
                lemma_split_char_no_sep(seg@, c);
            } else {
                assert(rem =~= seg@);
                lemma_split_char_no_sep(rem, c);
            }
        }
        out.push(seg);
        if i >= len {
            proof {
                assert(out.deep_view() =~~= split_char(s@, c));
            }
            return out;
        }
        start = i + 1;
    }
}

/// The reader paired with the writer.  It locates the first line starting
/// with `"{key}<<"`, takes the rest of that line as the delimiter, scans
/// forward for the line exactly equal to the delimiter, and returns the
/// joined interior lines as the value, together with the delimiter.  The
/// value may span zero or more lines, including blank and
/// whitespace-only ones.
pub fn read_file_command(buffer: &str, key: &str) -> (r: Option<(String, String)>)
    ensures
        match r {
            None => read_file_command_spec(buffer@, key@) is None,
            Some(pair) => {
                &&& read_file_command_spec(buffer@, key@) matches Some(sp)
                &&& pair.0@ == sp.0
                &&& pair.1@ == sp.1
            },
        },
{
    let lines = split_str(buffer, '\n');
    let ghost lv = lines.deep_view();
    let mut prefix = key.to_owned();
    prefix.append("<<");
    let n = lines.len();
    let mut h: usize = 0;
    while h < n && !str_starts_with(lines[h], prefix.as_str())
        invariant
            0 <= h <= n,
            n == lv.len(),
            lines@.len() == n,
            lv =~~= split_char(buffer@, '\n'),
            prefix@ == key@ + "<<"@,
            forall|k: int| 0 <= k < lv.len() ==> lv[k] == #[trigger] lines@[k]@,
            forall|k: int| 0 <= k < h ==> !starts_with_spec(lv[k], prefix@),
        decreases n - h,
    {
        h += 1;
    }
    proof {
        lemma_find_line_with_prefix(lv, prefix@);
        if h < n {
            assert(starts_with_spec(lv[h as int], prefix@));
        }
        assert(h as int == find_line_with_prefix(lv, prefix@)) by {
            let f = find_line_with_prefix(lv, prefix@);
            if f < h {
                assert(!starts_with_spec(lv[f], prefix@));
            }
        }
    }
    if h == n {
        return None;
    }
    let header: &str = lines[h];
    let plen = prefix.unicode_len();
    let delim = header.substring_char(plen, header.unicode_len());
    let ghost d = delim@;
    let mut e: usize = h + 1;
    while e < n && !str_eq(lines[e], delim)
        invariant
            h + 1 <= e <= n,
            n == lv.len(),
            lines@.len() == n,
            d == delim@,
            forall|k: int| 0 <= k < lv.len() ==> lv[k] == #[trigger] lines@[k]@,
            forall|k: int| h + 1 <= k < e ==> lv[k] != d,
        decreases n - e,
    {
        e += 1;
    }
    let ghost tail = lv.subrange(h + 1, lv.len() as int);
    proof {
        assert forall|k: int| 0 <= k < e - (h + 1) implies tail[k] != d by {
            assert(tail[k] == lv[k + h + 1]);
        }
        if e < n {
            assert(tail[e - (h + 1)] == d);
        }
        lemma_find_line_eq_unique(tail, d, e - (h + 1));
    }
    if e == n {
        return None;
    }
    // Join the interior lines back into the (possibly multi-line) value.
    let mut value = String::new();
    let mut t: usize = h + 1;
    while t < e
        invariant
            h + 1 <= t <= e <= n,
            n == lv.len(),
            lines@.len() == n,
            forall|k: int| 0 <= k < lv.len() ==> lv[k] == #[trigger] lines@[k]@,
            value@ =~= join_char(lv.subrange(h + 1, t as int), '\n'),
        decreases e - t,
    {
        if t > h + 1 {
            value.append("\n");
        }
        value.append(lines[t]);
        proof {
            reveal_strlit("\n");
            assert("\n"@ =~= seq!['\n']);
            let before = lv.subrange(h + 1, t as int);
            lemma_join_char_push(before, lv[t as int], '\n');
            assert(lv.subrange(h + 1, t + 1) =~= before.push(lv[t as int]));
        }
        t += 1;
    }
    Some((value, delim.to_owned()))
}

/// The round trip.  For every key and every value — empty, multi-line, or
/// containing header-like text — the reader recovers from one serialized
/// record exactly the value and the delimiter that the writer framed,
/// provided the key and the delimiter each fit on one line and no line of
/// the value equals the delimiter itself (the delimiter embeds a fresh
/// random token precisely to make that collision negligible).
pub proof fn lemma_file_command_round_trip(key: Seq<char>, value: Seq<char>, delim: Seq<char>)
    requires
        no_newline(key),
        no_newline(delim),
        !split_char(value, '\n').contains(delim),
    ensures
        read_file_command_spec(record_text(key, value, delim), key) == Some((value, delim)),
{
    reveal_strlit("<<");
    let nl = seq!['\n'];
    let hdr = key + "<<"@ + delim;
    let rec = record_text(key, value, delim);
    let empty = Seq::<char>::empty();

    // The record splits into the header line, the value's lines, the
    // delimiter line, and one empty segment after the final line feed.
    assert(rec =~= hdr + nl + (value + nl + (delim + nl + empty)));
    lemma_split_char_append(hdr, value + nl + (delim + nl + empty), '\n');
    lemma_split_char_append(value, delim + nl + empty, '\n');
    lemma_split_char_append(delim, empty, '\n');
    lemma_split_char_no_sep(hdr, '\n');
    lemma_split_char_no_sep(delim, '\n');
    lemma_split_char_no_sep(empty, '\n');
    let sv = split_char(value, '\n');
    let lines = split_char(rec, '\n');
    assert(lines =~~= seq![hdr] + sv + seq![delim] + seq![empty]);

    let p = key + "<<"@;
    assert(starts_with_spec(hdr, p)) by {
        assert(hdr.subrange(0, p.len() as int) =~= p);
    }
    assert(find_line_with_prefix(lines, p) == 0);
    assert(hdr.subrange(p.len() as int, hdr.len() as int) =~= delim);

    let tail = lines.subrange(1, lines.len() as int);
    assert(tail =~~= sv + seq![delim] + seq![empty]);
    assert forall|k: int| 0 <= k < sv.len() implies tail[k] != delim by {
        assert(tail[k] == sv[k]);
        if sv[k] == delim {
            assert(sv.contains(delim));
        }
    }
    assert(tail[sv.len() as int] == delim);
    lemma_find_line_eq_unique(tail, delim, sv.len() as int);

    let e = 1 + sv.len() as int;
    assert(lines.subrange(1, e) =~~= sv);
    lemma_join_split_char(value, '\n');
}

} // verus!
