//! The secret-request batch: identifiers, the deduplicated
//! identifier-to-name mapping, and the parsing of `"identifier > name"`
//! request lines.

use vstd::prelude::*;
use crate::errors::Error;
use crate::text::{find_char, find_char_from, trim_spec, trim_str};

verus! {

/// The 128 bits that a well-formed UUID string denotes, or nothing when
/// the string is not one.  `uuid::Uuid::try_parse` accepts several
/// renderings (simple, hyphenated, braced, URN), so the exact relation is
/// left as this name; it depends on the string alone.
pub uninterp spec fn uuid_of(s: Seq<char>) -> Option<u128>;

/// A 128-bit identifier naming a secret in the backend store.
#[derive(Clone, Copy, Debug, PartialEq, Eq, Structural, Hash)]
pub struct SecretId {
    pub bits: u128,
}

/// Relies on `uuid::Uuid::try_parse` and `Uuid::as_u128`: whether a
/// string is a well-formed UUID, and which 128 bits it denotes, are
/// functions of the string alone.
#[verifier::external_body]
fn uuid_bits_of_text(s: &str) -> (r: Option<u128>)
    ensures
        r == uuid_of(s@),
{
    match uuid::Uuid::try_parse(s) {
        Ok(u) => Some(u.as_u128()),
        Err(_) => None,
    }
}

impl SecretId {
    /// Parses an identifier from its text form.
    pub fn parse(s: &str) -> (r: Option<SecretId>)
        ensures
            r matches Some(id) ==> uuid_of(s@) == Some(id.bits),
            r is None ==> uuid_of(s@) is None,
    {
        match uuid_bits_of_text(s) {
            Some(bits) => Some(SecretId { bits }),
            None => None,
        }
    }
}

/// One secret as the retrieval collaborator returns it: the identifier it
/// was requested under and its value.
#[derive(Debug)]
pub struct RetrievedSecret {
    pub id: SecretId,
    pub value: String,
}

/// The identifier segment of a request line: everything before the first
/// `>` (the whole line when there is none), trimmed.
pub open spec fn uuid_part_spec(line: Seq<char>) -> Seq<char> {
    trim_spec(line.subrange(0, find_char(line, '>')))
}

/// The display-name segment of a request line: the text between the
/// first and the second `>` (to the end when there is no second one),
/// trimmed; empty when the line has no `>` at all.
pub open spec fn name_part_spec(line: Seq<char>) -> Seq<char> {
    let p1 = find_char(line, '>');
    if p1 == line.len() {
        Seq::empty()
    } else {
        let rest = line.subrange(p1 + 1, line.len() as int);
        trim_spec(rest.subrange(0, find_char(rest, '>')))
    }
}

/// Splits one request line into its identifier segment and its
/// display-name segment, both trimmed.
pub fn split_request_line(line: &str) -> (r: (&str, &str))
    ensures
        r.0@ == uuid_part_spec(line@),
        r.1@ == name_part_spec(line@),
{
    let len = line.unicode_len();
    let p1 = find_char_from(line, '>', 0);
    proof {
        assert(line@.subrange(0, line@.len() as int) =~= line@);
    }
    let uuid_part = trim_str(line.substring_char(0, p1));
    if p1 == len {
        proof {
            reveal_strlit("");
            assert(""@ =~= Seq::<char>::empty());
        }
        (uuid_part, "")
    } else {
        let p2 = find_char_from(line, '>', p1 + 1);
        let name_part = trim_str(line.substring_char(p1 + 1, p2));
        proof {
            let rest = line@.subrange(p1 as int + 1, line@.len() as int);
            assert forall|k: int| 0 <= k < p2 - (p1 + 1) implies rest[k] != '>' by {
                assert(rest[k] == line@[k + p1 + 1]);
            }
            if p2 < len {
                assert(rest[p2 - (p1 + 1)] == '>');
            }
            crate::text::lemma_find_char_unique(rest, '>', p2 - (p1 + 1));
            assert(line@.subrange(p1 as int + 1, p2 as int) =~= rest.subrange(
                0,
                find_char(rest, '>'),
            ));
        }
        (uuid_part, name_part)
    }
}

/// True when the identifier segment of `line` is a well-formed UUID.
pub open spec fn line_valid(line: Seq<char>) -> bool {
    uuid_of(uuid_part_spec(line)) is Some
}

/// The bits of the identifier segment of a valid line (zero on an
/// invalid one, where no map entry is ever built from it).
pub open spec fn line_key(line: Seq<char>) -> u128 {
    match uuid_of(uuid_part_spec(line)) {
        Some(bits) => bits,
        None => 0,
    }
}

/// Index of the first line whose identifier segment is not a well-formed
/// UUID, or `lines.len()` when every line is valid.
pub open spec fn first_invalid(lines: Seq<Seq<char>>) -> int
    decreases lines.len(),
{
    if lines.len() == 0 {
        0
    } else if !line_valid(lines[0]) {
        0
    } else {
        1 + first_invalid(lines.drop_first())
    }
}

pub proof fn lemma_first_invalid_unique(lines: Seq<Seq<char>>, r: int)
    requires
        0 <= r <= lines.len(),
        forall|k: int| 0 <= k < r ==> line_valid(lines[k]),
        r < lines.len() ==> !line_valid(lines[r]),
    ensures
        r == first_invalid(lines),
    decreases lines.len(),
{
    if lines.len() > 0 && line_valid(lines[0]) {
        assert forall|k: int| 0 <= k < r - 1 implies line_valid(lines.drop_first()[k]) by {
            assert(lines.drop_first()[k] == lines[k + 1]);
        }
        if r - 1 < lines.drop_first().len() {
            assert(lines.drop_first()[r - 1] == lines[r]);
        }
        lemma_first_invalid_unique(lines.drop_first(), r - 1);
    }
}

/// The identifier-to-name mapping that a batch of valid request lines
/// builds, folding from the first line on; a later line with the same
/// identifier overwrites the earlier name.
pub open spec fn lines_map(lines: Seq<Seq<char>>) -> Map<u128, Seq<char>>
    decreases lines.len(),
{
    if lines.len() == 0 {
        Map::empty()
    } else {
        lines_map(lines.drop_last()).insert(line_key(lines.last()), name_part_spec(lines.last()))
    }
}

/// The duplicate notices that building the mapping emits, in order: one
/// for each line whose identifier already had an entry, carrying the
/// identifier, the overwritten name, and the name that replaces it.
pub open spec fn duplicates_spec(lines: Seq<Seq<char>>) -> Seq<(u128, Seq<char>, Seq<char>)>
    decreases lines.len(),
{
    if lines.len() == 0 {
        Seq::empty()
    } else {
        let pre = duplicates_spec(lines.drop_last());
        let k = line_key(lines.last());
        if lines_map(lines.drop_last()).contains_key(k) {
            pre.push((k, lines_map(lines.drop_last())[k], name_part_spec(lines.last())))
        } else {
            pre
        }
    }
}

/// The last name wins, with notice.  Two request lines naming the same
/// identifier build the one-entry mapping that holds the second name,
/// and emit exactly one duplicate notice, carrying the identifier, the
/// overwritten first name and the second name.
pub proof fn lemma_duplicate_last_wins(l1: Seq<char>, l2: Seq<char>)
    requires
        line_key(l1) == line_key(l2),
    ensures
        lines_map(seq![l1, l2]) =~= Map::empty().insert(line_key(l2), name_part_spec(l2)),
        duplicates_spec(seq![l1, l2]) =~= seq![
            (line_key(l2), name_part_spec(l1), name_part_spec(l2)),
        ],
{
    let two = seq![l1, l2];
    let one = seq![l1];
    assert(two.drop_last() =~= one);
    assert(two.last() == l2);
    assert(one.drop_last() =~= Seq::<Seq<char>>::empty());
    assert(one.last() == l1);
    assert(lines_map(Seq::<Seq<char>>::empty()) =~= Map::<u128, Seq<char>>::empty());
    assert(duplicates_spec(Seq::<Seq<char>>::empty()) =~= Seq::<(
        u128,
        Seq<char>,
        Seq<char>,
    )>::empty());
    assert(lines_map(one) =~= Map::empty().insert(line_key(l1), name_part_spec(l1)));
    assert(lines_map(two) =~= lines_map(one).insert(line_key(l2), name_part_spec(l2)));
    assert(duplicates_spec(one) =~= Seq::<(u128, Seq<char>, Seq<char>)>::empty());
    assert(lines_map(one).contains_key(line_key(l2)));
    assert(lines_map(one)[line_key(l2)] == name_part_spec(l1));
}

/// No two entries share an identifier.
pub open spec fn no_dup_keys(s: Seq<(SecretId, String)>) -> bool {
    forall|i: int, j: int| 0 <= i < j < s.len() ==> s[i].0.bits != s[j].0.bits
}

/// The mapping that a sequence of entries denotes, later entries
/// overwriting earlier ones.
pub open spec fn entries_map(s: Seq<(SecretId, String)>) -> Map<u128, Seq<char>>
    decreases s.len(),
{
    if s.len() == 0 {
        Map::empty()
    } else {
        entries_map(s.drop_last()).insert(s.last().0.bits, s.last().1@)
    }
}

pub proof fn lemma_entries_map_keys(s: Seq<(SecretId, String)>)
    ensures
        entries_map(s).dom().finite(),
        forall|k: u128|
            #[trigger] entries_map(s).contains_key(k) <==> exists|i: int|
                0 <= i < s.len() && s[i].0.bits == k,
    decreases s.len(),
{
    if s.len() > 0 {
        lemma_entries_map_keys(s.drop_last());
        let d = s.drop_last();
        assert forall|k: u128| #[trigger] entries_map(s).contains_key(k) implies exists|i: int|
            0 <= i < s.len() && s[i].0.bits == k by {
            if k == s.last().0.bits {
                assert(s[s.len() - 1].0.bits == k);
            } else {
                let i = choose|i: int| 0 <= i < d.len() && d[i].0.bits == k;
                assert(s[i].0.bits == k);
            }
        }
        assert forall|k: u128| (exists|i: int| 0 <= i < s.len() && s[i].0.bits == k)
            implies #[trigger] entries_map(s).contains_key(k) by {
            let i = choose|i: int| 0 <= i < s.len() && s[i].0.bits == k;
            if i < s.len() - 1 {
                assert(d[i].0.bits == k);
                assert(entries_map(d).contains_key(k));
            }
        }
    }
}

pub proof fn lemma_entries_map_value(s: Seq<(SecretId, String)>, i: int)
    requires
        no_dup_keys(s),
        0 <= i < s.len(),
    ensures
        entries_map(s).contains_key(s[i].0.bits),
        entries_map(s)[s[i].0.bits] == s[i].1@,
    decreases s.len(),
{
    if i == s.len() - 1 {
        assert(entries_map(s).contains_key(s[i].0.bits));
    } else {
        let d = s.drop_last();
        assert(d[i] == s[i]);
        lemma_entries_map_value(d, i);
        assert(s[i].0.bits != s.last().0.bits);
    }
}

pub proof fn lemma_entries_map_len(s: Seq<(SecretId, String)>)
    requires
        no_dup_keys(s),
    ensures
        entries_map(s).dom().finite(),
        entries_map(s).dom().len() == s.len(),
    decreases s.len(),
{
    lemma_entries_map_keys(s);
    if s.len() > 0 {
        let d = s.drop_last();
        lemma_entries_map_len(d);
        lemma_entries_map_keys(d);
        let k = s.last().0.bits;
        assert(!entries_map(d).contains_key(k)) by {
            if entries_map(d).contains_key(k) {
                let i = choose|i: int| 0 <= i < d.len() && d[i].0.bits == k;
                assert(s[i].0.bits == s[s.len() - 1].0.bits);
            }
        }
        assert(entries_map(s).dom() =~= entries_map(d).dom().insert(k));
        vstd::set::axiom_set_insert_len(entries_map(d).dom(), k);
        vstd::set::axiom_set_insert_finite(entries_map(d).dom(), k);
    }
}

/// The deduplicated mapping from secret identifier to desired name.
/// Entries are held in insertion order; the order carries no meaning,
/// the mapping is what counts.
#[derive(Debug)]
pub struct SecretMap {
    entries: Vec<(SecretId, String)>,
}

impl View for SecretMap {
    type V = Map<u128, Seq<char>>;

    closed spec fn view(&self) -> Map<u128, Seq<char>> {
        entries_map(self.entries@)
    }
}

impl SecretMap {
    /// Well-formedness: no two entries share an identifier.
    pub closed spec fn wf(&self) -> bool {
        no_dup_keys(self.entries@)
    }

    /// An empty mapping.
    pub fn new() -> (r: SecretMap)
        ensures
            r.wf(),
            r@ == Map::<u128, Seq<char>>::empty(),
    {
        SecretMap { entries: Vec::new() }
    }

    /// The number of entries.
    pub fn len(&self) -> (r: usize)
        requires
            self.wf(),
        ensures
            r == self@.dom().len(),
    {
        proof {
            lemma_entries_map_len(self.entries@);
        }
        self.entries.len()
    }

    /// Looks the name of an identifier up.
    pub fn get(&self, id: SecretId) -> (r: Option<&String>)
        requires
            self.wf(),
        ensures
            match r {
                Some(name) => self@.contains_key(id.bits) && name@ == self@[id.bits],
                None => !self@.contains_key(id.bits),
            },
    {
        let n = self.entries.len();
        let mut i: usize = 0;
        while i < n
            invariant
                0 <= i <= n,
                n == self.entries@.len(),
                no_dup_keys(self.entries@),
                forall|k: int| 0 <= k < i ==> self.entries@[k].0.bits != id.bits,
            decreases n - i,
        {
            if self.entries[i].0.bits == id.bits {
                proof {
                    lemma_entries_map_value(self.entries@, i as int);
                }
                return Some(&self.entries[i].1);
            }
            i += 1;
        }
        proof {
            lemma_entries_map_keys(self.entries@);
        }
        None
    }

    /// Inserts a name for an identifier, returning the name it
    /// overwrites when the identifier already had one.
    pub fn insert(&mut self, id: SecretId, name: String) -> (old_name: Option<String>)
        requires
            old(self).wf(),
        ensures
            final(self).wf(),
            final(self)@ == old(self)@.insert(id.bits, name@),
            match old_name {
                Some(o) => old(self)@.contains_key(id.bits) && o@ == old(self)@[id.bits],
                None => !old(self)@.contains_key(id.bits),
            },
    {
        let ghost s0 = self.entries@;
        let n = self.entries.len();
        let mut i: usize = 0;
        while i < n
            invariant
                0 <= i <= n,
                self.entries@ == s0,
                s0 == old(self).entries@,
                n == s0.len(),
                no_dup_keys(s0),
                forall|k: int| 0 <= k < i ==> s0[k].0.bits != id.bits,
            decreases n - i,
        {
            if self.entries[i].0.bits == id.bits {
                proof {
                    lemma_entries_map_value(s0, i as int);
                }
                let (_, old_name) = self.entries.remove(i);
                self.entries.push((id, name));
                proof {
                    let removed = s0.remove(i as int);
                    s0.remove_ensures(i as int);
                    assert forall|a: int, b: int| 0 <= a < b < removed.len() implies
                        removed[a].0.bits != removed[b].0.bits by {
                        let a0: int = if a < i { a } else { a + 1 };
                        let b0: int = if b < i { b } else { b + 1 };
                        assert(removed[a] == s0[a0] && removed[b] == s0[b0]);
                    }
                    assert forall|a: int| 0 <= a < removed.len() implies removed[a].0.bits
                        != id.bits by {
                        let a0: int = if a < i { a } else { a + 1 };
                        assert(removed[a] == s0[a0]);
                        if a0 > i {
                            assert(s0[i as int].0.bits != s0[a0].0.bits);
                        }
                    }
                    let s1 = self.entries@;
                    assert(s1 =~= removed.push((id, name)));
                    assert(s1.drop_last() =~= removed);
                    lemma_entries_map_remove_at(s0, i as int);
                    assert(entries_map(s1) =~= entries_map(s0).insert(id.bits, name@));
                }
                return Some(old_name);
            }
            i += 1;
        }
        proof {
            lemma_entries_map_keys(s0);
        }
        self.entries.push((id, name));
        proof {
            assert(self.entries@.drop_last() =~= s0);
        }
        None
    }

    /// The identifiers of all entries, each exactly once, in insertion
    /// order.
    pub fn ids(&self) -> (r: Vec<SecretId>)
        requires
            self.wf(),
        ensures
            forall|i: int| 0 <= i < r@.len() ==> self@.contains_key(#[trigger] r@[i].bits),
            forall|k: u128|
                #[trigger] self@.contains_key(k) ==> exists|i: int|
                    0 <= i < r@.len() && r@[i].bits == k,
            forall|i: int, j: int| 0 <= i < j < r@.len() ==> r@[i].bits != r@[j].bits,
    {
        let n = self.entries.len();
        let mut out: Vec<SecretId> = Vec::new();
        let mut i: usize = 0;
        while i < n
            invariant
                0 <= i <= n,
                n == self.entries@.len(),
                no_dup_keys(self.entries@),
                out@.len() == i,
                forall|k: int| 0 <= k < i ==> out@[k] == self.entries@[k].0,
            decreases n - i,
        {
            out.push(self.entries[i].0);
            i += 1;
        }
        proof {
            lemma_entries_map_keys(self.entries@);
            assert forall|i_: int| 0 <= i_ < out@.len() implies self@.contains_key(
                #[trigger] out@[i_].bits,
            ) by {
                assert(self.entries@[i_].0.bits == out@[i_].bits);
            }
            assert forall|k: u128| #[trigger] self@.contains_key(k) implies exists|i_: int|
                0 <= i_ < out@.len() && out@[i_].bits == k by {
                let i_ = choose|i_: int| 0 <= i_ < self.entries@.len() && self.entries@[i_].0.bits
                    == k;
                assert(out@[i_].bits == k);
            }
        }
        out
    }
}

/// A non-fatal notice that a request line overwrote the name of an
/// identifier that an earlier line had already requested.
#[derive(Debug)]
pub struct DuplicateWarning {
    pub id: SecretId,
    pub old_name: String,
    pub new_name: String,
}

/// The outcome of parsing a request batch: the deduplicated mapping and
/// the duplicate notices, in the order the duplicates appeared.
#[derive(Debug)]
pub struct ParsedSecrets {
    pub map: SecretMap,
    pub warnings: Vec<DuplicateWarning>,
}

/// True when every line's identifier segment is a well-formed UUID.
pub open spec fn all_lines_valid(lv: Seq<Seq<char>>) -> bool {
    forall|i: int| 0 <= i < lv.len() ==> line_valid(#[trigger] lv[i])
}

/// What a parse failure carries: the identifier segment of the first
/// invalid line.
pub open spec fn parse_err_spec(lv: Seq<Seq<char>>, e: Error) -> bool {
    let fi = first_invalid(lv);
    &&& 0 <= fi < lv.len()
    &&& !line_valid(lv[fi])
    &&& e matches Error::InvalidUuid { uuid_part } && uuid_part@ == uuid_part_spec(lv[fi])
}

/// One emitted duplicate notice against its specification.
pub open spec fn warning_matches(w: DuplicateWarning, d: (u128, Seq<char>, Seq<char>)) -> bool {
    &&& w.id.bits == d.0
    &&& w.old_name@ == d.1
    &&& w.new_name@ == d.2
}

/// What a successful parse returns: the mapping the lines build, and the
/// duplicate notices they emit.
pub open spec fn parse_ok_spec(lv: Seq<Seq<char>>, p: ParsedSecrets) -> bool {
    &&& p.map.wf()
    &&& p.map@ == lines_map(lv)
    &&& p.warnings@.len() == duplicates_spec(lv).len()
    &&& forall|i: int|
        0 <= i < p.warnings@.len() ==> warning_matches(
            #[trigger] p.warnings@[i],
            duplicates_spec(lv)[i],
        )
}

/// Parses the request batch into the deduplicated identifier-to-name
/// mapping.  A line whose identifier segment is not a well-formed UUID
/// fails the whole batch with the first offending segment, before any
/// retrieval can happen; a duplicate identifier keeps the later name and
/// emits a notice.
pub fn parse_secret_input(secret_lines: Vec<String>) -> (r: Result<ParsedSecrets, Error>)
    ensures
        ({
            let lv = secret_lines.deep_view();
            &&& (r is Ok <==> all_lines_valid(lv))
            &&& (r matches Err(e) ==> parse_err_spec(lv, e))
            &&& (r matches Ok(p) ==> parse_ok_spec(lv, p))
        }),
{
    let ghost lv = secret_lines.deep_view();
    let mut map = SecretMap::new();
    let mut warnings: Vec<DuplicateWarning> = Vec::new();
    let n = secret_lines.len();
    let mut i: usize = 0;
    while i < n
        invariant
            0 <= i <= n,
            n == secret_lines@.len(),
            lv == secret_lines.deep_view(),
            lv.len() == n,
            forall|k: int| 0 <= k < lv.len() ==> lv[k] == #[trigger] secret_lines@[k]@,
            map.wf(),
            map@ == lines_map(lv.subrange(0, i as int)),
            forall|k: int| 0 <= k < i ==> line_valid(#[trigger] lv[k]),
            warnings@.len() == duplicates_spec(lv.subrange(0, i as int)).len(),
            forall|k: int|
                0 <= k < warnings@.len() ==> warning_matches(
                    #[trigger] warnings@[k],
                    duplicates_spec(lv.subrange(0, i as int))[k],
                ),
        decreases n - i,
    {
        let (uuid_part, name_part) = split_request_line(secret_lines[i].as_str());
        let id = match SecretId::parse(uuid_part) {
            Some(id) => id,
            None => {
                proof {
                    lemma_first_invalid_unique(lv, i as int);
                }
                return Err(Error::InvalidUuid { uuid_part: uuid_part.to_owned() });
            },
        };
        let new_name = name_part.to_owned();
        let ghost pre = lv.subrange(0, i as int);
        let ghost nxt = lv.subrange(0, i + 1);
        proof {
            assert(nxt.drop_last() =~= pre);
            assert(nxt.last() == lv[i as int]);
        }
        match map.insert(id, new_name.clone()) {
            Some(old_name) => {
                warnings.push(DuplicateWarning { id, old_name, new_name });
                proof {
                    assert(duplicates_spec(nxt) =~= duplicates_spec(pre).push(
                        (
                            line_key(lv[i as int]),
                            lines_map(pre)[line_key(lv[i as int])],
                            name_part_spec(lv[i as int]),
                        ),
                    ));
                }
            },
            None => {},
        }
        i += 1;
    }
    proof {
        assert(lv.subrange(0, n as int) =~= lv);
    }
    Ok(ParsedSecrets { map, warnings })
}

/// Removing the only entry that holds a key removes that key from the
/// mapping.
proof fn lemma_entries_map_remove_at(s: Seq<(SecretId, String)>, i: int)
    requires
        no_dup_keys(s),
        0 <= i < s.len(),
    ensures
        entries_map(s.remove(i)) =~= entries_map(s).remove(s[i].0.bits),
    decreases s.len(),
{
    lemma_entries_map_keys(s);
    let k = s[i].0.bits;
    if i == s.len() - 1 {
        assert(s.remove(i) =~= s.drop_last());
        lemma_entries_map_keys(s.drop_last());
        assert(!entries_map(s.drop_last()).contains_key(k)) by {
            if entries_map(s.drop_last()).contains_key(k) {
                let j = choose|j: int|
                    0 <= j < s.drop_last().len() && s.drop_last()[j].0.bits == k;
                assert(s[j].0.bits == s[i].0.bits);
            }
        }
        assert(entries_map(s.drop_last()) =~= entries_map(s).remove(k));
    } else {
        let d = s.drop_last();
        assert(d[i] == s[i]);
        lemma_entries_map_remove_at(d, i);
        s.remove_ensures(i);
        assert(s.remove(i).drop_last() =~= d.remove(i));
        assert(s.remove(i).last() == s.last());
        assert(s.last().0.bits != k);
        assert(entries_map(s.remove(i)) =~= entries_map(d.remove(i)).insert(
            s.last().0.bits,
            s.last().1@,
        ));
        assert(entries_map(d).remove(k).insert(s.last().0.bits, s.last().1@) =~= entries_map(
            d,
        ).insert(s.last().0.bits, s.last().1@).remove(k));
    }
}

} // verus!
