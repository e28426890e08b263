//! The CI capability abstraction: read a named input, write a named
//! environment variable, write a named output variable, mask a value.
//!
//! The behaviour of a backend is modelled as a trace of events; every
//! write and every masking appends one event.  The in-memory
//! [`GithubActionsRunner`] implements the abstraction the way the real
//! job runtime's files are written: each environment or output write
//! appends one delimiter-framed file-command record to the corresponding
//! buffer, and its invariant says exactly that.

use vstd::prelude::*;
use crate::config::normalize_input_spec;
use crate::errors::Error;
use crate::filecmd::{delimiter_ok, format_file_command, make_delimiter, record_text};
use crate::text::str_eq;

verus! {

/// One observable action of a CI backend.
pub enum CiEvent {
    SetEnv { name: Seq<char>, value: Seq<char> },
    SetOutput { name: Seq<char>, value: Seq<char> },
    Mask { value: Seq<char> },
}

/// The name/value pair of a write event (meaningless for a masking).
pub open spec fn event_pair(e: CiEvent) -> (Seq<char>, Seq<char>) {
    match e {
        CiEvent::SetEnv { name, value } => (name, value),
        CiEvent::SetOutput { name, value } => (name, value),
        CiEvent::Mask { value } => (value, value),
    }
}

/// The masked text of a masking event (meaningless for a write).
pub open spec fn mask_text(e: CiEvent) -> Seq<char> {
    match e {
        CiEvent::SetEnv { name: _, value: _ } => Seq::empty(),
        CiEvent::SetOutput { name: _, value: _ } => Seq::empty(),
        CiEvent::Mask { value } => value,
    }
}

/// The environment writes of a trace, in order.
pub open spec fn env_writes(t: Seq<CiEvent>) -> Seq<(Seq<char>, Seq<char>)> {
    t.filter(|e: CiEvent| e is SetEnv).map_values(|e: CiEvent| event_pair(e))
}

/// The output writes of a trace, in order.
pub open spec fn output_writes(t: Seq<CiEvent>) -> Seq<(Seq<char>, Seq<char>)> {
    t.filter(|e: CiEvent| e is SetOutput).map_values(|e: CiEvent| event_pair(e))
}

/// The masked values of a trace, in order.
pub open spec fn mask_values(t: Seq<CiEvent>) -> Seq<Seq<char>> {
    t.filter(|e: CiEvent| e is Mask).map_values(|e: CiEvent| mask_text(e))
}

pub proof fn lemma_trace_push_env(t: Seq<CiEvent>, name: Seq<char>, value: Seq<char>)
    ensures
        env_writes(t.push(CiEvent::SetEnv { name, value })) =~= env_writes(t).push((name, value)),
        output_writes(t.push(CiEvent::SetEnv { name, value })) =~= output_writes(t),
        mask_values(t.push(CiEvent::SetEnv { name, value })) =~= mask_values(t),
{
    reveal(Seq::filter);
    let e = CiEvent::SetEnv { name, value };
    assert(t.push(e).drop_last() =~= t);
}

pub proof fn lemma_trace_push_output(t: Seq<CiEvent>, name: Seq<char>, value: Seq<char>)
    ensures
        output_writes(t.push(CiEvent::SetOutput { name, value })) =~= output_writes(t).push(
            (name, value),
        ),
        env_writes(t.push(CiEvent::SetOutput { name, value })) =~= env_writes(t),
        mask_values(t.push(CiEvent::SetOutput { name, value })) =~= mask_values(t),
{
    reveal(Seq::filter);
    let e = CiEvent::SetOutput { name, value };
    assert(t.push(e).drop_last() =~= t);
}

pub proof fn lemma_trace_push_mask(t: Seq<CiEvent>, value: Seq<char>)
    ensures
        mask_values(t.push(CiEvent::Mask { value })) =~= mask_values(t).push(value),
        env_writes(t.push(CiEvent::Mask { value })) =~= env_writes(t),
        output_writes(t.push(CiEvent::Mask { value })) =~= output_writes(t),
{
    reveal(Seq::filter);
    let e = CiEvent::Mask { value };
    assert(t.push(e).drop_last() =~= t);
}

/// The capability set a run needs from its surrounding CI system.
/// Failing to mask must never block delivering a secret, so masking has
/// no error path; on some systems it is a no-op.
pub trait ContinuousIntegration: Sized {
    /// The value the backend holds for an input name.
    spec fn input_of(&self, name: Seq<char>) -> Option<Seq<char>>;

    /// The writes and maskings performed so far.
    spec fn trace(&self) -> Seq<CiEvent>;

    /// Well-formedness of the backend's state.
    spec fn inv(&self) -> bool;

    /// A value for an input by the given name.
    fn get_input(&self, name: &str) -> (r: Option<String>)
        requires
            self.inv(),
        ensures
            r matches Some(v) ==> self.input_of(name@) == Some(v@),
            r is None ==> self.input_of(name@) is None,
    ;

    /// Sets a name and value pair into the job's environment.
    fn set_environment(&mut self, name: &str, value: &str) -> (r: Result<(), Error>)
        requires
            old(self).inv(),
        ensures
            final(self).inv(),
            r is Ok ==> final(self).trace() == old(self).trace().push(
                CiEvent::SetEnv { name: name@, value: value@ },
            ),
            r is Err ==> final(self).trace() == old(self).trace(),
            forall|n: Seq<char>| final(self).input_of(n) == old(self).input_of(n),
    ;

    /// Sets a name and value pair into the job's outputs.
    fn set_output(&mut self, name: &str, value: &str) -> (r: Result<(), Error>)
        requires
            old(self).inv(),
        ensures
            final(self).inv(),
            r is Ok ==> final(self).trace() == old(self).trace().push(
                CiEvent::SetOutput { name: name@, value: value@ },
            ),
            r is Err ==> final(self).trace() == old(self).trace(),
            forall|n: Seq<char>| final(self).input_of(n) == old(self).input_of(n),
    ;

    /// Masks a value in the CI logs to keep it from being displayed.
    fn mask_value(&mut self, value: &str)
        requires
            old(self).inv(),
        ensures
            final(self).inv(),
            final(self).trace() == old(self).trace().push(CiEvent::Mask { value: value@ }),
            forall|n: Seq<char>| final(self).input_of(n) == old(self).input_of(n),
    ;
}

/// True when `buf` consists of exactly one well-delimited file-command
/// record per write of `recs`, in order.
pub open spec fn matches_records(buf: Seq<char>, recs: Seq<(Seq<char>, Seq<char>)>) -> bool
    decreases recs.len(),
{
    if recs.len() == 0 {
        buf.len() == 0
    } else {
        exists|d: Seq<char>|
            {
                let rec = record_text(recs[0].0, recs[0].1, d);
                &&& #[trigger] delimiter_ok(d)
                &&& rec.len() <= buf.len()
                &&& buf.subrange(0, rec.len() as int) == rec
                &&& matches_records(
                    buf.subrange(rec.len() as int, buf.len() as int),
                    recs.drop_first(),
                )
            }
    }
}

/// Appending one more framed record to the buffer matches appending its
/// write to the record list.
pub proof fn lemma_matches_records_append(
    buf: Seq<char>,
    recs: Seq<(Seq<char>, Seq<char>)>,
    k: Seq<char>,
    v: Seq<char>,
    d: Seq<char>,
)
    requires
        matches_records(buf, recs),
        delimiter_ok(d),
    ensures
        matches_records(buf + record_text(k, v, d), recs.push((k, v))),
    decreases recs.len(),
{
    let nb = buf + record_text(k, v, d);
    let nr = recs.push((k, v));
    if recs.len() == 0 {
        let rec = record_text(k, v, d);
        assert(nr[0] == (k, v));
        assert(nr[0].0 == k && nr[0].1 == v);
        assert(nb =~= rec);
        assert(nb.subrange(0, rec.len() as int) =~= rec);
        assert(nb.subrange(rec.len() as int, nb.len() as int) =~= Seq::<char>::empty());
        assert(nr.drop_first() =~= Seq::<(Seq<char>, Seq<char>)>::empty());
        assert(nb.subrange(rec.len() as int, nb.len() as int).len() == 0);
        assert(matches_records(nb.subrange(rec.len() as int, nb.len() as int), nr.drop_first()));
        assert(matches_records(nb, nr));
    } else {
        let d0 = choose|d0: Seq<char>|
            {
                let rec = record_text(recs[0].0, recs[0].1, d0);
                &&& #[trigger] delimiter_ok(d0)
                &&& rec.len() <= buf.len()
                &&& buf.subrange(0, rec.len() as int) == rec
                &&& matches_records(
                    buf.subrange(rec.len() as int, buf.len() as int),
                    recs.drop_first(),
                )
            };
        let rec0 = record_text(recs[0].0, recs[0].1, d0);
        let rest = buf.subrange(rec0.len() as int, buf.len() as int);
        lemma_matches_records_append(rest, recs.drop_first(), k, v, d);
        assert(nr[0] == recs[0]);
        assert(nb.subrange(0, rec0.len() as int) =~= rec0);
        assert(nb.subrange(rec0.len() as int, nb.len() as int) =~= rest + record_text(k, v, d));
        assert(nr.drop_first() =~= recs.drop_first().push((k, v)));
        assert(matches_records(nb, nr));
    }
}

/// The value of the first pair whose name is `name`, or nothing.
pub open spec fn input_lookup(s: Seq<(Seq<char>, Seq<char>)>, name: Seq<char>) -> Option<
    Seq<char>,
>
    decreases s.len(),
{
    if s.len() == 0 {
        None
    } else if s[0].0 == name {
        Some(s[0].1)
    } else {
        input_lookup(s.drop_first(), name)
    }
}

proof fn lemma_input_lookup_at(s: Seq<(Seq<char>, Seq<char>)>, name: Seq<char>, i: int)
    requires
        0 <= i <= s.len(),
        forall|k: int| 0 <= k < i ==> s[k].0 != name,
        i < s.len() ==> s[i].0 == name,
    ensures
        input_lookup(s, name) == if i < s.len() {
            Some(s[i].1)
        } else {
            None::<Seq<char>>
        },
    decreases s.len(),
{
    if s.len() > 0 && s[0].0 != name {
        assert forall|k: int| 0 <= k < i - 1 implies s.drop_first()[k].0 != name by {
            assert(s.drop_first()[k] == s[k + 1]);
        }
        if i - 1 < s.drop_first().len() {
            assert(s.drop_first()[i - 1] == s[i]);
        }
        lemma_input_lookup_at(s.drop_first(), name, i - 1);
    }
}

/// The in-memory job runtime: inputs held as name/value pairs, the two
/// append-only files as string buffers, the mask directives as a list.
/// Environment and output writes append real delimiter-framed
/// file-command records, exactly as the job runtime's files receive
/// them; only the operating-system file handles are absent.
pub struct GithubActionsRunner {
    inputs: Vec<(String, String)>,
    env_file: String,
    output_file: String,
    masked: Vec<String>,
    history: Ghost<Seq<CiEvent>>,
}

impl GithubActionsRunner {
    /// The text of the environment file buffer.
    pub closed spec fn env_buf(&self) -> Seq<char> {
        self.env_file@
    }

    /// The text of the output file buffer.
    pub closed spec fn output_buf(&self) -> Seq<char> {
        self.output_file@
    }

    /// The masked values, in order.
    pub closed spec fn masked_view(&self) -> Seq<Seq<char>> {
        self.masked.deep_view()
    }

    /// The inputs, as name/value pairs.
    pub closed spec fn inputs_view(&self) -> Seq<(Seq<char>, Seq<char>)> {
        self.inputs.deep_view()
    }

    /// A runner over the given inputs, with empty files and nothing
    /// masked.
    pub fn new(inputs: Vec<(String, String)>) -> (r: GithubActionsRunner)
        ensures
            r.inv(),
            r.trace() == Seq::<CiEvent>::empty(),
            r.inputs_view() == inputs.deep_view(),
            r.env_buf() == Seq::<char>::empty(),
            r.output_buf() == Seq::<char>::empty(),
    {
        let r = GithubActionsRunner {
            inputs,
            env_file: String::new(),
            output_file: String::new(),
            masked: Vec::new(),
            history: Ghost(Seq::empty()),
        };
        proof {
            reveal(Seq::filter);
            assert(r.masked.deep_view() =~= mask_values(r.history@));
        }
        r
    }

    /// The environment file's text, for reading records back.
    pub fn env_text(&self) -> (r: &String)
        ensures
            r@ == self.env_buf(),
    {
        &self.env_file
    }

    /// The output file's text, for reading records back.
    pub fn output_text(&self) -> (r: &String)
        ensures
            r@ == self.output_buf(),
    {
        &self.output_file
    }

    /// The values masked so far, in order.
    pub fn masked_so_far(&self) -> (r: &Vec<String>)
        ensures
            r.deep_view() == self.masked_view(),
    {
        &self.masked
    }
}

impl ContinuousIntegration for GithubActionsRunner {
    /// The runner serves an input after the empty-counts-as-absent rule,
    /// as the job runtime's environment does.
    closed spec fn input_of(&self, name: Seq<char>) -> Option<Seq<char>> {
        normalize_input_spec(input_lookup(self.inputs.deep_view(), name))
    }

    closed spec fn trace(&self) -> Seq<CiEvent> {
        self.history@
    }

    /// The buffers hold exactly one well-delimited record per write of
    /// the trace, and the masked list is exactly the trace's maskings.
    open spec fn inv(&self) -> bool {
        &&& matches_records(self.env_buf(), env_writes(self.trace()))
        &&& matches_records(self.output_buf(), output_writes(self.trace()))
        &&& self.masked_view() == mask_values(self.trace())
    }

    fn get_input(&self, name: &str) -> (r: Option<String>) {
        let n = self.inputs.len();
        let mut i: usize = 0;
        while i < n
            invariant
                0 <= i <= n,
                n == self.inputs@.len(),
                forall|k: int| 0 <= k < i ==> #[trigger] self.inputs@[k].0@ != name@,
            decreases n - i,
        {
            if str_eq(self.inputs[i].0.as_str(), name) {
                proof {
                    let iv = self.inputs.deep_view();
                    assert forall|k: int| 0 <= k < i implies iv[k].0 != name@ by {
                        assert(iv[k].0 == self.inputs@[k].0@);
                    }
                    assert(iv[i as int] == (self.inputs@[i as int].0@, self.inputs@[i as int].1@));
                    lemma_input_lookup_at(iv, name@, i as int);
                }
                return crate::config::normalize_input(Some(self.inputs[i].1.clone()));
            }
            i += 1;
        }
        proof {
            let iv = self.inputs.deep_view();
            assert forall|k: int| 0 <= k < iv.len() implies iv[k].0 != name@ by {
                assert(iv[k].0 == self.inputs@[k].0@);
            }
            lemma_input_lookup_at(iv, name@, iv.len() as int);
        }
        None
    }

    fn set_environment(&mut self, name: &str, value: &str) -> (r: Result<(), Error>) {
        let d = make_delimiter();
        let rec = format_file_command(name, value, d.as_str());
        let ghost t0 = self.history@;
        let ghost buf0 = self.env_file@;
        self.env_file.append(rec.as_str());
        proof {
            self.history@ = t0.push(CiEvent::SetEnv { name: name@, value: value@ });
            lemma_trace_push_env(t0, name@, value@);
            lemma_matches_records_append(buf0, env_writes(t0), name@, value@, d@);
            assert(matches_records(self.env_file@, env_writes(self.history@)));
        }
        Ok(())
    }

    fn set_output(&mut self, name: &str, value: &str) -> (r: Result<(), Error>) {
        let d = make_delimiter();
        let rec = format_file_command(name, value, d.as_str());
        let ghost t0 = self.history@;
        let ghost buf0 = self.output_file@;
        self.output_file.append(rec.as_str());
        proof {
            self.history@ = t0.push(CiEvent::SetOutput { name: name@, value: value@ });
            lemma_trace_push_output(t0, name@, value@);
            lemma_matches_records_append(buf0, output_writes(t0), name@, value@, d@);
            assert(matches_records(self.output_file@, output_writes(self.history@)));
        }
        Ok(())
    }

    fn mask_value(&mut self, value: &str) {
        let ghost t0 = self.history@;
        self.masked.push(value.to_owned());
        proof {
            self.history@ = t0.push(CiEvent::Mask { value: value@ });
            lemma_trace_push_mask(t0, value@);
            assert(self.masked.deep_view() =~= mask_values(self.history@));
        }
    }
}

} // verus!
