//! The secret-request orchestration: delivering one retrieved secret
//! through the CI abstraction in the fixed order mask, environment
//! write (when enabled), output write; planning the writes for a whole
//! retrieval response; and preparing a run from its raw inputs.

use vstd::prelude::*;
use crate::ci::{
    env_writes, mask_values, output_writes, CiEvent, ContinuousIntegration,
};
use crate::config::{
    config_matches_inputs, infer_urls, infer_urls_spec, norm_view, region_spec,
    secret_lines_spec, text_or_empty, url_scheme_ok, Config, RawInputs,
};
use crate::errors::Error;
use crate::secrets::{
    all_lines_valid, parse_err_spec, parse_ok_spec, parse_secret_input, ParsedSecrets,
    RetrievedSecret, SecretId, SecretMap,
};

verus! {

/// The events that delivering one secret appends: mask the value first,
/// then write the environment when enabled, then always write the
/// output.
pub open spec fn set_secret_events(name: Seq<char>, value: Seq<char>, set_env: bool) -> Seq<
    CiEvent,
> {
    if set_env {
        seq![
            CiEvent::Mask { value },
            CiEvent::SetEnv { name, value },
            CiEvent::SetOutput { name, value },
        ]
    } else {
        seq![CiEvent::Mask { value }, CiEvent::SetOutput { name, value }]
    }
}

/// One masking, first, then the writes.  Delivering one secret masks its
/// value exactly once, before anything else; writes the output exactly
/// once; and writes the environment exactly once when export is enabled
/// and never otherwise.
pub proof fn lemma_set_secret_events_shape(name: Seq<char>, value: Seq<char>, set_env: bool)
    ensures
        set_secret_events(name, value, set_env)[0] == (CiEvent::Mask { value }),
        mask_values(set_secret_events(name, value, set_env)) =~= seq![value],
        output_writes(set_secret_events(name, value, set_env)) =~= seq![(name, value)],
        set_env ==> env_writes(set_secret_events(name, value, set_env)) =~= seq![(name, value)],
        !set_env ==> env_writes(set_secret_events(name, value, set_env)) =~= Seq::<(
            Seq<char>,
            Seq<char>,
        )>::empty(),
{
    reveal_with_fuel(Seq::filter, 4);
    let evs = set_secret_events(name, value, set_env);
    if set_env {
        assert(evs.drop_last().drop_last().drop_last() =~= Seq::<CiEvent>::empty());
        assert(evs.drop_last().drop_last() =~= seq![CiEvent::Mask { value }]);
        assert(evs.drop_last() =~= seq![
            CiEvent::Mask { value },
            CiEvent::SetEnv { name, value },
        ]);
    } else {
        assert(evs.drop_last().drop_last() =~= Seq::<CiEvent>::empty());
        assert(evs.drop_last() =~= seq![CiEvent::Mask { value }]);
    }
}

/// Delivers one secret through the CI abstraction: masks the raw value,
/// then writes it to the environment when `set_env` asks for it, then
/// writes it to the output channel.  Masking comes first so that the
/// value is redacted before any other action could surface it.  A failed
/// write stops the delivery and is returned; the masking has happened
/// regardless.
pub fn set_secret<T: ContinuousIntegration>(
    ci: &mut T,
    secret_name: &str,
    secret_value: &str,
    set_env: bool,
) -> (r: Result<(), Error>)
    requires
        old(ci).inv(),
    ensures
        final(ci).inv(),
        forall|n: Seq<char>| final(ci).input_of(n) == old(ci).input_of(n),
        r is Ok ==> final(ci).trace() == old(ci).trace() + set_secret_events(
            secret_name@,
            secret_value@,
            set_env,
        ),
        r is Err ==> final(ci).trace() == old(ci).trace().push(
            CiEvent::Mask { value: secret_value@ },
        ) || (set_env && final(ci).trace() == old(ci).trace().push(
            CiEvent::Mask { value: secret_value@ },
        ).push(CiEvent::SetEnv { name: secret_name@, value: secret_value@ })),
{
    let ghost t0 = old(ci).trace();
    ci.mask_value(secret_value);
    if set_env {
        match ci.set_environment(secret_name, secret_value) {
            Ok(()) => {},
            Err(e) => {
                return Err(e);
            },
        }
    }
    match ci.set_output(secret_name, secret_value) {
        Ok(()) => {
            proof {
                assert(ci.trace() =~= t0 + set_secret_events(secret_name@, secret_value@, set_env));
            }
            Ok(())
        },
        Err(e) => Err(e),
    }
}

/// The view of one retrieved secret: its identifier's bits and its
/// value's text.
pub open spec fn retrieved_view(s: RetrievedSecret) -> (u128, Seq<char>) {
    (s.id.bits, s.value@)
}

/// The view of a retrieval response.
pub open spec fn retrieved_seq(rs: Seq<RetrievedSecret>) -> Seq<(u128, Seq<char>)> {
    rs.map_values(|s: RetrievedSecret| retrieved_view(s))
}

/// The events that delivering a whole retrieval response appends, in
/// response order: for each returned secret whose identifier was
/// requested, the delivery events under its requested name; returned
/// secrets that were never requested contribute nothing, and requested
/// identifiers missing from the response are simply never reached — no
/// write and no error either way.
pub open spec fn plan_events(
    m: Map<u128, Seq<char>>,
    retrieved: Seq<(u128, Seq<char>)>,
    set_env: bool,
) -> Seq<CiEvent>
    decreases retrieved.len(),
{
    if retrieved.len() == 0 {
        Seq::empty()
    } else {
        let pre = plan_events(m, retrieved.drop_last(), set_env);
        let s = retrieved.last();
        if m.contains_key(s.0) {
            pre + set_secret_events(m[s.0], s.1, set_env)
        } else {
            pre
        }
    }
}

/// No write for the unrequested.  A retrieved secret whose identifier
/// was never requested changes the planned events not at all.
pub proof fn lemma_plan_skips_unrequested(
    m: Map<u128, Seq<char>>,
    retrieved: Seq<(u128, Seq<char>)>,
    s: (u128, Seq<char>),
    set_env: bool,
)
    requires
        !m.contains_key(s.0),
    ensures
        plan_events(m, retrieved.push(s), set_env) == plan_events(m, retrieved, set_env),
{
    assert(retrieved.push(s).drop_last() =~= retrieved);
}

/// No write for the unreturned.  When the response holds no secret for
/// an identifier, whether that identifier was requested makes no
/// difference to the planned events: a requested identifier absent from
/// the response produces no write, and no error.
pub proof fn lemma_plan_ignores_unreturned(
    m: Map<u128, Seq<char>>,
    retrieved: Seq<(u128, Seq<char>)>,
    k: u128,
    set_env: bool,
)
    requires
        forall|i: int| 0 <= i < retrieved.len() ==> (#[trigger] retrieved[i]).0 != k,
    ensures
        plan_events(m.remove(k), retrieved, set_env) == plan_events(m, retrieved, set_env),
    decreases retrieved.len(),
{
    if retrieved.len() > 0 {
        assert forall|i: int| 0 <= i < retrieved.drop_last().len() implies (
        #[trigger] retrieved.drop_last()[i]).0 != k by {
            assert(retrieved.drop_last()[i] == retrieved[i]);
        }
        lemma_plan_ignores_unreturned(m, retrieved.drop_last(), k, set_env);
        assert(retrieved[retrieved.len() - 1].0 != k);
    }
}

/// With environment export disabled, no planned event is an environment
/// write.
pub proof fn lemma_plan_events_no_env(
    m: Map<u128, Seq<char>>,
    retrieved: Seq<(u128, Seq<char>)>,
)
    ensures
        forall|j: int|
            0 <= j < plan_events(m, retrieved, false).len() ==> !(#[trigger] plan_events(
                m,
                retrieved,
                false,
            )[j] is SetEnv),
    decreases retrieved.len(),
{
    if retrieved.len() > 0 {
        lemma_plan_events_no_env(m, retrieved.drop_last());
    }
}

/// Delivers every retrieved secret that was requested, in response
/// order, through the CI abstraction: for each, mask, environment write
/// when enabled, output write.  Stops at the first failed write and
/// returns it.
pub fn apply_secrets<T: ContinuousIntegration>(
    ci: &mut T,
    map: &SecretMap,
    retrieved: &Vec<RetrievedSecret>,
    set_env: bool,
) -> (r: Result<(), Error>)
    requires
        old(ci).inv(),
        map.wf(),
    ensures
        final(ci).inv(),
        r is Ok ==> final(ci).trace() == old(ci).trace() + plan_events(
            map@,
            retrieved_seq(retrieved@),
            set_env,
        ),
        old(ci).trace().is_prefix_of(final(ci).trace()),
        !set_env ==> forall|j: int|
            old(ci).trace().len() <= j < final(ci).trace().len()
                ==> !(#[trigger] final(ci).trace()[j] is SetEnv),
{
    let ghost t0 = old(ci).trace();
    let ghost rv = retrieved_seq(retrieved@);
    let n = retrieved.len();
    let mut i: usize = 0;
    while i < n
        invariant
            0 <= i <= n,
            n == retrieved@.len(),
            rv == retrieved_seq(retrieved@),
            rv.len() == n,
            map.wf(),
            ci.inv(),
            t0 == old(ci).trace(),
            forall|nm: Seq<char>| ci.input_of(nm) == old(ci).input_of(nm),
            ci.trace() == t0 + plan_events(map@, rv.subrange(0, i as int), set_env),
            !set_env ==> forall|j: int|
                t0.len() <= j < ci.trace().len() ==> !(#[trigger] ci.trace()[j] is SetEnv),
        decreases n - i,
    {
        let ghost pre = rv.subrange(0, i as int);
        let ghost nxt = rv.subrange(0, i + 1);
        proof {
            assert(nxt.drop_last() =~= pre);
            assert(nxt.last() == rv[i as int]);
            assert(rv[i as int] == retrieved_view(retrieved@[i as int]));
        }
        let secret = &retrieved[i];
        match map.get(secret.id) {
            Some(name) => {
                let name = name.clone();
                let ghost tb = ci.trace();
                let outcome = set_secret(ci, name.as_str(), secret.value.as_str(), set_env);
                proof {
                    if !set_env {
                        lemma_set_secret_events_shape(name@, secret.value@, set_env);
                    }
                }
                if let Err(e) = outcome {
                    proof {
                        if !set_env {
                            assert forall|j: int|
                                t0.len() <= j < ci.trace().len() implies !(#[trigger] ci.trace()[j] is SetEnv) by {
                                if j < tb.len() {
                                    assert(ci.trace()[j] == tb[j]);
                                }
                            }
                        }
                        assert(t0.is_prefix_of(ci.trace())) by {
                            assert(ci.trace().subrange(0, t0.len() as int) =~= t0);
                        }
                    }
                    return Err(e);
                }
                proof {
                    assert(ci.trace() =~= t0 + plan_events(map@, nxt, set_env));
                    if !set_env {
                        assert forall|j: int|
                            t0.len() <= j < ci.trace().len() implies !(#[trigger] ci.trace()[j] is SetEnv) by {
                            if j < tb.len() {
                                assert(ci.trace()[j] == tb[j]);
                            } else {
                                assert(ci.trace()[j] == set_secret_events(
                                    name@,
                                    secret.value@,
                                    set_env,
                                )[j - tb.len()]);
                            }
                        }
                    }
                }
            },
            None => {
                proof {
                    assert(plan_events(map@, nxt, set_env) =~= plan_events(map@, pre, set_env));
                }
            },
        }
        i += 1;
    }
    proof {
        assert(rv.subrange(0, n as int) =~= rv);
        assert(t0.is_prefix_of(ci.trace())) by {
            assert(ci.trace().subrange(0, t0.len() as int) =~= t0);
        }
    }
    Ok(())
}

/// One write action for the surrounding host to perform, in order.
pub enum WriteAction {
    Mask { value: String },
    SetEnv { name: String, value: String },
    SetOutput { name: String, value: String },
}

/// The event that performing one action appends.
pub open spec fn action_event(a: WriteAction) -> CiEvent {
    match a {
        WriteAction::Mask { value } => CiEvent::Mask { value: value@ },
        WriteAction::SetEnv { name, value } => CiEvent::SetEnv { name: name@, value: value@ },
        WriteAction::SetOutput { name, value } => CiEvent::SetOutput {
            name: name@,
            value: value@,
        },
    }
}

/// Plans the writes for a retrieval response without performing them:
/// the returned actions, performed in order, are exactly the planned
/// delivery events.  This is the run's whole decision; the host only
/// executes the actions one by one.
pub fn plan_writes(map: &SecretMap, retrieved: &Vec<RetrievedSecret>, set_env: bool) -> (r: Vec<
    WriteAction,
>)
    requires
        map.wf(),
    ensures
        r@.map_values(|a: WriteAction| action_event(a)) == plan_events(
            map@,
            retrieved_seq(retrieved@),
            set_env,
        ),
{
    let ghost rv = retrieved_seq(retrieved@);
    let mut out: Vec<WriteAction> = Vec::new();
    let n = retrieved.len();
    let mut i: usize = 0;
    while i < n
        invariant
            0 <= i <= n,
            n == retrieved@.len(),
            rv == retrieved_seq(retrieved@),
            rv.len() == n,
            map.wf(),
            out@.map_values(|a: WriteAction| action_event(a)) == plan_events(
                map@,
                rv.subrange(0, i as int),
                set_env,
            ),
        decreases n - i,
    {
        let ghost pre = rv.subrange(0, i as int);
        let ghost nxt = rv.subrange(0, i + 1);
        proof {
            assert(nxt.drop_last() =~= pre);
            assert(nxt.last() == rv[i as int]);
            assert(rv[i as int] == retrieved_view(retrieved@[i as int]));
        }
        let secret = &retrieved[i];
        match map.get(secret.id) {
            Some(name) => {
                let name = name.clone();
                out.push(WriteAction::Mask { value: secret.value.clone() });
                if set_env {
                    out.push(
                        WriteAction::SetEnv { name: name.clone(), value: secret.value.clone() },
                    );
                }
                out.push(WriteAction::SetOutput { name, value: secret.value.clone() });
                proof {
                    assert(out@.map_values(|a: WriteAction| action_event(a)) =~= plan_events(
                        map@,
                        nxt,
                        set_env,
                    ));
                }
            },
            None => {
                proof {
                    assert(plan_events(map@, nxt, set_env) =~= plan_events(map@, pre, set_env));
                }
            },
        }
        i += 1;
    }
    proof {
        assert(rv.subrange(0, n as int) =~= rv);
    }
    out
}

/// Everything a run decides before its retrieval call: the validated
/// configuration, the two service URLs, the parsed request mapping with
/// its duplicate notices, and the batch of identifiers to retrieve.
#[derive(Debug)]
pub struct RunPlan {
    pub config: Config,
    pub api_url: String,
    pub identity_url: String,
    pub secrets: ParsedSecrets,
    pub ids: Vec<SecretId>,
}

/// True when exactly one of the two explicit service URLs is supplied
/// while no named region overrides them: the one configuration shape
/// that URL inference rejects.
pub open spec fn pair_missing_spec(inputs: RawInputs) -> bool {
    let api = norm_view(inputs.api_url);
    let ident = norm_view(inputs.identity_url);
    let region = region_spec(text_or_empty(norm_view(inputs.cloud_region)));
    region is Other && ((api is Some) != (ident is Some))
}

/// True when the raw inputs build a configuration: token and batch
/// present, every supplied URL with a recognized scheme.
pub open spec fn inputs_well_formed(inputs: RawInputs) -> bool {
    &&& norm_view(inputs.access_token) is Some
    &&& norm_view(inputs.secrets) is Some
    &&& (norm_view(inputs.base_url) matches Some(u) ==> url_scheme_ok(u))
    &&& (norm_view(inputs.api_url) matches Some(u) ==> url_scheme_ok(u))
    &&& (norm_view(inputs.identity_url) matches Some(u) ==> url_scheme_ok(u))
}

/// Exactly when preparing a run succeeds: the inputs build a
/// configuration, URL inference accepts it, and every request line
/// carries a well-formed UUID.
pub open spec fn prepare_ok_spec(inputs: RawInputs) -> bool {
    &&& inputs_well_formed(inputs)
    &&& !pair_missing_spec(inputs)
    &&& all_lines_valid(secret_lines_spec(text_or_empty(norm_view(inputs.secrets))))
}

/// Which error preparing a run reports, in checking order:
/// configuration first, then URL inference, then the request batch —
/// all before any network call could be made.
pub open spec fn prepare_err_spec(inputs: RawInputs, e: Error) -> bool {
    let tok = norm_view(inputs.access_token);
    let sec = norm_view(inputs.secrets);
    let base = norm_view(inputs.base_url);
    let api = norm_view(inputs.api_url);
    let ident = norm_view(inputs.identity_url);
    if tok is None {
        e is AccessTokenMissing
    } else if sec is None {
        e is SecretsMissing
    } else if base matches Some(u) && !url_scheme_ok(u) {
        e is BaseUrlScheme
    } else if api matches Some(u) && !url_scheme_ok(u) {
        e is ApiUrlScheme
    } else if ident matches Some(u) && !url_scheme_ok(u) {
        e is IdentityUrlScheme
    } else if pair_missing_spec(inputs) {
        e is ApiIdentityPairRequired
    } else {
        parse_err_spec(secret_lines_spec(text_or_empty(sec)), e)
    }
}

/// The identifier batch lists each requested identifier exactly once.
pub open spec fn ids_match(p: RunPlan) -> bool {
    &&& forall|i: int|
        0 <= i < p.ids@.len() ==> p.secrets.map@.contains_key(#[trigger] p.ids@[i].bits)
    &&& forall|k: u128|
        #[trigger] p.secrets.map@.contains_key(k) ==> exists|i: int|
            0 <= i < p.ids@.len() && p.ids@[i].bits == k
    &&& forall|i: int, j: int| 0 <= i < j < p.ids@.len() ==> p.ids@[i].bits != p.ids@[j].bits
}

/// What a prepared run holds: a configuration matching the inputs, the
/// URLs that inference selects for it, the parsed request mapping of its
/// request lines, and the deduplicated identifier batch.
pub open spec fn plan_matches_inputs(p: RunPlan, inputs: RawInputs) -> bool {
    &&& config_matches_inputs(p.config, inputs)
    &&& infer_urls_spec(&p.config) == Some((p.api_url@, p.identity_url@))
    &&& parse_ok_spec(p.config.secrets.deep_view(), p.secrets)
    &&& ids_match(p)
}

/// Prepares a run from its raw inputs: validates the configuration,
/// infers the service URLs, parses the request batch, and collects the
/// identifiers for the one batched retrieval call.  Every failure
/// happens here, before any network activity.
pub fn prepare_from_inputs(inputs: RawInputs) -> (r: Result<RunPlan, Error>)
    ensures
        r is Ok <==> prepare_ok_spec(inputs),
        r matches Err(e) ==> prepare_err_spec(inputs, e),
        r matches Ok(p) ==> plan_matches_inputs(p, inputs),
{
    let config = match Config::new(inputs) {
        Ok(c) => c,
        Err(e) => {
            return Err(e);
        },
    };
    let (api_url, identity_url) = match infer_urls(&config) {
        Ok(pair) => pair,
        Err(e) => {
            return Err(e);
        },
    };
    let lines = config.secrets.clone();
    proof {
        assert forall|i: int| 0 <= i < config.secrets@.len() implies lines@[i]@
            == config.secrets@[i]@ by {
            assert(cloned::<String>(config.secrets@[i], lines@[i]));
        }
        assert(lines.deep_view() =~~= config.secrets.deep_view());
    }
    let secrets = match parse_secret_input(lines) {
        Ok(p) => p,
        Err(e) => {
            return Err(e);
        },
    };
    let ids = secrets.map.ids();
    let plan = RunPlan { config, api_url, identity_url, secrets, ids };
    proof {
        assert forall|k: u128| #[trigger] plan.secrets.map@.contains_key(k) implies exists|i: int|
            0 <= i < plan.ids@.len() && plan.ids@[i].bits == k by {
            let w = choose|i: int| 0 <= i < ids@.len() && ids@[i].bits == k;
            assert(plan.ids@[w].bits == k);
        }
    }
    Ok(plan)
}

/// One raw input against the backend's model of it.
pub open spec fn opt_matches(o: Option<String>, m: Option<Seq<char>>) -> bool {
    match o {
        Some(s) => m == Some(s@),
        None => m is None,
    }
}

/// Reads the seven configuration inputs through the CI abstraction.
pub fn gather_inputs<T: ContinuousIntegration>(ci: &T) -> (r: RawInputs)
    requires
        ci.inv(),
    ensures
        opt_matches(r.access_token, ci.input_of("ACCESS_TOKEN"@)),
        opt_matches(r.secrets, ci.input_of("SECRETS"@)),
        opt_matches(r.cloud_region, ci.input_of("CLOUD_REGION"@)),
        opt_matches(r.base_url, ci.input_of("BASE_URL"@)),
        opt_matches(r.api_url, ci.input_of("API_URL"@)),
        opt_matches(r.identity_url, ci.input_of("IDENTITY_URL"@)),
        opt_matches(r.set_env, ci.input_of("SET_ENV"@)),
{
    RawInputs {
        access_token: ci.get_input("ACCESS_TOKEN"),
        secrets: ci.get_input("SECRETS"),
        cloud_region: ci.get_input("CLOUD_REGION"),
        base_url: ci.get_input("BASE_URL"),
        api_url: ci.get_input("API_URL"),
        identity_url: ci.get_input("IDENTITY_URL"),
        set_env: ci.get_input("SET_ENV"),
    }
}

} // verus!
