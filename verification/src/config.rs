//! Configuration of a run: the raw input values as the job supplies them,
//! their normalization, the region selector, URL validation, and the
//! inference of the API and identity service URLs.

use vstd::prelude::*;
use crate::errors::Error;
use crate::text::{
    eq_ignore_ascii_case_spec, split_char, starts_with_spec, str_eq_ignore_ascii_case,
    str_starts_with, trim_spec, trim_str,
};

verus! {

/// The coarse backend deployment selector.  An unrecognized value is
/// treated as self-hosted.
#[derive(Clone, Copy, Debug, PartialEq, Eq, Structural)]
pub enum EnvironmentType {
    Eu,
    Us,
    Other,
}

/// The region that an input string selects: `"us"` or `"eu"`, ignoring
/// surrounding whitespace and ASCII case; anything else is `Other`.
pub open spec fn region_spec(s: Seq<char>) -> EnvironmentType {
    if eq_ignore_ascii_case_spec(trim_spec(s), "us"@) {
        EnvironmentType::Us
    } else if eq_ignore_ascii_case_spec(trim_spec(s), "eu"@) {
        EnvironmentType::Eu
    } else {
        EnvironmentType::Other
    }
}

impl EnvironmentType {
    /// Reads a region selector from its input string.  This never fails:
    /// an unrecognized selector means self-hosted.
    pub fn from_input(s: &str) -> (r: EnvironmentType)
        ensures
            r == region_spec(s@),
    {
        let t = trim_str(s);
        if str_eq_ignore_ascii_case(t, "us") {
            EnvironmentType::Us
        } else if str_eq_ignore_ascii_case(t, "eu") {
            EnvironmentType::Eu
        } else {
            EnvironmentType::Other
        }
    }
}

/// An input value with the empty-counts-as-absent rule applied: a value
/// that is missing or whitespace-only is absent, any other value is kept
/// unchanged.
pub open spec fn normalize_input_spec(v: Option<Seq<char>>) -> Option<Seq<char>> {
    match v {
        Some(s) => if trim_spec(s).len() > 0 {
            Some(s)
        } else {
            None
        },
        None => None,
    }
}

/// The view of an optional input string under normalization.
pub open spec fn norm_view(v: Option<String>) -> Option<Seq<char>> {
    match v {
        Some(s) => normalize_input_spec(Some(s@)),
        None => None,
    }
}

/// Applies the empty-counts-as-absent rule to one raw input value.
pub fn normalize_input(v: Option<String>) -> (r: Option<String>)
    ensures
        match r {
            Some(s) => norm_view(v) == Some(s@),
            None => norm_view(v) is None,
        },
{
    match v {
        Some(s) => {
            let t = trim_str(s.as_str());
            if t.unicode_len() > 0 {
                Some(s)
            } else {
                None
            }
        },
        None => None,
    }
}

/// The raw configuration inputs, exactly as the surrounding job hands
/// them over, before any normalization.
pub struct RawInputs {
    pub access_token: Option<String>,
    pub secrets: Option<String>,
    pub cloud_region: Option<String>,
    pub base_url: Option<String>,
    pub api_url: Option<String>,
    pub identity_url: Option<String>,
    pub set_env: Option<String>,
}

/// The validated input parameters of a run.
#[derive(Debug)]
pub struct Config {
    pub access_token: String,
    pub secrets: Vec<String>,
    pub cloud_region: EnvironmentType,
    pub base_url: Option<String>,
    pub api_url: Option<String>,
    pub identity_url: Option<String>,
    pub set_env: bool,
}

/// True when a URL input carries a recognized scheme.
pub open spec fn url_scheme_ok(s: Seq<char>) -> bool {
    starts_with_spec(s, "http://"@) || starts_with_spec(s, "https://"@)
}

/// Checks that every supplied URL starts with `http://` or `https://`.
/// URLs that are absent need no validation; when none is supplied there
/// is nothing to check.
pub fn validate_urls(base_url: Option<&str>, api_url: Option<&str>, identity_url: Option<&str>) -> (r:
    Result<(), Error>)
    ensures
        ({
            let base_bad = base_url matches Some(u) && !url_scheme_ok(u@);
            let api_bad = api_url matches Some(u) && !url_scheme_ok(u@);
            let id_bad = identity_url matches Some(u) && !url_scheme_ok(u@);
            &&& (r is Ok <==> !base_bad && !api_bad && !id_bad)
            &&& (base_bad ==> (r matches Err(e) && e is BaseUrlScheme))
            &&& (!base_bad && api_bad ==> (r matches Err(e) && e is ApiUrlScheme))
            &&& (!base_bad && !api_bad && id_bad ==> (r matches Err(e) && e is IdentityUrlScheme))
        }),
{
    if let Some(u) = base_url {
        if !(str_starts_with(u, "http://") || str_starts_with(u, "https://")) {
            return Err(Error::BaseUrlScheme);
        }
    }
    if let Some(u) = api_url {
        if !(str_starts_with(u, "http://") || str_starts_with(u, "https://")) {
            return Err(Error::ApiUrlScheme);
        }
    }
    if let Some(u) = identity_url {
        if !(str_starts_with(u, "http://") || str_starts_with(u, "https://")) {
            return Err(Error::IdentityUrlScheme);
        }
    }
    Ok(())
}

/// The request lines of the secrets input: the input split at line
/// feeds, each line trimmed of surrounding whitespace, blank lines
/// dropped.
pub open spec fn secret_lines_spec(s: Seq<char>) -> Seq<Seq<char>> {
    split_char(s, '\n').map_values(|l: Seq<char>| trim_spec(l)).filter(
        |l: Seq<char>| l.len() > 0,
    )
}

/// Splits the secrets input into its trimmed, non-blank lines.
fn split_trim_nonempty(s: &str) -> (r: Vec<String>)
    ensures
        r.deep_view() == secret_lines_spec(s@),
{
    let parts = crate::filecmd::split_str(s, '\n');
    let ghost pv = parts.deep_view();
    let mut out: Vec<String> = Vec::new();
    let mut i: usize = 0;
    while i < parts.len()
        invariant
            0 <= i <= parts@.len(),
            parts@.len() == pv.len(),
            forall|k: int| 0 <= k < pv.len() ==> pv[k] == #[trigger] parts@[k]@,
            pv == split_char(s@, '\n'),
            out.deep_view() == pv.subrange(0, i as int).map_values(
                |l: Seq<char>| trim_spec(l),
            ).filter(|l: Seq<char>| l.len() > 0),
        decreases parts@.len() - i,
    {
        let t = trim_str(parts[i]);
        let ghost prefix_mapped = pv.subrange(0, i as int).map_values(
            |l: Seq<char>| trim_spec(l),
        );
        let ghost next_mapped = pv.subrange(0, i + 1).map_values(|l: Seq<char>| trim_spec(l));
        proof {
            reveal(Seq::filter);
            assert(next_mapped =~~= prefix_mapped.push(trim_spec(pv[i as int])));
            assert(next_mapped.drop_last() =~~= prefix_mapped);
        }
        if t.unicode_len() > 0 {
            out.push(t.to_owned());
            proof {
                reveal(Seq::filter);
                assert(out.deep_view() =~~= next_mapped.filter(|l: Seq<char>| l.len() > 0));
            }
        } else {
            proof {
                reveal(Seq::filter);
                assert(out.deep_view() =~~= next_mapped.filter(|l: Seq<char>| l.len() > 0));
            }
        }
        i += 1;
    }
    proof {
        assert(pv.subrange(0, pv.len() as int) =~= pv);
    }
    out
}

/// The text that a normalized optional input denotes: the value itself,
/// or the empty string when the input is absent.
pub open spec fn text_or_empty(v: Option<Seq<char>>) -> Seq<char> {
    match v {
        Some(s) => s,
        None => ""@,
    }
}

/// What the environment-export toggle input selects: exporting defaults
/// to on, and only an explicit `"false"` (ignoring ASCII case) turns it
/// off.
pub open spec fn set_env_spec(v: Option<Seq<char>>) -> bool {
    match v {
        Some(s) => !eq_ignore_ascii_case_spec(s, "false"@),
        None => true,
    }
}

/// How a built configuration relates to the raw inputs it came from.
pub open spec fn config_matches_inputs(c: Config, inputs: RawInputs) -> bool {
    &&& norm_view(inputs.access_token) matches Some(t) && c.access_token@ == t
    &&& norm_view(inputs.secrets) matches Some(sv) && c.secrets.deep_view()
        == secret_lines_spec(sv)
    &&& c.cloud_region == region_spec(text_or_empty(norm_view(inputs.cloud_region)))
    &&& c.base_url.deep_view() == norm_view(inputs.base_url)
    &&& c.api_url.deep_view() == norm_view(inputs.api_url)
    &&& c.identity_url.deep_view() == norm_view(inputs.identity_url)
    &&& c.set_env == set_env_spec(norm_view(inputs.set_env))
}

impl Config {
    /// Validates the raw inputs and builds the configuration of the run.
    /// The access token and the secrets batch are required; every
    /// supplied URL must carry a recognized scheme; a missing or
    /// unrecognized region selector means self-hosted; the
    /// environment-export toggle defaults to on.
    pub fn new(inputs: RawInputs) -> (r: Result<Config, Error>)
        ensures
            ({
                let tok = norm_view(inputs.access_token);
                let sec = norm_view(inputs.secrets);
                let base = norm_view(inputs.base_url);
                let api = norm_view(inputs.api_url);
                let ident = norm_view(inputs.identity_url);
                let base_bad = base matches Some(u) && !url_scheme_ok(u);
                let api_bad = api matches Some(u) && !url_scheme_ok(u);
                let id_bad = ident matches Some(u) && !url_scheme_ok(u);
                &&& (r is Ok <==> tok is Some && sec is Some && !base_bad && !api_bad && !id_bad)
                &&& (tok is None ==> (r matches Err(e) && e is AccessTokenMissing))
                &&& (tok is Some && sec is None ==> (r matches Err(e) && e is SecretsMissing))
                &&& (tok is Some && sec is Some && base_bad ==> (r matches Err(e)
                    && e is BaseUrlScheme))
                &&& (tok is Some && sec is Some && !base_bad && api_bad ==> (r matches Err(e)
                    && e is ApiUrlScheme))
                &&& (tok is Some && sec is Some && !base_bad && !api_bad && id_bad ==> (
                r matches Err(e) && e is IdentityUrlScheme))
                &&& (r matches Ok(c) ==> config_matches_inputs(c, inputs))
            }),
    {
        let access_token = match normalize_input(inputs.access_token) {
            Some(t) => t,
            None => {
                return Err(Error::AccessTokenMissing);
            },
        };
        let secrets_raw = match normalize_input(inputs.secrets) {
            Some(s) => s,
            None => {
                return Err(Error::SecretsMissing);
            },
        };
        let secrets = split_trim_nonempty(secrets_raw.as_str());
        let region_input = normalize_input(inputs.cloud_region);
        let cloud_region = match &region_input {
            Some(s) => EnvironmentType::from_input(s.as_str()),
            None => EnvironmentType::from_input(""),
        };
        let base_url = normalize_input(inputs.base_url);
        let api_url = normalize_input(inputs.api_url);
        let identity_url = normalize_input(inputs.identity_url);
        let checked = validate_urls(
            match &base_url {
                Some(s) => Some(s.as_str()),
                None => None,
            },
            match &api_url {
                Some(s) => Some(s.as_str()),
                None => None,
            },
            match &identity_url {
                Some(s) => Some(s.as_str()),
                None => None,
            },
        );
        if let Err(e) = checked {
            return Err(e);
        }
        let set_env_input = normalize_input(inputs.set_env);
        let set_env = match &set_env_input {
            Some(v) => !str_eq_ignore_ascii_case(v.as_str(), "false"),
            None => true,
        };
        Ok(
            Config {
                access_token,
                secrets,
                cloud_region,
                base_url,
                api_url,
                identity_url,
                set_env,
            },
        )
    }
}

/// The API and identity URLs that a configuration selects, or nothing
/// when it selects none because exactly one of the two explicit URLs was
/// supplied.  A named cloud region always wins; without one, explicit API
/// and identity URLs are used as given; without those, a base URL is
/// extended with the two well-known paths; with nothing at all, the US
/// defaults apply.
pub open spec fn infer_urls_spec(c: &Config) -> Option<(Seq<char>, Seq<char>)> {
    match c.cloud_region {
        EnvironmentType::Eu => Some(
            ("https://api.bitwarden.eu"@, "https://identity.bitwarden.eu"@),
        ),
        EnvironmentType::Us => Some(
            ("https://api.bitwarden.com"@, "https://identity.bitwarden.com"@),
        ),
        EnvironmentType::Other => match (c.api_url, c.identity_url) {
            (Some(api), Some(identity)) => Some((api@, identity@)),
            (Some(_), None) => None,
            (None, Some(_)) => None,
            (None, None) => match c.base_url {
                Some(base) => Some((base@ + "/api"@, base@ + "/identity"@)),
                None => Some(
                    ("https://api.bitwarden.com"@, "https://identity.bitwarden.com"@),
                ),
            },
        },
    }
}

/// A named region wins.  With the EU or US cloud region selected,
/// inference yields that region's fixed URLs, whatever base, API or
/// identity URLs are supplied alongside.
pub proof fn lemma_region_overrides_urls(c: &Config)
    ensures
        c.cloud_region is Eu ==> infer_urls_spec(c) == Some(
            ("https://api.bitwarden.eu"@, "https://identity.bitwarden.eu"@),
        ),
        c.cloud_region is Us ==> infer_urls_spec(c) == Some(
            ("https://api.bitwarden.com"@, "https://identity.bitwarden.com"@),
        ),
{
}

/// A base URL alone extends.  Without a named region and without
/// explicit API and identity URLs, any base URL yields the two
/// well-known paths under it.
pub proof fn lemma_base_url_extends(c: &Config, base: Seq<char>)
    requires
        c.cloud_region is Other,
        c.api_url is None,
        c.identity_url is None,
        c.base_url matches Some(b) && b@ == base,
    ensures
        infer_urls_spec(c) == Some((base + "/api"@, base + "/identity"@)),
{
}

/// Half a pair is refused.  Without a named region, supplying exactly
/// one of the API and identity URLs selects no URLs at all, whichever
/// one it is and whatever base URL stands beside it.
pub proof fn lemma_lone_url_refused(c: &Config)
    requires
        c.cloud_region is Other,
        (c.api_url is Some) != (c.identity_url is Some),
    ensures
        infer_urls_spec(c) is None,
{
}

/// Nothing at all means US.  Without a named region and without any
/// URL, inference falls back to the US defaults.
pub proof fn lemma_no_urls_defaults_us(c: &Config)
    requires
        c.cloud_region is Other,
        c.api_url is None,
        c.identity_url is None,
        c.base_url is None,
    ensures
        infer_urls_spec(c) == Some(
            ("https://api.bitwarden.com"@, "https://identity.bitwarden.com"@),
        ),
{
}

/// Picks the API and identity URLs for a configuration, as
/// [`infer_urls_spec`] states.  The only failure is an explicit API or
/// identity URL supplied without its partner.
pub fn infer_urls(config: &Config) -> (r: Result<(String, String), Error>)
    ensures
        r is Ok <==> infer_urls_spec(config) is Some,
        r matches Ok(p) ==> infer_urls_spec(config) == Some((p.0@, p.1@)),
        r matches Err(e) ==> e is ApiIdentityPairRequired,
{
    match config.cloud_region {
        EnvironmentType::Eu => Ok(
            ("https://api.bitwarden.eu".to_owned(), "https://identity.bitwarden.eu".to_owned()),
        ),
        EnvironmentType::Us => Ok(
            ("https://api.bitwarden.com".to_owned(), "https://identity.bitwarden.com".to_owned()),
        ),
        EnvironmentType::Other => match (&config.api_url, &config.identity_url) {
            (Some(api), Some(identity)) => Ok((api.clone(), identity.clone())),
            (Some(_), None) => Err(Error::ApiIdentityPairRequired),
            (None, Some(_)) => Err(Error::ApiIdentityPairRequired),
            (None, None) => match &config.base_url {
                Some(base) => {
                    let mut api = base.clone();
                    api.append("/api");
                    let mut identity = base.clone();
                    identity.append("/identity");
                    Ok((api, identity))
                },
                None => Ok(
                    (
                        "https://api.bitwarden.com".to_owned(),
                        "https://identity.bitwarden.com".to_owned(),
                    ),
                ),
            },
        },
    }
}

} // verus!
