//! Configuration resolution.
//!
//! Each value is taken from its command-line flag first, then from its
//! environment variable, then (for the API base URL only) from a literal
//! default.  A missing API key, organisation or project id is a fatal
//! configuration error, reported before any disk or network activity.

use vstd::prelude::*;

use crate::errors::ConfigError;

verus! {

/// The fully resolved configuration of one run.
#[derive(Debug)]
pub struct Configuration {
    /// Bearer token for the API.
    pub api_key: Vec<u8>,
    /// Base URL of the service.
    pub api_url: Vec<u8>,
    /// Organisation whose projects are listed.
    pub org: Vec<u8>,
    /// The identifier to resolve.
    pub project_id: Vec<u8>,
    /// Bypass the cache read (a successful fetch still overwrites it).
    pub clear_cache: bool,
}

/// Mathematical image of a configuration.
pub struct ConfigurationView {
    pub api_key: Seq<u8>,
    pub api_url: Seq<u8>,
    pub org: Seq<u8>,
    pub project_id: Seq<u8>,
    pub clear_cache: bool,
}

impl View for Configuration {
    type V = ConfigurationView;

    open spec fn view(&self) -> ConfigurationView {
        ConfigurationView {
            api_key: self.api_key@,
            api_url: self.api_url@,
            org: self.org@,
            project_id: self.project_id@,
            clear_cache: self.clear_cache,
        }
    }
}

/// The bytes of `https://sentry.io`, the default API base URL.
pub open spec fn default_api_url() -> Seq<u8> {
    seq![104u8, 116, 116, 112, 115, 58, 47, 47, 115, 101, 110, 116, 114, 121, 46, 105, 111]
}

/// Flag value first, environment value second.
pub open spec fn pick(flag: Option<Seq<u8>>, env: Option<Seq<u8>>) -> Option<Seq<u8>> {
    if flag is Some {
        flag
    } else {
        env
    }
}

/// The image of an optional byte string.
pub open spec fn opt_view(o: Option<Vec<u8>>) -> Option<Seq<u8>> {
    match o {
        Some(v) => Some(v@),
        None => None,
    }
}

/// The default API base URL as a value.
pub fn default_api_url_bytes() -> (r: Vec<u8>)
    ensures
        r@ == default_api_url(),
{
    let mut v: Vec<u8> = Vec::new();
    v.push(104);  // h
    v.push(116);  // t
    v.push(116);  // t
    v.push(112);  // p
    v.push(115);  // s
    v.push(58);  // :
    v.push(47);  // /
    v.push(47);  // /
    v.push(115);  // s
    v.push(101);  // e
    v.push(110);  // n
    v.push(116);  // t
    v.push(114);  // r
    v.push(121);  // y
    v.push(46);  // .
    v.push(105);  // i
    v.push(111);  // o
    assert(v@ =~= default_api_url());
    v
}

/// Resolve a configuration from the raw flag and environment values.
///
/// Fails exactly when the API key, the organisation or the project id is
/// absent from both of its sources, naming the first such value in the
/// order key, organisation, project id.  On success every field holds
/// its flag value, else its environment value, and the API base URL
/// falls back to `https://sentry.io`.
pub fn resolve_config(
    api_key_flag: Option<Vec<u8>>,
    api_key_env: Option<Vec<u8>>,
    api_url_flag: Option<Vec<u8>>,
    api_url_env: Option<Vec<u8>>,
    org_flag: Option<Vec<u8>>,
    org_env: Option<Vec<u8>>,
    project_id: Option<Vec<u8>>,
    clear_cache: bool,
) -> (r: Result<Configuration, ConfigError>)
    ensures
        match r {
            Ok(cfg) => {
                &&& Some(cfg.api_key@) == pick(opt_view(api_key_flag), opt_view(api_key_env))
                &&& Some(cfg.org@) == pick(opt_view(org_flag), opt_view(org_env))
                &&& Some(cfg.project_id@) == opt_view(project_id)
                &&& cfg.api_url@ == (match pick(opt_view(api_url_flag), opt_view(api_url_env)) {
                    Some(u) => u,
                    None => default_api_url(),
                })
                &&& cfg.clear_cache == clear_cache
            },
            Err(e) => {
                &&& (e == ConfigError::MissingApiKey <==> pick(
                    opt_view(api_key_flag),
                    opt_view(api_key_env),
                ) is None)
                &&& (e == ConfigError::MissingOrg <==> pick(
                    opt_view(api_key_flag),
                    opt_view(api_key_env),
                ) is Some && pick(opt_view(org_flag), opt_view(org_env)) is None)
                &&& (e == ConfigError::MissingProjectId <==> pick(
                    opt_view(api_key_flag),
                    opt_view(api_key_env),
                ) is Some && pick(opt_view(org_flag), opt_view(org_env)) is Some && project_id
                    is None)
            },
        },
        r is Err <==> (pick(opt_view(api_key_flag), opt_view(api_key_env)) is None || pick(
            opt_view(org_flag),
            opt_view(org_env),
        ) is None || project_id is None),
{
    let api_key = match (api_key_flag, api_key_env) {
        (Some(v), _) => v,
        (None, Some(v)) => v,
        (None, None) => {
            return Err(ConfigError::MissingApiKey);
        },
    };
    let org = match (org_flag, org_env) {
        (Some(v), _) => v,
        (None, Some(v)) => v,
        (None, None) => {
            return Err(ConfigError::MissingOrg);
        },
    };
    let project_id = match project_id {
        Some(v) => v,
        None => {
            return Err(ConfigError::MissingProjectId);
        },
    };
    let api_url = match (api_url_flag, api_url_env) {
        (Some(v), _) => v,
        (None, Some(v)) => v,
        (None, None) => default_api_url_bytes(),
    };
    Ok(Configuration { api_key, api_url, org, project_id, clear_cache })
}

} // verus!
