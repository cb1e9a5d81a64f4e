//! Connection settings and how they are merged from the environment and the
//! configuration file.

use vstd::prelude::*;
use vstd::string::StringExecFns;

verus! {

/// Settings needed to talk to a bucket.
#[derive(Clone, Debug)]
pub struct Config {
    pub endpoint: String,
    pub bucket_name: String,
    pub access_key_id: String,
    pub access_key_secret: String,
    pub region: Option<String>,
    pub cdn_domain: Option<String>,
    pub path_prefix: Option<String>,
}

/// Values found in the `OSS_*` environment variables.
#[derive(Clone, Debug)]
pub struct EnvSettings {
    pub endpoint: Option<String>,
    pub bucket_name: Option<String>,
    pub access_key_id: Option<String>,
    pub access_key_secret: Option<String>,
    pub region: Option<String>,
    pub cdn_domain: Option<String>,
    pub path_prefix: Option<String>,
}

/// The environment value if set, else the file value.
pub open spec fn prefer(env: Option<String>, file: Option<String>) -> Option<String> {
    if env is Some {
        env
    } else {
        file
    }
}

/// A setting from the file, if there is a file.
pub open spec fn file_field(file: Option<Config>, f: spec_fn(Config) -> String) -> Option<String> {
    match file {
        Some(c) => Some(f(c)),
        None => None,
    }
}

/// An optional setting from the file, if there is a file.
pub open spec fn file_opt_field(file: Option<Config>, f: spec_fn(Config) -> Option<String>) -> Option<String> {
    match file {
        Some(c) => f(c),
        None => None,
    }
}

/// The outcome of merging: every environment variable that is set overrides
/// the file; the four required settings must come from one of the two, and the
/// first missing one is reported.
pub open spec fn merged(env: EnvSettings, file: Option<Config>) -> Result<Config, Seq<char>> {
    let endpoint = prefer(env.endpoint, file_field(file, |c: Config| c.endpoint));
    let bucket = prefer(env.bucket_name, file_field(file, |c: Config| c.bucket_name));
    let key_id = prefer(env.access_key_id, file_field(file, |c: Config| c.access_key_id));
    let secret = prefer(env.access_key_secret, file_field(file, |c: Config| c.access_key_secret));
    if endpoint is None {
        Err("未设置 OSS_ENDPOINT，请先运行 config 命令"@)
    } else if bucket is None {
        Err("未设置 OSS_BUCKET_NAME，请先运行 config 命令"@)
    } else if key_id is None {
        Err("未设置 OSS_ACCESS_KEY_ID，请先运行 config 命令"@)
    } else if secret is None {
        Err("未设置 OSS_ACCESS_KEY_SECRET，请先运行 config 命令"@)
    } else {
        Ok(
            Config {
                endpoint: endpoint->0,
                bucket_name: bucket->0,
                access_key_id: key_id->0,
                access_key_secret: secret->0,
                region: prefer(env.region, file_opt_field(file, |c: Config| c.region)),
                cdn_domain: prefer(env.cdn_domain, file_opt_field(file, |c: Config| c.cdn_domain)),
                path_prefix: prefer(env.path_prefix, file_opt_field(file, |c: Config| c.path_prefix)),
            },
        )
    }
}

fn pick(env: Option<String>, file: Option<String>) -> (r: Option<String>)
    ensures
        r == prefer(env, file),
{
    match env {
        Some(v) => Some(v),
        None => file,
    }
}

/// Builds the effective configuration from the environment and the
/// configuration file (`None` when it could not be read).
pub fn merge_config(env: EnvSettings, file: Option<Config>) -> (r: Result<Config, String>)
    ensures
        match (r, merged(env, file)) {
            (Ok(c), Ok(m)) => c == m,
            (Err(e), Err(m)) => e@ == m,
            _ => false,
        },
{
    let (f_endpoint, f_bucket, f_id, f_secret, f_region, f_cdn, f_prefix) = match &file {
        Some(c) => (
            Some(c.endpoint.clone()),
            Some(c.bucket_name.clone()),
            Some(c.access_key_id.clone()),
            Some(c.access_key_secret.clone()),
            c.region.clone(),
            c.cdn_domain.clone(),
            c.path_prefix.clone(),
        ),
        None => (None, None, None, None, None, None, None),
    };
    let endpoint = pick(env.endpoint, f_endpoint);
    let bucket = pick(env.bucket_name, f_bucket);
    let key_id = pick(env.access_key_id, f_id);
    let secret = pick(env.access_key_secret, f_secret);
    let region = pick(env.region, f_region);
    let cdn = pick(env.cdn_domain, f_cdn);
    let prefix = pick(env.path_prefix, f_prefix);
    match (endpoint, bucket, key_id, secret) {
        (None, _, _, _) => Err(String::from_str("未设置 OSS_ENDPOINT，请先运行 config 命令")),
        (Some(_), None, _, _) => Err(String::from_str("未设置 OSS_BUCKET_NAME，请先运行 config 命令")),
        (Some(_), Some(_), None, _) => Err(String::from_str("未设置 OSS_ACCESS_KEY_ID，请先运行 config 命令")),
        (Some(_), Some(_), Some(_), None) => Err(String::from_str("未设置 OSS_ACCESS_KEY_SECRET，请先运行 config 命令")),
        (Some(e), Some(b), Some(i), Some(s)) => Ok(
            Config {
                endpoint: e,
                bucket_name: b,
                access_key_id: i,
                access_key_secret: s,
                region,
                cdn_domain: cdn,
                path_prefix: prefix,
            },
        ),
    }
}

} // verus!

verus! {

/// Every environment variable that is set wins over the file, and a setting
/// the environment leaves unset comes from the file: for each optional
/// setting, the merged value is the environment's when it has one, else the
/// file's (none without a file); each required setting is likewise the
/// environment's value when set, else the file's. Merging succeeds exactly
/// when each of the four required settings is set in the environment or a
/// file is present.
pub proof fn lemma_environment_overrides_file(env: EnvSettings, file: Option<Config>)
    ensures
        merged(env, file) is Ok <==> (file is Some || (env.endpoint is Some && env.bucket_name is Some
            && env.access_key_id is Some && env.access_key_secret is Some)),
        merged(env, file) matches Ok(c) ==> {
            &&& (env.region matches Some(v) ==> c.region == Some(v))
            &&& (env.cdn_domain matches Some(v) ==> c.cdn_domain == Some(v))
            &&& (env.path_prefix matches Some(v) ==> c.path_prefix == Some(v))
            &&& (env.endpoint matches Some(v) ==> c.endpoint == v)
            &&& (env.bucket_name matches Some(v) ==> c.bucket_name == v)
            &&& (env.access_key_id matches Some(v) ==> c.access_key_id == v)
            &&& (env.access_key_secret matches Some(v) ==> c.access_key_secret == v)
            &&& (env.region is None ==> c.region == match file { Some(f) => f.region, None => None })
            &&& (env.cdn_domain is None ==> c.cdn_domain == match file { Some(f) => f.cdn_domain, None => None })
            &&& (env.path_prefix is None ==> c.path_prefix == match file { Some(f) => f.path_prefix, None => None })
            &&& (env.endpoint is None ==> (file matches Some(f) && c.endpoint == f.endpoint))
            &&& (env.bucket_name is None ==> (file matches Some(f) && c.bucket_name == f.bucket_name))
            &&& (env.access_key_id is None ==> (file matches Some(f) && c.access_key_id == f.access_key_id))
            &&& (env.access_key_secret is None ==> (file matches Some(f) && c.access_key_secret
                == f.access_key_secret))
        },
{
}

} // verus!
