//! The client's configuration: where it is looked for, what a usable one
//! holds, and how a `~` in the cache file's path is expanded.
use vstd::prelude::*;

use crate::text::{is_ws, lemma_trim_empty_iff_blank, push_char, trim, trim_str};

verus! {

/// The settings read from the configuration file.
pub struct Config {
    pub zone_id: String,
    pub record_name: String,
    pub proxied: Option<bool>,
    pub ttl: Option<u32>,
    pub cache_file: String,
    pub endpoints: Vec<String>,
}

/// Why a configuration cannot be used.
#[derive(Clone, Copy, Debug, PartialEq, Eq, Structural)]
pub enum ConfigError {
    EmptyZoneId,
    EmptyRecordName,
    NoEndpoints,
}

/// The first reason, in the order the client checks them, why a
/// configuration cannot be used.
pub open spec fn config_problem(
    zone_id: Seq<char>,
    record_name: Seq<char>,
    endpoint_count: nat,
) -> Option<ConfigError> {
    if trim(zone_id).len() == 0 {
        Some(ConfigError::EmptyZoneId)
    } else if trim(record_name).len() == 0 {
        Some(ConfigError::EmptyRecordName)
    } else if endpoint_count == 0 {
        Some(ConfigError::NoEndpoints)
    } else {
        None
    }
}

/// A zone id that is empty or only whitespace is refused as such, whatever
/// the rest of the configuration holds; a record name that is empty or only
/// whitespace is refused when the zone id is usable; with both usable, the
/// configuration is refused exactly when no endpoint is configured.
pub proof fn lemma_config_checks(zone_id: Seq<char>, record_name: Seq<char>, endpoint_count: nat)
    ensures
        (forall|i: int| 0 <= i < zone_id.len() ==> is_ws(#[trigger] zone_id[i])) ==> config_problem(
            zone_id,
            record_name,
            endpoint_count,
        ) == Some(ConfigError::EmptyZoneId),
        (exists|i: int| 0 <= i < zone_id.len() && !is_ws(#[trigger] zone_id[i])) && (forall|i: int|
            0 <= i < record_name.len() ==> is_ws(#[trigger] record_name[i])) ==> config_problem(
            zone_id,
            record_name,
            endpoint_count,
        ) == Some(ConfigError::EmptyRecordName),
        (exists|i: int| 0 <= i < zone_id.len() && !is_ws(#[trigger] zone_id[i])) && (exists|i: int|
            0 <= i < record_name.len() && !is_ws(#[trigger] record_name[i])) ==> (config_problem(
            zone_id,
            record_name,
            endpoint_count,
        ) == if endpoint_count == 0 {
            Some(ConfigError::NoEndpoints)
        } else {
            None::<ConfigError>
        }),
{
    lemma_trim_empty_iff_blank(zone_id);
    lemma_trim_empty_iff_blank(record_name);
}

/// Checks that the zone and record names are not blank and that at least one
/// IP endpoint is configured.
pub fn validate_config(config: &Config) -> (r: Result<(), ConfigError>)
    ensures
        match config_problem(config.zone_id@, config.record_name@, config.endpoints.len() as nat) {
            Some(e) => r == Err::<(), ConfigError>(e),
            None => r is Ok,
        },
{
    if trim_str(config.zone_id.as_str()).unicode_len() == 0 {
        return Err(ConfigError::EmptyZoneId);
    }
    if trim_str(config.record_name.as_str()).unicode_len() == 0 {
        return Err(ConfigError::EmptyRecordName);
    }
    if config.endpoints.len() == 0 {
        return Err(ConfigError::NoEndpoints);
    }
    Ok(())
}

/// The message that the client reports for a configuration problem.
pub open spec fn config_error_text(e: ConfigError) -> Seq<char> {
    match e {
        ConfigError::EmptyZoneId => "'zone_id' cannot be empty in configuration."@,
        ConfigError::EmptyRecordName => "'record_name' cannot be empty in configuration."@,
        ConfigError::NoEndpoints =>
            "No IP fetching endpoints configured. Please specify at least one in configuration."@,
    }
}

impl ConfigError {
    /// The message that the client reports for this problem.
    pub fn message(&self) -> (s: String)
        ensures
            s@ == config_error_text(*self),
    {
        match self {
            ConfigError::EmptyZoneId => String::from_str(
                "'zone_id' cannot be empty in configuration.",
            ),
            ConfigError::EmptyRecordName => String::from_str(
                "'record_name' cannot be empty in configuration.",
            ),
            ConfigError::NoEndpoints => String::from_str(
                "No IP fetching endpoints configured. Please specify at least one in configuration.",
            ),
        }
    }
}

/// Where the configuration file is looked for when no path is given, in order.
pub open spec fn config_candidates() -> Seq<Seq<char>> {
    seq!["config.toml"@, "/etc/dyndns/config.toml"@]
}

/// The message reported when no candidate configuration file exists.
pub open spec fn no_config_text() -> Seq<char> {
    "No configuration file found. Checked: [\"config.toml\", \"/etc/dyndns/config.toml\"]"@
}

/// The paths where the configuration file is looked for when no path is given,
/// in order.
pub fn default_config_paths() -> (v: Vec<String>)
    ensures
        v.deep_view() == config_candidates(),
{
    let mut v: Vec<String> = Vec::new();
    v.push(String::from_str("config.toml"));
    v.push(String::from_str("/etc/dyndns/config.toml"));
    assert(v.deep_view() =~= config_candidates());
    v
}

/// The configuration file to load: the path given on the command line if
/// there is one, else the first default path that exists (`exists[i]` tells
/// whether the `i`-th default path exists; a missing entry counts as `false`).
pub fn choose_config_path(path_arg: Option<&str>, exists: &Vec<bool>) -> (r: Result<String, String>)
    ensures
        match path_arg {
            Some(p) => r matches Ok(q) && q@ == p@,
            None => if exists.len() > 0 && exists[0] {
                r matches Ok(q) && q@ == config_candidates()[0]
            } else if exists.len() > 1 && exists[1] {
                r matches Ok(q) && q@ == config_candidates()[1]
            } else {
                r matches Err(m) && m@ == no_config_text()
            },
        },
{
    match path_arg {
        Some(p) => Ok(String::from_str(p)),
        None => {
            if exists.len() > 0 && exists[0] {
                Ok(String::from_str("config.toml"))
            } else if exists.len() > 1 && exists[1] {
                Ok(String::from_str("/etc/dyndns/config.toml"))
            } else {
                Err(
                    String::from_str(
                        "No configuration file found. Checked: [\"config.toml\", \"/etc/dyndns/config.toml\"]",
                    ),
                )
            }
        },
    }
}

/// Appending `p` to the path `base` as `PathBuf::push` does on Unix: an
/// absolute `p` replaces `base`, else a `/` separates them unless `base` is
/// empty or already ends with one.
pub open spec fn push_path(base: Seq<char>, p: Seq<char>) -> Seq<char> {
    if p.len() > 0 && p[0] == '/' {
        p
    } else if base.len() > 0 && base.last() != '/' {
        base + seq!['/'] + p
    } else {
        base + p
    }
}

/// A path with a leading `~` replaced by the home directory, when one is known;
/// any other path unchanged.
pub open spec fn expand_tilde_path(path: Seq<char>, home: Option<Seq<char>>) -> Seq<char> {
    if path.len() > 0 && path[0] == '~' && home is Some {
        let h = home->0;
        let rest = path.drop_first();
        if rest.len() > 0 && rest[0] == '/' {
            push_path(h, rest.drop_first())
        } else if rest.len() > 0 {
            push_path(h, rest)
        } else {
            h
        }
    } else {
        path
    }
}

/// Only a leading `~` is expanded, and only when the home directory is
/// known; `~` alone is the home directory; `~/p` is `p` under the home
/// directory, with one `/` between them; and an absolute path after `~/`
/// replaces the home directory, as `PathBuf::push` does.
pub proof fn lemma_tilde_expansion(path: Seq<char>, h: Seq<char>, p: Seq<char>)
    ensures
        (path.len() == 0 || path[0] != '~') ==> expand_tilde_path(path, Some(h)) == path,
        expand_tilde_path(path, None) == path,
        expand_tilde_path(seq!['~'], Some(h)) == h,
        (p.len() == 0 || p[0] != '/') && h.len() > 0 && h.last() != '/' ==> expand_tilde_path(
            seq!['~', '/'] + p,
            Some(h),
        ) == h + seq!['/'] + p,
        (p.len() == 0 || p[0] != '/') && (h.len() == 0 || h.last() == '/') ==> expand_tilde_path(
            seq!['~', '/'] + p,
            Some(h),
        ) == h + p,
        p.len() > 0 && p[0] == '/' ==> expand_tilde_path(seq!['~', '/'] + p, Some(h)) == p,
{
    let x = seq!['~', '/'] + p;
    assert(x.drop_first() =~= seq!['/'] + p);
    assert(x.drop_first().drop_first() =~= p);
    assert(seq!['~'].drop_first() =~= Seq::<char>::empty());
}

fn push_path_string(base: &str, p: &str) -> (r: String)
    ensures
        r@ == push_path(base@, p@),
{
    let pn = p.unicode_len();
    if pn > 0 && p.get_char(0) == '/' {
        return String::from_str(p);
    }
    let bn = base.unicode_len();
    let mut r = String::from_str(base);
    if bn > 0 && base.get_char(bn - 1) != '/' {
        push_char(&mut r, '/');
    }
    r.append(p);
    r
}

/// Expands a leading `~` in `path` to the home directory `home`, when it is known.
pub fn expand_tilde(path: &str, home: Option<&str>) -> (r: String)
    ensures
        r@ == expand_tilde_path(path@, match home {
            Some(h) => Some(h@),
            None => None,
        }),
{
    let n = path.unicode_len();
    if n > 0 && path.get_char(0) == '~' {
        if let Some(h) = home {
            let rest = path.substring_char(1, n);
            assert(rest@ =~= path@.drop_first());
            let rn = rest.unicode_len();
            if rn > 0 && rest.get_char(0) == '/' {
                let sub = rest.substring_char(1, rn);
                assert(sub@ =~= rest@.drop_first());
                return push_path_string(h, sub);
            } else if rn > 0 {
                return push_path_string(h, rest);
            } else {
                return String::from_str(h);
            }
        }
    }
    String::from_str(path)
}

} // verus!
