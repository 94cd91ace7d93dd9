//! Command-line input validated against the configuration: the server
//! profile is chosen by name (or the configured default) and the job's
//! key=value parameters are split.

use vstd::prelude::*;
use vstd::string::*;

use crate::config::{ConfigParsed, ConfigServerParsed};
use crate::error::AppError;
use crate::strutil::{first_index_of, lemma_first_index_is, scan_for, str_eq};

verus! {

/// Command-line arguments as the argument parser hands them over.
pub struct Cli {
    /// Name of the job to build.
    pub job: String,
    /// Server profile to use; `"default"` picks the configured one.
    pub server: String,
    /// How talkative logging should be.
    pub verbosity: usize,
    /// Build parameters, each already split at its `=`.
    pub params: Vec<(String, String)>,
}

/// Command-line input after the server profile has been resolved.
pub struct CliValid {
    pub job: String,
    pub params: Vec<(String, String)>,
    pub server: ConfigServerParsed,
    pub verbosity: usize,
}

/// Splits one `KEY=value` argument at its first `=`.
///
/// An argument without `=` is rejected, carrying the argument itself.
pub fn parse_key_val(s: &str) -> (r: Result<(String, String), AppError>)
    ensures
        match r {
            Ok(kv) => {
                let p = first_index_of(s@, '=');
                &&& p < s@.len()
                &&& kv.0@ == s@.take(p)
                &&& kv.1@ == s@.skip(p + 1)
            },
            Err(e) => (forall|k: int| 0 <= k < s@.len() ==> s@[k] != '=') && (
            e matches AppError::CliParamParseError(t) && t@ == s@),
        },
{
    let n = s.unicode_len();
    let p = scan_for(s, '=', 0);
    if p == n {
        proof {
            lemma_first_index_is(s@, '=', p as int);
        }
        return Err(AppError::CliParamParseError(String::from_str(s)));
    }
    proof {
        lemma_first_index_is(s@, '=', p as int);
    }
    let key = s.substring_char(0, p);
    let val = s.substring_char(p + 1, n);
    proof {
        assert(key@ =~= s@.take(p as int));
        assert(val@ =~= s@.skip(p as int + 1));
    }
    Ok((String::from_str(key), String::from_str(val)))
}

/// The first configured server carrying the given name, if any.
pub open spec fn find_server(servers: Seq<ConfigServerParsed>, name: Seq<char>) -> Option<
    ConfigServerParsed,
>
    decreases servers.len(),
{
    if servers.len() == 0 {
        None
    } else if servers[0].name@ == name {
        Some(servers[0])
    } else {
        find_server(servers.drop_first(), name)
    }
}

/// The server name the command line asks for: the configured default
/// when the argument is `"default"`, the argument itself otherwise.
pub open spec fn requested_server(cli: Cli, config: ConfigParsed) -> Seq<char> {
    if cli.server@ == "default"@ {
        config.default_server@
    } else {
        cli.server@
    }
}

/// Resolves the command line against the configuration.
///
/// The requested server profile must exist in the configuration; job,
/// parameters and verbosity pass through unchanged. A missing profile
/// is rejected, carrying the name that was looked up.
#[verifier::loop_isolation(false)]
pub fn cli_validate(cli: Cli, config: ConfigParsed) -> (r: Result<CliValid, AppError>)
    ensures
        match r {
            Ok(v) => {
                &&& find_server(config.servers@, requested_server(cli, config)) == Some(v.server)
                &&& v.job == cli.job
                &&& v.params == cli.params
                &&& v.verbosity == cli.verbosity
            },
            Err(e) => {
                &&& find_server(config.servers@, requested_server(cli, config)) is None
                &&& (e matches AppError::CliConfigServerMissingError(t) && t@ == requested_server(
                    cli,
                    config,
                ))
            },
        },
{
    let ghost req = requested_server(cli, config);
    let name: String = if str_eq(cli.server.as_str(), "default") {
        config.default_server
    } else {
        cli.server
    };
    let mut servers = config.servers;
    let ghost all = servers@;
    let n = servers.len();
    let mut idx: usize = 0;
    proof {
        assert(all.skip(0) =~= all);
    }
    while idx < n
        invariant
            0 <= idx <= n,
            n == all.len(),
            servers@ == all,
            name@ == req,
            find_server(all, name@) == find_server(all.skip(idx as int), name@),
            all == config.servers@,
        decreases n - idx,
    {
        proof {
            assert(all.skip(idx as int)[0] == all[idx as int]);
        }
        if str_eq(servers[idx].name.as_str(), name.as_str()) {
            let server = servers.remove(idx);
            return Ok(
                CliValid { job: cli.job, params: cli.params, server, verbosity: cli.verbosity },
            );
        }
        proof {
            assert(all.skip(idx as int).drop_first() =~= all.skip(idx as int + 1));
        }
        idx = idx + 1;
    }
    proof {
        assert(all.skip(n as int).len() == 0);
    }
    Err(AppError::CliConfigServerMissingError(name))
}

} // verus!
