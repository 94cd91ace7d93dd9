//! Configuration records and their validation.
//!
//! The configuration file names one default server and any number of
//! server profiles; each profile carries a shell expression whose
//! output is the authentication token. Reading the file and running
//! the shell are the surrounding binary's work; validation of what
//! they produced happens here.

use vstd::prelude::*;
use vstd::string::*;

verus! {

/// The configuration file's content, one entry per server profile,
/// with each token still an unevaluated shell expression.
pub struct ConfigFromFile {
    pub default_server: String,
    pub servers: Vec<(String, ConfigServerFromFile)>,
}

/// One server profile as written in the configuration file.
pub struct ConfigServerFromFile {
    pub host_url: String,
    /// Shell expression whose standard output is the token. A token
    /// written directly is surrounded with single quotes.
    pub token_eval: String,
    pub username: String,
}

/// The configuration after every token expression has been evaluated.
pub struct ConfigParsed {
    pub default_server: String,
    pub servers: Vec<ConfigServerParsed>,
}

/// One ready-to-use server profile: host, user and evaluated token.
pub struct ConfigServerParsed {
    pub name: String,
    pub host_url: String,
    pub username: String,
    pub token: String,
}

/// `parsed` is `file` with each profile keeping its name, host and
/// user, and carrying the evaluated token that matches it by position.
pub open spec fn config_matches(
    file: ConfigFromFile,
    tokens: Seq<String>,
    parsed: ConfigParsed,
) -> bool {
    &&& parsed.default_server == file.default_server
    &&& parsed.servers@.len() == file.servers@.len()
    &&& forall|i: int|
        0 <= i < parsed.servers@.len() ==> {
            let srv = #[trigger] parsed.servers@[i];
            &&& srv.name == file.servers@[i].0
            &&& srv.host_url == file.servers@[i].1.host_url
            &&& srv.username == file.servers@[i].1.username
            &&& srv.token == tokens[i]
        }
}

/// Pairs every server profile with its evaluated token, in order.
pub fn config_validate(file: ConfigFromFile, tokens: Vec<String>) -> (r: ConfigParsed)
    requires
        tokens@.len() == file.servers@.len(),
    ensures
        config_matches(file, tokens@, r),
{
    let ghost orig_servers = file.servers@;
    let ghost orig_tokens = tokens@;
    let mut servers_in = file.servers;
    let mut tokens_in = tokens;
    let mut servers: Vec<ConfigServerParsed> = Vec::new();
    let n = servers_in.len();
    let mut idx: usize = 0;
    while idx < n
        invariant
            0 <= idx <= n,
            n == orig_servers.len(),
            orig_tokens.len() == orig_servers.len(),
            servers_in@ =~= orig_servers.skip(idx as int),
            tokens_in@ =~= orig_tokens.skip(idx as int),
            servers@.len() == idx,
            forall|i: int|
                0 <= i < idx ==> {
                    let srv = #[trigger] servers@[i];
                    &&& srv.name == orig_servers[i].0
                    &&& srv.host_url == orig_servers[i].1.host_url
                    &&& srv.username == orig_servers[i].1.username
                    &&& srv.token == orig_tokens[i]
                },
        decreases n - idx,
    {
        let (name, profile) = servers_in.remove(0);
        let token = tokens_in.remove(0);
        servers.push(
            ConfigServerParsed {
                name,
                host_url: profile.host_url,
                username: profile.username,
                token,
            },
        );
        idx = idx + 1;
    }
    ConfigParsed { default_server: file.default_server, servers }
}

/// Builds the run's configuration from what was read off disk.
///
/// `file` is the parsed configuration file, or `None` when there is no
/// such file, in which case the configuration is empty rather than an
/// error. `tokens` carries the evaluated token of each profile, in
/// file order.
pub fn config_load(file: Option<ConfigFromFile>, tokens: Vec<String>) -> (r: ConfigParsed)
    requires
        match file {
            Some(f) => tokens@.len() == f.servers@.len(),
            None => true,
        },
    ensures
        match file {
            Some(f) => config_matches(f, tokens@, r),
            None => r.default_server@ == Seq::<char>::empty() && r.servers@.len() == 0,
        },
{
    match file {
        Some(f) => config_validate(f, tokens),
        None => ConfigParsed { default_server: String::new(), servers: Vec::new() },
    }
}

} // verus!
