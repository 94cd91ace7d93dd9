use jj::cli::{cli_validate, parse_key_val, Cli};
use jj::config::{config_load, config_validate, ConfigFromFile, ConfigServerFromFile};
use jj::error::AppError;

fn profile(host: &str, user: &str) -> ConfigServerFromFile {
    ConfigServerFromFile {
        host_url: String::from(host),
        token_eval: String::from("'example-token'"),
        username: String::from(user),
    }
}

fn two_server_file() -> ConfigFromFile {
    ConfigFromFile {
        default_server: String::from("main"),
        servers: vec![
            (String::from("main"), profile("http://main", "alice")),
            (String::from("backup"), profile("http://backup", "bob")),
        ],
    }
}

#[test]
fn key_val_splits_at_the_first_equals() {
    let r = parse_key_val("a=b").unwrap();
    assert_eq!(r, (String::from("a"), String::from("b")));
    let r = parse_key_val("a=b=c").unwrap();
    assert_eq!(r, (String::from("a"), String::from("b=c")));
    let r = parse_key_val("=v").unwrap();
    assert_eq!(r, (String::from(""), String::from("v")));
}

#[test]
fn key_val_without_equals_is_rejected() {
    assert_eq!(
        parse_key_val("abc"),
        Err(AppError::CliParamParseError(String::from("abc")))
    );
}

#[test]
fn validation_pairs_profiles_with_their_tokens() {
    let parsed = config_validate(
        two_server_file(),
        vec![String::from("tok-main"), String::from("tok-backup")],
    );
    assert_eq!(parsed.default_server, "main");
    assert_eq!(parsed.servers.len(), 2);
    assert_eq!(parsed.servers[0].name, "main");
    assert_eq!(parsed.servers[0].host_url, "http://main");
    assert_eq!(parsed.servers[0].username, "alice");
    assert_eq!(parsed.servers[0].token, "tok-main");
    assert_eq!(parsed.servers[1].name, "backup");
    assert_eq!(parsed.servers[1].token, "tok-backup");
}

#[test]
fn absent_file_loads_as_empty_configuration() {
    let parsed = config_load(None, Vec::new());
    assert_eq!(parsed.default_server, "");
    assert!(parsed.servers.is_empty());
}

#[test]
fn present_file_loads_through_validation() {
    let parsed = config_load(
        Some(two_server_file()),
        vec![String::from("t1"), String::from("t2")],
    );
    assert_eq!(parsed.servers[1].name, "backup");
    assert_eq!(parsed.servers[1].token, "t2");
}

fn cli_for(server: &str) -> Cli {
    Cli {
        job: String::from("x"),
        server: String::from(server),
        verbosity: 2,
        params: vec![(String::from("k"), String::from("v"))],
    }
}

fn loaded() -> jj::config::ConfigParsed {
    config_load(
        Some(two_server_file()),
        vec![String::from("t1"), String::from("t2")],
    )
}

#[test]
fn default_server_name_comes_from_the_configuration() {
    let valid = cli_validate(cli_for("default"), loaded()).unwrap();
    assert_eq!(valid.server.name, "main");
    assert_eq!(valid.server.token, "t1");
    assert_eq!(valid.job, "x");
    assert_eq!(valid.verbosity, 2);
    assert_eq!(valid.params, vec![(String::from("k"), String::from("v"))]);
}

#[test]
fn named_server_overrides_the_default() {
    let valid = cli_validate(cli_for("backup"), loaded()).unwrap();
    assert_eq!(valid.server.name, "backup");
    assert_eq!(valid.server.username, "bob");
}

#[test]
fn unknown_server_is_rejected_with_its_name() {
    assert_eq!(
        match cli_validate(cli_for("gone"), loaded()) {
            Err(AppError::CliConfigServerMissingError(name)) => name,
            _ => panic!("expected a missing-server error"),
        },
        "gone"
    );
}

#[test]
fn empty_configuration_rejects_every_lookup() {
    let parsed = config_load(None, Vec::new());
    assert!(matches!(
        cli_validate(cli_for("default"), parsed),
        Err(AppError::CliConfigServerMissingError(_))
    ));
}
