use cpanel_nas_backup::config::{
    env_bool, env_opt, env_req, env_u16, env_u64, env_usize, parse_entries, Config, ConfigError,
    CpanelAuth, Environment, RunMode,
};
use cpanel_nas_backup::text::NumberFault;

fn env(vars: &[(&str, &str)]) -> Environment {
    Environment { vars: vars.iter().map(|(n, v)| (n.to_string(), v.to_string())).collect() }
}

fn required() -> Vec<(&'static str, &'static str)> {
    vec![
        ("CPANEL_BASE_URL", "https://cpanel.example.com:2083/"),
        ("CPANEL_USERNAME", "user"),
        ("CPANEL_PASSWORD", "secret"),
        ("CPANEL_FTP_HOST", "ftp.example.com"),
        ("CPANEL_FTP_USERNAME", "ftpuser"),
        ("CPANEL_FTP_PASSWORD", "ftpsecret"),
    ]
}

fn with(extra: &[(&'static str, &'static str)]) -> Environment {
    let mut vars = extra.to_vec();
    vars.extend(required());
    env(&vars)
}

fn error(environment: &Environment) -> ConfigError {
    Config::from_env(environment).err().unwrap()
}

#[test]
fn documented_defaults() {
    let config = Config::from_env(&env(&required())).unwrap();
    assert_eq!(config.cpanel_base_url, "https://cpanel.example.com:2083");
    assert_eq!(config.cpanel_username, "user");
    assert!(matches!(config.cpanel_auth, CpanelAuth::Password(ref p) if p == "secret"));
    assert_eq!(config.cpanel_backup_email, None);
    assert!(config.cpanel_include_home);
    assert_eq!(config.ftp_host, "ftp.example.com");
    assert_eq!(config.ftp_port, 21);
    assert_eq!(config.ftp_username, "ftpuser");
    assert_eq!(config.ftp_password, "ftpsecret");
    assert_eq!(config.ftp_backup_dir, None);
    assert_eq!(config.backup_dir, "/backups");
    assert_eq!(config.poll_interval, 60);
    assert_eq!(config.backup_timeout, 7200);
    assert!(config.delete_remote_after_download);
    assert!(config.verify_archive);
    assert_eq!(config.expected_archive_entries, vec!["homedir/public_html", "mysql/"]);
    assert_eq!(config.retention_keep_last, 7);
    assert_eq!(config.run_mode, RunMode::Once);
    assert_eq!(config.schedule_interval, 86400);
}

#[test]
fn every_setting_can_be_set() {
    let config = Config::from_env(&with(&[
        ("CPANEL_BACKUP_EMAIL", "a@example.com"),
        ("CPANEL_INCLUDE_HOME", "no"),
        ("CPANEL_FTP_PORT", "2121"),
        ("CPANEL_FTP_BACKUP_DIR", "/home"),
        ("BACKUP_DIR", "/nas/cpanel"),
        ("POLL_INTERVAL_SECS", "5"),
        ("BACKUP_TIMEOUT_SECS", "100"),
        ("DELETE_REMOTE_AFTER_DOWNLOAD", "off"),
        ("VERIFY_ARCHIVE", "0"),
        ("EXPECTED_ARCHIVE_ENTRIES", " a , ,b/,"),
        ("RETENTION_KEEP_LAST", "3"),
        ("RUN_MODE", "daemon"),
        ("SCHEDULE_INTERVAL_SECS", "3600"),
    ]))
    .unwrap();
    assert_eq!(config.cpanel_backup_email.as_deref(), Some("a@example.com"));
    assert!(!config.cpanel_include_home);
    assert_eq!(config.ftp_port, 2121);
    assert_eq!(config.ftp_backup_dir.as_deref(), Some("/home"));
    assert_eq!(config.backup_dir, "/nas/cpanel");
    assert_eq!(config.poll_interval, 5);
    assert_eq!(config.backup_timeout, 100);
    assert!(!config.delete_remote_after_download);
    assert!(!config.verify_archive);
    assert_eq!(config.expected_archive_entries, vec!["a", "b/"]);
    assert_eq!(config.retention_keep_last, 3);
    assert_eq!(config.run_mode, RunMode::Daemon);
    assert_eq!(config.schedule_interval, 3600);
}

#[test]
fn token_takes_precedence_over_password() {
    let config = Config::from_env(&with(&[("CPANEL_API_TOKEN", "TOKEN")])).unwrap();
    assert!(matches!(config.cpanel_auth, CpanelAuth::ApiToken(ref t) if t == "TOKEN"));
}

#[test]
fn blank_token_falls_back_to_the_password() {
    let config = Config::from_env(&with(&[("CPANEL_API_TOKEN", " \t")])).unwrap();
    assert!(matches!(config.cpanel_auth, CpanelAuth::Password(_)));
}

#[test]
fn blank_and_unset_variables_agree() {
    let described = |extra: &[(&'static str, &'static str)]| {
        format!("{:?}", Config::from_env(&with(extra)))
    };
    for name in [
        "BACKUP_DIR",
        "CPANEL_API_TOKEN",
        "CPANEL_BACKUP_EMAIL",
        "CPANEL_FTP_BACKUP_DIR",
        "CPANEL_FTP_PORT",
        "EXPECTED_ARCHIVE_ENTRIES",
        "RETENTION_KEEP_LAST",
        "RUN_MODE",
        "VERIFY_ARCHIVE",
    ] {
        assert_eq!(described(&[(name, " \u{3000}")]), described(&[]), "{name}");
    }
}

#[test]
fn missing_credentials_are_reported() {
    let vars: Vec<_> = required().into_iter().filter(|v| v.0 != "CPANEL_PASSWORD").collect();
    let fault = error(&env(&vars));
    assert_eq!(fault, ConfigError::NoCredentials);
    assert_eq!(fault.message(), "set either CPANEL_API_TOKEN or CPANEL_PASSWORD");
    assert_eq!(CpanelAuth::from_env(&env(&vars)).err(), Some(ConfigError::NoCredentials));
}

#[test]
fn missing_required_variable_is_reported() {
    let vars: Vec<_> = required().into_iter().filter(|v| v.0 != "CPANEL_FTP_HOST").collect();
    let fault = error(&env(&vars));
    assert_eq!(fault, ConfigError::Missing { name: "CPANEL_FTP_HOST".to_string() });
    assert_eq!(fault.message(), "missing required env var CPANEL_FTP_HOST");
}

#[test]
fn required_variables_may_be_empty() {
    let environment = env(&[("CPANEL_USERNAME", "")]);
    assert_eq!(env_req(&environment, "CPANEL_USERNAME").unwrap(), "");
    assert_eq!(env_opt(&environment, "CPANEL_USERNAME"), None);
}

#[test]
fn bad_values_are_reported() {
    let fault = error(&with(&[("RUN_MODE", "Daemon")]));
    assert_eq!(fault.message(), "RUN_MODE must be once or daemon, got Daemon");
    let fault = error(&with(&[("VERIFY_ARCHIVE", "TRUE")]));
    assert_eq!(fault.message(), "VERIFY_ARCHIVE must be boolean, got TRUE");
    let fault = error(&with(&[("CPANEL_FTP_PORT", "65536")]));
    assert_eq!(
        fault,
        ConfigError::NotInteger {
            name: "CPANEL_FTP_PORT".to_string(),
            cause: NumberFault::TooLarge
        }
    );
    assert_eq!(fault.message(), "CPANEL_FTP_PORT must be an integer");
}

#[test]
fn first_fault_wins() {
    let fault = error(&env(&[("RUN_MODE", "never"), ("CPANEL_FTP_PORT", "x")]));
    assert_eq!(fault, ConfigError::RunMode { value: "never".to_string() });
    let fault = error(&with(&[("SCHEDULE_INTERVAL_SECS", "x"), ("CPANEL_INCLUDE_HOME", "maybe")]));
    assert_eq!(
        fault,
        ConfigError::NotBoolean {
            name: "CPANEL_INCLUDE_HOME".to_string(),
            value: "maybe".to_string()
        }
    );
}

#[test]
fn switches_accept_eight_words() {
    for (word, value) in [
        ("1", true),
        ("true", true),
        ("yes", true),
        ("on", true),
        ("0", false),
        ("false", false),
        ("no", false),
        ("off", false),
    ] {
        assert_eq!(env_bool(&env(&[("X", word)]), "X", !value), Ok(value));
    }
    assert_eq!(env_bool(&env(&[("X", " ")]), "X", true), Ok(true));
    assert!(env_bool(&env(&[("X", " on")]), "X", true).is_err());
}

#[test]
fn numbers_and_their_limits() {
    assert_eq!(env_u16(&env(&[]), "X", 21), Ok(21));
    assert_eq!(env_u16(&env(&[("X", "+80")]), "X", 21), Ok(80));
    assert_eq!(env_u64(&env(&[("X", "18446744073709551615")]), "X", 0), Ok(u64::MAX));
    assert!(env_u64(&env(&[("X", "18446744073709551616")]), "X", 0).is_err());
    assert_eq!(env_usize(&env(&[("X", "0")]), "X", 7), Ok(0));
    assert_eq!(
        env_usize(&env(&[("X", "-1")]), "X", 7),
        Err(ConfigError::NotInteger { name: "X".to_string(), cause: NumberFault::InvalidDigit })
    );
}

#[test]
fn first_of_two_equal_names_counts() {
    assert_eq!(env_req(&env(&[("X", "1"), ("X", "2")]), "X").unwrap(), "1");
}

#[test]
fn entry_lists_are_trimmed_and_filtered() {
    assert_eq!(parse_entries("homedir/public_html,mysql/"), vec!["homedir/public_html", "mysql/"]);
    assert!(parse_entries(" , ,").is_empty());
}
