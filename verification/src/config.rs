//! The settings of the runner, read from environment variables.

use vstd::prelude::*;

use crate::text::{
    blank, decimal_fault, decimal_value, is_blank, is_white_space, joined,
    law_pieces_around_a_separator, law_split_undoes_join, law_trailing_run_is_cut,
    law_trimming_cuts_white_space, parse_decimal, pieces, same_text, split_on, texts, trim, trim_end_matches, trimmed, without_trailing,
    NumberFault,
};

verus! {

/// The FTP port unless another one is set.
pub const DEFAULT_FTP_PORT: u16 = 21;

/// The seconds between two polls unless another number is set.
pub const DEFAULT_POLL_INTERVAL: u64 = 60;

/// The seconds to wait for a backup unless another number is set.
pub const DEFAULT_BACKUP_TIMEOUT: u64 = 7200;

/// The number of local archives to keep unless another one is set.
pub const DEFAULT_KEEP_LAST: usize = 7;

/// The seconds between two runs of the daemon unless another number is set.
pub const DEFAULT_SCHEDULE_INTERVAL: u64 = 86_400;

/// The environment variables whose values are Unicode, in the order of the process.
#[derive(Debug)]
pub struct Environment {
    pub vars: Vec<(String, String)>,
}

impl View for Environment {
    type V = Seq<(Seq<char>, Seq<char>)>;

    open spec fn view(&self) -> Seq<(Seq<char>, Seq<char>)> {
        self.vars@.map_values(|var: (String, String)| (var.0@, var.1@))
    }
}

/// The value of the variable `name`: of the first one, where it occurs twice.
pub open spec fn var(env: Seq<(Seq<char>, Seq<char>)>, name: Seq<char>) -> Option<Seq<char>>
    decreases env.len(),
{
    if env.len() == 0 {
        None
    } else if env.first().0 == name {
        Some(env.first().1)
    } else {
        var(env.drop_first(), name)
    }
}

/// The value of the variable `name`, a blank one counting as none.
pub open spec fn opt(env: Seq<(Seq<char>, Seq<char>)>, name: Seq<char>) -> Option<Seq<char>> {
    match var(env, name) {
        Some(value) if !is_blank(value) => Some(value),
        _ => None,
    }
}

/// The truth value that a word stands for.
pub open spec fn flag_word(word: Seq<char>) -> Option<bool> {
    if word == "1"@ || word == "true"@ || word == "yes"@ || word == "on"@ {
        Some(true)
    } else if word == "0"@ || word == "false"@ || word == "no"@ || word == "off"@ {
        Some(false)
    } else {
        None
    }
}

/// The value of the switch `name`, where it has one.
pub open spec fn flag(
    env: Seq<(Seq<char>, Seq<char>)>,
    name: Seq<char>,
    default: bool,
) -> Option<bool> {
    match opt(env, name) {
        None => Some(default),
        Some(word) => flag_word(word),
    }
}

/// The value of the number `name`, where it has one and it is at most `max`.
pub open spec fn number(
    env: Seq<(Seq<char>, Seq<char>)>,
    name: Seq<char>,
    default: nat,
    max: nat,
) -> Option<nat> {
    match opt(env, name) {
        None => Some(default),
        Some(digits) => match decimal_value(digits) {
            Some(n) if n <= max => Some(n),
            _ => None,
        },
    }
}

/// The archive entries that a comma-separated list names, without blank ones.
pub open spec fn entry_list(list: Seq<char>) -> Seq<Seq<char>> {
    pieces(list, ',').map_values(|piece: Seq<char>| trimmed(piece)).filter(
        |entry: Seq<char>| entry.len() > 0,
    )
}

/// How the runner is started.
#[derive(Clone, Copy, Debug, PartialEq, Eq, Structural)]
pub enum RunMode {
    Once,
    Daemon,
}

/// The mode that the environment asks for, where it asks for one that exists.
pub open spec fn run_mode(env: Seq<(Seq<char>, Seq<char>)>) -> Option<RunMode> {
    match opt(env, "RUN_MODE"@) {
        None => Some(RunMode::Once),
        Some(word) => if word == "once"@ {
            Some(RunMode::Once)
        } else if word == "daemon"@ {
            Some(RunMode::Daemon)
        } else {
            None
        },
    }
}

/// The credentials for the cPanel account.
#[derive(Debug)]
pub enum CpanelAuth {
    ApiToken(String),
    Password(String),
}

/// The credentials as mathematical values.
pub enum AuthView {
    ApiToken(Seq<char>),
    Password(Seq<char>),
}

impl View for CpanelAuth {
    type V = AuthView;

    open spec fn view(&self) -> AuthView {
        match self {
            CpanelAuth::ApiToken(token) => AuthView::ApiToken(token@),
            CpanelAuth::Password(password) => AuthView::Password(password@),
        }
    }
}

/// The credentials that the environment holds: the token, or else the password.
pub open spec fn auth(env: Seq<(Seq<char>, Seq<char>)>) -> Option<AuthView> {
    match opt(env, "CPANEL_API_TOKEN"@) {
        Some(token) => Some(AuthView::ApiToken(token)),
        None => match opt(env, "CPANEL_PASSWORD"@) {
            Some(password) => Some(AuthView::Password(password)),
            None => None,
        },
    }
}

/// Why an environment gives no configuration.
#[derive(Debug, PartialEq, Eq)]
pub enum ConfigError {
    /// `RUN_MODE` names no mode.
    RunMode { value: String },
    /// A required variable is not set.
    Missing { name: String },
    /// Neither a token nor a password is set.
    NoCredentials,
    /// A switch holds a word that is none of those it accepts.
    NotBoolean { name: String, value: String },
    /// A number holds something else, or a number that is too large.
    NotInteger { name: String, cause: NumberFault },
}

/// A `ConfigError` as a mathematical value.
pub enum ConfigFault {
    RunMode { value: Seq<char> },
    Missing { name: Seq<char> },
    NoCredentials,
    NotBoolean { name: Seq<char>, value: Seq<char> },
    NotInteger { name: Seq<char>, cause: NumberFault },
}

impl View for ConfigError {
    type V = ConfigFault;

    open spec fn view(&self) -> ConfigFault {
        match self {
            ConfigError::RunMode { value } => ConfigFault::RunMode { value: value@ },
            ConfigError::Missing { name } => ConfigFault::Missing { name: name@ },
            ConfigError::NoCredentials => ConfigFault::NoCredentials,
            ConfigError::NotBoolean { name, value } => ConfigFault::NotBoolean {
                name: name@,
                value: value@,
            },
            ConfigError::NotInteger { name, cause } => ConfigFault::NotInteger {
                name: name@,
                cause: *cause,
            },
        }
    }
}

impl ConfigFault {
    /// The message that reports the fault.
    pub open spec fn message_text(self) -> Seq<char> {
        match self {
            ConfigFault::RunMode { value } => "RUN_MODE must be once or daemon, got "@ + value,
            ConfigFault::Missing { name } => "missing required env var "@ + name,
            ConfigFault::NoCredentials => "set either CPANEL_API_TOKEN or CPANEL_PASSWORD"@,
            ConfigFault::NotBoolean { name, value } => name + " must be boolean, got "@ + value,
            ConfigFault::NotInteger { name, cause: _ } => name + " must be an integer"@,
        }
    }
}

impl ConfigError {
    /// The message that reports the fault.
    pub fn message(&self) -> (res: String)
        ensures
            res@ == self@.message_text(),
    {
        match self {
            ConfigError::RunMode { value } => {
                let mut res = "RUN_MODE must be once or daemon, got ".to_owned();
                res.append(value.as_str());
                res
            },
            ConfigError::Missing { name } => {
                let mut res = "missing required env var ".to_owned();
                res.append(name.as_str());
                res
            },
            ConfigError::NoCredentials => {
                "set either CPANEL_API_TOKEN or CPANEL_PASSWORD".to_owned()
            },
            ConfigError::NotBoolean { name, value } => {
                let mut res = name.clone();
                res.append(" must be boolean, got ");
                res.append(value.as_str());
                res
            },
            ConfigError::NotInteger { name, cause: _ } => {
                let mut res = name.clone();
                res.append(" must be an integer");
                res
            },
        }
    }
}

/// The fault of a required variable.
pub open spec fn required_fault(
    env: Seq<(Seq<char>, Seq<char>)>,
    name: Seq<char>,
) -> Option<ConfigFault> {
    if var(env, name) is None {
        Some(ConfigFault::Missing { name })
    } else {
        None
    }
}

/// The fault of a switch.
pub open spec fn flag_fault(
    env: Seq<(Seq<char>, Seq<char>)>,
    name: Seq<char>,
) -> Option<ConfigFault> {
    if flag(env, name, true) is None {
        Some(ConfigFault::NotBoolean { name, value: opt(env, name).unwrap() })
    } else {
        None
    }
}

/// The fault of a number.
pub open spec fn number_fault(
    env: Seq<(Seq<char>, Seq<char>)>,
    name: Seq<char>,
    max: nat,
) -> Option<ConfigFault> {
    if number(env, name, 0, max) is None {
        Some(
            ConfigFault::NotInteger { name, cause: decimal_fault(opt(env, name).unwrap(), max) },
        )
    } else {
        None
    }
}

/// The fault of the run mode.
pub open spec fn run_mode_fault(env: Seq<(Seq<char>, Seq<char>)>) -> Option<ConfigFault> {
    if run_mode(env) is None {
        Some(ConfigFault::RunMode { value: opt(env, "RUN_MODE"@).unwrap() })
    } else {
        None
    }
}

/// The fault of the credentials.
pub open spec fn auth_fault(env: Seq<(Seq<char>, Seq<char>)>) -> Option<ConfigFault> {
    if auth(env) is None {
        Some(ConfigFault::NoCredentials)
    } else {
        None
    }
}

/// The first fault of a list.
pub open spec fn first_fault(faults: Seq<Option<ConfigFault>>) -> Option<ConfigFault>
    decreases faults.len(),
{
    if faults.len() == 0 {
        None
    } else if faults.first() is Some {
        faults.first()
    } else {
        first_fault(faults.drop_first())
    }
}

/// The faults of the settings, in the order in which they are looked at.
pub open spec fn faults(env: Seq<(Seq<char>, Seq<char>)>) -> Seq<Option<ConfigFault>> {
    seq![
        run_mode_fault(env),
        required_fault(env, "CPANEL_BASE_URL"@),
        required_fault(env, "CPANEL_USERNAME"@),
        auth_fault(env),
        flag_fault(env, "CPANEL_INCLUDE_HOME"@),
        required_fault(env, "CPANEL_FTP_HOST"@),
        number_fault(env, "CPANEL_FTP_PORT"@, u16::MAX as nat),
        required_fault(env, "CPANEL_FTP_USERNAME"@),
        required_fault(env, "CPANEL_FTP_PASSWORD"@),
        number_fault(env, "POLL_INTERVAL_SECS"@, u64::MAX as nat),
        number_fault(env, "BACKUP_TIMEOUT_SECS"@, u64::MAX as nat),
        flag_fault(env, "DELETE_REMOTE_AFTER_DOWNLOAD"@),
        flag_fault(env, "VERIFY_ARCHIVE"@),
        number_fault(env, "RETENTION_KEEP_LAST"@, usize::MAX as nat),
        number_fault(env, "SCHEDULE_INTERVAL_SECS"@, u64::MAX as nat),
    ]
}

/// The settings of the runner. Intervals and timeouts are in seconds.
#[derive(Debug)]
pub struct Config {
    pub cpanel_base_url: String,
    pub cpanel_username: String,
    pub cpanel_auth: CpanelAuth,
    pub cpanel_backup_email: Option<String>,
    pub cpanel_include_home: bool,
    pub ftp_host: String,
    pub ftp_port: u16,
    pub ftp_username: String,
    pub ftp_password: String,
    pub ftp_backup_dir: Option<String>,
    pub backup_dir: String,
    pub poll_interval: u64,
    pub backup_timeout: u64,
    pub delete_remote_after_download: bool,
    pub verify_archive: bool,
    pub expected_archive_entries: Vec<String>,
    pub retention_keep_last: usize,
    pub run_mode: RunMode,
    pub schedule_interval: u64,
}

/// The settings as mathematical values.
#[verifier::ext_equal]
pub struct ConfigView {
    pub cpanel_base_url: Seq<char>,
    pub cpanel_username: Seq<char>,
    pub cpanel_auth: AuthView,
    pub cpanel_backup_email: Option<Seq<char>>,
    pub cpanel_include_home: bool,
    pub ftp_host: Seq<char>,
    pub ftp_port: nat,
    pub ftp_username: Seq<char>,
    pub ftp_password: Seq<char>,
    pub ftp_backup_dir: Option<Seq<char>>,
    pub backup_dir: Seq<char>,
    pub poll_interval: nat,
    pub backup_timeout: nat,
    pub delete_remote_after_download: bool,
    pub verify_archive: bool,
    pub expected_archive_entries: Seq<Seq<char>>,
    pub retention_keep_last: nat,
    pub run_mode: RunMode,
    pub schedule_interval: nat,
}

/// The characters of an optional text.
pub open spec fn opt_text(s: Option<String>) -> Option<Seq<char>> {
    match s {
        Some(s) => Some(s@),
        None => None,
    }
}

impl View for Config {
    type V = ConfigView;

    open spec fn view(&self) -> ConfigView {
        ConfigView {
            cpanel_base_url: self.cpanel_base_url@,
            cpanel_username: self.cpanel_username@,
            cpanel_auth: self.cpanel_auth@,
            cpanel_backup_email: opt_text(self.cpanel_backup_email),
            cpanel_include_home: self.cpanel_include_home,
            ftp_host: self.ftp_host@,
            ftp_port: self.ftp_port as nat,
            ftp_username: self.ftp_username@,
            ftp_password: self.ftp_password@,
            ftp_backup_dir: opt_text(self.ftp_backup_dir),
            backup_dir: self.backup_dir@,
            poll_interval: self.poll_interval as nat,
            backup_timeout: self.backup_timeout as nat,
            delete_remote_after_download: self.delete_remote_after_download,
            verify_archive: self.verify_archive,
            expected_archive_entries: texts(self.expected_archive_entries@),
            retention_keep_last: self.retention_keep_last as nat,
            run_mode: self.run_mode,
            schedule_interval: self.schedule_interval as nat,
        }
    }
}

/// The text of an optional setting.
pub open spec fn text_or(value: Option<Seq<char>>, default: Seq<char>) -> Seq<char> {
    match value {
        Some(value) => value,
        None => default,
    }
}

/// The settings that an environment without faults describes.
pub open spec fn settings(env: Seq<(Seq<char>, Seq<char>)>) -> ConfigView {
    ConfigView {
        cpanel_base_url: without_trailing(var(env, "CPANEL_BASE_URL"@).unwrap(), '/'),
        cpanel_username: var(env, "CPANEL_USERNAME"@).unwrap(),
        cpanel_auth: auth(env).unwrap(),
        cpanel_backup_email: opt(env, "CPANEL_BACKUP_EMAIL"@),
        cpanel_include_home: flag(env, "CPANEL_INCLUDE_HOME"@, true).unwrap(),
        ftp_host: var(env, "CPANEL_FTP_HOST"@).unwrap(),
        ftp_port: number(
            env,
            "CPANEL_FTP_PORT"@,
            DEFAULT_FTP_PORT as nat,
            u16::MAX as nat,
        ).unwrap(),
        ftp_username: var(env, "CPANEL_FTP_USERNAME"@).unwrap(),
        ftp_password: var(env, "CPANEL_FTP_PASSWORD"@).unwrap(),
        ftp_backup_dir: opt(env, "CPANEL_FTP_BACKUP_DIR"@),
        backup_dir: text_or(opt(env, "BACKUP_DIR"@), "/backups"@),
        poll_interval: number(
            env,
            "POLL_INTERVAL_SECS"@,
            DEFAULT_POLL_INTERVAL as nat,
            u64::MAX as nat,
        ).unwrap(),
        backup_timeout: number(
            env,
            "BACKUP_TIMEOUT_SECS"@,
            DEFAULT_BACKUP_TIMEOUT as nat,
            u64::MAX as nat,
        ).unwrap(),
        delete_remote_after_download: flag(env, "DELETE_REMOTE_AFTER_DOWNLOAD"@, true).unwrap(),
        verify_archive: flag(env, "VERIFY_ARCHIVE"@, true).unwrap(),
        expected_archive_entries: entry_list(
            text_or(opt(env, "EXPECTED_ARCHIVE_ENTRIES"@), "homedir/public_html,mysql/"@),
        ),
        retention_keep_last: number(
            env,
            "RETENTION_KEEP_LAST"@,
            DEFAULT_KEEP_LAST as nat,
            usize::MAX as nat,
        ).unwrap(),
        run_mode: run_mode(env).unwrap(),
        schedule_interval: number(
            env,
            "SCHEDULE_INTERVAL_SECS"@,
            DEFAULT_SCHEDULE_INTERVAL as nat,
            u64::MAX as nat,
        ).unwrap(),
    }
}

/// The value of the variable `name`.
fn env_var(env: &Environment, name: &str) -> (res: Option<String>)
    ensures
        opt_text(res) == var(env@, name@),
{
    let mut i: usize = 0;
    assert(env@.skip(0) =~= env@);
    while i < env.vars.len()
        invariant
            i <= env.vars.len(),
            var(env@, name@) == var(env@.skip(i as int), name@),
        decreases env.vars.len() - i,
    {
        assert(env@.skip(i as int).first() == (env.vars@[i as int].0@, env.vars@[i as int].1@));
        if same_text(env.vars[i].0.as_str(), name) {
            return Some(env.vars[i].1.clone());
        }
        assert(env@.skip(i as int).drop_first() =~= env@.skip(i + 1));
        i += 1;
    }
    None
}

/// The value of the variable `name`, which has to be set but may be blank.
pub fn env_req(env: &Environment, name: &str) -> (res: Result<String, ConfigError>)
    ensures
        match res {
            Ok(value) => var(env@, name@) == Some(value@),
            Err(error) => required_fault(env@, name@) == Some(error@),
        },
{
    match env_var(env, name) {
        Some(value) => Ok(value),
        None => Err(ConfigError::Missing { name: name.to_owned() }),
    }
}

/// The value of the variable `name`, a blank one counting as none.
pub fn env_opt(env: &Environment, name: &str) -> (res: Option<String>)
    ensures
        opt_text(res) == opt(env@, name@),
{
    match env_var(env, name) {
        Some(value) => if blank(value.as_str()) {
            None
        } else {
            Some(value)
        },
        None => None,
    }
}

/// The value of the switch `name`.
pub fn env_bool(env: &Environment, name: &str, default: bool) -> (res: Result<bool, ConfigError>)
    ensures
        match res {
            Ok(value) => flag(env@, name@, default) == Some(value),
            Err(error) => flag_fault(env@, name@) == Some(error@),
        },
{
    match env_opt(env, name) {
        None => Ok(default),
        Some(word) => {
            let w = word.as_str();
            if same_text(w, "1") || same_text(w, "true") || same_text(w, "yes") || same_text(
                w,
                "on",
            ) {
                Ok(true)
            } else if same_text(w, "0") || same_text(w, "false") || same_text(w, "no")
                || same_text(w, "off") {
                Ok(false)
            } else {
                Err(ConfigError::NotBoolean { name: name.to_owned(), value: word })
            }
        },
    }
}

/// The value of the number `name`, which is at most `max`.
fn env_number(env: &Environment, name: &str, default: u64, max: u64) -> (res: Result<
    u64,
    ConfigError,
>)
    requires
        default <= max,
    ensures
        match res {
            Ok(value) => number(env@, name@, default as nat, max as nat) == Some(value as nat)
                && value <= max,
            Err(error) => number_fault(env@, name@, max as nat) == Some(error@),
        },
{
    match env_opt(env, name) {
        None => Ok(default),
        Some(digits) => match parse_decimal(digits.as_str(), max) {
            Ok(value) => Ok(value),
            Err(cause) => Err(ConfigError::NotInteger { name: name.to_owned(), cause }),
        },
    }
}

/// The value of the 16-bit number `name`.
pub fn env_u16(env: &Environment, name: &str, default: u16) -> (res: Result<u16, ConfigError>)
    ensures
        match res {
            Ok(value) => number(env@, name@, default as nat, u16::MAX as nat) == Some(
                value as nat,
            ),
            Err(error) => number_fault(env@, name@, u16::MAX as nat) == Some(error@),
        },
{
    match env_number(env, name, default as u64, u16::MAX as u64) {
        Ok(value) => Ok(value as u16),
        Err(error) => Err(error),
    }
}

/// The value of the 64-bit number `name`.
pub fn env_u64(env: &Environment, name: &str, default: u64) -> (res: Result<u64, ConfigError>)
    ensures
        match res {
            Ok(value) => number(env@, name@, default as nat, u64::MAX as nat) == Some(
                value as nat,
            ),
            Err(error) => number_fault(env@, name@, u64::MAX as nat) == Some(error@),
        },
{
    env_number(env, name, default, u64::MAX)
}

/// The value of the number `name`, which counts things in memory.
pub fn env_usize(env: &Environment, name: &str, default: usize) -> (res: Result<
    usize,
    ConfigError,
>)
    ensures
        match res {
            Ok(value) => number(env@, name@, default as nat, usize::MAX as nat) == Some(
                value as nat,
            ),
            Err(error) => number_fault(env@, name@, usize::MAX as nat) == Some(error@),
        },
{
    match env_number(env, name, default as u64, usize::MAX as u64) {
        Ok(value) => Ok(value as usize),
        Err(error) => Err(error),
    }
}

/// The archive entries that a comma-separated list names, without blank ones.
pub fn parse_entries(list: &str) -> (res: Vec<String>)
    ensures
        texts(res@) == entry_list(list@),
{
    let parts = split_on(list, ',');
    let mut res: Vec<String> = Vec::new();
    let mut i: usize = 0;
    let ghost named = pieces(list@, ',').map_values(|piece: Seq<char>| trimmed(piece));
    let ghost keep = |entry: Seq<char>| entry.len() > 0;
    assert(texts(res@) =~= named.take(0).filter(keep));
    while i < parts.len()
        invariant
            i <= parts.len(),
            texts(parts@) == pieces(list@, ','),
            named == pieces(list@, ',').map_values(|piece: Seq<char>| trimmed(piece)),
            keep == (|entry: Seq<char>| entry.len() > 0),
            texts(res@) == named.take(i as int).filter(keep),
        decreases parts.len() - i,
    {
        let entry = trim(parts[i].as_str());
        assert(texts(parts@)[i as int] == parts@[i as int]@);
        assert(named.take(i + 1).drop_last() =~= named.take(i as int));
        assert(named.take(i + 1).last() == entry@);
        reveal(Seq::filter);
        if !entry.as_str().is_empty() {
            let ghost kept = res@;
            res.push(entry);
            assert(texts(res@) =~= texts(kept).push(entry@));
        }
        i += 1;
    }
    assert(named.take(named.len() as int) =~= named);
    res
}

impl CpanelAuth {
    /// The credentials that the environment holds.
    pub fn from_env(env: &Environment) -> (res: Result<CpanelAuth, ConfigError>)
        ensures
            match res {
                Ok(credentials) => auth(env@) == Some(credentials@),
                Err(error) => auth_fault(env@) == Some(error@),
            },
    {
        match env_opt(env, "CPANEL_API_TOKEN") {
            Some(token) => {
                return Ok(CpanelAuth::ApiToken(token));
            },
            None => {},
        }
        match env_opt(env, "CPANEL_PASSWORD") {
            Some(password) => Ok(CpanelAuth::Password(password)),
            None => Err(ConfigError::NoCredentials),
        }
    }
}

impl RunMode {
    /// The mode that the environment asks for.
    pub fn from_env(env: &Environment) -> (res: Result<RunMode, ConfigError>)
        ensures
            match res {
                Ok(mode) => run_mode(env@) == Some(mode),
                Err(error) => run_mode_fault(env@) == Some(error@),
            },
    {
        match env_opt(env, "RUN_MODE") {
            None => Ok(RunMode::Once),
            Some(word) => if same_text(word.as_str(), "once") {
                Ok(RunMode::Once)
            } else if same_text(word.as_str(), "daemon") {
                Ok(RunMode::Daemon)
            } else {
                Err(ConfigError::RunMode { value: word })
            },
        }
    }
}

/// The first fault of a list is the one before which there is none.
proof fn lemma_first_fault(list: Seq<Option<ConfigFault>>, k: int)
    requires
        0 <= k <= list.len(),
        forall|j: int| 0 <= j < k ==> list[j] is None,
        k < list.len() ==> list[k] is Some,
    ensures
        first_fault(list) == if k < list.len() {
            list[k]
        } else {
            None
        },
    decreases list.len(),
{
    if k > 0 {
        assert forall|j: int| 0 <= j < k - 1 implies list.drop_first()[j] is None by {
            assert(list.drop_first()[j] == list[j + 1]);
        }
        lemma_first_fault(list.drop_first(), k - 1);
    }
}

impl Config {
    /// The settings that the environment describes, or its first fault.
    pub fn from_env(env: &Environment) -> (res: Result<Config, ConfigError>)
        ensures
            match res {
                Ok(config) => first_fault(faults(env@)) is None && config@ == settings(env@),
                Err(error) => first_fault(faults(env@)) == Some(error@),
            },
    {
        let ghost list = faults(env@);
        let run_mode = match RunMode::from_env(env) {
            Ok(value) => value,
            Err(error) => {
                proof {
                    lemma_first_fault(list, 0);
                }
                return Err(error);
            },
        };
        let base_url = match env_req(env, "CPANEL_BASE_URL") {
            Ok(value) => value,
            Err(error) => {
                proof {
                    lemma_first_fault(list, 1);
                }
                return Err(error);
            },
        };
        let username = match env_req(env, "CPANEL_USERNAME") {
            Ok(value) => value,
            Err(error) => {
                proof {
                    lemma_first_fault(list, 2);
                }
                return Err(error);
            },
        };
        let credentials = match CpanelAuth::from_env(env) {
            Ok(value) => value,
            Err(error) => {
                proof {
                    lemma_first_fault(list, 3);
                }
                return Err(error);
            },
        };
        let include_home = match env_bool(env, "CPANEL_INCLUDE_HOME", true) {
            Ok(value) => value,
            Err(error) => {
                proof {
                    lemma_first_fault(list, 4);
                }
                return Err(error);
            },
        };
        let ftp_host = match env_req(env, "CPANEL_FTP_HOST") {
            Ok(value) => value,
            Err(error) => {
                proof {
                    lemma_first_fault(list, 5);
                }
                return Err(error);
            },
        };
        let ftp_port = match env_u16(env, "CPANEL_FTP_PORT", DEFAULT_FTP_PORT) {
            Ok(value) => value,
            Err(error) => {
                proof {
                    lemma_first_fault(list, 6);
                }
                return Err(error);
            },
        };
        let ftp_username = match env_req(env, "CPANEL_FTP_USERNAME") {
            Ok(value) => value,
            Err(error) => {
                proof {
                    lemma_first_fault(list, 7);
                }
                return Err(error);
            },
        };
        let ftp_password = match env_req(env, "CPANEL_FTP_PASSWORD") {
            Ok(value) => value,
            Err(error) => {
                proof {
                    lemma_first_fault(list, 8);
                }
                return Err(error);
            },
        };
        let poll_interval = match env_u64(env, "POLL_INTERVAL_SECS", DEFAULT_POLL_INTERVAL) {
            Ok(value) => value,
            Err(error) => {
                proof {
                    lemma_first_fault(list, 9);
                }
                return Err(error);
            },
        };
        let backup_timeout = match env_u64(env, "BACKUP_TIMEOUT_SECS", DEFAULT_BACKUP_TIMEOUT) {
            Ok(value) => value,
            Err(error) => {
                proof {
                    lemma_first_fault(list, 10);
                }
                return Err(error);
            },
        };
        let delete_remote = match env_bool(env, "DELETE_REMOTE_AFTER_DOWNLOAD", true) {
            Ok(value) => value,
            Err(error) => {
                proof {
                    lemma_first_fault(list, 11);
                }
                return Err(error);
            },
        };
        let verify_archive = match env_bool(env, "VERIFY_ARCHIVE", true) {
            Ok(value) => value,
            Err(error) => {
                proof {
                    lemma_first_fault(list, 12);
                }
                return Err(error);
            },
        };
        let keep_last = match env_usize(env, "RETENTION_KEEP_LAST", DEFAULT_KEEP_LAST) {
            Ok(value) => value,
            Err(error) => {
                proof {
                    lemma_first_fault(list, 13);
                }
                return Err(error);
            },
        };
        let schedule_interval = match env_u64(env, "SCHEDULE_INTERVAL_SECS", DEFAULT_SCHEDULE_INTERVAL) {
            Ok(value) => value,
            Err(error) => {
                proof {
                    lemma_first_fault(list, 14);
                }
                return Err(error);
            },
        };
        proof {
            lemma_first_fault(list, 15);
        }
        let backup_dir = match env_opt(env, "BACKUP_DIR") {
            Some(dir) => dir,
            None => "/backups".to_owned(),
        };
        let entries = match env_opt(env, "EXPECTED_ARCHIVE_ENTRIES") {
            Some(list) => list,
            None => "homedir/public_html,mysql/".to_owned(),
        };
        Ok(
            Config {
                cpanel_base_url: trim_end_matches(base_url.as_str(), '/'),
                cpanel_username: username,
                cpanel_auth: credentials,
                cpanel_backup_email: env_opt(env, "CPANEL_BACKUP_EMAIL"),
                cpanel_include_home: include_home,
                ftp_host,
                ftp_port,
                ftp_username,
                ftp_password,
                ftp_backup_dir: env_opt(env, "CPANEL_FTP_BACKUP_DIR"),
                backup_dir,
                poll_interval,
                backup_timeout,
                delete_remote_after_download: delete_remote,
                verify_archive,
                expected_archive_entries: parse_entries(entries.as_str()),
                retention_keep_last: keep_last,
                run_mode,
                schedule_interval,
            },
        )
    }
}

/// The default list names two entries.
proof fn lemma_default_entries()
    ensures
        entry_list("homedir/public_html,mysql/"@) == seq!["homedir/public_html"@, "mysql/"@],
{
    reveal_strlit("homedir/public_html,mysql/");
    reveal_strlit("homedir/public_html");
    reveal_strlit("mysql/");
    let parts = seq!["homedir/public_html"@, "mysql/"@];
    reveal_with_fuel(joined, 2);
    assert(parts.drop_last() =~= seq!["homedir/public_html"@]);
    assert(joined(parts, seq![',']) =~= "homedir/public_html,mysql/"@);
    law_split_undoes_join(parts, ',');
    let named = parts.map_values(|piece: Seq<char>| trimmed(piece));
    assert(named =~= parts);
    let keep = |entry: Seq<char>| entry.len() > 0;
    reveal(Seq::filter);
    reveal_with_fuel(Seq::filter, 3);
    assert(parts.drop_last().drop_last().len() == 0);
    assert(parts.filter(keep) =~= parts);
}

/// A token takes precedence over a password: with a token set, the password
/// variable does not matter.
pub proof fn law_token_takes_precedence(env: Seq<(Seq<char>, Seq<char>)>, token: Seq<char>)
    requires
        opt(env, "CPANEL_API_TOKEN"@) == Some(token),
        first_fault(faults(env)) is None,
    ensures
        settings(env).cpanel_auth == AuthView::ApiToken(token),
{
}

/// An optional variable that is blank counts as one that is not set.
pub proof fn law_blank_is_unset(
    env: Seq<(Seq<char>, Seq<char>)>,
    name: Seq<char>,
    value: Seq<char>,
    default_flag: bool,
    default: nat,
    max: nat,
)
    requires
        var(env, name) == Some(value),
        is_blank(value),
    ensures
        opt(env, name) is None,
        flag(env, name, default_flag) == Some(default_flag),
        number(env, name, default, max) == Some(default),
{
}

/// A variable that has to be set, be it to a blank value.
pub open spec fn is_required(name: Seq<char>) -> bool {
    ||| name == "CPANEL_BASE_URL"@
    ||| name == "CPANEL_USERNAME"@
    ||| name == "CPANEL_FTP_HOST"@
    ||| name == "CPANEL_FTP_USERNAME"@
    ||| name == "CPANEL_FTP_PASSWORD"@
}

/// A switch that reads the same has the same value.
proof fn lemma_same_flag(a: Seq<(Seq<char>, Seq<char>)>, b: Seq<(Seq<char>, Seq<char>)>, name: Seq<char>)
    requires
        opt(a, name) == opt(b, name),
    ensures
        flag(a, name, true) == flag(b, name, true),
        flag_fault(a, name) == flag_fault(b, name),
{
}

/// A number that reads the same has the same value.
proof fn lemma_same_number(
    a: Seq<(Seq<char>, Seq<char>)>,
    b: Seq<(Seq<char>, Seq<char>)>,
    name: Seq<char>,
    default: nat,
    max: nat,
)
    requires
        opt(a, name) == opt(b, name),
    ensures
        number(a, name, default, max) == number(b, name, default, max),
        number_fault(a, name, max) == number_fault(b, name, max),
{
}

/// An optional variable reads the same where it is blank and where it is not set.
proof fn lemma_blank_or_unset(
    unset: Seq<(Seq<char>, Seq<char>)>,
    blank: Seq<(Seq<char>, Seq<char>)>,
    name: Seq<char>,
    value: Seq<char>,
    other: Seq<char>,
)
    requires
        var(unset, name) is None,
        var(blank, name) == Some(value),
        is_blank(value),
        other != name ==> var(unset, other) == var(blank, other),
    ensures
        opt(unset, other) == opt(blank, other),
{
}

/// It makes no difference whether an optional variable is blank or not set: two
/// environments that differ in nothing else have the same faults and describe
/// the same settings.
#[verifier::rlimit(40)]
pub proof fn law_blank_and_unset_agree(
    unset: Seq<(Seq<char>, Seq<char>)>,
    blank: Seq<(Seq<char>, Seq<char>)>,
    name: Seq<char>,
    value: Seq<char>,
)
    requires
        !is_required(name),
        var(unset, name) is None,
        var(blank, name) == Some(value),
        is_blank(value),
        forall|other: Seq<char>| other != name ==> #[trigger] var(unset, other) == var(blank, other),
    ensures
        faults(unset) == faults(blank),
        first_fault(faults(unset)) == first_fault(faults(blank)),
        settings(unset) == settings(blank),
{
    assert(var(unset, "CPANEL_BASE_URL"@) == var(blank, "CPANEL_BASE_URL"@));
    assert(required_fault(unset, "CPANEL_BASE_URL"@) == required_fault(blank, "CPANEL_BASE_URL"@));
    assert(var(unset, "CPANEL_USERNAME"@) == var(blank, "CPANEL_USERNAME"@));
    assert(required_fault(unset, "CPANEL_USERNAME"@) == required_fault(blank, "CPANEL_USERNAME"@));
    assert(var(unset, "CPANEL_FTP_HOST"@) == var(blank, "CPANEL_FTP_HOST"@));
    assert(required_fault(unset, "CPANEL_FTP_HOST"@) == required_fault(blank, "CPANEL_FTP_HOST"@));
    assert(var(unset, "CPANEL_FTP_USERNAME"@) == var(blank, "CPANEL_FTP_USERNAME"@));
    assert(required_fault(unset, "CPANEL_FTP_USERNAME"@) == required_fault(blank, "CPANEL_FTP_USERNAME"@));
    assert(var(unset, "CPANEL_FTP_PASSWORD"@) == var(blank, "CPANEL_FTP_PASSWORD"@));
    assert(required_fault(unset, "CPANEL_FTP_PASSWORD"@) == required_fault(blank, "CPANEL_FTP_PASSWORD"@));
    lemma_blank_or_unset(unset, blank, name, value, "RUN_MODE"@);
    lemma_blank_or_unset(unset, blank, name, value, "CPANEL_API_TOKEN"@);
    lemma_blank_or_unset(unset, blank, name, value, "CPANEL_PASSWORD"@);
    lemma_blank_or_unset(unset, blank, name, value, "CPANEL_BACKUP_EMAIL"@);
    lemma_blank_or_unset(unset, blank, name, value, "CPANEL_FTP_BACKUP_DIR"@);
    lemma_blank_or_unset(unset, blank, name, value, "BACKUP_DIR"@);
    lemma_blank_or_unset(unset, blank, name, value, "EXPECTED_ARCHIVE_ENTRIES"@);
    lemma_blank_or_unset(unset, blank, name, value, "CPANEL_INCLUDE_HOME"@);
    lemma_blank_or_unset(unset, blank, name, value, "DELETE_REMOTE_AFTER_DOWNLOAD"@);
    lemma_blank_or_unset(unset, blank, name, value, "VERIFY_ARCHIVE"@);
    lemma_blank_or_unset(unset, blank, name, value, "CPANEL_FTP_PORT"@);
    lemma_blank_or_unset(unset, blank, name, value, "POLL_INTERVAL_SECS"@);
    lemma_blank_or_unset(unset, blank, name, value, "BACKUP_TIMEOUT_SECS"@);
    lemma_blank_or_unset(unset, blank, name, value, "RETENTION_KEEP_LAST"@);
    lemma_blank_or_unset(unset, blank, name, value, "SCHEDULE_INTERVAL_SECS"@);
    lemma_same_flag(unset, blank, "CPANEL_INCLUDE_HOME"@);
    lemma_same_flag(unset, blank, "DELETE_REMOTE_AFTER_DOWNLOAD"@);
    lemma_same_flag(unset, blank, "VERIFY_ARCHIVE"@);
    lemma_same_number(unset, blank, "CPANEL_FTP_PORT"@, DEFAULT_FTP_PORT as nat, u16::MAX as nat);
    lemma_same_number(unset, blank, "POLL_INTERVAL_SECS"@, DEFAULT_POLL_INTERVAL as nat, u64::MAX as nat);
    lemma_same_number(unset, blank, "BACKUP_TIMEOUT_SECS"@, DEFAULT_BACKUP_TIMEOUT as nat, u64::MAX as nat);
    lemma_same_number(unset, blank, "RETENTION_KEEP_LAST"@, DEFAULT_KEEP_LAST as nat, usize::MAX as nat);
    lemma_same_number(unset, blank, "SCHEDULE_INTERVAL_SECS"@, DEFAULT_SCHEDULE_INTERVAL as nat, u64::MAX as nat);
    assert(run_mode(unset) == run_mode(blank));
    assert(run_mode_fault(unset) == run_mode_fault(blank));
    assert(auth(unset) == auth(blank));
    assert(auth_fault(unset) == auth_fault(blank));
}

/// With nothing but the required variables set, every other setting has its
/// documented default.
pub proof fn law_documented_defaults(env: Seq<(Seq<char>, Seq<char>)>)
    requires
        var(env, "CPANEL_BASE_URL"@) is Some,
        var(env, "CPANEL_USERNAME"@) is Some,
        opt(env, "CPANEL_PASSWORD"@) is Some,
        var(env, "CPANEL_FTP_HOST"@) is Some,
        var(env, "CPANEL_FTP_USERNAME"@) is Some,
        var(env, "CPANEL_FTP_PASSWORD"@) is Some,
        opt(env, "BACKUP_DIR"@) is None,
        opt(env, "CPANEL_API_TOKEN"@) is None,
        opt(env, "CPANEL_INCLUDE_HOME"@) is None,
        opt(env, "CPANEL_BACKUP_EMAIL"@) is None,
        opt(env, "CPANEL_FTP_PORT"@) is None,
        opt(env, "CPANEL_FTP_BACKUP_DIR"@) is None,
        opt(env, "DELETE_REMOTE_AFTER_DOWNLOAD"@) is None,
        opt(env, "VERIFY_ARCHIVE"@) is None,
        opt(env, "EXPECTED_ARCHIVE_ENTRIES"@) is None,
        opt(env, "RETENTION_KEEP_LAST"@) is None,
        opt(env, "POLL_INTERVAL_SECS"@) is None,
        opt(env, "BACKUP_TIMEOUT_SECS"@) is None,
        opt(env, "RUN_MODE"@) is None,
        opt(env, "SCHEDULE_INTERVAL_SECS"@) is None,
    ensures
        first_fault(faults(env)) is None,
        settings(env).backup_dir == "/backups"@,
        settings(env).cpanel_auth == AuthView::Password(opt(env, "CPANEL_PASSWORD"@).unwrap()),
        settings(env).cpanel_include_home,
        settings(env).cpanel_backup_email is None,
        settings(env).ftp_port == 21,
        settings(env).ftp_backup_dir is None,
        settings(env).delete_remote_after_download,
        settings(env).verify_archive,
        settings(env).expected_archive_entries == seq!["homedir/public_html"@, "mysql/"@],
        settings(env).retention_keep_last == 7,
        settings(env).poll_interval == 60,
        settings(env).backup_timeout == 7200,
        settings(env).run_mode == RunMode::Once,
        settings(env).schedule_interval == 86_400,
{
    lemma_first_fault(faults(env), 15);
    lemma_default_entries();
}

/// The value of a variable is that of its first occurrence, and there is none
/// where it does not occur.
pub proof fn law_first_occurrence_counts(env: Seq<(Seq<char>, Seq<char>)>, name: Seq<char>)
    ensures
        match var(env, name) {
            Some(value) => exists|i: int|
                {
                    &&& 0 <= i < env.len()
                    &&& #[trigger] env[i] == (name, value)
                    &&& forall|j: int| 0 <= j < i ==> (#[trigger] env[j]).0 != name
                },
            None => forall|i: int| 0 <= i < env.len() ==> (#[trigger] env[i]).0 != name,
        },
    decreases env.len(),
{
    if env.len() > 0 && env.first().0 != name {
        let rest = env.drop_first();
        law_first_occurrence_counts(rest, name);
        match var(rest, name) {
            Some(value) => {
                let i = choose|i: int|
                    {
                        &&& 0 <= i < rest.len()
                        &&& #[trigger] rest[i] == (name, value)
                        &&& forall|j: int| 0 <= j < i ==> (#[trigger] rest[j]).0 != name
                    };
                assert(env[i + 1] == (name, value));
                assert forall|j: int| 0 <= j < i + 1 implies (#[trigger] env[j]).0 != name by {
                    if j > 0 {
                        assert(env[j] == rest[j - 1]);
                    }
                }
            },
            None => {
                assert forall|i: int| 0 <= i < env.len() implies (#[trigger] env[i]).0 != name by {
                    if i > 0 {
                        assert(env[i] == rest[i - 1]);
                    }
                }
            },
        }
    } else if env.len() > 0 {
        assert(env[0] == (name, env.first().1));
    }
}

/// An optional variable counts with its whole value exactly if the value holds
/// anything but white space.
pub proof fn law_optional_value_is_taken_whole(env: Seq<(Seq<char>, Seq<char>)>, name: Seq<char>)
    ensures
        match opt(env, name) {
            Some(value) => var(env, name) == Some(value) && exists|i: int|
                0 <= i < value.len() && !is_white_space(#[trigger] value[i]),
            None => var(env, name) matches Some(value) ==> forall|i: int|
                0 <= i < value.len() ==> is_white_space(#[trigger] value[i]),
        },
{
}

/// Every text that is set is honoured as it is, whatever the other variables hold,
/// apart from the slashes at the end of the base address; one that is not set
/// leaves its default.
pub proof fn law_texts_are_honoured(env: Seq<(Seq<char>, Seq<char>)>, value: Seq<char>)
    ensures
        var(env, "CPANEL_BASE_URL"@) == Some(value) ==> exists|k: int|
            {
                &&& 0 <= k <= value.len()
                &&& settings(env).cpanel_base_url == #[trigger] value.take(k)
                &&& forall|i: int| k <= i < value.len() ==> #[trigger] value[i] == '/'
                &&& k > 0 ==> value[k - 1] != '/'
            },
        var(env, "CPANEL_USERNAME"@) == Some(value) ==> settings(env).cpanel_username == value,
        var(env, "CPANEL_FTP_HOST"@) == Some(value) ==> settings(env).ftp_host == value,
        var(env, "CPANEL_FTP_USERNAME"@) == Some(value) ==> settings(env).ftp_username == value,
        var(env, "CPANEL_FTP_PASSWORD"@) == Some(value) ==> settings(env).ftp_password == value,
        opt(env, "BACKUP_DIR"@) == Some(value) ==> settings(env).backup_dir == value,
        opt(env, "BACKUP_DIR"@) is None ==> settings(env).backup_dir == "/backups"@,
        opt(env, "CPANEL_BACKUP_EMAIL"@) == Some(value) ==> settings(env).cpanel_backup_email
            == Some(value),
        opt(env, "CPANEL_BACKUP_EMAIL"@) is None ==> settings(env).cpanel_backup_email is None,
        opt(env, "CPANEL_FTP_BACKUP_DIR"@) == Some(value) ==> settings(env).ftp_backup_dir == Some(
            value,
        ),
        opt(env, "CPANEL_FTP_BACKUP_DIR"@) is None ==> settings(env).ftp_backup_dir is None,
        opt(env, "EXPECTED_ARCHIVE_ENTRIES"@) == Some(value) ==> settings(
            env,
        ).expected_archive_entries == entry_list(value),
        opt(env, "EXPECTED_ARCHIVE_ENTRIES"@) is None ==> settings(env).expected_archive_entries
            == seq!["homedir/public_html"@, "mysql/"@],
{
    if var(env, "CPANEL_BASE_URL"@) == Some(value) {
        law_trailing_run_is_cut(value, '/');
    }
    lemma_default_entries();
}

/// The credentials are the token where it is set, and else the password, each as
/// it is, whatever the other variables hold.
pub proof fn law_credentials_are_honoured(env: Seq<(Seq<char>, Seq<char>)>, value: Seq<char>)
    ensures
        opt(env, "CPANEL_API_TOKEN"@) == Some(value) ==> settings(env).cpanel_auth
            == AuthView::ApiToken(value),
        opt(env, "CPANEL_API_TOKEN"@) is None && opt(env, "CPANEL_PASSWORD"@) == Some(value)
            ==> settings(env).cpanel_auth == AuthView::Password(value),
{
}

/// The mode is that of a daemon exactly if the variable says so.
pub proof fn law_run_mode_is_honoured(env: Seq<(Seq<char>, Seq<char>)>)
    ensures
        opt(env, "RUN_MODE"@) == Some("daemon"@) ==> settings(env).run_mode == RunMode::Daemon,
        opt(env, "RUN_MODE"@) == Some("once"@) ==> settings(env).run_mode == RunMode::Once,
        opt(env, "RUN_MODE"@) is None ==> settings(env).run_mode == RunMode::Once,
{
    reveal_strlit("once");
    reveal_strlit("daemon");
    assert("once"@.len() != "daemon"@.len());
}

/// Four words switch something on, four others switch it off, and no other word
/// does either.
pub proof fn law_switch_words(word: Seq<char>)
    ensures
        flag_word(word) == Some(true) <==> word == "1"@ || word == "true"@ || word == "yes"@ || word
            == "on"@,
        flag_word(word) == Some(false) <==> word == "0"@ || word == "false"@ || word == "no"@
            || word == "off"@,
{
    reveal_strlit("1");
    reveal_strlit("true");
    reveal_strlit("yes");
    reveal_strlit("on");
    reveal_strlit("0");
    reveal_strlit("false");
    reveal_strlit("no");
    reveal_strlit("off");
    if word == "0"@ || word == "false"@ || word == "no"@ || word == "off"@ {
        assert(word[0] == '0' || word[0] == 'f' || word[0] == 'n' || (word[0] == 'o' && word[1]
            == 'f'));
        assert("1"@[0] == '1' && "true"@[0] == 't' && "yes"@[0] == 'y' && "on"@[1] == 'n');
    }
}

/// A switch has the position that its word names, and is on where it is not set,
/// whatever the other variables hold.
pub proof fn law_switches_are_honoured(
    env: Seq<(Seq<char>, Seq<char>)>,
    word: Seq<char>,
    on: bool,
)
    requires
        on ==> word == "1"@ || word == "true"@ || word == "yes"@ || word == "on"@,
        !on ==> word == "0"@ || word == "false"@ || word == "no"@ || word == "off"@,
    ensures
        opt(env, "CPANEL_INCLUDE_HOME"@) == Some(word) ==> settings(env).cpanel_include_home == on,
        opt(env, "CPANEL_INCLUDE_HOME"@) is None ==> settings(env).cpanel_include_home,
        opt(env, "DELETE_REMOTE_AFTER_DOWNLOAD"@) == Some(word) ==> settings(env).delete_remote_after_download == on,
        opt(env, "DELETE_REMOTE_AFTER_DOWNLOAD"@) is None ==> settings(env).delete_remote_after_download,
        opt(env, "VERIFY_ARCHIVE"@) == Some(word) ==> settings(env).verify_archive == on,
        opt(env, "VERIFY_ARCHIVE"@) is None ==> settings(env).verify_archive,
{
    law_switch_words(word);
}

/// A number that is set is honoured as it is, up to the largest that its setting
/// can have; one that is not set leaves its default.
pub proof fn law_numbers_are_honoured(env: Seq<(Seq<char>, Seq<char>)>, digits: Seq<char>, n: nat)
    requires
        decimal_value(digits) == Some(n),
    ensures
        opt(env, "CPANEL_FTP_PORT"@) is None ==> settings(env).ftp_port == 21,
        opt(env, "CPANEL_FTP_PORT"@) == Some(digits) && n <= 0xffff ==> settings(env).ftp_port == n,
        opt(env, "POLL_INTERVAL_SECS"@) is None ==> settings(env).poll_interval == 60,
        opt(env, "POLL_INTERVAL_SECS"@) == Some(digits) && n <= 0xffff_ffff_ffff_ffff ==> settings(env).poll_interval == n,
        opt(env, "BACKUP_TIMEOUT_SECS"@) is None ==> settings(env).backup_timeout == 7200,
        opt(env, "BACKUP_TIMEOUT_SECS"@) == Some(digits) && n <= 0xffff_ffff_ffff_ffff ==> settings(env).backup_timeout == n,
        opt(env, "RETENTION_KEEP_LAST"@) is None ==> settings(env).retention_keep_last == 7,
        opt(env, "RETENTION_KEEP_LAST"@) == Some(digits) && n <= usize::MAX ==> settings(env).retention_keep_last == n,
        opt(env, "SCHEDULE_INTERVAL_SECS"@) is None ==> settings(env).schedule_interval == 86_400,
        opt(env, "SCHEDULE_INTERVAL_SECS"@) == Some(digits) && n <= 0xffff_ffff_ffff_ffff ==> settings(env).schedule_interval == n,
{
}

/// The list of entries goes by its commas: each piece counts for itself, without
/// the white space around it, and not at all where nothing is left.
pub proof fn law_entries_are_listed_by_commas(list: Seq<char>, more: Seq<char>, piece: Seq<char>)
    requires
        !piece.contains(','),
    ensures
        entry_list(list + seq![','] + more) == entry_list(list) + entry_list(more),
        entry_list(piece) == if is_blank(piece) {
            Seq::<Seq<char>>::empty()
        } else {
            seq![trimmed(piece)]
        },
{
    reveal(Seq::filter);
    let trim = |piece: Seq<char>| trimmed(piece);
    let keep = |entry: Seq<char>| entry.len() > 0;
    law_pieces_around_a_separator(list, more, piece, ',');
    assert(list + seq![','] + more =~= list.push(',') + more);
    let a = pieces(list, ',').map_values(trim);
    let b = pieces(more, ',').map_values(trim);
    assert((pieces(list, ',') + pieces(more, ',')).map_values(trim) =~= a + b);
    lemma_filter_of_sum(a, b);
    let one = seq![piece].map_values(trim);
    assert(one =~= seq![trimmed(piece)]);
    law_trimming_cuts_white_space(piece);
    assert(one.drop_last().len() == 0);
    assert(one.drop_last().filter(keep) =~= Seq::<Seq<char>>::empty());
    assert(entry_list(piece) =~= if is_blank(piece) {
        Seq::<Seq<char>>::empty()
    } else {
        seq![trimmed(piece)]
    });
}

/// What is kept of two lists is kept of each.
proof fn lemma_filter_of_sum(a: Seq<Seq<char>>, b: Seq<Seq<char>>)
    ensures
        (a + b).filter(|entry: Seq<char>| entry.len() > 0) == a.filter(
            |entry: Seq<char>| entry.len() > 0,
        ) + b.filter(|entry: Seq<char>| entry.len() > 0),
    decreases b.len(),
{
    reveal(Seq::filter);
    let keep = |entry: Seq<char>| entry.len() > 0;
    if b.len() == 0 {
        assert(a + b =~= a);
        assert(a.filter(keep) + b.filter(keep) =~= a.filter(keep));
    } else {
        lemma_filter_of_sum(a, b.drop_last());
        assert((a + b).drop_last() =~= a + b.drop_last());
        assert((a + b).last() == b.last());
        assert((a + b).filter(keep) =~= a.filter(keep) + b.filter(keep));
    }
}

/// What can be wrong with the variables, in the order in which they are read.
spec fn at_fault(env: Seq<(Seq<char>, Seq<char>)>) -> Seq<bool> {
    seq![
        opt(env, "RUN_MODE"@) matches Some(word) && word != "once"@ && word != "daemon"@,
        var(env, "CPANEL_BASE_URL"@) is None,
        var(env, "CPANEL_USERNAME"@) is None,
        opt(env, "CPANEL_API_TOKEN"@) is None && opt(env, "CPANEL_PASSWORD"@) is None,
        (opt(env, "CPANEL_INCLUDE_HOME"@) matches Some(word) && flag_word(word) is None),
        var(env, "CPANEL_FTP_HOST"@) is None,
        (opt(env, "CPANEL_FTP_PORT"@) matches Some(digits)
            && !(decimal_value(digits) matches Some(n) && n <= 0xffff)),
        var(env, "CPANEL_FTP_USERNAME"@) is None,
        var(env, "CPANEL_FTP_PASSWORD"@) is None,
        (opt(env, "POLL_INTERVAL_SECS"@) matches Some(digits)
            && !(decimal_value(digits) matches Some(n) && n <= 0xffff_ffff_ffff_ffff)),
        (opt(env, "BACKUP_TIMEOUT_SECS"@) matches Some(digits)
            && !(decimal_value(digits) matches Some(n) && n <= 0xffff_ffff_ffff_ffff)),
        (opt(env, "DELETE_REMOTE_AFTER_DOWNLOAD"@) matches Some(word) && flag_word(word) is None),
        (opt(env, "VERIFY_ARCHIVE"@) matches Some(word) && flag_word(word) is None),
        (opt(env, "RETENTION_KEEP_LAST"@) matches Some(digits)
            && !(decimal_value(digits) matches Some(n) && n <= usize::MAX as nat)),
        (opt(env, "SCHEDULE_INTERVAL_SECS"@) matches Some(digits)
            && !(decimal_value(digits) matches Some(n) && n <= 0xffff_ffff_ffff_ffff)),
    ]
}

/// The faults of a list end with the first one.
proof fn lemma_first_of(list: Seq<Option<ConfigFault>>) -> (k: int)
    ensures
        0 <= k <= list.len(),
        forall|j: int| 0 <= j < k ==> (#[trigger] list[j]) is None,
        k < list.len() ==> first_fault(list) == list[k] && list[k] is Some,
        k == list.len() ==> first_fault(list) is None,
    decreases list.len(),
{
    if list.len() == 0 || list.first() is Some {
        0
    } else {
        let rest = list.drop_first();
        let k = lemma_first_of(rest);
        assert forall|j: int| 0 <= j < k + 1 implies (#[trigger] list[j]) is None by {
            if j > 0 {
                assert(list[j] == rest[j - 1]);
            }
        }
        if k < rest.len() {
            assert(rest[k] == list[k + 1]);
        }
        k + 1
    }
}

/// A switch is at fault exactly if its word switches nothing.
proof fn lemma_flag_fault(env: Seq<(Seq<char>, Seq<char>)>, name: Seq<char>)
    ensures
        flag_fault(env, name) is Some <==> (opt(env, name) matches Some(word) && flag_word(word) is None),
        flag_fault(env, name) matches Some(fault) ==> fault matches ConfigFault::NotBoolean {
            name: told,
            value,
        } && told == name && opt(env, name) == Some(value),
{
}

/// A number is at fault exactly if it is none or too large.
proof fn lemma_number_fault(env: Seq<(Seq<char>, Seq<char>)>, name: Seq<char>, max: nat)
    ensures
        number_fault(env, name, max) is Some <==> (opt(env, name) matches Some(digits) && !(decimal_value(digits) matches Some(n) && n <= max)),
        number_fault(env, name, max) matches Some(fault) ==> fault matches ConfigFault::NotInteger {
            name: told,
            cause,
        } && told == name && (opt(env, name) matches Some(digits) && cause == decimal_fault(
            digits,
            max,
        )),
{
}

/// Every variable that is at fault has its fault, and no other has one.
#[verifier::rlimit(40)]
proof fn lemma_faults(env: Seq<(Seq<char>, Seq<char>)>)
    ensures
        faults(env).len() == 15,
        at_fault(env).len() == 15,
        forall|k: int| 0 <= k < 15 ==> (#[trigger] faults(env)[k] is Some <==> at_fault(env)[k]),
{
    lemma_flag_fault(env, "CPANEL_INCLUDE_HOME"@);
    lemma_number_fault(env, "CPANEL_FTP_PORT"@, 0xffff);
    lemma_number_fault(env, "POLL_INTERVAL_SECS"@, 0xffff_ffff_ffff_ffff);
    lemma_number_fault(env, "BACKUP_TIMEOUT_SECS"@, 0xffff_ffff_ffff_ffff);
    lemma_flag_fault(env, "DELETE_REMOTE_AFTER_DOWNLOAD"@);
    lemma_flag_fault(env, "VERIFY_ARCHIVE"@);
    lemma_number_fault(env, "RETENTION_KEEP_LAST"@, usize::MAX as nat);
    lemma_number_fault(env, "SCHEDULE_INTERVAL_SECS"@, 0xffff_ffff_ffff_ffff);
    assert(faults(env)[0] is Some <==> at_fault(env)[0]);
    assert(faults(env)[1] is Some <==> at_fault(env)[1]);
    assert(faults(env)[2] is Some <==> at_fault(env)[2]);
    assert(faults(env)[3] is Some <==> at_fault(env)[3]);
    assert(faults(env)[4] is Some <==> at_fault(env)[4]);
    assert(faults(env)[5] is Some <==> at_fault(env)[5]);
    assert(faults(env)[6] is Some <==> at_fault(env)[6]);
    assert(faults(env)[7] is Some <==> at_fault(env)[7]);
    assert(faults(env)[8] is Some <==> at_fault(env)[8]);
    assert(faults(env)[9] is Some <==> at_fault(env)[9]);
    assert(faults(env)[10] is Some <==> at_fault(env)[10]);
    assert(faults(env)[11] is Some <==> at_fault(env)[11]);
    assert(faults(env)[12] is Some <==> at_fault(env)[12]);
    assert(faults(env)[13] is Some <==> at_fault(env)[13]);
    assert(faults(env)[14] is Some <==> at_fault(env)[14]);
}

/// An environment is refused exactly if something is wrong with a variable, and
/// with what is wrong first in the order in which the variables are read; whatever
/// is wrong later is not told.
#[verifier::rlimit(40)]
pub proof fn law_first_wrong_variable_is_told(
    env: Seq<(Seq<char>, Seq<char>)>,
    wrong: Seq<bool>,
)
    requires
        wrong == seq![
            opt(env, "RUN_MODE"@) matches Some(word) && word != "once"@ && word != "daemon"@,
            var(env, "CPANEL_BASE_URL"@) is None,
            var(env, "CPANEL_USERNAME"@) is None,
            opt(env, "CPANEL_API_TOKEN"@) is None && opt(env, "CPANEL_PASSWORD"@) is None,
            (opt(env, "CPANEL_INCLUDE_HOME"@) matches Some(word) && flag_word(word) is None),
            var(env, "CPANEL_FTP_HOST"@) is None,
            (opt(env, "CPANEL_FTP_PORT"@) matches Some(digits)
                && !(decimal_value(digits) matches Some(n) && n <= 0xffff)),
            var(env, "CPANEL_FTP_USERNAME"@) is None,
            var(env, "CPANEL_FTP_PASSWORD"@) is None,
            (opt(env, "POLL_INTERVAL_SECS"@) matches Some(digits)
                && !(decimal_value(digits) matches Some(n) && n <= 0xffff_ffff_ffff_ffff)),
            (opt(env, "BACKUP_TIMEOUT_SECS"@) matches Some(digits)
                && !(decimal_value(digits) matches Some(n) && n <= 0xffff_ffff_ffff_ffff)),
            (opt(env, "DELETE_REMOTE_AFTER_DOWNLOAD"@) matches Some(word)
                && flag_word(word) is None),
            (opt(env, "VERIFY_ARCHIVE"@) matches Some(word) && flag_word(word) is None),
            (opt(env, "RETENTION_KEEP_LAST"@) matches Some(digits)
                && !(decimal_value(digits) matches Some(n) && n <= usize::MAX as nat)),
            (opt(env, "SCHEDULE_INTERVAL_SECS"@) matches Some(digits)
                && !(decimal_value(digits) matches Some(n) && n <= 0xffff_ffff_ffff_ffff)),
        ],
    ensures
        first_fault(faults(env)) is None <==> forall|k: int|
            0 <= k < wrong.len() ==> !#[trigger] wrong[k],
        first_fault(faults(env)) matches Some(fault) ==> exists|k: int|
            {
                &&& 0 <= k < wrong.len()
                &&& #[trigger] wrong[k]
                &&& forall|j: int| 0 <= j < k ==> !#[trigger] wrong[j]
                &&& k == 0 ==> (fault matches ConfigFault::RunMode { value }
                    && opt(env, "RUN_MODE"@) == Some(value))
                &&& k == 1 ==> (fault == (ConfigFault::Missing { name: "CPANEL_BASE_URL"@ }))
                &&& k == 2 ==> (fault == (ConfigFault::Missing { name: "CPANEL_USERNAME"@ }))
                &&& k == 3 ==> (fault == ConfigFault::NoCredentials)
                &&& k == 4 ==> (fault matches ConfigFault::NotBoolean { name, value }
                    && name == "CPANEL_INCLUDE_HOME"@
                    && opt(env, "CPANEL_INCLUDE_HOME"@) == Some(value))
                &&& k == 5 ==> (fault == (ConfigFault::Missing { name: "CPANEL_FTP_HOST"@ }))
                &&& k == 6 ==> (fault matches ConfigFault::NotInteger { name, cause }
                    && name == "CPANEL_FTP_PORT"@
                    && (opt(env, "CPANEL_FTP_PORT"@) matches Some(digits)
                    && cause == decimal_fault(digits, 0xffff)))
                &&& k == 7 ==> (fault == (ConfigFault::Missing { name: "CPANEL_FTP_USERNAME"@ }))
                &&& k == 8 ==> (fault == (ConfigFault::Missing { name: "CPANEL_FTP_PASSWORD"@ }))
                &&& k == 9 ==> (fault matches ConfigFault::NotInteger { name, cause }
                    && name == "POLL_INTERVAL_SECS"@
                    && (opt(env, "POLL_INTERVAL_SECS"@) matches Some(digits)
                    && cause == decimal_fault(digits, 0xffff_ffff_ffff_ffff)))
                &&& k == 10 ==> (fault matches ConfigFault::NotInteger { name, cause }
                    && name == "BACKUP_TIMEOUT_SECS"@
                    && (opt(env, "BACKUP_TIMEOUT_SECS"@) matches Some(digits)
                    && cause == decimal_fault(digits, 0xffff_ffff_ffff_ffff)))
                &&& k == 11 ==> (fault matches ConfigFault::NotBoolean { name, value }
                    && name == "DELETE_REMOTE_AFTER_DOWNLOAD"@
                    && opt(env, "DELETE_REMOTE_AFTER_DOWNLOAD"@) == Some(value))
                &&& k == 12 ==> (fault matches ConfigFault::NotBoolean { name, value }
                    && name == "VERIFY_ARCHIVE"@ && opt(env, "VERIFY_ARCHIVE"@) == Some(value))
                &&& k == 13 ==> (fault matches ConfigFault::NotInteger { name, cause }
                    && name == "RETENTION_KEEP_LAST"@
                    && (opt(env, "RETENTION_KEEP_LAST"@) matches Some(digits)
                    && cause == decimal_fault(digits, usize::MAX as nat)))
                &&& k == 14 ==> (fault matches ConfigFault::NotInteger { name, cause }
                    && name == "SCHEDULE_INTERVAL_SECS"@
                    && (opt(env, "SCHEDULE_INTERVAL_SECS"@) matches Some(digits)
                    && cause == decimal_fault(digits, 0xffff_ffff_ffff_ffff)))
            },
{
    lemma_faults(env);
    let k = lemma_first_of(faults(env));
    assert(wrong == at_fault(env));
    assert forall|j: int| 0 <= j < k implies !#[trigger] wrong[j] by {
        assert(faults(env)[j] is None);
    }
    lemma_flag_fault(env, "CPANEL_INCLUDE_HOME"@);
    lemma_number_fault(env, "CPANEL_FTP_PORT"@, 0xffff);
    lemma_number_fault(env, "POLL_INTERVAL_SECS"@, 0xffff_ffff_ffff_ffff);
    lemma_number_fault(env, "BACKUP_TIMEOUT_SECS"@, 0xffff_ffff_ffff_ffff);
    lemma_flag_fault(env, "DELETE_REMOTE_AFTER_DOWNLOAD"@);
    lemma_flag_fault(env, "VERIFY_ARCHIVE"@);
    lemma_number_fault(env, "RETENTION_KEEP_LAST"@, usize::MAX as nat);
    lemma_number_fault(env, "SCHEDULE_INTERVAL_SECS"@, 0xffff_ffff_ffff_ffff);
    if k < 15 {
        assert(faults(env)[k] is Some);
        assert(wrong[k]);
    }
}

/// The message of a fault names the variable, and the value where it tells more.
pub proof fn law_config_messages(name: Seq<char>, value: Seq<char>, cause: NumberFault)
    ensures
        (ConfigFault::RunMode { value }).message_text() == "RUN_MODE must be once or daemon, got "@
            + value,
        (ConfigFault::Missing { name }).message_text() == "missing required env var "@ + name,
        ConfigFault::NoCredentials.message_text()
            == "set either CPANEL_API_TOKEN or CPANEL_PASSWORD"@,
        (ConfigFault::NotBoolean { name, value }).message_text() == name
            + " must be boolean, got "@ + value,
        (ConfigFault::NotInteger { name, cause }).message_text() == name + " must be an integer"@,
{
}

/// The settings stand for what they hold, and so does an environment.
pub proof fn law_settings_stand_for_themselves(config: Config, env: Environment, i: int)
    ensures
        config@.cpanel_base_url == config.cpanel_base_url@,
        config@.cpanel_username == config.cpanel_username@,
        match config.cpanel_auth {
            CpanelAuth::ApiToken(token) => config@.cpanel_auth == AuthView::ApiToken(token@),
            CpanelAuth::Password(password) => config@.cpanel_auth == AuthView::Password(password@),
        },
        match config.cpanel_backup_email {
            Some(email) => config@.cpanel_backup_email == Some(email@),
            None => config@.cpanel_backup_email is None,
        },
        config@.cpanel_include_home == config.cpanel_include_home,
        config@.ftp_host == config.ftp_host@,
        config@.ftp_port == config.ftp_port,
        config@.ftp_username == config.ftp_username@,
        config@.ftp_password == config.ftp_password@,
        match config.ftp_backup_dir {
            Some(dir) => config@.ftp_backup_dir == Some(dir@),
            None => config@.ftp_backup_dir is None,
        },
        config@.backup_dir == config.backup_dir@,
        config@.poll_interval == config.poll_interval,
        config@.backup_timeout == config.backup_timeout,
        config@.delete_remote_after_download == config.delete_remote_after_download,
        config@.verify_archive == config.verify_archive,
        config@.expected_archive_entries == texts(config.expected_archive_entries@),
        config@.retention_keep_last == config.retention_keep_last,
        config@.run_mode == config.run_mode,
        config@.schedule_interval == config.schedule_interval,
        env@.len() == env.vars@.len(),
        0 <= i < env.vars@.len() ==> env@[i] == (env.vars@[i].0@, env.vars@[i].1@),
{
}

/// A switch of any name reads its word, or its default where it is not set, and
/// is at fault exactly if the word is none that it accepts.
pub proof fn law_switch_reads_its_word(
    env: Seq<(Seq<char>, Seq<char>)>,
    name: Seq<char>,
    default: bool,
)
    ensures
        match opt(env, name) {
            None => flag(env, name, default) == Some(default) && flag_fault(env, name) is None,
            Some(word) => match flag_word(word) {
                Some(on) => flag(env, name, default) == Some(on) && flag_fault(env, name) is None,
                None => flag(env, name, default) is None && flag_fault(env, name) == Some(
                    ConfigFault::NotBoolean { name, value: word },
                ),
            },
        },
{
}

/// A number of any name reads its digits, or its default where it is not set, and
/// is at fault exactly if they are none or denote too much; a required variable is
/// at fault exactly if it is missing.
pub proof fn law_number_reads_its_digits(
    env: Seq<(Seq<char>, Seq<char>)>,
    name: Seq<char>,
    default: nat,
    max: nat,
)
    ensures
        match opt(env, name) {
            None => number(env, name, default, max) == Some(default) && number_fault(
                env,
                name,
                max,
            ) is None,
            Some(digits) => match decimal_value(digits) {
                Some(n) if n <= max => number(env, name, default, max) == Some(n) && number_fault(
                    env,
                    name,
                    max,
                ) is None,
                _ => number(env, name, default, max) is None && number_fault(env, name, max)
                    == Some(ConfigFault::NotInteger { name, cause: decimal_fault(digits, max) }),
            },
        },
        var(env, name) is Some ==> required_fault(env, name) is None,
        var(env, name) is None ==> required_fault(env, name) == Some(ConfigFault::Missing { name }),
{
}

/// A fault stands for what it tells.
pub proof fn law_faults_stand_for_themselves(error: ConfigError)
    ensures
        match error {
            ConfigError::RunMode { value } => error@ == (ConfigFault::RunMode { value: value@ }),
            ConfigError::Missing { name } => error@ == (ConfigFault::Missing { name: name@ }),
            ConfigError::NoCredentials => error@ == ConfigFault::NoCredentials,
            ConfigError::NotBoolean { name, value } => error@ == (ConfigFault::NotBoolean {
                name: name@,
                value: value@,
            }),
            ConfigError::NotInteger { name, cause } => error@ == (ConfigFault::NotInteger {
                name: name@,
                cause,
            }),
        },
{
}

} // verus!
