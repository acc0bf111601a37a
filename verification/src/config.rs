//! Where the database lives: command line, environment, configuration file or default.

use vstd::prelude::*;

use crate::errors::{ErrorCode, ErrorV, ReviewKBError};
use crate::json::{Json, JsonV};
use crate::json_util::quote;
use crate::path_util::{expanduser, path_join};
use crate::text::{blank, same, trim};

verus! {

/// A database path and the place that named it.
#[derive(Debug, PartialEq, Eq)]
pub struct DatabaseLocation {
    pub path: String,
    pub source: String,
}

impl Clone for DatabaseLocation {
    fn clone(&self) -> (r: DatabaseLocation)
        ensures
            r@ == self@,
    {
        DatabaseLocation { path: self.path.clone(), source: self.source.clone() }
    }
}

/// What a [`DatabaseLocation`] stands for.
pub struct LocationV {
    pub path: Seq<char>,
    pub source: Seq<char>,
}

impl View for DatabaseLocation {
    type V = LocationV;

    open spec fn view(&self) -> LocationV {
        LocationV { path: self.path@, source: self.source@ }
    }
}

/// Environment variables, each with its value.
pub type Env = [(String, String)];

/// Environment variables as texts.
pub type EnvV = Seq<(Seq<char>, Seq<char>)>;

/// The view of an environment.
pub open spec fn env_view(env: Seq<(String, String)>) -> EnvV {
    env.map_values(|p: (String, String)| (p.0@, p.1@))
}

/// The value of the first variable named `key`.
pub open spec fn env_value(env: EnvV, key: Seq<char>) -> Option<Seq<char>>
    decreases env.len(),
{
    if env.len() == 0 {
        None
    } else if env[0].0 == key {
        Some(env[0].1)
    } else {
        env_value(env.drop_first(), key)
    }
}

/// The value of `key`, where it is not empty.
pub open spec fn env_value_nonempty(env: EnvV, key: Seq<char>) -> Option<Seq<char>> {
    match env_value(env, key) {
        Some(v) => if v.len() > 0 {
            Some(v)
        } else {
            None
        },
        None => None,
    }
}

/// The home directory, the root where none is set.
pub open spec fn home_directory(env: EnvV) -> Seq<char> {
    match env_value(env, "HOME"@) {
        Some(h) => h,
        None => "/"@,
    }
}

/// The configuration file that `env` names, with a leading `~` standing for `home`.
pub open spec fn config_file(env: EnvV, home: Option<Seq<char>>) -> Seq<char> {
    match env_value_nonempty(env, "REVIEW_KB_CONFIG"@) {
        Some(p) => crate::path_util::expanded(p, home),
        None => {
            let root = match env_value(env, "XDG_CONFIG_HOME"@) {
                Some(p) => p,
                None => crate::path_util::path_joined(home_directory(env), ".config"@),
            };
            crate::path_util::path_joined(
                crate::path_util::path_joined(root, "review-kb"@),
                "config.toml"@,
            )
        },
    }
}

/// The database that is used where nothing names one.
pub open spec fn default_database(env: EnvV) -> Seq<char> {
    let root = match env_value(env, "XDG_DATA_HOME"@) {
        Some(p) => p,
        None => crate::path_util::path_joined(
            crate::path_util::path_joined(home_directory(env), ".local"@),
            "share"@,
        ),
    };
    crate::path_util::path_joined(
        crate::path_util::path_joined(root, "review-kb"@),
        "knowledge.db"@,
    )
}

/// The value of the first variable named `key`.
pub fn env_get(env: &Env, key: &str) -> (r: Option<String>)
    ensures
        r is Some == env_value(env_view(env@), key@) is Some,
        r matches Some(v) ==> env_value(env_view(env@), key@) == Some(v@),
{
    let ghost all = env_view(env@);
    let mut i: usize = 0;
    assert(all.skip(0) =~= all);
    while i < env.len()
        invariant
            i <= env@.len(),
            all == env_view(env@),
            env_value(all, key@) == env_value(all.skip(i as int), key@),
        decreases env@.len() - i,
    {
        proof {
            assert(all.skip(i as int)[0] == all[i as int]);
            assert(all.skip(i as int).drop_first() =~= all.skip(i + 1));
        }
        if same(env[i].0.as_str(), key) {
            return Some(env[i].1.clone());
        }
        i += 1;
    }
    None
}

/// The value of `key`; an empty one counts as absent.
fn env_get_nonempty(env: &Env, key: &str) -> (r: Option<String>)
    ensures
        r is Some == env_value_nonempty(env_view(env@), key@) is Some,
        r matches Some(v) ==> env_value_nonempty(env_view(env@), key@) == Some(v@),
{
    match env_get(env, key) {
        Some(v) => {
            proof {
                reveal_strlit("");
                assert(v@.len() == 0 ==> v@ =~= ""@);
            }
            if same(v.as_str(), "") {
                None
            } else {
                Some(v)
            }
        },
        None => None,
    }
}

fn home(env: &Env) -> (r: String)
    ensures
        r@ == home_directory(env_view(env@)),
{
    match env_get(env, "HOME") {
        Some(h) => h,
        None => "/".to_string(),
    }
}

/// The configuration file that `env` names; a leading `~` stands for `home_path`, whatever
/// `env` holds.
pub fn default_config_path(env: &Env, home_path: Option<&str>) -> (r: String)
    ensures
        r@ == config_file(env_view(env@), crate::path_util::optional(home_path)),
{
    match env_get_nonempty(env, "REVIEW_KB_CONFIG") {
        Some(p) => expanduser(p.as_str(), home_path),
        None => {
            let root = match env_get(env, "XDG_CONFIG_HOME") {
                Some(p) => p,
                None => path_join(home(env).as_str(), ".config"),
            };
            path_join(path_join(root.as_str(), "review-kb").as_str(), "config.toml")
        },
    }
}

/// The database that is used where nothing names one.
pub fn default_database_path(env: &Env) -> (r: String)
    ensures
        r@ == default_database(env_view(env@)),
{
    let root = match env_get(env, "XDG_DATA_HOME") {
        Some(p) => p,
        None => path_join(path_join(home(env).as_str(), ".local").as_str(), "share"),
    };
    path_join(path_join(root.as_str(), "review-kb").as_str(), "knowledge.db")
}

/// What reading the configuration file brought.
#[derive(Debug)]
pub enum ConfigFile {
    /// There is no such file.
    Missing,
    /// Reading failed, with this diagnostic.
    Unreadable(String),
    /// The text of the file.
    Text(String),
}

/// What a [`ConfigFile`] stands for.
pub enum ConfigFileV {
    Missing,
    Unreadable(Seq<char>),
    Text(Seq<char>),
}

impl View for ConfigFile {
    type V = ConfigFileV;

    open spec fn view(&self) -> ConfigFileV {
        match *self {
            ConfigFile::Missing => ConfigFileV::Missing,
            ConfigFile::Unreadable(e) => ConfigFileV::Unreadable(e@),
            ConfigFile::Text(t) => ConfigFileV::Text(t@),
        }
    }
}

/// A parsed TOML document.
#[verifier::external_type_specification]
#[verifier::external_body]
pub struct ExTomlValue(toml::Value);

/// The entries of a TOML table whose values are strings.
pub uninterp spec fn toml_strings(v: toml::Value) -> Map<Seq<char>, Seq<char>>;

/// What parsing a TOML text gives: the string entries of its top-level table, or a diagnostic.
pub uninterp spec fn toml_document(source: Seq<char>) -> Result<
    Map<Seq<char>, Seq<char>>,
    Seq<char>,
>;

/// A parse result as a value of views.
pub open spec fn toml_view(r: Result<toml::Value, String>) -> Result<
    Map<Seq<char>, Seq<char>>,
    Seq<char>,
> {
    match r {
        Ok(v) => Ok(toml_strings(v)),
        Err(e) => Err(e@),
    }
}

/// The string entries of a document with one line, which sets the database to `value`.
pub open spec fn config_entries(value: Seq<char>) -> Map<Seq<char>, Seq<char>> {
    Map::empty().insert("db_path"@, value)
}

/// `toml::from_str` into a `toml::Value`. The document or the diagnostic is a function of the
/// text alone. A line `db_path = ` with a JSON string in which the character U+007F does not occur
/// is a document that binds `db_path` to that string: what a JSON string escapes, a TOML basic
/// string escapes in the same way.
#[verifier::external_body]
fn parse_toml(source: &str) -> (r: Result<toml::Value, String>)
    ensures
        toml_view(r) == toml_document(source@),
        forall|s: Seq<char>|
            source@ == #[trigger] config_line(s) && !s.contains('\u{7f}') ==> r is Ok && toml_strings(
                r->Ok_0,
            ) == config_entries(s),
{
    toml::from_str::<toml::Value>(source).map_err(|e| e.to_string())
}

/// `toml::Value::get` with a text key, then `toml::Value::as_str`: the string that the table
/// binds the key to, or nothing where it binds it to no string.
#[verifier::external_body]
fn toml_string(v: &toml::Value, key: &str) -> (r: Option<String>)
    ensures
        match r {
            Some(t) => toml_strings(*v).contains_key(key@) && toml_strings(*v)[key@] == t@,
            None => !toml_strings(*v).contains_key(key@),
        },
{
    v.get(key).and_then(|x| x.as_str()).map(|x| x.to_string())
}

/// The details that carry a path.
pub open spec fn path_detail(path: Seq<char>) -> JsonV {
    crate::errors::detail("path"@, JsonV::Text(path))
}

/// The error for a configuration file that cannot be used.
pub open spec fn invalid_config_error(path: Seq<char>, message: Seq<char>) -> ErrorV {
    ErrorV { code: ErrorCode::InvalidArgument, message, details: path_detail(path) }
}

/// What the configuration file at `path` says of the database.
pub open spec fn configured(
    path: Seq<char>,
    file: ConfigFileV,
    home: Option<Seq<char>>,
) -> Result<Option<Seq<char>>, ErrorV> {
    match file {
        ConfigFileV::Missing => Ok(None),
        ConfigFileV::Unreadable(e) => Err(
            invalid_config_error(path, "invalid config file: "@ + e),
        ),
        ConfigFileV::Text(text) => match toml_document(text) {
            Err(e) => Err(invalid_config_error(path, "invalid config file: "@ + e)),
            Ok(entries) => if !entries.contains_key("db_path"@) || crate::text::is_blank(
                entries["db_path"@],
            ) {
                Err(invalid_config_error(path, "config db_path must be a non-empty string"@))
            } else {
                Ok(Some(crate::path_util::expanded(entries["db_path"@], home)))
            },
        },
    }
}

fn details_path(path: &str) -> (r: Json)
    ensures
        r@ == path_detail(path@),
{
    Json::object().with("path", Json::text(path))
}

fn invalid_config(path: &str, error: &str) -> (r: ReviewKBError)
    ensures
        r@ == invalid_config_error(path@, "invalid config file: "@ + error@),
{
    let mut message = "invalid config file: ".to_string();
    message.push_str(error);
    ReviewKBError::new(ErrorCode::InvalidArgument, message, details_path(path))
}

/// A lookup as a value of views.
pub open spec fn lookup_view(r: Result<Option<String>, ReviewKBError>) -> Result<
    Option<Seq<char>>,
    ErrorV,
> {
    match r {
        Ok(Some(p)) => Ok(Some(p@)),
        Ok(None) => Ok(None),
        Err(e) => Err(e@),
    }
}

/// The database path that the configuration file at `config_path` sets.
pub fn read_configured_database_path(
    config_path: &str,
    file: &ConfigFile,
    home: Option<&str>,
) -> (r: Result<Option<String>, ReviewKBError>)
    ensures
        lookup_view(r) == configured(config_path@, file@, crate::path_util::optional(home)),
        // What `write_database_path` writes is read back with its `~` expanded; only a path with
        // the character U+007F is not, which a TOML string cannot hold as it is.
        forall|s: Seq<char>|
            file@ == ConfigFileV::Text(#[trigger] config_line(s)) && !s.contains('\u{7f}')
                && !crate::text::is_blank(s) ==> lookup_view(r) == Ok::<
                Option<Seq<char>>,
                ErrorV,
            >(Some(crate::path_util::expanded(s, crate::path_util::optional(home)))),
{
    match file {
        ConfigFile::Missing => Ok(None),
        ConfigFile::Unreadable(e) => Err(invalid_config(config_path, e.as_str())),
        ConfigFile::Text(text) => match parse_toml(text.as_str()) {
            Err(e) => Err(invalid_config(config_path, e.as_str())),
            Ok(document) => {
                match toml_string(&document, "db_path") {
                    Some(s) => if !blank(s.as_str()) {
                        return Ok(Some(expanduser(s.as_str(), home)));
                    },
                    None => {},
                }
                Err(
                    ReviewKBError::new(
                        ErrorCode::InvalidArgument,
                        "config db_path must be a non-empty string".to_string(),
                        details_path(config_path),
                    ),
                )
            },
        },
    }
}

/// What a configuration file holds that sets the database to `value`.
pub open spec fn config_line(value: Seq<char>) -> Seq<char> {
    "db_path = "@ + crate::json_util::quoted(value) + "\n"@
}

/// A configuration file to write.
#[derive(Debug)]
pub struct ConfigWrite {
    pub target: String,
    pub content: String,
}

/// What a [`ConfigWrite`] stands for.
pub struct ConfigWriteV {
    pub target: Seq<char>,
    pub content: Seq<char>,
}

impl View for ConfigWrite {
    type V = ConfigWriteV;

    open spec fn view(&self) -> ConfigWriteV {
        ConfigWriteV { target: self.target@, content: self.content@ }
    }
}

/// The configuration file to write for a database path, in full.
pub open spec fn config_write(
    database_path: Seq<char>,
    config_path: Option<Seq<char>>,
    env: EnvV,
    home: Option<Seq<char>>,
) -> Result<ConfigWriteV, ErrorV> {
    let value = crate::text::trimmed(database_path);
    if value.len() == 0 {
        Err(
            ErrorV {
                code: ErrorCode::InvalidArgument,
                message: "db_path must not be empty"@,
                details: crate::errors::detail("field"@, JsonV::Text("db_path"@)),
            },
        )
    } else {
        Ok(
            ConfigWriteV {
                target: match config_path {
                    Some(p) => p,
                    None => config_file(env, home),
                },
                content: config_line(value),
            },
        )
    }
}

/// Plans the write that sets the database path; the file is replaced as a whole.
pub fn write_database_path(
    database_path: &str,
    config_path: Option<&str>,
    env: &Env,
    home_path: Option<&str>,
) -> (r: Result<ConfigWrite, ReviewKBError>)
    ensures
        match r {
            Ok(w) => config_write(
                database_path@,
                crate::path_util::optional(config_path),
                env_view(env@),
                crate::path_util::optional(home_path),
            ) == Ok::<ConfigWriteV, ErrorV>(w@),
            Err(e) => config_write(
                database_path@,
                crate::path_util::optional(config_path),
                env_view(env@),
                crate::path_util::optional(home_path),
            ) == Err::<ConfigWriteV, ErrorV>(e@),
        },
{
    let target = match config_path {
        Some(p) => p.to_string(),
        None => default_config_path(env, home_path),
    };
    let value = trim(database_path);
    proof {
        reveal_strlit("");
        assert(value@.len() == 0 ==> value@ =~= ""@);
    }
    if same(value.as_str(), "") {
        return Err(
            ReviewKBError::new(
                ErrorCode::InvalidArgument,
                "db_path must not be empty".to_string(),
                Json::object().with("field", Json::text("db_path")),
            ),
        );
    }
    let mut content = "db_path = ".to_string();
    content.push_str(quote(value.as_str()).as_str());
    content.push_str("\n");
    Ok(ConfigWrite { target, content })
}

/// The error for a configuration file that could not be written.
pub fn write_err(target: &str, error: &str) -> (r: ReviewKBError)
    ensures
        r@ == invalid_config_error(target@, "could not write config file: "@ + error@),
{
    let mut message = "could not write config file: ".to_string();
    message.push_str(error);
    ReviewKBError::new(ErrorCode::InvalidArgument, message, details_path(target))
}

/// The database location, by falling priority: the command line, the environment, the
/// configuration file, the default.
pub open spec fn location(
    cli_path: Option<Seq<char>>,
    env: EnvV,
    config_path: Option<Seq<char>>,
    file: ConfigFileV,
    home: Option<Seq<char>>,
) -> Result<LocationV, ErrorV> {
    if let Some(p) = cli_path {
        Ok(LocationV { path: crate::path_util::expanded(p, home), source: "command_line"@ })
    } else if let Some(p) = env_value_nonempty(env, "REVIEW_KB_DB"@) {
        Ok(LocationV { path: crate::path_util::expanded(p, home), source: "environment"@ })
    } else {
        let consulted = match config_path {
            Some(p) => p,
            None => config_file(env, home),
        };
        match configured(consulted, file, home) {
            Err(e) => Err(e),
            Ok(Some(p)) => Ok(LocationV { path: p, source: "config_file"@ }),
            Ok(None) => Ok(
                LocationV { path: default_database(env), source: "platform_default"@ },
            ),
        }
    }
}

/// The configuration file that decides, where neither the command line nor the environment does.
pub open spec fn consulted(
    cli_path: Option<Seq<char>>,
    env: EnvV,
    config_path: Option<Seq<char>>,
    home: Option<Seq<char>>,
) -> Option<Seq<char>> {
    if cli_path is Some || env_value_nonempty(env, "REVIEW_KB_DB"@) is Some {
        None
    } else {
        Some(
            match config_path {
                Some(p) => p,
                None => config_file(env, home),
            },
        )
    }
}

/// The configuration file to read before [`resolve_database_path`], where one decides.
pub fn config_to_consult(
    cli_path: Option<&str>,
    env: &Env,
    config_path: Option<&str>,
    home_path: Option<&str>,
) -> (r: Option<String>)
    ensures
        crate::path_util::optional_text(r) == consulted(
            crate::path_util::optional(cli_path),
            env_view(env@),
            crate::path_util::optional(config_path),
            crate::path_util::optional(home_path),
        ),
{
    if cli_path.is_some() {
        return None;
    }
    if env_get_nonempty(env, "REVIEW_KB_DB").is_some() {
        return None;
    }
    match config_path {
        Some(p) => Some(p.to_string()),
        None => Some(default_config_path(env, home_path)),
    }
}

/// Resolves the database path; `file` is what reading the configuration file brought, and a leading
/// `~` stands for `home_path`, whatever `env` holds.
pub fn resolve_database_path(
    cli_path: Option<&str>,
    env: &Env,
    config_path: Option<&str>,
    file: &ConfigFile,
    home_path: Option<&str>,
) -> (r: Result<DatabaseLocation, ReviewKBError>)
    ensures
        match r {
            Ok(l) => location(
                crate::path_util::optional(cli_path),
                env_view(env@),
                crate::path_util::optional(config_path),
                file@,
                crate::path_util::optional(home_path),
            ) == Ok::<LocationV, ErrorV>(l@),
            Err(e) => location(
                crate::path_util::optional(cli_path),
                env_view(env@),
                crate::path_util::optional(config_path),
                file@,
                crate::path_util::optional(home_path),
            ) == Err::<LocationV, ErrorV>(e@),
        },
{
    if let Some(p) = cli_path {
        return Ok(
            DatabaseLocation { path: expanduser(p, home_path), source: "command_line".to_string() },
        );
    }
    if let Some(p) = env_get_nonempty(env, "REVIEW_KB_DB") {
        return Ok(
            DatabaseLocation {
                path: expanduser(p.as_str(), home_path),
                source: "environment".to_string(),
            },
        );
    }
    let path = match config_path {
        Some(p) => p.to_string(),
        None => default_config_path(env, home_path),
    };
    match read_configured_database_path(path.as_str(), file, home_path) {
        Err(e) => Err(e),
        Ok(Some(p)) => Ok(DatabaseLocation { path: p, source: "config_file".to_string() }),
        Ok(None) => Ok(
            DatabaseLocation {
                path: default_database_path(env),
                source: "platform_default".to_string(),
            },
        ),
    }
}

/// The source of a location names the first of the command line, the environment, the
/// configuration file and the default that decides.
pub proof fn the_source_tells_who_decided(
    cli_path: Option<Seq<char>>,
    env: EnvV,
    config_path: Option<Seq<char>>,
    file: ConfigFileV,
    home: Option<Seq<char>>,
)
    requires
        location(cli_path, env, config_path, file, home) is Ok,
    ensures
        ({
            let found = location(cli_path, env, config_path, file, home)->Ok_0;
            let variable = env_value_nonempty(env, "REVIEW_KB_DB"@);
            &&& found.source == "command_line"@ <==> cli_path is Some
            &&& found.source == "environment"@ <==> cli_path is None && variable is Some
            &&& found.source == "config_file"@ <==> cli_path is None && variable is None && !(
            file is Missing)
            &&& found.source == "platform_default"@ <==> cli_path is None && variable is None
                && file is Missing
        }),
{
    reveal_strlit("command_line");
    reveal_strlit("environment");
    reveal_strlit("config_file");
    reveal_strlit("platform_default");
    assert("command_line"@.len() == 12);
    assert("environment"@.len() == 11);
    assert("config_file"@.len() == 11);
    assert("platform_default"@.len() == 16);
    assert("environment"@[0] == 'e' && "config_file"@[0] == 'c');
}

/// The configuration file has a say only where [`config_to_consult`] names it.
pub proof fn an_unconsulted_file_has_no_say(
    cli_path: Option<Seq<char>>,
    env: EnvV,
    config_path: Option<Seq<char>>,
    file: ConfigFileV,
    other: ConfigFileV,
    home: Option<Seq<char>>,
)
    requires
        consulted(cli_path, env, config_path, home) is None,
    ensures
        location(cli_path, env, config_path, file, home) == location(
            cli_path,
            env,
            config_path,
            other,
            home,
        ),
        location(cli_path, env, config_path, file, home) is Ok,
{
}

} // verus!
