//! The service's settings, read from its environment.

use vstd::prelude::*;
use vstd::string::*;

use crate::model::{option_view, pair_views, result_view};
use crate::outside::{uri_error_message, uri_error_text, uri_parse, uri_parsed};
use crate::target::{ConfigView, TargetConfig};
use crate::text::same_text;

verus! {

/// Where authoritative plans are appended.
#[derive(Debug, PartialEq, Eq)]
pub struct PlanStoreSettings {
    pub access_token: String,
    pub account_endpoint: String,
    pub basin_endpoint: String,
    pub basin: String,
    pub stream_prefix: String,
}

/// Everything that the service is configured by.
#[derive(Debug, PartialEq, Eq)]
pub struct Settings {
    pub target: TargetConfig,
    pub plan_store: PlanStoreSettings,
    pub bind: String,
    pub core_uri: String,
    pub core_token: Option<String>,
    pub state_dir: String,
    pub telemetry_filter: String,
}

/// What a `PlanStoreSettings` says.
pub struct PlanStoreView {
    pub access_token: Seq<char>,
    pub account_endpoint: Seq<char>,
    pub basin_endpoint: Seq<char>,
    pub basin: Seq<char>,
    pub stream_prefix: Seq<char>,
}

/// What a `Settings` says.
pub struct SettingsView {
    pub target: ConfigView,
    pub plan_store: PlanStoreView,
    pub bind: Seq<char>,
    pub core_uri: Seq<char>,
    pub core_token: Option<Seq<char>>,
    pub state_dir: Seq<char>,
    pub telemetry_filter: Seq<char>,
}

impl View for PlanStoreSettings {
    type V = PlanStoreView;

    open spec fn view(&self) -> PlanStoreView {
        PlanStoreView {
            access_token: self.access_token@,
            account_endpoint: self.account_endpoint@,
            basin_endpoint: self.basin_endpoint@,
            basin: self.basin@,
            stream_prefix: self.stream_prefix@,
        }
    }
}

impl View for Settings {
    type V = SettingsView;

    open spec fn view(&self) -> SettingsView {
        SettingsView {
            target: self.target@,
            plan_store: self.plan_store@,
            bind: self.bind@,
            core_uri: self.core_uri@,
            core_token: option_view(self.core_token),
            state_dir: self.state_dir@,
            telemetry_filter: self.telemetry_filter@,
        }
    }
}

/// The value of the first of these variables, from `from` on, with this name.
pub open spec fn variable_from(
    variables: Seq<(Seq<char>, Seq<char>)>,
    name: Seq<char>,
    from: int,
) -> Option<Seq<char>>
    decreases variables.len() - from,
{
    if from >= variables.len() {
        None
    } else if variables[from].0 == name {
        Some(variables[from].1)
    } else {
        variable_from(variables, name, from + 1)
    }
}

/// The value of a variable.
pub open spec fn variable(variables: Seq<(Seq<char>, Seq<char>)>, name: Seq<char>) -> Option<
    Seq<char>,
> {
    variable_from(variables, name, 0)
}

/// The value of a variable, or a default where it is not set.
pub open spec fn variable_or(
    variables: Seq<(Seq<char>, Seq<char>)>,
    name: Seq<char>,
    default: Seq<char>,
) -> Seq<char> {
    match variable(variables, name) {
        Some(value) => value,
        None => default,
    }
}

/// The value of a variable that is set and not empty.
pub open spec fn nonempty_variable(
    variables: Seq<(Seq<char>, Seq<char>)>,
    name: Seq<char>,
) -> Option<Seq<char>> {
    match variable(variables, name) {
        Some(value) => if value.len() > 0 {
            Some(value)
        } else {
            None
        },
        None => None,
    }
}

/// A relative path below a directory.
pub open spec fn path_below(directory: Seq<char>, path: Seq<char>) -> Seq<char> {
    if directory.len() == 0 || directory.last() == '/' {
        directory + path
    } else {
        directory + "/"@ + path
    }
}

/// Where Wrangler keeps its own configuration.
pub open spec fn wrangler_config_file(variables: Seq<(Seq<char>, Seq<char>)>) -> Seq<char> {
    path_below(
        variable_or(
            variables,
            "XDG_CONFIG_HOME"@,
            "/var/lib/henosis-connector-cloudflare/xdg"@,
        ),
        ".wrangler/config/default.toml"@,
    )
}

/// The target's configuration.
pub open spec fn target_settings(variables: Seq<(Seq<char>, Seq<char>)>) -> ConfigView {
    ConfigView {
        wrangler: variable_or(variables, "HENOSIS_WRANGLER"@, "wrangler"@),
        account_id: nonempty_variable(variables, "CLOUDFLARE_ACCOUNT_ID"@),
        api_token: nonempty_variable(variables, "CLOUDFLARE_API_TOKEN"@),
        wrangler_config: Some(wrangler_config_file(variables)),
        account_subdomain: nonempty_variable(variables, "CLOUDFLARE_ACCOUNT_SUBDOMAIN"@),
        secret_root: variable_or(variables, "HENOSIS_SECRET_ROOT"@, "/run/secrets"@),
        api_base: variable_or(
            variables,
            "CLOUDFLARE_API_BASE"@,
            "https://api.cloudflare.com/client/v4"@,
        ),
        tunnel_token_file: variable_or(
            variables,
            "HENOSIS_TUNNEL_TOKEN_FILE"@,
            "/var/lib/henosis-tunnel/token"@,
        ),
    }
}

/// What is said of a variable that has to be set and is not.
pub open spec fn missing_variable(name: Seq<char>) -> Seq<char> {
    "required environment variable "@ + name + " is missing"@
}

/// The settings, or the first variable that has to be set and is not.
pub open spec fn settings_in(variables: Seq<(Seq<char>, Seq<char>)>) -> Result<
    SettingsView,
    Seq<char>,
> {
    if variable(variables, "S2_ACCESS_TOKEN"@) is None {
        Err(missing_variable("S2_ACCESS_TOKEN"@))
    } else if variable(variables, "S2_ACCOUNT_ENDPOINT"@) is None {
        Err(missing_variable("S2_ACCOUNT_ENDPOINT"@))
    } else if variable(variables, "S2_BASIN_ENDPOINT"@) is None {
        Err(missing_variable("S2_BASIN_ENDPOINT"@))
    } else if variable(variables, "S2_BASIN"@) is None {
        Err(missing_variable("S2_BASIN"@))
    } else {
        Ok(
            SettingsView {
                target: target_settings(variables),
                plan_store: PlanStoreView {
                    access_token: variable(variables, "S2_ACCESS_TOKEN"@)->Some_0,
                    account_endpoint: variable(variables, "S2_ACCOUNT_ENDPOINT"@)->Some_0,
                    basin_endpoint: variable(variables, "S2_BASIN_ENDPOINT"@)->Some_0,
                    basin: variable(variables, "S2_BASIN"@)->Some_0,
                    stream_prefix: variable_or(
                        variables,
                        "HENOSIS_PLAN_STREAM_PREFIX"@,
                        "henosis-plans-v1"@,
                    ),
                },
                bind: variable_or(variables, "HENOSIS_BIND"@, "0.0.0.0:8083"@),
                core_uri: variable_or(variables, "HENOSIS_CORE_URL"@, "http://core:8080"@),
                core_token: nonempty_variable(variables, "HENOSIS_CORE_TOKEN"@),
                state_dir: path_below(
                    variable_or(
                        variables,
                        "HENOSIS_STATE_DIR"@,
                        "/var/lib/henosis-connector-cloudflare/state"@,
                    ),
                    "sdk-v1"@,
                ),
                telemetry_filter: "henosis=info,connector_sdk=info"@,
            },
        )
    }
}

/// The value of a variable.
fn find_variable(variables: &Vec<(String, String)>, name: &str) -> (value: Option<String>)
    ensures
        option_view(value) == variable(pair_views(variables@), name@),
{
    let ghost said = pair_views(variables@);
    for i in 0..variables.len()
        invariant
            said == pair_views(variables@),
            variable_from(said, name@, 0) == variable_from(said, name@, i as int),
    {
        assert(said[i as int] == (variables@[i as int].0@, variables@[i as int].1@));
        if same_text(variables[i].0.as_str(), name) {
            return Some(variables[i].1.clone());
        }
    }
    None
}

/// The value of a variable, or a default where it is not set.
pub fn string_env(variables: &Vec<(String, String)>, name: &str, default: &str) -> (value: String)
    ensures
        value@ == variable_or(pair_views(variables@), name@, default@),
{
    match find_variable(variables, name) {
        Some(value) => value,
        None => default.to_owned(),
    }
}

/// The value of a variable that is set and not empty.
fn nonempty_env(variables: &Vec<(String, String)>, name: &str) -> (value: Option<String>)
    ensures
        option_view(value) == nonempty_variable(pair_views(variables@), name@),
{
    match find_variable(variables, name) {
        Some(value) => if value.as_str().unicode_len() > 0 {
            Some(value)
        } else {
            None
        },
        None => None,
    }
}

/// The value of a variable that has to be set.
pub fn required(variables: &Vec<(String, String)>, name: &str) -> (value: Result<String, String>)
    ensures
        match value {
            Ok(value) => variable(pair_views(variables@), name@) == Some(value@),
            Err(message) => variable(pair_views(variables@), name@) is None && message@
                == missing_variable(name@),
        },
{
    match find_variable(variables, name) {
        Some(value) => Ok(value),
        None => Err(
            "required environment variable ".to_owned().concat(name).concat(" is missing"),
        ),
    }
}

/// A relative path below a directory.
fn join_path(directory: &str, path: &str) -> (joined: String)
    ensures
        joined@ == path_below(directory@, path@),
{
    let n = directory.unicode_len();
    if n == 0 || directory.get_char(n - 1) == '/' {
        directory.to_owned().concat(path)
    } else {
        directory.to_owned().concat("/").concat(path)
    }
}

/// Where Wrangler keeps its own configuration.
pub fn wrangler_config_path(variables: &Vec<(String, String)>) -> (path: String)
    ensures
        path@ == wrangler_config_file(pair_views(variables@)),
{
    join_path(
        string_env(
            variables,
            "XDG_CONFIG_HOME",
            "/var/lib/henosis-connector-cloudflare/xdg",
        ).as_str(),
        ".wrangler/config/default.toml",
    )
}

/// Read the target's configuration in the environment's variables.
pub fn target_config(variables: &Vec<(String, String)>) -> (config: TargetConfig)
    ensures
        config@ == target_settings(pair_views(variables@)),
{
    TargetConfig {
        wrangler: string_env(variables, "HENOSIS_WRANGLER", "wrangler"),
        account_id: nonempty_env(variables, "CLOUDFLARE_ACCOUNT_ID"),
        api_token: nonempty_env(variables, "CLOUDFLARE_API_TOKEN"),
        wrangler_config: Some(wrangler_config_path(variables)),
        account_subdomain: nonempty_env(variables, "CLOUDFLARE_ACCOUNT_SUBDOMAIN"),
        secret_root: string_env(variables, "HENOSIS_SECRET_ROOT", "/run/secrets"),
        api_base: string_env(
            variables,
            "CLOUDFLARE_API_BASE",
            "https://api.cloudflare.com/client/v4",
        ),
        tunnel_token_file: string_env(
            variables,
            "HENOSIS_TUNNEL_TOKEN_FILE",
            "/var/lib/henosis-tunnel/token",
        ),
    }
}

/// Read the settings in the environment's variables.
pub fn read_settings(variables: &Vec<(String, String)>) -> (settings: Result<Settings, String>)
    ensures
        result_view(settings) == settings_in(pair_views(variables@)),
{
    let access_token = required(variables, "S2_ACCESS_TOKEN")?;
    let account_endpoint = required(variables, "S2_ACCOUNT_ENDPOINT")?;
    let basin_endpoint = required(variables, "S2_BASIN_ENDPOINT")?;
    let basin = required(variables, "S2_BASIN")?;
    Ok(
        Settings {
            target: target_config(variables),
            plan_store: PlanStoreSettings {
                access_token,
                account_endpoint,
                basin_endpoint,
                basin,
                stream_prefix: string_env(
                    variables,
                    "HENOSIS_PLAN_STREAM_PREFIX",
                    "henosis-plans-v1",
                ),
            },
            bind: string_env(variables, "HENOSIS_BIND", "0.0.0.0:8083"),
            core_uri: string_env(variables, "HENOSIS_CORE_URL", "http://core:8080"),
            core_token: nonempty_env(variables, "HENOSIS_CORE_TOKEN"),
            state_dir: join_path(
                string_env(
                    variables,
                    "HENOSIS_STATE_DIR",
                    "/var/lib/henosis-connector-cloudflare/state",
                ).as_str(),
                "sdk-v1",
            ),
            telemetry_filter: "henosis=info,connector_sdk=info".to_owned(),
        },
    )
}

impl Settings {
    /// The address of core, or why the setting is no URI.
    pub fn core_address(&self) -> (address: Result<http::Uri, String>)
        ensures
            match uri_parsed(self@.core_uri) {
                Ok(uri) => address matches Ok(parsed) && parsed == uri,
                Err(error) => address matches Err(message) && message@ == uri_error_message(error),
            },
    {
        match uri_parse(self.core_uri.as_str()) {
            Ok(uri) => Ok(uri),
            Err(error) => Err(uri_error_text(&error)),
        }
    }
}

// ---------------------------------------------------------------------------
// Laws
// ---------------------------------------------------------------------------
/// Some variable has this name.
pub open spec fn is_set(variables: Seq<(Seq<char>, Seq<char>)>, name: Seq<char>) -> bool {
    exists|i: int| 0 <= i < variables.len() && (#[trigger] variables[i]).0 == name
}

/// The first variable with this name has this value.
pub open spec fn is_set_to(
    variables: Seq<(Seq<char>, Seq<char>)>,
    name: Seq<char>,
    value: Seq<char>,
) -> bool {
    exists|i: int|
        {
            &&& 0 <= i < variables.len()
            &&& (#[trigger] variables[i]).0 == name
            &&& variables[i].1 == value
            &&& forall|j: int| 0 <= j < i ==> (#[trigger] variables[j]).0 != name
        }
}

/// The value is the variable's, or the default where the variable is not set.
pub open spec fn is_set_or_default(
    variables: Seq<(Seq<char>, Seq<char>)>,
    name: Seq<char>,
    default: Seq<char>,
    value: Seq<char>,
) -> bool {
    is_set_to(variables, name, value) || (!is_set(variables, name) && value == default)
}

/// The value is the variable's, and there is none where the variable is not set or is empty.
pub open spec fn is_set_or_none(
    variables: Seq<(Seq<char>, Seq<char>)>,
    name: Seq<char>,
    value: Option<Seq<char>>,
) -> bool {
    match value {
        Some(text) => is_set_to(variables, name, text) && text.len() > 0,
        None => !is_set(variables, name) || is_set_to(variables, name, Seq::empty()),
    }
}

/// The path is a relative path below a directory, with one slash between the two where the
/// directory is not empty and does not end in one.
pub open spec fn is_below(path: Seq<char>, directory: Seq<char>, relative: Seq<char>) -> bool {
    if directory.len() == 0 || directory[directory.len() - 1] == '/' {
        path =~= directory + relative
    } else {
        path =~= directory.push('/') + relative
    }
}

/// The path is a relative path below the directory that the variable names, or below the default
/// where the variable is not set.
pub open spec fn is_below_directory(
    variables: Seq<(Seq<char>, Seq<char>)>,
    name: Seq<char>,
    default: Seq<char>,
    relative: Seq<char>,
    path: Seq<char>,
) -> bool {
    exists|directory: Seq<char>|
        is_set_or_default(variables, name, default, directory) && #[trigger] is_below(
            path,
            directory,
            relative,
        )
}

/// A variable is found from `from` on exactly as the first of its name there says.
proof fn lemma_variable_from(
    variables: Seq<(Seq<char>, Seq<char>)>,
    name: Seq<char>,
    from: int,
)
    requires
        0 <= from <= variables.len(),
    ensures
        match variable_from(variables, name, from) {
            Some(value) => exists|i: int|
                {
                    &&& from <= i < variables.len()
                    &&& (#[trigger] variables[i]).0 == name
                    &&& variables[i].1 == value
                    &&& forall|j: int| from <= j < i ==> (#[trigger] variables[j]).0 != name
                },
            None => forall|i: int|
                from <= i < variables.len() ==> (#[trigger] variables[i]).0 != name,
        },
    decreases variables.len() - from,
{
    if from < variables.len() && variables[from].0 != name {
        lemma_variable_from(variables, name, from + 1);
        if let Some(value) = variable_from(variables, name, from + 1) {
            let i = choose|i: int|
                {
                    &&& from < i < variables.len()
                    &&& (#[trigger] variables[i]).0 == name
                    &&& variables[i].1 == value
                    &&& forall|j: int| from < j < i ==> (#[trigger] variables[j]).0 != name
                };
            assert(variables[i].0 == name);
        }
    } else if from < variables.len() {
        assert(variables[from].0 == name);
    }
}

/// A variable has the value that the first of its name has, and none where no variable has the
/// name; a default stands in only for a variable that is not set.
pub proof fn variables_are_read_by_name(
    variables: Seq<(Seq<char>, Seq<char>)>,
    name: Seq<char>,
    default: Seq<char>,
)
    ensures
        variable(variables, name) matches Some(value) ==> is_set_to(variables, name, value),
        variable(variables, name) is Some <==> is_set(variables, name),
        is_set_or_default(variables, name, default, variable_or(variables, name, default)),
        is_set_or_none(variables, name, nonempty_variable(variables, name)),
{
    lemma_variable_from(variables, name, 0);
    if let Some(value) = variable(variables, name) {
        if value.len() == 0 {
            assert(value =~= Seq::empty());
        }
    }
}

/// Each setting is its own variable's value, with the default that stands in for it.
pub proof fn settings_follow_the_environment(variables: Seq<(Seq<char>, Seq<char>)>)
    requires
        settings_in(variables) is Ok,
    ensures
        ({
            let settings = settings_in(variables)->Ok_0;
            &&& is_set_to(variables, "S2_ACCESS_TOKEN"@, settings.plan_store.access_token)
            &&& is_set_to(variables, "S2_ACCOUNT_ENDPOINT"@, settings.plan_store.account_endpoint)
            &&& is_set_to(variables, "S2_BASIN_ENDPOINT"@, settings.plan_store.basin_endpoint)
            &&& is_set_to(variables, "S2_BASIN"@, settings.plan_store.basin)
            &&& is_set_or_default(
                variables,
                "HENOSIS_PLAN_STREAM_PREFIX"@,
                "henosis-plans-v1"@,
                settings.plan_store.stream_prefix,
            )
            &&& is_set_or_default(variables, "HENOSIS_BIND"@, "0.0.0.0:8083"@, settings.bind)
            &&& is_set_or_default(
                variables,
                "HENOSIS_CORE_URL"@,
                "http://core:8080"@,
                settings.core_uri,
            )
            &&& is_set_or_none(variables, "HENOSIS_CORE_TOKEN"@, settings.core_token)
            &&& is_below_directory(
                variables,
                "HENOSIS_STATE_DIR"@,
                "/var/lib/henosis-connector-cloudflare/state"@,
                "sdk-v1"@,
                settings.state_dir,
            )
            &&& settings.telemetry_filter == "henosis=info,connector_sdk=info"@
            &&& settings.target == target_settings(variables)
        }),
{
    variables_are_read_by_name(variables, "S2_ACCESS_TOKEN"@, Seq::empty());
    variables_are_read_by_name(variables, "S2_ACCOUNT_ENDPOINT"@, Seq::empty());
    variables_are_read_by_name(variables, "S2_BASIN_ENDPOINT"@, Seq::empty());
    variables_are_read_by_name(variables, "S2_BASIN"@, Seq::empty());
    variables_are_read_by_name(variables, "HENOSIS_PLAN_STREAM_PREFIX"@, "henosis-plans-v1"@);
    variables_are_read_by_name(variables, "HENOSIS_BIND"@, "0.0.0.0:8083"@);
    variables_are_read_by_name(variables, "HENOSIS_CORE_URL"@, "http://core:8080"@);
    variables_are_read_by_name(variables, "HENOSIS_CORE_TOKEN"@, Seq::empty());
    lemma_is_below(
        variables,
        "HENOSIS_STATE_DIR"@,
        "/var/lib/henosis-connector-cloudflare/state"@,
        "sdk-v1"@,
    );
}

/// A path below a variable's directory is made of the two.
proof fn lemma_is_below(
    variables: Seq<(Seq<char>, Seq<char>)>,
    name: Seq<char>,
    default: Seq<char>,
    relative: Seq<char>,
)
    ensures
        is_below_directory(
            variables,
            name,
            default,
            relative,
            path_below(variable_or(variables, name, default), relative),
        ),
{
    let directory = variable_or(variables, name, default);
    let path = path_below(directory, relative);
    variables_are_read_by_name(variables, name, default);
    reveal_strlit("/");
    assert("/"@ =~= seq!['/']);
    assert(directory + seq!['/'] =~= directory.push('/'));
    assert(is_below(path, directory, relative));
}

/// Each part of the target's configuration is its own variable's value, with the default that
/// stands in for it.
pub proof fn targets_follow_the_environment(variables: Seq<(Seq<char>, Seq<char>)>)
    ensures
        ({
            let target = target_settings(variables);
            &&& is_set_or_default(variables, "HENOSIS_WRANGLER"@, "wrangler"@, target.wrangler)
            &&& is_set_or_none(variables, "CLOUDFLARE_ACCOUNT_ID"@, target.account_id)
            &&& is_set_or_none(variables, "CLOUDFLARE_API_TOKEN"@, target.api_token)
            &&& is_set_or_none(
                variables,
                "CLOUDFLARE_ACCOUNT_SUBDOMAIN"@,
                target.account_subdomain,
            )
            &&& is_set_or_default(
                variables,
                "HENOSIS_SECRET_ROOT"@,
                "/run/secrets"@,
                target.secret_root,
            )
            &&& is_set_or_default(
                variables,
                "CLOUDFLARE_API_BASE"@,
                "https://api.cloudflare.com/client/v4"@,
                target.api_base,
            )
            &&& is_set_or_default(
                variables,
                "HENOSIS_TUNNEL_TOKEN_FILE"@,
                "/var/lib/henosis-tunnel/token"@,
                target.tunnel_token_file,
            )
            &&& target.wrangler_config is Some
            &&& is_below_directory(
                variables,
                "XDG_CONFIG_HOME"@,
                "/var/lib/henosis-connector-cloudflare/xdg"@,
                ".wrangler/config/default.toml"@,
                target.wrangler_config->Some_0,
            )
        }),
{
    variables_are_read_by_name(variables, "HENOSIS_WRANGLER"@, "wrangler"@);
    variables_are_read_by_name(variables, "CLOUDFLARE_ACCOUNT_ID"@, Seq::empty());
    variables_are_read_by_name(variables, "CLOUDFLARE_API_TOKEN"@, Seq::empty());
    variables_are_read_by_name(variables, "CLOUDFLARE_ACCOUNT_SUBDOMAIN"@, Seq::empty());
    variables_are_read_by_name(variables, "HENOSIS_SECRET_ROOT"@, "/run/secrets"@);
    variables_are_read_by_name(
        variables,
        "CLOUDFLARE_API_BASE"@,
        "https://api.cloudflare.com/client/v4"@,
    );
    variables_are_read_by_name(
        variables,
        "HENOSIS_TUNNEL_TOKEN_FILE"@,
        "/var/lib/henosis-tunnel/token"@,
    );
    lemma_is_below(
        variables,
        "XDG_CONFIG_HOME"@,
        "/var/lib/henosis-connector-cloudflare/xdg"@,
        ".wrangler/config/default.toml"@,
    );
}

/// The plan store's four variables have to be set, and no other; the first of them that is not is
/// told.
pub proof fn missing_variables_are_told_in_order(variables: Seq<(Seq<char>, Seq<char>)>)
    ensures
        ({
            let token = is_set(variables, "S2_ACCESS_TOKEN"@);
            let account = is_set(variables, "S2_ACCOUNT_ENDPOINT"@);
            let endpoint = is_set(variables, "S2_BASIN_ENDPOINT"@);
            let basin = is_set(variables, "S2_BASIN"@);
            let settings = settings_in(variables);
            &&& settings is Ok <==> token && account && endpoint && basin
            &&& settings matches Err(message) ==> message =~= "required environment variable "@
                + (if !token {
                "S2_ACCESS_TOKEN"@
            } else if !account {
                "S2_ACCOUNT_ENDPOINT"@
            } else if !endpoint {
                "S2_BASIN_ENDPOINT"@
            } else {
                "S2_BASIN"@
            }) + " is missing"@
        }),
{
    variables_are_read_by_name(variables, "S2_ACCESS_TOKEN"@, Seq::empty());
    variables_are_read_by_name(variables, "S2_ACCOUNT_ENDPOINT"@, Seq::empty());
    variables_are_read_by_name(variables, "S2_BASIN_ENDPOINT"@, Seq::empty());
    variables_are_read_by_name(variables, "S2_BASIN"@, Seq::empty());
}

} // verus!
