use connector_cloudflare::settings::{read_settings, required, string_env, wrangler_config_path};

fn pairs(list: &[(&str, &str)]) -> Vec<(String, String)> {
    list.iter().map(|(name, value)| (name.to_string(), value.to_string())).collect()
}

fn store() -> Vec<(String, String)> {
    pairs(&[
        ("S2_ACCESS_TOKEN", "token"),
        ("S2_ACCOUNT_ENDPOINT", "https://account"),
        ("S2_BASIN_ENDPOINT", "https://basin"),
        ("S2_BASIN", "plans"),
    ])
}

#[test]
fn defaults_fill_what_is_not_set() {
    let settings = read_settings(&store()).unwrap();
    assert_eq!(settings.target.wrangler, "wrangler");
    assert_eq!(settings.target.account_id, None);
    assert_eq!(settings.target.api_token, None);
    assert_eq!(
        settings.target.wrangler_config.as_deref(),
        Some("/var/lib/henosis-connector-cloudflare/xdg/.wrangler/config/default.toml")
    );
    assert_eq!(settings.target.account_subdomain, None);
    assert_eq!(settings.target.secret_root, "/run/secrets");
    assert_eq!(settings.target.api_base, "https://api.cloudflare.com/client/v4");
    assert_eq!(settings.target.tunnel_token_file, "/var/lib/henosis-tunnel/token");
    assert_eq!(settings.plan_store.access_token, "token");
    assert_eq!(settings.plan_store.account_endpoint, "https://account");
    assert_eq!(settings.plan_store.basin_endpoint, "https://basin");
    assert_eq!(settings.plan_store.basin, "plans");
    assert_eq!(settings.plan_store.stream_prefix, "henosis-plans-v1");
    assert_eq!(settings.bind, "0.0.0.0:8083");
    assert_eq!(settings.core_uri, "http://core:8080");
    assert_eq!(settings.core_token, None);
    assert_eq!(settings.state_dir, "/var/lib/henosis-connector-cloudflare/state/sdk-v1");
    assert_eq!(settings.telemetry_filter, "henosis=info,connector_sdk=info");
}

#[test]
fn set_variables_replace_defaults() {
    let mut variables = store();
    variables.extend(pairs(&[
        ("HENOSIS_WRANGLER", "/opt/wrangler"),
        ("CLOUDFLARE_ACCOUNT_ID", "acc"),
        ("CLOUDFLARE_API_TOKEN", ""),
        ("CLOUDFLARE_ACCOUNT_SUBDOMAIN", "example"),
        ("HENOSIS_SECRET_ROOT", "/s"),
        ("CLOUDFLARE_API_BASE", "https://api"),
        ("HENOSIS_TUNNEL_TOKEN_FILE", "/t"),
        ("HENOSIS_PLAN_STREAM_PREFIX", "p"),
        ("HENOSIS_BIND", "127.0.0.1:1"),
        ("HENOSIS_CORE_URL", "http://c"),
        ("HENOSIS_CORE_TOKEN", "secret"),
        ("HENOSIS_STATE_DIR", "/state/"),
        ("XDG_CONFIG_HOME", ""),
    ]));
    let settings = read_settings(&variables).unwrap();
    assert_eq!(settings.target.wrangler, "/opt/wrangler");
    assert_eq!(settings.target.account_id.as_deref(), Some("acc"));
    assert_eq!(settings.target.api_token, None);
    assert_eq!(settings.target.account_subdomain.as_deref(), Some("example"));
    assert_eq!(settings.target.secret_root, "/s");
    assert_eq!(settings.target.api_base, "https://api");
    assert_eq!(settings.target.tunnel_token_file, "/t");
    assert_eq!(
        settings.target.wrangler_config.as_deref(),
        Some(".wrangler/config/default.toml")
    );
    assert_eq!(settings.plan_store.stream_prefix, "p");
    assert_eq!(settings.bind, "127.0.0.1:1");
    assert_eq!(settings.core_uri, "http://c");
    assert_eq!(settings.core_token.as_deref(), Some("secret"));
    assert_eq!(settings.state_dir, "/state/sdk-v1");
}

#[test]
fn the_first_missing_variable_is_told() {
    let mut variables = store();
    while !variables.is_empty() {
        let name = variables.pop().unwrap().0;
        assert_eq!(
            read_settings(&variables).unwrap_err(),
            format!("required environment variable {name} is missing")
        );
    }
}

#[test]
fn single_variables_are_read() {
    let variables = pairs(&[("A", "1"), ("A", "2"), ("XDG_CONFIG_HOME", "/xdg")]);
    assert_eq!(string_env(&variables, "A", "3"), "1");
    assert_eq!(string_env(&variables, "B", "3"), "3");
    assert_eq!(required(&variables, "A").unwrap(), "1");
    assert_eq!(
        required(&variables, "B").unwrap_err(),
        "required environment variable B is missing"
    );
    assert_eq!(wrangler_config_path(&variables), "/xdg/.wrangler/config/default.toml");
}

#[test]
fn the_address_of_core_is_a_uri() {
    let core = |url: &str| {
        let mut variables = store();
        variables.push(("HENOSIS_CORE_URL".to_string(), url.to_string()));
        read_settings(&variables).unwrap().core_address()
    };
    let uri = core("https://core.example:9000/api").unwrap();
    assert_eq!(uri.host(), Some("core.example"));
    assert_eq!(uri.port_u16(), Some(9000));
    assert_eq!(uri.path(), "/api");
    assert_eq!(core("").unwrap_err(), "empty string");
    assert_eq!(
        core("not a uri").unwrap_err(),
        "not a uri".parse::<http::Uri>().unwrap_err().to_string()
    );
    let default = read_settings(&store()).unwrap().core_address().unwrap();
    assert_eq!(default.to_string(), "http://core:8080/");
}
