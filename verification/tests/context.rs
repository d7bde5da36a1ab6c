use connector_cloudflare::context::{
    bounded_name, map_name, validate_dns_label, worker_name, ComponentContext, ContextError,
    InputSlot, ProjectFile, Tunnel, API_VERSION,
};

fn sample_context() -> ComponentContext {
    ComponentContext {
        api_version: API_VERSION.to_string(),
        worker_name: "service-e".to_string(),
        entry: "src/index.js".to_string(),
        assets_directory: None,
        environment: "dev".to_string(),
        files: vec![ProjectFile {
            path: "src/index.js".to_string(),
            bytes: b"export".to_vec(),
        }],
        slots: vec![InputSlot {
            key: "URL".to_string(),
            producer: "db".to_string(),
            output: "restUrl".to_string(),
            producer_spec_hash: [7; 32],
        }],
        tunnel: None,
    }
}

fn problem(context: ComponentContext) -> String {
    ComponentContext::from_parsed(Ok(context)).unwrap_err().message()
}

#[test]
fn preview_names_are_bounded_and_deterministic() {
    let name = worker_name("service-f", "preview_01jzzzzzzzzzzzzzzzzzzzzzzz").unwrap();
    assert_eq!(name, "service-f-preview-01jzzzzzzzzz");
    assert!(name.len() <= 63);
}

#[test]
fn stable_environments_become_suffixes() {
    assert_eq!(worker_name("api", "dev").unwrap(), "api-dev");
    assert_eq!(worker_name("api", "prod").unwrap(), "api-prod");
}

#[test]
fn preview_identifiers_are_lowercased() {
    assert_eq!(
        worker_name("api", "preview_01JABCDEFGHIJKLMNOPQRSTUVW").unwrap(),
        "api-preview-01jabcdefghi"
    );
    assert_eq!(worker_name("api", "preview_ab").unwrap(), "api-preview-ab");
}

#[test]
fn an_identifier_keeps_all_of_its_characters_where_a_cut_would_split_one() {
    assert_eq!(
        map_name("api", "preview_0123456789\u{e9}\u{e9}"),
        Some("api-preview-0123456789\u{e9}".to_string())
    );
    assert_eq!(
        map_name("api", "preview_01234567890\u{e9}"),
        Some("api-preview-01234567890\u{e9}".to_string())
    );
}

#[test]
fn other_environments_are_unsupported() {
    assert_eq!(
        worker_name("api", "stage").unwrap_err().message(),
        "unsupported environment \"stage\""
    );
    assert_eq!(map_name("api", "stage"), None);
}

#[test]
fn told_names_are_quoted_and_escaped() {
    assert_eq!(
        worker_name("a\"b\n", "dev").unwrap_err().message(),
        "Worker name \"a\\\"b\\n-dev\" must be a lowercase DNS label no longer than 63 characters"
    );
}

#[test]
fn an_empty_preview_identifier_leaves_no_label() {
    assert_eq!(
        worker_name("api", "preview_").unwrap_err().message(),
        "Worker name \"api-preview-\" must be a lowercase DNS label no longer than 63 characters"
    );
}

#[test]
fn long_names_are_truncated_with_a_digest() {
    let base = "a".repeat(60);
    let mapped = format!("{base}-prod");
    let digest = hex::encode(&blake3::hash(mapped.as_bytes()).as_bytes()[..4]);
    let name = worker_name(&base, "prod").unwrap();
    assert_eq!(name, format!("{}-{digest}", &mapped[..54]));
    assert_eq!(name.len(), 63);
}

#[test]
fn a_given_digest_bounds_a_name() {
    let digest = [0xab; 32];
    assert_eq!(
        bounded_name(&"b".repeat(64), &digest).unwrap(),
        format!("{}-abababab", "b".repeat(54))
    );
    assert_eq!(bounded_name(&"b".repeat(63), &digest).unwrap(), "b".repeat(63));
}

#[test]
fn labels_are_checked() {
    assert!(validate_dns_label("a-1").is_ok());
    assert!(validate_dns_label(&"a".repeat(63)).is_ok());
    for bad in ["", "-a", "a-", "A", "a.b", "\u{e9}"] {
        assert!(validate_dns_label(bad).is_err());
    }
    assert!(validate_dns_label(&"a".repeat(64)).is_err());
}

#[test]
fn valid_contexts_are_accepted_unchanged() {
    let context = sample_context();
    assert_eq!(ComponentContext::from_parsed(Ok(context.clone())).unwrap(), context);
    assert!(context.validate().is_ok());
}

#[test]
fn a_parse_failure_is_told() {
    let error = ComponentContext::from_parsed(Err("expected value".to_string())).unwrap_err();
    assert_eq!(error, ContextError::Json("expected value".to_string()));
    assert_eq!(error.message(), "connector context is invalid JSON: expected value");
}

#[test]
fn the_first_broken_rule_is_told() {
    let mut context = sample_context();
    context.files.push(ProjectFile { path: "../up".to_string(), bytes: vec![] });
    assert_eq!(problem(context.clone()), "project file path \"../up\" is unsafe");
    context.files[0].path = "/etc/x".to_string();
    assert_eq!(problem(context.clone()), "project file path \"/etc/x\" is unsafe");
    context.files.clear();
    assert_eq!(problem(context.clone()), "files must not be empty");
    context.entry = "a/../b".to_string();
    assert_eq!(problem(context.clone()), "entry must be a safe relative path");
    context.entry = "/a".to_string();
    assert_eq!(problem(context.clone()), "entry must be a safe relative path");
    context.worker_name = "Up".to_string();
    assert_eq!(
        problem(context.clone()),
        "Worker name \"Up\" must be a lowercase DNS label no longer than 63 characters"
    );
    context.api_version = "v0".to_string();
    assert_eq!(
        problem(context),
        "apiVersion must be \"henosis.dev/cloudflare-worker/v1\""
    );
}

#[test]
fn contexts_are_written_as_json() {
    let mut context = sample_context();
    let text = context.to_json().to_text();
    let hash = vec!["7"; 32].join(",");
    assert_eq!(
        text,
        format!(
            "{{\"apiVersion\":\"henosis.dev/cloudflare-worker/v1\",\"workerName\":\"service-e\",\
             \"entry\":\"src/index.js\",\"assetsDirectory\":null,\"environment\":\"dev\",\
             \"files\":[{{\"path\":\"src/index.js\",\"bytes\":[101,120,112,111,114,116]}}],\
             \"slots\":[{{\"key\":\"URL\",\"producer\":\"db\",\"output\":\"restUrl\",\
             \"producerSpecHash\":[{hash}]}}]}}"
        )
    );
    context.assets_directory = Some("public".to_string());
    context.tunnel = Some(Tunnel { origin_host: "db".to_string(), origin_port: 5432 });
    let value: serde_json::Value = serde_json::from_str(&context.to_json().to_text()).unwrap();
    assert_eq!(value["assetsDirectory"], "public");
    assert_eq!(value["tunnel"]["originHost"], "db");
    assert_eq!(value["tunnel"]["originPort"], 5432);
    assert!(context.is_tunnel());
}
