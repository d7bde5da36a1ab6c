use connector_cloudflare::bindings::{
    bind_slots, look_up, resolve_bindings, resolve_secret_ref, BindStep, Bindings, SlotValue,
};
use connector_cloudflare::context::{ComponentContext, InputSlot, ProjectFile, API_VERSION};
use connector_cloudflare::deploy::{DeleteStep, DeployHistory, DeployStep, SecretPut};
use connector_cloudflare::slice::{ComponentPin, DesiredSlice, UpstreamOutput};
use connector_cloudflare::target::{
    AccountFacts, AccountStep, HttpStatus, Target, TargetConfig, TargetError,
};
use connector_cloudflare::wrangler::{
    claim_url, deployment_from, extract_after, CommandOutput, WorkingDirectory, WranglerCommand,
};
use iddqd::IdOrdMap;

fn settings(account: bool) -> TargetConfig {
    TargetConfig {
        wrangler: "/opt/wrangler".into(),
        account_id: account.then(|| "acc".to_string()),
        api_token: account.then(|| "tok".to_string()),
        wrangler_config: None,
        account_subdomain: None,
        secret_root: "/run/secrets".into(),
        api_base: "https://api.test/v4".into(),
        tunnel_token_file: "/tmp/token".into(),
    }
}

fn input(key: &str, output: &str) -> InputSlot {
    InputSlot {
        key: key.into(),
        producer: "db".into(),
        output: output.into(),
        producer_spec_hash: [2; 32],
    }
}

fn pin(slots: Vec<InputSlot>) -> ComponentPin {
    ComponentPin {
        spec_hash: [1; 32],
        name: "api".into(),
        context: ComponentContext {
            api_version: API_VERSION.into(),
            worker_name: "api".into(),
            entry: "src/index.js".into(),
            assets_directory: None,
            environment: "dev".into(),
            files: vec![ProjectFile {
                path: "src/index.js".into(),
                bytes: b"export {}".to_vec(),
            }],
            slots,
            tunnel: None,
        },
    }
}

fn published(values: Option<&str>) -> DesiredSlice {
    let outputs: Vec<UpstreamOutput> = values
        .iter()
        .map(|text| UpstreamOutput {
            component_spec_hash: [2; 32],
            values_json: text.as_bytes().to_vec(),
        })
        .collect();
    DesiredSlice {
        graph_id: [0; 16],
        generation: 1,
        sequence: 1,
        components: IdOrdMap::new(),
        upstream_outputs: IdOrdMap::from_iter_unique(outputs).unwrap(),
        removed_components: Vec::new(),
    }
}

fn entry(key: &str, value: &str) -> (String, String) {
    (key.to_string(), value.to_string())
}

fn strings(list: &[&str]) -> Vec<String> {
    list.iter().map(|text| text.to_string()).collect()
}

fn output(success: bool, stdout: &str, stderr: &str) -> CommandOutput {
    CommandOutput { success, stdout: stdout.into(), stderr: stderr.into() }
}

fn untouched() -> DeployHistory {
    DeployHistory {
        staged: None,
        secrets_read: Vec::new(),
        deployed: None,
        secrets_put: Vec::new(),
    }
}

fn failure(step: BindStep) -> String {
    match step {
        BindStep::Failed(error) => error.message(),
        _ => panic!("expected a failure"),
    }
}

#[test]
fn missing_current_generation_value_is_unbound() {
    let component = ComponentPin {
        spec_hash: [1; 32],
        name: "api".into(),
        context: ComponentContext {
            api_version: API_VERSION.into(),
            worker_name: "api".into(),
            entry: "src/index.js".into(),
            assets_directory: None,
            environment: "dev".into(),
            files: vec![],
            slots: vec![InputSlot {
                key: "URL".into(),
                producer: "db".into(),
                output: "restUrl".into(),
                producer_spec_hash: [2; 32],
            }],
            tunnel: None,
        },
    };
    let desired = DesiredSlice {
        graph_id: [0; 16],
        generation: 1,
        sequence: 1,
        components: IdOrdMap::new(),
        upstream_outputs: IdOrdMap::<UpstreamOutput>::new(),
        removed_components: Vec::new(),
    };
    let BindStep::Failed(error) = resolve_bindings(&desired, &component, &Vec::new()) else {
        panic!("expected an unbound slot")
    };
    let error = error.message();
    assert!(error.contains("cloudflare.input.unbound"));
    assert!(error.contains("db.restUrl"));
}

#[test]
fn slots_take_their_values_from_the_level() {
    let slot = input("URL", "restUrl");
    assert_eq!(look_up(&published(None), &slot), SlotValue::Unpublished);
    assert_eq!(look_up(&published(Some("{}")), &slot), SlotValue::Missing);
    assert_eq!(look_up(&published(Some("7")), &slot), SlotValue::Missing);
    assert_eq!(
        look_up(&published(Some("{\"restUrl\":\"a\\nb\"}")), &slot),
        SlotValue::Found("a\nb".into())
    );
    assert_eq!(
        look_up(&published(Some("{\"restUrl\": {\"b\": [1, null]}}")), &slot),
        SlotValue::Found("{\"b\":[1,null]}".into())
    );
    let message = serde_json::from_slice::<serde_json::Value>(b"{").unwrap_err().to_string();
    assert_eq!(
        look_up(&published(Some("{")), &slot),
        SlotValue::Unreadable(message.clone())
    );
    assert_eq!(
        failure(resolve_bindings(&published(Some("{")), &pin(vec![slot]), &Vec::new())),
        format!("cloudflare configuration: {message}")
    );
}

#[test]
fn bindings_are_sorted_and_the_last_slot_wins() {
    let desired = published(Some("{\"a\":\"1\",\"b\":\"2\",\"c\":\"3\"}"));
    let component =
        pin(vec![input("Z", "a"), input("M", "b"), input("Z", "c"), input("A", "a")]);
    assert_eq!(
        resolve_bindings(&desired, &component, &Vec::new()),
        BindStep::Bound(Bindings {
            plain: vec![entry("A", "1"), entry("M", "2"), entry("Z", "3")],
            secrets: Vec::new(),
        })
    );
}

#[test]
fn references_are_bound_as_secrets() {
    let desired =
        published(Some("{\"url\":\"u\",\"keyRef\":\"docker-secret://key\",\"Ref\":\"docker-secret://x/y\"}"));
    let component = pin(vec![input("K", "keyRef"), input("U", "url"), input("B", "Ref")]);
    let mut reads = Vec::new();
    assert_eq!(
        resolve_bindings(&desired, &component, &reads),
        BindStep::ReadSecret("key".into())
    );
    reads.push(Ok("top \n".to_string()));
    assert_eq!(
        resolve_bindings(&desired, &component, &reads),
        BindStep::ReadSecret("x/y".into())
    );
    reads.push(Ok(" s\t".to_string()));
    assert_eq!(
        resolve_bindings(&desired, &component, &reads),
        BindStep::Bound(Bindings {
            plain: vec![entry("U", "u")],
            secrets: vec![entry("B", " s"), entry("K", "top")],
        })
    );
    reads[0] = Err("No such file".to_string());
    assert_eq!(
        failure(resolve_bindings(&desired, &component, &reads)),
        "cloudflare configuration: cannot resolve secret ref \"docker-secret://key\": No such file"
    );
}

#[test]
fn plaintext_is_no_reference() {
    assert_eq!(resolve_secret_ref("docker-secret://name").unwrap(), "name");
    assert_eq!(
        resolve_secret_ref("hunter2").unwrap_err().message(),
        "cloudflare configuration: unsupported secret reference \"hunter2\"; plaintext values \
         never cross core"
    );
    let desired = published(Some("{\"keyRef\":\"hunter2\"}"));
    assert_eq!(
        failure(resolve_bindings(&desired, &pin(vec![input("K", "keyRef")]), &Vec::new())),
        "cloudflare configuration: unsupported secret reference \"hunter2\"; plaintext values \
         never cross core"
    );
}

#[test]
fn references_out_of_the_secret_root_are_refused() {
    for name in ["/", "/etc/x", "..", "../x", "./../x", "a/../../b", "a//../../b", "a/b/../../.."] {
        let reference = format!("docker-secret://{name}");
        let told = format!(
            "cloudflare configuration: secret reference {reference:?} must name a file under the \
             secret root"
        );
        assert_eq!(resolve_secret_ref(&reference).unwrap_err().message(), told);
        let desired = published(Some(&format!("{{\"keyRef\":\"{reference}\"}}")));
        let component = pin(vec![input("K", "keyRef")]);
        assert_eq!(failure(resolve_bindings(&desired, &component, &Vec::new())), told);
        let mut history = untouched();
        history.staged = Some(Ok(()));
        let facts = AccountFacts { subdomain: "example".into() };
        let step = Target::new(settings(true)).deploy(&desired, &component, &facts, &history);
        let DeployStep::Done(Err(error)) = step else {
            panic!("expected a failure")
        };
        assert!(matches!(error, TargetError::Config(_)));
        assert_eq!(error.message(), told);
    }
    for name in [
        "", "key", "x/y", "a..b", "...", "a/...", "..a/b", "./x", "a/", "a/../b", "a/..", "a//../b",
        "a/b/../../c",
    ] {
        assert_eq!(resolve_secret_ref(&format!("docker-secret://{name}")).unwrap(), name);
    }
}

#[test]
fn producer_names_do_not_change_bindings() {
    let desired = published(Some("{\"a\":\"1\"}"));
    let mut renamed = input("A", "a");
    renamed.producer = "other".into();
    assert_eq!(
        resolve_bindings(&desired, &pin(vec![input("A", "a")]), &Vec::new()),
        resolve_bindings(&desired, &pin(vec![renamed.clone()]), &Vec::new())
    );
    assert_eq!(
        failure(resolve_bindings(&published(None), &pin(vec![renamed]), &Vec::new())),
        "cloudflare configuration: cloudflare.input.unbound: A requires other.a"
    );
}

#[test]
fn given_values_are_bound() {
    let slots = vec![input("A", "x"), input("B", "yRef")];
    let values = vec![
        SlotValue::Found("1".into()),
        SlotValue::Found("docker-secret://s".into()),
    ];
    assert_eq!(
        bind_slots(&slots, &values, &vec![Ok("v".to_string())]),
        BindStep::Bound(Bindings {
            plain: vec![entry("A", "1")],
            secrets: vec![entry("B", "v")],
        })
    );
    let values = vec![SlotValue::Missing, SlotValue::Unpublished];
    assert_eq!(
        failure(bind_slots(&slots, &values, &Vec::new())),
        "cloudflare configuration: cloudflare.input.unbound: A requires db.x"
    );
}

#[test]
fn a_configured_subdomain_needs_no_request() {
    let mut config = settings(false);
    config.account_subdomain = Some("example".into());
    assert_eq!(
        Target::new(config).account_facts(&None, &None),
        AccountStep::Done(Ok(AccountFacts { subdomain: "example".into() }))
    );
}

#[test]
fn the_account_api_needs_account_and_token() {
    let mut config = settings(false);
    assert_eq!(
        Target::new(config.clone()).account_facts(&None, &None),
        AccountStep::Done(Err(TargetError::Config(
            "CLOUDFLARE_ACCOUNT_ID is required for plan-time workers.dev URLs".into()
        )))
    );
    config.account_id = Some("acc".into());
    assert_eq!(
        Target::new(config).account_facts(&None, &None),
        AccountStep::Done(Err(TargetError::Config(
            "CLOUDFLARE_API_TOKEN is required for plan-time workers.dev URLs".into()
        )))
    );
}

#[test]
fn the_account_api_is_asked_for_the_subdomain() {
    let target = Target::new(settings(true));
    assert_eq!(
        target.account_facts(&None, &None),
        AccountStep::Fetch {
            url: "https://api.test/v4/accounts/acc/workers/subdomain".into(),
            token: "tok".into(),
        }
    );
    let sent = |code: u16, text: &str| Some(Ok(HttpStatus { code, text: text.into() }));
    assert_eq!(target.account_facts(&sent(200, "200 OK"), &None), AccountStep::ReadBody);
    assert_eq!(target.account_facts(&sent(299, "299"), &None), AccountStep::ReadBody);
    for (code, text) in [(404, "404 Not Found"), (199, "199"), (300, "300 Multiple Choices")] {
        assert_eq!(
            target.account_facts(&sent(code, text), &Some(Ok("example".into()))),
            AccountStep::Done(Err(TargetError::Provider(format!(
                "workers subdomain API returned {text}"
            ))))
        );
    }
    assert_eq!(
        target.account_facts(&Some(Err("refused".into())), &None),
        AccountStep::Done(Err(TargetError::Provider("refused".into())))
    );
    assert_eq!(
        target.account_facts(&sent(200, "200 OK"), &Some(Err("no json".into()))),
        AccountStep::Done(Err(TargetError::Provider("no json".into())))
    );
    assert_eq!(
        target.account_facts(&sent(200, "200 OK"), &Some(Ok("example".into()))),
        AccountStep::Done(Ok(AccountFacts { subdomain: "example".into() }))
    );
}

#[test]
fn a_deployment_stages_binds_deploys_and_puts_secrets() {
    let target = Target::new(settings(true));
    let desired = published(Some("{\"url\":\"u:1\",\"keyRef\":\"docker-secret://key\"}"));
    let component = pin(vec![input("U", "url"), input("K", "keyRef")]);
    let facts = AccountFacts { subdomain: "example".into() };
    let mut history = untouched();
    assert_eq!(
        target.deploy(&desired, &component, &facts, &history),
        DeployStep::Stage(vec![ProjectFile {
            path: "src/index.js".into(),
            bytes: b"export {}".to_vec(),
        }])
    );
    history.staged = Some(Ok(()));
    assert_eq!(
        target.deploy(&desired, &component, &facts, &history),
        DeployStep::ReadSecret { root: "/run/secrets".into(), name: "key".into() }
    );
    history.secrets_read.push(Ok("top\n".into()));
    let environment =
        vec![entry("CLOUDFLARE_ACCOUNT_ID", "acc"), entry("CLOUDFLARE_API_TOKEN", "tok")];
    assert_eq!(
        target.deploy(&desired, &component, &facts, &history),
        DeployStep::Run(WranglerCommand {
            program: "/opt/wrangler".into(),
            arguments: strings(&["deploy", "--name", "api-dev", "--var", "U:u:1"]),
            environment: environment.clone(),
            directory: WorkingDirectory::Staging,
        })
    );
    history.deployed = Some(Ok(output(true, "Version ID: v1\n", "")));
    assert_eq!(
        target.deploy(&desired, &component, &facts, &history),
        DeployStep::PutSecret {
            command: WranglerCommand {
                program: "/opt/wrangler".into(),
                arguments: strings(&["secret", "put", "K", "--name", "api-dev"]),
                environment,
                directory: WorkingDirectory::Staging,
            },
            value: "top".into(),
        }
    );
    history.secrets_put.push(SecretPut::Ended(true));
    let DeployStep::Done(Ok(deployment)) = target.deploy(&desired, &component, &facts, &history)
    else {
        panic!("expected a deployment")
    };
    assert_eq!(deployment.url, "https://api-dev.example.workers.dev");
    assert_eq!(deployment.version_id, "v1");
    assert_eq!(deployment.deployment_id, "v1");
    assert_eq!(deployment.claim_url, None);
}

#[test]
fn a_deployment_fails_at_the_step_that_failed() {
    let target = Target::new(settings(false));
    let desired = published(Some("{\"keyRef\":\"docker-secret://key\"}"));
    let component = pin(vec![input("K", "keyRef")]);
    let facts = AccountFacts { subdomain: "example".into() };
    let told = |history: &DeployHistory| match target.deploy(&desired, &component, &facts, history)
    {
        DeployStep::Done(Err(error)) => error.message(),
        _ => panic!("expected a failure"),
    };
    let mut history = untouched();
    history.staged = Some(Err("full".into()));
    assert_eq!(told(&history), "deployment staging failed: full");
    history.staged = Some(Ok(()));
    history.secrets_read.push(Ok("s".into()));
    history.deployed = Some(Err("not found".into()));
    assert_eq!(told(&history), "cloudflare operation failed: not found");
    history.deployed = Some(Ok(output(false, "out", "broken")));
    assert_eq!(told(&history), "cloudflare operation failed: broken");
    history.deployed = Some(Ok(output(true, "", "")));
    history.secrets_put.push(SecretPut::Failed("pipe".into()));
    assert_eq!(told(&history), "cloudflare operation failed: pipe");
    history.secrets_put[0] = SecretPut::NoInput;
    assert_eq!(told(&history), "cloudflare operation failed: wrangler secret stdin unavailable");
    history.secrets_put[0] = SecretPut::Ended(false);
    assert_eq!(told(&history), "cloudflare operation failed: wrangler secret put failed for K");
    let mut nameless = component.clone();
    nameless.context.environment = "stage".into();
    let DeployStep::Done(Err(error)) = target.deploy(&desired, &nameless, &facts, &history) else {
        panic!("expected a failure")
    };
    assert_eq!(
        error,
        TargetError::Config("unsupported environment \"stage\"".into())
    );
}

#[test]
fn a_deletion_runs_wrangler() {
    let target = Target::new(settings(false));
    let component = pin(vec![]);
    assert_eq!(
        target.delete(&component, &None),
        DeleteStep::Run(WranglerCommand {
            program: "/opt/wrangler".into(),
            arguments: strings(&["delete", "--name", "api-dev", "--force"]),
            environment: Vec::new(),
            directory: WorkingDirectory::Inherited,
        })
    );
    assert_eq!(
        target.delete(&component, &Some(Ok(output(true, "", "warned")))),
        DeleteStep::Done(Ok(()))
    );
    assert_eq!(
        target.delete(&component, &Some(Ok(output(false, "", "gone")))),
        DeleteStep::Done(Err(TargetError::Provider("gone".into())))
    );
    assert_eq!(
        target.delete(&component, &Some(Err("spawn".into()))),
        DeleteStep::Done(Err(TargetError::Provider("spawn".into())))
    );
    let mut nameless = component;
    nameless.context.environment = "stage".into();
    assert_eq!(
        target.delete(&nameless, &None),
        DeleteStep::Done(Err(TargetError::Config("unsupported environment \"stage\"".into())))
    );
}

#[test]
fn versions_are_read_in_the_output() {
    let text = "Uploaded\r\nCurrent Version ID:  abc-1 \r\nVersion ID: other";
    assert_eq!(extract_after(text, "Version ID:"), Some("abc-1".to_string()));
    assert_eq!(extract_after("Version ID:   \nVersion ID: x", "Version ID:"), None);
    assert_eq!(extract_after("nothing", "Version ID:"), None);
    assert_eq!(extract_after("", "Version ID:"), None);
}

#[test]
fn an_output_without_a_version_is_identified_by_its_hash() {
    let facts = AccountFacts { subdomain: "example".into() };
    let stdout = "Deployed\n";
    let mut history = untouched();
    history.staged = Some(Ok(()));
    history.deployed = Some(Ok(output(true, stdout, "")));
    let target = Target::new(settings(false));
    let DeployStep::Done(Ok(deployment)) =
        target.deploy(&published(None), &pin(vec![]), &facts, &history)
    else {
        panic!("expected a deployment")
    };
    let id = hex::encode(&blake3::hash(stdout.as_bytes()).as_bytes()[..16]);
    assert_eq!(deployment.version_id, id);
    assert_eq!(deployment.deployment_id, id);
    let given = deployment_from("api-dev", &facts, stdout, &[0x1f; 32]);
    assert_eq!(given.version_id, "1f".repeat(16));
}

#[test]
fn given_bindings_and_digest_decide_the_deployment() {
    let target = Target::new(settings(false));
    let facts = AccountFacts { subdomain: "example".into() };
    let bindings =
        || Bindings { plain: vec![entry("A", "1")], secrets: vec![entry("S", "hidden")] };
    let mut history = untouched();
    let DeployStep::Run(command) = target.deploy_bound(
        "api-dev",
        BindStep::Bound(bindings()),
        &facts,
        &history,
        &[0; 32],
    ) else {
        panic!("expected a command")
    };
    assert_eq!(command.arguments, strings(&["deploy", "--name", "api-dev", "--var", "A:1"]));
    history.deployed = Some(Ok(output(true, "done", "")));
    let DeployStep::PutSecret { command, value } = target.deploy_bound(
        "api-dev",
        BindStep::Bound(bindings()),
        &facts,
        &history,
        &[0x2c; 32],
    ) else {
        panic!("expected a secret")
    };
    assert!(!command.arguments.contains(&value));
    assert_eq!(value, "hidden");
    history.secrets_put.push(SecretPut::Ended(true));
    let DeployStep::Done(Ok(deployment)) = target.deploy_bound(
        "api-dev",
        BindStep::Bound(bindings()),
        &facts,
        &history,
        &[0x2c; 32],
    ) else {
        panic!("expected a deployment")
    };
    assert_eq!(deployment.version_id, "2c".repeat(16));
}

#[test]
fn claim_urls_are_read_in_the_output() {
    let url = "https://dash.cloudflare.com/sign-up/workers-and-pages?claim=a1";
    assert_eq!(
        claim_url(&format!("Claim at\u{2003}{url}).\nor {url}/x")),
        Some(url.to_string())
    );
    assert_eq!(
        claim_url("https://dash.cloudflare.com/sign-up/workers-and-pages/)"),
        Some("https://dash.cloudflare.com/sign-up/workers-and-pages/".to_string())
    );
    assert_eq!(claim_url("x https://dash.cloudflare.com/other"), None);
}
