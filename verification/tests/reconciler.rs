use connector_cloudflare::bindings::{resolve_bindings, BindStep, SlotValue};
use connector_cloudflare::context::{
    ComponentContext, InputSlot, ProjectFile, Tunnel, API_VERSION,
};
use connector_cloudflare::json::Json;
use connector_cloudflare::lifecycle::{
    BlockedInput, ConcurrencyScope, PlanAction, PlanOutcome, Retry, Severity,
};
use connector_cloudflare::reconciler::{
    blocked_inputs, blocked_target_plan, digest_name, failed_plan, plan_with, target_failure,
    target_waiting, unbound_inputs, unbound_slots, CloudflareConnector, Observation, UnboundSlot,
};
use connector_cloudflare::slice::{ComponentPin, DesiredSlice, TargetSlice, UpstreamOutput};
use connector_cloudflare::target::{AccountFacts, Target, TargetConfig, TargetError};
use connector_cloudflare::CONNECTOR_NAME;
use iddqd::IdOrdMap;

fn connector() -> CloudflareConnector {
    CloudflareConnector::new(Target::new(TargetConfig {
        wrangler: "wrangler".into(),
        account_id: None,
        api_token: None,
        wrangler_config: None,
        account_subdomain: Some("example".into()),
        secret_root: "/run/secrets".into(),
        api_base: "https://api.cloudflare.test".into(),
        tunnel_token_file: "/tmp/token".into(),
    }))
}

fn component(hash: u8, name: &str, slots: Vec<InputSlot>) -> ComponentPin {
    ComponentPin {
        spec_hash: [hash; 32],
        name: name.into(),
        context: ComponentContext {
            api_version: API_VERSION.into(),
            worker_name: name.into(),
            entry: "src/index.js".into(),
            assets_directory: None,
            environment: "dev".into(),
            files: vec![ProjectFile {
                path: "src/index.js".into(),
                bytes: b"export default {}".to_vec(),
            }],
            slots,
            tunnel: None,
        },
    }
}

fn slot(key: &str, output: &str, hash: u8) -> InputSlot {
    InputSlot {
        key: key.into(),
        producer: "api".into(),
        output: output.into(),
        producer_spec_hash: [hash; 32],
    }
}

fn desired(component: ComponentPin, outputs: Vec<UpstreamOutput>) -> DesiredSlice {
    DesiredSlice {
        graph_id: [9; 16],
        generation: 2,
        sequence: 3,
        components: IdOrdMap::from_iter_unique([component]).unwrap(),
        upstream_outputs: IdOrdMap::from_iter_unique(outputs).unwrap(),
        removed_components: Vec::new(),
    }
}

fn empty_slice(graph_id: [u8; 16], generation: u64) -> TargetSlice {
    TargetSlice {
        graph_id,
        generation,
        sequence: generation,
        components: Vec::new(),
        upstream_outputs: Vec::new(),
    }
}

fn observation(subdomain: &str, existing: &[&str]) -> Observation {
    Observation {
        facts: AccountFacts { subdomain: subdomain.into() },
        existing_workers: existing.iter().map(|name| name.to_string()).collect(),
    }
}

fn text(json: &Json) -> &str {
    match json {
        Json::Text(text) => text,
        _ => panic!("no text"),
    }
}

#[test]
fn plan_declares_worker_mutation_vars_and_apply_time_unknowns() {
    let desired = desired(
        component(5, "web", vec![slot("BACKEND_URL", "url", 4)]),
        vec![UpstreamOutput {
            component_spec_hash: [4; 32],
            values_json: b"{\"url\":\"https://api\"}".to_vec(),
        }],
    );
    let outcome = connector().plan(&desired, &observation("example", &[]));
    let PlanOutcome::Apply(proposal) = outcome else {
        panic!("expected apply plan")
    };
    assert!(proposal.plan.is_some());
    assert!(proposal.unknown_slots.iter().any(|slot| slot.path.ends_with("/deploymentId")));
    let operation = proposal.review.json.get("operations").unwrap().at(0).unwrap();
    assert_eq!(text(operation.get("action").unwrap()), "create");
    assert_eq!(text(operation.get("vars").unwrap().at(0).unwrap()), "BACKEND_URL");
}

#[test]
fn missing_producer_value_is_a_durable_blocked_plan() {
    let desired = desired(component(5, "web", vec![slot("BACKEND_URL", "url", 4)]), Vec::new());
    let outcome = connector().plan(&desired, &observation("example", &[]));
    let PlanOutcome::Waiting { proposal, diagnostics, retry } = outcome else {
        panic!("expected blocked plan")
    };
    assert_eq!(proposal.blocked_on_inputs.len(), 1);
    assert_eq!(proposal.blocked_on_inputs[0].output, "url");
    assert!(proposal.plan.is_none());
    let producer = "04".repeat(32);
    let path = format!("/components/{}/vars/BACKEND_URL", "05".repeat(32));
    assert_eq!(
        proposal.review.json.to_text(),
        format!("{{\"blockedOnInputs\":[\"{producer}.url\"],\"status\":\"blocked\"}}")
    );
    assert_eq!(
        proposal.review.markdown,
        format!(
            "# Cloudflare plan\n\nBlocked inputs:\n\n- `{path}` waits on `{producer}.url`"
        )
    );
    assert_eq!(diagnostics.len(), 1);
    assert_eq!(diagnostics[0].severity, Severity::Info);
    assert_eq!(diagnostics[0].code, "cloudflare.input.unbound");
    assert_eq!(
        diagnostics[0].message,
        "Cloudflare plan is blocked on required producer outputs: BACKEND_URL requires \
         api.url"
    );
    assert_eq!(retry, Retry { seconds: 2 });
}

#[test]
fn transition_carries_removed_workers_into_delete_plan_context() {
    let prior = desired(component(1, "old-worker", Vec::new()), Vec::new());
    let mut next = desired(component(2, "new-worker", Vec::new()), Vec::new());
    connector()
        .prepare_transition(
            &empty_slice(prior.graph_id, 1),
            &prior,
            &empty_slice(next.graph_id, 2),
            &mut next,
        )
        .unwrap();
    assert_eq!(next.removed_components[0].context.worker_name, "old-worker");
}

#[test]
fn a_renamed_spec_with_the_same_worker_is_not_removed() {
    let prior = desired(component(1, "web", Vec::new()), Vec::new());
    let mut next = desired(component(2, "web", Vec::new()), Vec::new());
    next.removed_components.push(component(7, "stale", Vec::new()));
    connector()
        .prepare_transition(
            &empty_slice(prior.graph_id, 1),
            &prior,
            &empty_slice(next.graph_id, 2),
            &mut next,
        )
        .unwrap();
    assert!(next.removed_components.is_empty());
}

#[test]
fn a_transition_to_a_level_without_names_is_refused() {
    let prior = desired(component(1, "web", Vec::new()), Vec::new());
    let mut bad = component(2, "web", Vec::new());
    bad.context.environment = "stage".into();
    let mut next = desired(bad, Vec::new());
    let before = next.clone();
    let error = connector()
        .prepare_transition(
            &empty_slice(prior.graph_id, 1),
            &prior,
            &empty_slice(next.graph_id, 2),
            &mut next,
        )
        .unwrap_err();
    assert_eq!(error.message, "unsupported environment \"stage\"");
    assert_eq!(next, before);
}

#[test]
fn deletions_come_before_deployments() {
    let mut level = desired(component(5, "web", Vec::new()), Vec::new());
    level.removed_components.push(component(1, "old", Vec::new()));
    let outcome = connector().plan(&level, &observation("", &["web-dev"]));
    let PlanOutcome::Apply(proposal) = outcome else {
        panic!("expected apply plan")
    };
    let plan = proposal.plan.unwrap();
    assert_eq!(plan.desired_digest, digest_name(&level.digest()));
    assert_eq!(plan.operations.len(), 2);
    assert_eq!(plan.operations[0].action, PlanAction::Delete);
    assert_eq!(plan.operations[0].worker_name, "old-dev");
    assert_eq!(plan.operations[1].action, PlanAction::Update);
    assert_eq!(plan.operations[1].worker_name, "web-dev");
    assert_eq!(
        proposal.review.markdown,
        "# Cloudflare plan\n\n- **Delete** `old-dev` (vars: )\n- **Update** `web-dev` (vars: )"
    );
    let hash = "05".repeat(32);
    let paths: Vec<String> =
        proposal.unknown_slots.iter().map(|slot| slot.path.clone()).collect();
    assert_eq!(
        paths,
        [
            format!("/outputs/{hash}/deploymentId"),
            format!("/outputs/{hash}/versionId"),
            format!("/outputs/{hash}/claimUrl"),
            format!("/outputs/{hash}/url"),
        ]
    );
    assert_eq!(
        proposal.unknown_slots[3].reason,
        "workers.dev subdomain is discovered from Wrangler during apply"
    );
    let planned = proposal.review.json.get("plannedOutputs").unwrap().at(0).unwrap();
    assert_eq!(planned.get("url").unwrap(), &Json::Null);
}

#[test]
fn reviews_tell_keys_and_urls_but_no_values() {
    let level = desired(
        component(5, "web", vec![slot("A", "url", 4), slot("B", "url", 4)]),
        vec![UpstreamOutput {
            component_spec_hash: [4; 32],
            values_json: b"{\"url\":\"https://hidden\"}".to_vec(),
        }],
    );
    let PlanOutcome::Apply(proposal) = connector().plan(&level, &observation("example", &[]))
    else {
        panic!("expected apply plan")
    };
    let hash = "05".repeat(32);
    assert_eq!(
        proposal.review.json.to_text(),
        format!(
            "{{\"desiredDigest\":\"{}\",\"operations\":[{{\"action\":\"create\",\
             \"componentSpecHash\":\"{hash}\",\"vars\":[\"A\",\"B\"],\"workerName\":\"web-dev\"}}],\
             \"plannedOutputs\":[{{\"componentSpecHash\":\"{hash}\",\
             \"url\":\"https://web-dev.example.workers.dev\",\"workerName\":\"web-dev\"}}]}}",
            digest_name(&level.digest())
        )
    );
    assert_eq!(
        proposal.review.markdown,
        "# Cloudflare plan\n\n- **Create** `web-dev` (vars: A, B)"
    );
    assert_eq!(proposal.unknown_slots.len(), 3);
}

#[test]
fn an_empty_level_is_ready() {
    let level = DesiredSlice {
        graph_id: [9; 16],
        generation: 2,
        sequence: 3,
        components: IdOrdMap::new(),
        upstream_outputs: IdOrdMap::new(),
        removed_components: Vec::new(),
    };
    let PlanOutcome::Ready { proposal, outputs, diagnostics, publication } =
        connector().plan(&level, &observation("example", &[]))
    else {
        panic!("expected ready plan")
    };
    assert!(proposal.plan.unwrap().operations.is_empty());
    assert!(outputs.is_empty());
    assert!(diagnostics.is_empty());
    assert!(publication.is_none());
}

#[test]
fn levels_without_names_fail() {
    let mut bad = component(5, "web", Vec::new());
    bad.context.environment = "stage".into();
    let mut level = desired(bad.clone(), Vec::new());
    let PlanOutcome::Failed { proposal, diagnostics } =
        connector().plan(&level, &observation("example", &[]))
    else {
        panic!("expected failed plan")
    };
    assert_eq!(
        proposal.review.json.to_text(),
        "{\"detail\":\"unsupported environment \\\"stage\\\"\",\"phase\":\"worker identity\",\
         \"status\":\"failed\"}"
    );
    assert_eq!(
        proposal.review.markdown,
        "# Cloudflare plan\n\n**Status:** failed\n\nunsupported environment \"stage\""
    );
    assert_eq!(diagnostics[0].code, "cloudflare.plan.invalid");
    assert_eq!(diagnostics[0].severity, Severity::Error);
    level.removed_components.push(bad);
    let PlanOutcome::Failed { proposal, .. } =
        connector().plan(&level, &observation("example", &[]))
    else {
        panic!("expected failed plan")
    };
    assert_eq!(text(proposal.review.json.get("phase").unwrap()), "removed worker identity");
}

#[test]
fn tunnels_have_their_own_unknowns_and_no_url() {
    let mut tunnel = component(5, "db", Vec::new());
    tunnel.context.tunnel = Some(Tunnel { origin_host: "db".into(), origin_port: 5432 });
    let level = desired(tunnel, Vec::new());
    let PlanOutcome::Apply(proposal) = connector().plan(&level, &observation("", &[])) else {
        panic!("expected apply plan")
    };
    let hash = "05".repeat(32);
    let paths: Vec<String> =
        proposal.unknown_slots.iter().map(|slot| slot.path.clone()).collect();
    assert_eq!(
        paths,
        [format!("/outputs/{hash}/tunnelId"), format!("/outputs/{hash}/capability")]
    );
}

#[test]
fn inputs_are_blocked_until_their_output_is_there() {
    let wants = component(5, "web", vec![slot("A", "url", 4), slot("B", "other", 4)]);
    let published = |values: &[u8]| {
        desired(
            wants.clone(),
            vec![UpstreamOutput { component_spec_hash: [4; 32], values_json: values.to_vec() }],
        )
    };
    assert_eq!(blocked_inputs(&published(b"{\"url\":null,\"other\":1}")).len(), 0);
    let blocked = blocked_inputs(&published(b"{\"url\":1}"));
    assert_eq!(
        blocked,
        vec![BlockedInput {
            path: format!("/components/{}/vars/B", "05".repeat(32)),
            producer: "04".repeat(32),
            output: "other".into(),
        }]
    );
    assert_eq!(blocked_inputs(&published(b"no json")).len(), 2);
    assert_eq!(blocked_inputs(&published(b"[]")).len(), 2);
}

#[test]
fn given_values_decide_which_slots_are_blocked() {
    let wants = component(5, "web", vec![slot("A", "url", 4), slot("B", "other", 4)]);
    let values = vec![SlotValue::Missing, SlotValue::Found("x".into())];
    assert_eq!(
        unbound_slots(&wants, &values),
        vec![UnboundSlot { component_spec_hash: [5; 32], slot: slot("A", "url", 4) }]
    );
}

#[test]
fn given_inputs_and_digest_decide_the_plan() {
    let level = desired(component(5, "web", Vec::new()), Vec::new());
    let observed = observation("example", &[]);
    let PlanOutcome::Apply(proposal) = plan_with(&level, &observed, Vec::new(), &[0xab; 32])
    else {
        panic!("expected apply plan")
    };
    assert_eq!(
        proposal.plan.unwrap().desired_digest,
        format!("blake3:{}", "ab".repeat(32))
    );
    let mut second = slot("S", "keyRef", 3);
    second.producer = "vault".into();
    let waits = vec![
        UnboundSlot { component_spec_hash: [5; 32], slot: slot("U", "url", 4) },
        UnboundSlot { component_spec_hash: [6; 32], slot: second },
    ];
    let PlanOutcome::Waiting { proposal, diagnostics, .. } =
        plan_with(&level, &observed, waits, &[0; 32])
    else {
        panic!("expected blocked plan")
    };
    assert_eq!(
        proposal.blocked_on_inputs,
        vec![
            BlockedInput {
                path: format!("/components/{}/vars/U", "05".repeat(32)),
                producer: "04".repeat(32),
                output: "url".into(),
            },
            BlockedInput {
                path: format!("/components/{}/vars/S", "06".repeat(32)),
                producer: "03".repeat(32),
                output: "keyRef".into(),
            },
        ]
    );
    let told: Vec<(&str, &str)> =
        diagnostics.iter().map(|note| (note.code.as_str(), note.message.as_str())).collect();
    assert_eq!(
        told,
        [
            (
                "cloudflare.input.unbound",
                "Cloudflare plan is blocked on required producer outputs: U requires api.url"
            ),
            (
                "cloudflare.input.unbound",
                "Cloudflare plan is blocked on required producer outputs: S requires vault.keyRef"
            ),
        ]
    );
}

#[test]
fn planning_and_binding_agree_on_what_is_unbound() {
    let wants = component(5, "web", vec![slot("A", "url", 4), slot("B", "other", 4)]);
    let published = |values: &[u8]| {
        desired(
            wants.clone(),
            vec![UpstreamOutput { component_spec_hash: [4; 32], values_json: values.to_vec() }],
        )
    };
    let full = published(b"{\"url\":1,\"other\":2}");
    assert!(unbound_inputs(&full).is_empty());
    assert!(matches!(resolve_bindings(&full, &wants, &Vec::new()), BindStep::Bound(_)));
    let partial = published(b"{\"url\":1}");
    assert_eq!(
        unbound_inputs(&partial),
        vec![UnboundSlot { component_spec_hash: [5; 32], slot: slot("B", "other", 4) }]
    );
    let BindStep::Failed(error) = resolve_bindings(&partial, &wants, &Vec::new()) else {
        panic!("expected an unbound slot")
    };
    assert_eq!(
        error.message(),
        "cloudflare configuration: cloudflare.input.unbound: B requires api.other"
    );
}

#[test]
fn target_failures_wait_unless_configuration_is_wrong() {
    let provider = TargetError::Provider("down".into());
    let PlanOutcome::Waiting { proposal, diagnostics, retry } =
        blocked_target_plan("account facts", &provider)
    else {
        panic!("expected waiting plan")
    };
    assert!(proposal.plan.is_none());
    assert_eq!(text(proposal.review.json.get("phase").unwrap()), "account facts");
    assert_eq!(diagnostics[0].severity, Severity::Warning);
    assert_eq!(diagnostics[0].code, "cloudflare.target.unavailable");
    assert_eq!(diagnostics[0].message, "cloudflare operation failed: down");
    assert_eq!(retry.seconds, 2);
    assert_eq!(target_failure(&provider), target_waiting(&provider));
    let stage = TargetError::Stage("full".into());
    assert_eq!(target_failure(&stage), target_waiting(&stage));
    let config = TargetError::Config("missing".into());
    assert_ne!(target_failure(&config), target_waiting(&config));
    let PlanOutcome::Failed { .. } = failed_plan("x", "y".into()) else {
        panic!("expected failed plan")
    };
}

#[test]
fn the_connector_tells_its_name_and_scope() {
    let connector = connector();
    assert_eq!(connector.name(), "cloudflare");
    assert_eq!(CONNECTOR_NAME, "cloudflare");
    let level = connector.decode(&empty_slice([1; 16], 4)).unwrap();
    assert_eq!(level.generation, 4);
    assert_eq!(connector.concurrency_scope(&level), ConcurrencyScope::Connector);
}

#[test]
fn a_transition_and_its_plan_delete_only_what_is_gone() {
    let mut prior = desired(component(1, "web", Vec::new()), Vec::new());
    prior.components.insert_unique(component(2, "old", Vec::new())).unwrap();
    let mut next = desired(component(3, "web", Vec::new()), Vec::new());
    let hooks = connector();
    hooks
        .prepare_transition(
            &empty_slice(prior.graph_id, 1),
            &prior,
            &empty_slice(next.graph_id, 2),
            &mut next,
        )
        .unwrap();
    let PlanOutcome::Apply(proposal) = hooks.plan(&next, &observation("example", &["web-dev"]))
    else {
        panic!("expected apply plan")
    };
    let steps: Vec<(PlanAction, String)> = proposal
        .plan
        .unwrap()
        .operations
        .into_iter()
        .map(|operation| (operation.action, operation.worker_name))
        .collect();
    assert_eq!(
        steps,
        [
            (PlanAction::Delete, "old-dev".to_string()),
            (PlanAction::Update, "web-dev".to_string()),
        ]
    );
}

#[test]
fn published_values_do_not_show_in_a_plan() {
    let level = |value: &str| {
        desired(
            component(5, "web", vec![slot("A", "url", 4)]),
            vec![UpstreamOutput {
                component_spec_hash: [4; 32],
                values_json: format!("{{\"url\":\"{value}\"}}").into_bytes(),
            }],
        )
    };
    let observed = observation("example", &[]);
    assert_eq!(
        plan_with(&level("one"), &observed, Vec::new(), &[1; 32]),
        plan_with(&level("two"), &observed, Vec::new(), &[1; 32])
    );
}
