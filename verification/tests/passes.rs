use connector_cloudflare::context::{ComponentContext, ProjectFile, Tunnel, API_VERSION};
use connector_cloudflare::lifecycle::{
    ApplyOutcome, Approved, CloudflarePlan, PlanOutcome, RetireOutcome, Retry, Severity,
};
use connector_cloudflare::passes::{
    apply_with, ready_outputs, ApplyStep, ObserveStep, Performed, RetireStep,
};
use connector_cloudflare::reconciler::{digest_name, CloudflareConnector, Observation};
use connector_cloudflare::slice::{ComponentPin, DesiredSlice};
use connector_cloudflare::target::{
    AccountFacts, Deployment, Target, TargetConfig, TargetError,
};
use iddqd::IdOrdMap;

fn hooks() -> CloudflareConnector {
    CloudflareConnector::new(Target::new(TargetConfig {
        wrangler: "wrangler".into(),
        account_id: None,
        api_token: None,
        wrangler_config: None,
        account_subdomain: Some("example".into()),
        secret_root: "/run/secrets".into(),
        api_base: "https://api.cloudflare.test".into(),
        tunnel_token_file: "/tmp/token".into(),
    }))
}

fn worker(hash: u8, name: &str) -> ComponentPin {
    ComponentPin {
        spec_hash: [hash; 32],
        name: name.into(),
        context: ComponentContext {
            api_version: API_VERSION.into(),
            worker_name: name.into(),
            entry: "src/index.js".into(),
            assets_directory: None,
            environment: "dev".into(),
            files: vec![ProjectFile { path: "src/index.js".into(), bytes: vec![] }],
            slots: Vec::new(),
            tunnel: None,
        },
    }
}

fn tunnel(hash: u8, name: &str) -> ComponentPin {
    let mut pin = worker(hash, name);
    pin.context.tunnel = Some(Tunnel { origin_host: "db.internal".into(), origin_port: 5432 });
    pin
}

fn level(components: Vec<ComponentPin>) -> DesiredSlice {
    DesiredSlice {
        graph_id: [9; 16],
        generation: 12,
        sequence: 3,
        components: IdOrdMap::from_iter_unique(components).unwrap(),
        upstream_outputs: IdOrdMap::new(),
        removed_components: Vec::new(),
    }
}

fn deployment(id: &str, claim: Option<&str>) -> Deployment {
    Deployment {
        url: format!("https://{id}.workers.dev"),
        deployment_id: id.into(),
        version_id: format!("{id}-v"),
        claim_url: claim.map(|url| url.to_string()),
    }
}

fn account() -> Option<Result<AccountFacts, TargetError>> {
    Some(Ok(AccountFacts { subdomain: "example".into() }))
}

fn approve(desired: &DesiredSlice, existing: &[&str]) -> Approved {
    let observed = Observation {
        facts: AccountFacts { subdomain: "example".into() },
        existing_workers: existing.iter().map(|name| name.to_string()).collect(),
    };
    match hooks().plan(desired, &observed) {
        PlanOutcome::Apply(proposal) => {
            Approved { plan: proposal.plan.unwrap(), digest: "d1".into() }
        }
        _ => panic!("expected apply plan"),
    }
}

#[test]
fn observing_asks_for_each_worker_but_no_tunnel() {
    let desired = level(vec![worker(1, "a"), tunnel(2, "t"), worker(3, "c")]);
    let mut replies = Vec::new();
    assert_eq!(hooks().observe(&desired, &None, &replies), ObserveStep::FetchFacts);
    assert_eq!(
        hooks().observe(&desired, &account(), &replies),
        ObserveStep::AskWorker("a-dev".into())
    );
    replies.push(Ok(true));
    assert_eq!(
        hooks().observe(&desired, &account(), &replies),
        ObserveStep::AskWorker("c-dev".into())
    );
    replies.push(Ok(false));
    assert_eq!(
        hooks().observe(&desired, &account(), &replies),
        ObserveStep::Observed(Observation {
            facts: AccountFacts { subdomain: "example".into() },
            existing_workers: vec!["a-dev".into()],
        })
    );
}

#[test]
fn a_worker_that_two_components_share_is_listed_once() {
    let desired = level(vec![worker(1, "a"), worker(2, "a")]);
    let replies = vec![Ok(true), Ok(true)];
    let ObserveStep::Observed(found) = hooks().observe(&desired, &account(), &replies) else {
        panic!("expected an observation")
    };
    assert_eq!(found.existing_workers, vec!["a-dev".to_string()]);
}

#[test]
fn observing_stops_where_the_target_fails() {
    let desired = level(vec![worker(1, "a")]);
    let facts = Some(Err(TargetError::Config("no account".into())));
    let ObserveStep::Stopped(PlanOutcome::Waiting { diagnostics, .. }) =
        hooks().observe(&desired, &facts, &Vec::new())
    else {
        panic!("expected a stop")
    };
    assert_eq!(diagnostics[0].message, "cloudflare configuration: no account");
    let replies = vec![Err(TargetError::Provider("down".into()))];
    let ObserveStep::Stopped(PlanOutcome::Waiting { proposal, retry, .. }) =
        hooks().observe(&desired, &account(), &replies)
    else {
        panic!("expected a stop")
    };
    assert_eq!(
        proposal.review.json.to_text(),
        "{\"detail\":\"cloudflare operation failed: down\",\"phase\":\"worker observation\",\
         \"status\":\"blocked\"}"
    );
    assert_eq!(retry, Retry { seconds: 2 });
    let mut bad = worker(1, "a");
    bad.context.environment = "stage".into();
    let ObserveStep::Stopped(PlanOutcome::Failed { diagnostics, .. }) =
        hooks().observe(&level(vec![bad]), &account(), &Vec::new())
    else {
        panic!("expected a stop")
    };
    assert_eq!(diagnostics[0].message, "unsupported environment \"stage\"");
}

#[test]
fn applying_performs_operations_in_order_and_publishes() {
    let mut desired = level(vec![worker(1, "a"), worker(2, "b")]);
    desired.removed_components.push(worker(7, "old"));
    let approved = approve(&desired, &["b-dev"]);
    let mut results = Vec::new();
    assert_eq!(hooks().apply(&desired, &approved, &None, &results), ApplyStep::FetchFacts);
    assert_eq!(hooks().apply(&desired, &approved, &account(), &results), ApplyStep::Delete(0));
    results.push(Ok(Performed::Deleted));
    assert_eq!(hooks().apply(&desired, &approved, &account(), &results), ApplyStep::Deploy(1));
    results.push(Ok(Performed::Deployed(deployment("one", None))));
    assert_eq!(hooks().apply(&desired, &approved, &account(), &results), ApplyStep::Deploy(2));
    results.push(Ok(Performed::Deployed(deployment("two", Some("https://claim")))));
    let ApplyStep::Done(ApplyOutcome::Ready { outputs, diagnostics, publication }) =
        hooks().apply(&desired, &approved, &account(), &results)
    else {
        panic!("expected a published level")
    };
    assert_eq!(outputs.len(), 2);
    assert_eq!(outputs[0].component_spec_hash, [1; 32]);
    assert_eq!(
        outputs[0].values.to_text(),
        "{\"deploymentId\":\"one\",\"url\":\"https://one.workers.dev\",\
         \"versionId\":\"one-v\",\"workerName\":\"a-dev\"}"
    );
    assert_eq!(
        outputs[1].values.to_text(),
        "{\"claimUrl\":\"https://claim\",\"deploymentId\":\"two\",\
         \"url\":\"https://two.workers.dev\",\"versionId\":\"two-v\",\"workerName\":\"b-dev\"}"
    );
    assert_eq!(diagnostics.len(), 1);
    assert_eq!(diagnostics[0].severity, Severity::Info);
    assert_eq!(diagnostics[0].code, "cloudflare.plan.applied");
    assert_eq!(diagnostics[0].message, "S2 plan d1 applied 3 Cloudflare mutations");
    let publication = publication.unwrap();
    assert_eq!(publication.revision, "generation:12");
    assert_eq!(publication.uri, "cloudflare://workers/deployments");
}

#[test]
fn a_level_without_components_publishes_nothing() {
    let mut desired = level(vec![]);
    desired.removed_components.push(worker(7, "old"));
    let approved = approve(&desired, &[]);
    let results = vec![Ok(Performed::Deleted)];
    let ApplyStep::Done(ApplyOutcome::Ready { outputs, publication, .. }) =
        hooks().apply(&desired, &approved, &account(), &results)
    else {
        panic!("expected a published level")
    };
    assert!(outputs.is_empty());
    assert!(publication.is_none());
}

#[test]
fn a_plan_for_another_level_is_refused() {
    let desired = level(vec![worker(1, "a")]);
    let approved = approve(&desired, &[]);
    let mut later = desired.clone();
    later.sequence = 4;
    let ApplyStep::Done(ApplyOutcome::Failed(diagnostics)) =
        hooks().apply(&later, &approved, &account(), &Vec::new())
    else {
        panic!("expected a refusal")
    };
    assert_eq!(diagnostics[0].code, "cloudflare.plan.identity");
    assert_eq!(
        diagnostics[0].message,
        "approved plan does not match the current desired level"
    );
}

#[test]
fn a_given_digest_decides_the_plans_identity() {
    let desired = level(vec![worker(1, "a")]);
    let approved = Approved {
        plan: CloudflarePlan { desired_digest: digest_name(&[7; 32]), operations: vec![] },
        digest: "d".into(),
    };
    let ApplyStep::Done(ApplyOutcome::Failed(diagnostics)) =
        apply_with(&desired, &approved, &[7; 32], &account(), &Vec::new())
    else {
        panic!("expected missing outputs")
    };
    assert_eq!(diagnostics[0].code, "cloudflare.outputs.incomplete");
    assert_eq!(diagnostics[0].message, "deployment missing for component \"a\"");
    let ApplyStep::Done(ApplyOutcome::Failed(diagnostics)) =
        apply_with(&desired, &approved, &[8; 32], &account(), &Vec::new())
    else {
        panic!("expected a refusal")
    };
    assert_eq!(diagnostics[0].code, "cloudflare.plan.identity");
}

#[test]
fn a_failed_operation_ends_the_apply() {
    let desired = level(vec![worker(1, "a"), worker(2, "b")]);
    let approved = approve(&desired, &[]);
    let facts = Some(Err(TargetError::Config("no account".into())));
    let ApplyStep::Done(ApplyOutcome::Waiting { diagnostics, retry }) =
        hooks().apply(&desired, &approved, &facts, &Vec::new())
    else {
        panic!("expected to wait")
    };
    assert_eq!(diagnostics[0].message, "cloudflare configuration: no account");
    assert_eq!(retry.seconds, 2);
    let results = vec![Err(TargetError::Stage("full".into()))];
    let ApplyStep::Done(ApplyOutcome::Waiting { diagnostics, .. }) =
        hooks().apply(&desired, &approved, &account(), &results)
    else {
        panic!("expected to wait")
    };
    assert_eq!(diagnostics[0].message, "deployment staging failed: full");
    let results = vec![
        Ok(Performed::Deployed(deployment("one", None))),
        Err(TargetError::Config("no secret".into())),
    ];
    let ApplyStep::Done(ApplyOutcome::Failed(diagnostics)) =
        hooks().apply(&desired, &approved, &account(), &results)
    else {
        panic!("expected to fail")
    };
    assert_eq!(diagnostics[0].code, "cloudflare.target.config");
    assert_eq!(diagnostics[0].message, "no secret");
}

#[test]
fn tunnels_publish_their_origin() {
    let desired = level(vec![tunnel(2, "t")]);
    let outputs =
        ready_outputs(&desired, &vec![([2; 32], deployment("tid", Some("https://c")))]).unwrap();
    assert_eq!(
        outputs[0].values.to_text(),
        "{\"capability\":\"tid-v\",\"claimUrl\":\"https://c\",\
         \"privateHostname\":\"db.internal:5432\",\
         \"tokenRef\":\"connector-volume://henosis-tunnel/token\",\"tunnelId\":\"tid\",\
         \"tunnelName\":\"t-dev\"}"
    );
}

#[test]
fn the_last_deployment_of_a_component_counts() {
    let desired = level(vec![worker(2, "a")]);
    let deployments =
        vec![([2; 32], deployment("first", None)), ([2; 32], deployment("second", None))];
    let outputs = ready_outputs(&desired, &deployments).unwrap();
    assert!(outputs[0].values.to_text().contains("\"deploymentId\":\"second\""));
    assert_eq!(
        ready_outputs(&desired, &vec![([3; 32], deployment("x", None))]).unwrap_err(),
        "deployment missing for component \"a\""
    );
    let mut bad = worker(2, "a");
    bad.context.environment = "stage".into();
    assert_eq!(
        ready_outputs(&level(vec![bad]), &vec![([2; 32], deployment("x", None))]).unwrap_err(),
        "unsupported environment \"stage\""
    );
}

#[test]
fn retiring_deletes_each_worker() {
    let desired = level(vec![worker(1, "a"), worker(2, "b")]);
    let mut deletions = Vec::new();
    assert_eq!(
        hooks().retire(Some(&desired), &deletions),
        RetireStep::Delete(worker(1, "a"))
    );
    deletions.push(Ok(()));
    assert_eq!(
        hooks().retire(Some(&desired), &deletions),
        RetireStep::Delete(worker(2, "b"))
    );
    deletions.push(Ok(()));
    assert_eq!(
        hooks().retire(Some(&desired), &deletions),
        RetireStep::Done(RetireOutcome::Absent)
    );
}

#[test]
fn retiring_waits_or_is_blocked_by_failures() {
    let desired = level(vec![worker(1, "a")]);
    for error in [TargetError::Provider("x".into()), TargetError::Stage("x".into())] {
        assert_eq!(
            hooks().retire(Some(&desired), &vec![Err(error)]),
            RetireStep::Done(RetireOutcome::Waiting(Retry { seconds: 2 }))
        );
    }
    let RetireStep::Done(RetireOutcome::Blocked(diagnostics)) =
        hooks().retire(Some(&desired), &vec![Err(TargetError::Config("detail".into()))])
    else {
        panic!("expected to be blocked")
    };
    assert_eq!(diagnostics[0].code, "cloudflare.retire.blocked");
    assert_eq!(diagnostics[0].message, "detail");
    let RetireStep::Done(RetireOutcome::Blocked(diagnostics)) = hooks().retire(None, &Vec::new())
    else {
        panic!("expected to be blocked")
    };
    assert_eq!(diagnostics[0].code, "cloudflare.retire.unknown");
    assert_eq!(diagnostics[0].message, "cannot retire an unknown Cloudflare graph");
}
