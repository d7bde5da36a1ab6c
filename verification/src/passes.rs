//! The passes over a level, one step at a time: each function looks at what has happened so far and
//! says what comes next.

use vstd::prelude::*;
use vstd::string::*;

use crate::authoring::outputs_schema;
use crate::context::ContextErrorView;
use crate::hexadecimal::lower_hex;
use crate::json::{add_member, Json, JsonView};
use crate::lifecycle::{
    one, ApplyOutcome, ApplyOutcomeView, Approved, ApprovedView, Diagnostic, DiagnosticView,
    OperationView, Output, OutputView, PlanAction, PlanOutcome, PlanOutcomeView, Publication,
    PublicationView, RetireOutcome, RetireOutcomeView, Retry, Severity,
};
use crate::model::{
    count_of, lemma_count_next, option_view, outcome_views, pair_views, result_view, views,
};
use crate::outside::{debug_quoted, debug_text, pins_list};
use crate::reconciler::{
    blocked_outcome, blocked_target_plan, deploy_operation, digest_name, digest_text,
    failed_outcome, failed_plan, failure_outcome, includes_text, lemma_names_exist, level_digest,
    planned_operations, planned_with, short_wait, target_failure, target_waiting, told,
    waiting_outcome, CloudflareConnector, Observation, ObservationView, UnboundView,
};
use crate::slice::{same_hash, ComponentPin, DesiredSlice, DesiredView, PinView};
use crate::target::{
    happened, AccountFacts, Deployment, DeploymentView, FactsView, TargetError, TargetErrorView,
};
use crate::text::{decimal, same_text, to_decimal};

verus! {

/// Where observing a level stands.
#[derive(Debug, PartialEq, Eq)]
pub enum ObserveStep {
    /// The account's facts have to be found out.
    FetchFacts,
    /// It has to be found out whether the Worker of this name exists.
    AskWorker(String),
    Observed(Observation),
    /// The pass ends here.
    Stopped(PlanOutcome),
}

/// What performing one operation of a plan came to.
#[derive(Debug, PartialEq, Eq)]
pub enum Performed {
    Deleted,
    Deployed(Deployment),
}

/// Where applying a plan stands.
#[derive(Debug, PartialEq, Eq)]
pub enum ApplyStep {
    /// The account's facts have to be found out.
    FetchFacts,
    /// The Worker of the operation at this position has to be deleted.
    Delete(usize),
    /// The component of the operation at this position has to be deployed.
    Deploy(usize),
    Done(ApplyOutcome),
}

/// Where retiring a graph stands.
#[derive(Debug, PartialEq, Eq)]
pub enum RetireStep {
    /// The Worker of this component has to be deleted.
    Delete(ComponentPin),
    Done(RetireOutcome),
}

// ---------------------------------------------------------------------------
// Views
// ---------------------------------------------------------------------------
/// What an `ObserveStep` says.
pub enum ObserveStepView {
    FetchFacts,
    AskWorker(Seq<char>),
    Observed(ObservationView),
    Stopped(PlanOutcomeView),
}

/// What a `Performed` says.
pub enum PerformedView {
    Deleted,
    Deployed(DeploymentView),
}

/// What an `ApplyStep` says.
pub enum ApplyStepView {
    FetchFacts,
    Delete(int),
    Deploy(int),
    Done(ApplyOutcomeView),
}

/// What a `RetireStep` says.
pub enum RetireStepView {
    Delete(PinView),
    Done(RetireOutcomeView),
}

impl View for ObserveStep {
    type V = ObserveStepView;

    open spec fn view(&self) -> ObserveStepView {
        match self {
            ObserveStep::FetchFacts => ObserveStepView::FetchFacts,
            ObserveStep::AskWorker(name) => ObserveStepView::AskWorker(name@),
            ObserveStep::Observed(observation) => ObserveStepView::Observed(observation@),
            ObserveStep::Stopped(outcome) => ObserveStepView::Stopped(outcome@),
        }
    }
}

impl View for Performed {
    type V = PerformedView;

    open spec fn view(&self) -> PerformedView {
        match self {
            Performed::Deleted => PerformedView::Deleted,
            Performed::Deployed(deployment) => PerformedView::Deployed(deployment@),
        }
    }
}

impl View for ApplyStep {
    type V = ApplyStepView;

    open spec fn view(&self) -> ApplyStepView {
        match self {
            ApplyStep::FetchFacts => ApplyStepView::FetchFacts,
            ApplyStep::Delete(at) => ApplyStepView::Delete(*at as int),
            ApplyStep::Deploy(at) => ApplyStepView::Deploy(*at as int),
            ApplyStep::Done(outcome) => ApplyStepView::Done(outcome@),
        }
    }
}

impl View for RetireStep {
    type V = RetireStepView;

    open spec fn view(&self) -> RetireStepView {
        match self {
            RetireStep::Delete(component) => RetireStepView::Delete(component@),
            RetireStep::Done(outcome) => RetireStepView::Done(outcome@),
        }
    }
}

// ---------------------------------------------------------------------------
// Observing
// ---------------------------------------------------------------------------
/// Names with one more, which stands among them once.
pub open spec fn with_name(names: Seq<Seq<char>>, name: Seq<char>) -> Seq<Seq<char>> {
    if names.contains(name) {
        names
    } else {
        names.push(name)
    }
}

/// Where observing the components from `at` on stands; `used` of the replies so far were about
/// those before `at`, whose existing Workers are `existing`.
pub open spec fn observing(
    components: Seq<PinView>,
    facts: FactsView,
    replies: Seq<Result<bool, TargetErrorView>>,
    at: int,
    used: int,
    existing: Seq<Seq<char>>,
) -> ObserveStepView
    decreases components.len() - at,
{
    if at >= components.len() {
        ObserveStepView::Observed(ObservationView { facts, existing_workers: existing })
    } else if components[at].context.is_tunnel() {
        observing(components, facts, replies, at + 1, used, existing)
    } else {
        match components[at].context.deployed_name() {
            Err(error) => ObserveStepView::Stopped(
                failed_outcome("worker identity"@, error.message()),
            ),
            Ok(name) => if used >= replies.len() {
                ObserveStepView::AskWorker(name)
            } else {
                match replies[used] {
                    Err(error) => ObserveStepView::Stopped(
                        blocked_outcome("worker observation"@, error),
                    ),
                    Ok(exists) => observing(
                        components,
                        facts,
                        replies,
                        at + 1,
                        used + 1,
                        if exists {
                            with_name(existing, name)
                        } else {
                            existing
                        },
                    ),
                }
            },
        }
    }
}

/// Where observing a level stands: `facts` is what became of finding out the account's facts, and
/// `replies` what became of asking for its Workers.
pub open spec fn observe_step(
    desired: DesiredView,
    facts: Option<Result<FactsView, TargetErrorView>>,
    replies: Seq<Result<bool, TargetErrorView>>,
) -> ObserveStepView {
    match facts {
        None => ObserveStepView::FetchFacts,
        Some(Err(error)) => ObserveStepView::Stopped(blocked_outcome("account facts"@, error)),
        Some(Ok(facts)) => observing(desired.components, facts, replies, 0, 0, Seq::empty()),
    }
}

impl CloudflareConnector {
    /// Observe a level: what comes next, after what has happened so far.
    pub fn observe(
        &self,
        desired: &DesiredSlice,
        facts: &Option<Result<AccountFacts, TargetError>>,
        replies: &Vec<Result<bool, TargetError>>,
    ) -> (step: ObserveStep)
        ensures
            step@ == observe_step(desired@, happened(*facts), outcome_views(replies@)),
    {
        let known = match facts {
            None => {
                return ObserveStep::FetchFacts;
            },
            Some(Err(error)) => {
                return ObserveStep::Stopped(blocked_target_plan("account facts", error));
            },
            Some(Ok(known)) => known,
        };
        let list = pins_list(&desired.components);
        let mut existing: Vec<String> = Vec::new();
        let mut used: usize = 0;
        let ghost components = desired@.components;
        let ghost said = outcome_views(replies@);
        assert(views(existing@) =~= Seq::empty());
        for at in 0..list.len()
            invariant
                list@.len() == components.len(),
                forall|j: int| 0 <= j < list@.len() ==> (#[trigger] list@[j])@ == components[j],
                said == outcome_views(replies@),
                used <= at,
                used <= replies@.len(),
                observing(components, known@, said, 0, 0, Seq::empty()) == observing(
                    components,
                    known@,
                    said,
                    at as int,
                    used as int,
                    views(existing@),
                ),
                observe_step(desired@, happened(*facts), said) == observing(
                    components,
                    known@,
                    said,
                    0,
                    0,
                    Seq::empty(),
                ),
        {
            let component = list[at];
            assert(component@ == components[at as int]);
            if !component.context.is_tunnel() {
                match component.context.deployed_name() {
                    Err(error) => {
                        return ObserveStep::Stopped(
                            failed_plan("worker identity", error.message()),
                        );
                    },
                    Ok(name) => {
                        if used >= replies.len() {
                            return ObserveStep::AskWorker(name);
                        }
                        assert(said[used as int] == result_view(replies@[used as int]));
                        match &replies[used] {
                            Err(error) => {
                                return ObserveStep::Stopped(
                                    blocked_target_plan("worker observation", error),
                                );
                            },
                            Ok(exists) => {
                                if *exists && !includes_text(&existing, name.as_str()) {
                                    let ghost before = existing@;
                                    existing.push(name);
                                    assert(views(existing@) =~= views(before).push(name@));
                                }
                            },
                        }
                        used = used + 1;
                    },
                }
            }
        }
        ObserveStep::Observed(Observation { facts: known.clone(), existing_workers: existing })
    }
}

// ---------------------------------------------------------------------------
// Outputs
// ---------------------------------------------------------------------------
/// The deployment of the component with this spec hash: the last one recorded.
pub open spec fn deployment_of(
    deployments: Seq<(Seq<u8>, DeploymentView)>,
    hash: Seq<u8>,
) -> Option<DeploymentView>
    decreases deployments.len(),
{
    if deployments.len() == 0 {
        None
    } else if deployments.last().0 == hash {
        Some(deployments.last().1)
    } else {
        deployment_of(deployments.drop_last(), hash)
    }
}

/// The claim URL, where a deployment has one.
pub open spec fn claim_member(deployment: DeploymentView) -> Seq<(Seq<char>, JsonView)> {
    match deployment.claim_url {
        Some(url) => seq![("claimUrl"@, JsonView::Text(url))],
        None => Seq::empty(),
    }
}

/// What a deployed component publishes.
pub open spec fn output_values(
    component: PinView,
    worker_name: Seq<char>,
    deployment: DeploymentView,
) -> JsonView {
    match component.context.tunnel {
        Some(tunnel) => JsonView::Object(
            seq![("capability"@, JsonView::Text(deployment.version_id))] + claim_member(deployment)
                + seq![
                (
                    "privateHostname"@,
                    JsonView::Text(tunnel.origin_host + ":"@ + decimal(tunnel.origin_port)),
                ),
                ("tokenRef"@, JsonView::Text("connector-volume://henosis-tunnel/token"@)),
                ("tunnelId"@, JsonView::Text(deployment.deployment_id)),
                ("tunnelName"@, JsonView::Text(worker_name)),
            ],
        ),
        None => JsonView::Object(
            claim_member(deployment) + seq![
                ("deploymentId"@, JsonView::Text(deployment.deployment_id)),
                ("url"@, JsonView::Text(deployment.url)),
                ("versionId"@, JsonView::Text(deployment.version_id)),
                ("workerName"@, JsonView::Text(worker_name)),
            ],
        ),
    }
}

/// Why the first component, from `from` on, without an output has none.
pub open spec fn output_problem(
    components: Seq<PinView>,
    deployments: Seq<(Seq<u8>, DeploymentView)>,
    from: int,
) -> Option<Seq<char>>
    decreases components.len() - from,
{
    if from >= components.len() {
        None
    } else if deployment_of(deployments, components[from].spec_hash) is None {
        Some("deployment missing for component "@ + debug_quoted(components[from].name))
    } else if let Err(error) = components[from].context.deployed_name() {
        Some(error.message())
    } else {
        output_problem(components, deployments, from + 1)
    }
}

/// What a component publishes, given the deployments.
pub open spec fn component_output(
    component: PinView,
    deployments: Seq<(Seq<u8>, DeploymentView)>,
) -> OutputView {
    OutputView {
        component_spec_hash: component.spec_hash,
        values: output_values(
            component,
            component.context.deployed_name()->Ok_0,
            deployment_of(deployments, component.spec_hash)->Some_0,
        ),
    }
}

/// What the components publish, given the deployments.
pub open spec fn outputs_of(
    components: Seq<PinView>,
    deployments: Seq<(Seq<u8>, DeploymentView)>,
) -> Seq<OutputView> {
    components.map_values(|component: PinView| component_output(component, deployments))
}

/// The deployment of the component with this spec hash: the last one recorded.
fn find_deployment<'a>(deployments: &'a Vec<([u8; 32], Deployment)>, hash: &[u8; 32]) -> (
    deployment: Option<&'a Deployment>)
    ensures
        match deployment {
            Some(deployment) => deployment_of(pair_views(deployments@), hash@) == Some(deployment@),
            None => deployment_of(pair_views(deployments@), hash@) is None,
        },
{
    let ghost said = pair_views(deployments@);
    let mut end: usize = deployments.len();
    assert(said.take(end as int) =~= said);
    while end > 0
        invariant
            end <= deployments@.len(),
            said == pair_views(deployments@),
            deployment_of(said, hash@) == deployment_of(said.take(end as int), hash@),
        decreases end,
    {
        proof {
            assert(said.take(end as int).drop_last() =~= said.take(end - 1));
            assert(said.take(end as int).last() == (
                deployments@[end - 1].0@,
                deployments@[end - 1].1@,
            ));
        }
        if same_hash(&deployments[end - 1].0, hash) {
            return Some(&deployments[end - 1].1);
        }
        end = end - 1;
    }
    None
}

/// Adds the claim URL, where a deployment has one.
fn add_claim(members: &mut Vec<(String, Json)>, deployment: &Deployment)
    ensures
        pair_views(final(members)@) == pair_views(old(members)@) + claim_member(deployment@),
{
    match &deployment.claim_url {
        Some(url) => {
            add_member(members, "claimUrl", Json::text(url.as_str()));
        },
        None => {},
    }
    assert(pair_views(members@) =~= pair_views(old(members)@) + claim_member(deployment@));
}

/// What a deployed component publishes.
fn values_of(component: &ComponentPin, worker_name: &str, deployment: &Deployment) -> (values: Json)
    ensures
        values@ == output_values(component@, worker_name@, deployment@),
{
    let mut members: Vec<(String, Json)> = Vec::new();
    assert(pair_views(members@) =~= Seq::empty());
    match &component.context.tunnel {
        Some(tunnel) => {
            let hostname = tunnel.origin_host.clone().concat(":").concat(
                to_decimal(tunnel.origin_port as u64).as_str(),
            );
            add_member(&mut members, "capability", Json::text(deployment.version_id.as_str()));
            add_claim(&mut members, deployment);
            add_member(&mut members, "privateHostname", Json::Text(hostname));
            add_member(
                &mut members,
                "tokenRef",
                Json::text("connector-volume://henosis-tunnel/token"),
            );
            add_member(&mut members, "tunnelId", Json::text(deployment.deployment_id.as_str()));
            add_member(&mut members, "tunnelName", Json::text(worker_name));
        },
        None => {
            add_claim(&mut members, deployment);
            add_member(&mut members, "deploymentId", Json::text(deployment.deployment_id.as_str()));
            add_member(&mut members, "url", Json::text(deployment.url.as_str()));
            add_member(&mut members, "versionId", Json::text(deployment.version_id.as_str()));
            add_member(&mut members, "workerName", Json::text(worker_name));
        },
    }
    assert(pair_views(members@) =~= output_values(
        component@,
        worker_name@,
        deployment@,
    )->Object_0);
    Json::object(members)
}

/// What a level's components publish, given the deployments, the last for a component counting.
pub fn ready_outputs(desired: &DesiredSlice, deployments: &Vec<([u8; 32], Deployment)>) -> (outputs:
    Result<Vec<Output>, String>)
    ensures
        match outputs {
            Ok(outputs) => {
                &&& output_problem(desired@.components, pair_views(deployments@), 0) is None
                &&& views(outputs@) == outputs_of(desired@.components, pair_views(deployments@))
            },
            Err(message) => output_problem(desired@.components, pair_views(deployments@), 0)
                == Some(message@),
        },
{
    let list = pins_list(&desired.components);
    let mut outputs: Vec<Output> = Vec::new();
    let ghost components = desired@.components;
    let ghost said = pair_views(deployments@);
    let ghost all = outputs_of(components, said);
    for i in 0..list.len()
        invariant
            components == desired@.components,
            list@.len() == components.len(),
            forall|j: int| 0 <= j < list@.len() ==> (#[trigger] list@[j])@ == components[j],
            said == pair_views(deployments@),
            all == outputs_of(components, said),
            output_problem(components, said, 0) == output_problem(components, said, i as int),
            views(outputs@) == all.take(i as int),
    {
        let component = list[i];
        assert(component@ == components[i as int]);
        let deployment = match find_deployment(deployments, &component.spec_hash) {
            Some(deployment) => deployment,
            None => {
                return Err(
                    "deployment missing for component ".to_owned().concat(
                        debug_text(component.name.as_str()).as_str(),
                    ),
                );
            },
        };
        let worker_name = match component.context.deployed_name() {
            Ok(worker_name) => worker_name,
            Err(error) => {
                return Err(error.message());
            },
        };
        let ghost before = outputs@;
        let output = Output {
            component_spec_hash: component.spec_hash,
            values: values_of(component, worker_name.as_str(), deployment),
        };
        assert(output@ == all[i as int]);
        outputs.push(output);
        assert(views(outputs@) =~= views(before).push(all[i as int]));
        assert(views(outputs@) =~= all.take(i + 1));
    }
    assert(all.take(components.len() as int) =~= all);
    Ok(outputs)
}

// ---------------------------------------------------------------------------
// Applying
// ---------------------------------------------------------------------------
/// The deployments with what performing one operation adds to them.
pub open spec fn with_performed(
    deployments: Seq<(Seq<u8>, DeploymentView)>,
    operation: OperationView,
    performed: PerformedView,
) -> Seq<(Seq<u8>, DeploymentView)> {
    match performed {
        PerformedView::Deployed(deployment) => if operation.action == PlanAction::Delete {
            deployments
        } else {
            deployments.push((operation.component.spec_hash, deployment))
        },
        PerformedView::Deleted => deployments,
    }
}

/// What an apply that performed every operation leads to.
pub open spec fn applied(
    desired: DesiredView,
    approved: ApprovedView,
    deployments: Seq<(Seq<u8>, DeploymentView)>,
) -> ApplyOutcomeView {
    match output_problem(desired.components, deployments, 0) {
        Some(problem) => ApplyOutcomeView::Failed(
            told(Severity::Error, "cloudflare.outputs.incomplete"@, problem),
        ),
        None => ApplyOutcomeView::Ready {
            outputs: outputs_of(desired.components, deployments),
            diagnostics: told(
                Severity::Info,
                "cloudflare.plan.applied"@,
                "S2 plan "@ + approved.digest + " applied "@ + decimal(
                    approved.plan.operations.len(),
                ) + " Cloudflare mutations"@,
            ),
            publication: if desired.components.len() == 0 {
                None
            } else {
                Some(
                    PublicationView {
                        revision: "generation:"@ + decimal(desired.generation),
                        uri: "cloudflare://workers/deployments"@,
                    },
                )
            },
        },
    }
}

/// Where performing the operations from `at` on stands; `deployments` came from those before.
pub open spec fn performing(
    desired: DesiredView,
    approved: ApprovedView,
    results: Seq<Result<PerformedView, TargetErrorView>>,
    at: int,
    deployments: Seq<(Seq<u8>, DeploymentView)>,
) -> ApplyStepView
    decreases approved.plan.operations.len() - at,
{
    let operations = approved.plan.operations;
    if at >= operations.len() {
        ApplyStepView::Done(applied(desired, approved, deployments))
    } else if at >= results.len() {
        if operations[at].action == PlanAction::Delete {
            ApplyStepView::Delete(at)
        } else {
            ApplyStepView::Deploy(at)
        }
    } else {
        match results[at] {
            Err(error) => ApplyStepView::Done(failure_outcome(error)),
            Ok(performed) => performing(
                desired,
                approved,
                results,
                at + 1,
                with_performed(deployments, operations[at], performed),
            ),
        }
    }
}

/// Where applying a plan to the level with this digest stands: `facts` is what became of finding
/// out the account's facts, and `results` what became of performing the plan's operations.
pub open spec fn apply_step(
    desired: DesiredView,
    approved: ApprovedView,
    digest: Seq<u8>,
    facts: Option<Result<FactsView, TargetErrorView>>,
    results: Seq<Result<PerformedView, TargetErrorView>>,
) -> ApplyStepView {
    if approved.plan.desired_digest != digest_text(digest) {
        ApplyStepView::Done(
            ApplyOutcomeView::Failed(
                told(
                    Severity::Error,
                    "cloudflare.plan.identity"@,
                    "approved plan does not match the current desired level"@,
                ),
            ),
        )
    } else {
        match facts {
            None => ApplyStepView::FetchFacts,
            Some(Err(error)) => ApplyStepView::Done(waiting_outcome(error)),
            Some(Ok(_)) => performing(desired, approved, results, 0, Seq::empty()),
        }
    }
}

/// End an apply that performed every operation.
fn finish_apply(
    desired: &DesiredSlice,
    approved: &Approved,
    deployments: &Vec<([u8; 32], Deployment)>,
) -> (outcome: ApplyOutcome)
    ensures
        outcome@ == applied(desired@, approved@, pair_views(deployments@)),
{
    let outputs = match ready_outputs(desired, deployments) {
        Ok(outputs) => outputs,
        Err(message) => {
            return ApplyOutcome::Failed(
                one(Diagnostic::error("cloudflare.outputs.incomplete", message)),
            );
        },
    };
    let count = approved.plan.operations.len() as u64;
    let message = "S2 plan ".to_owned().concat(approved.digest.as_str()).concat(
        " applied ",
    ).concat(to_decimal(count).as_str()).concat(" Cloudflare mutations");
    let publication = if pins_list(&desired.components).len() == 0 {
        None
    } else {
        Some(
            Publication {
                revision: "generation:".to_owned().concat(to_decimal(desired.generation).as_str()),
                uri: "cloudflare://workers/deployments".to_owned(),
            },
        )
    };
    ApplyOutcome::Ready {
        outputs,
        diagnostics: one(Diagnostic::info("cloudflare.plan.applied", message)),
        publication,
    }
}

/// Apply a plan to the level with this digest: what comes next, after what has happened so far.
pub fn apply_with(
    desired: &DesiredSlice,
    approved: &Approved,
    digest: &[u8; 32],
    facts: &Option<Result<AccountFacts, TargetError>>,
    results: &Vec<Result<Performed, TargetError>>,
) -> (step: ApplyStep)
    ensures
        step@ == apply_step(
            desired@,
            approved@,
            digest@,
            happened(*facts),
            outcome_views(results@),
        ),
{
    if !same_text(approved.plan.desired_digest.as_str(), digest_name(digest).as_str()) {
        return ApplyStep::Done(
            ApplyOutcome::Failed(
                one(
                    Diagnostic::error(
                        "cloudflare.plan.identity",
                        "approved plan does not match the current desired level".to_owned(),
                    ),
                ),
            ),
        );
    }
    match facts {
        None => {
            return ApplyStep::FetchFacts;
        },
        Some(Err(error)) => {
            return ApplyStep::Done(target_waiting(error));
        },
        Some(Ok(_)) => {},
    }
    let operations = &approved.plan.operations;
    let mut deployments: Vec<([u8; 32], Deployment)> = Vec::new();
    let ghost steps = approved@.plan.operations;
    let ghost said = outcome_views(results@);
    let ghost whole = apply_step(desired@, approved@, digest@, happened(*facts), said);
    assert(pair_views(deployments@) =~= Seq::empty());
    for at in 0..operations.len()
        invariant
            *operations == approved.plan.operations,
            steps == approved@.plan.operations,
            said == outcome_views(results@),
            whole == apply_step(desired@, approved@, digest@, happened(*facts), said),
            whole == performing(desired@, approved@, said, at as int, pair_views(deployments@)),
    {
        let operation = &operations[at];
        assert(steps[at as int] == operation@);
        if at >= results.len() {
            return if operation.action == PlanAction::Delete {
                ApplyStep::Delete(at)
            } else {
                ApplyStep::Deploy(at)
            };
        }
        assert(said[at as int] == result_view(results@[at as int]));
        match &results[at] {
            Err(error) => {
                return ApplyStep::Done(target_failure(error));
            },
            Ok(Performed::Deleted) => {},
            Ok(Performed::Deployed(deployment)) => {
                if operation.action != PlanAction::Delete {
                    let ghost before = deployments@;
                    let recorded = deployment.clone();
                    deployments.push((operation.component.spec_hash, recorded));
                    assert(pair_views(deployments@) =~= pair_views(before).push(
                        (operation@.component.spec_hash, deployment@),
                    ));
                }
            },
        }
    }
    ApplyStep::Done(finish_apply(desired, approved, &deployments))
}

// ---------------------------------------------------------------------------
// Retiring
// ---------------------------------------------------------------------------
/// What a failed deletion makes of a retirement: only a configuration error blocks it.
pub open spec fn retire_failure(error: TargetErrorView) -> RetireOutcomeView {
    match error {
        TargetErrorView::Config(detail) => RetireOutcomeView::Blocked(
            told(Severity::Error, "cloudflare.retire.blocked"@, detail),
        ),
        _ => RetireOutcomeView::Waiting(short_wait()),
    }
}

/// Where deleting the Workers of the components from `at` on stands.
pub open spec fn retiring(
    components: Seq<PinView>,
    deletions: Seq<Result<(), TargetErrorView>>,
    at: int,
) -> RetireStepView
    decreases components.len() - at,
{
    if at >= components.len() {
        RetireStepView::Done(RetireOutcomeView::Absent)
    } else if at >= deletions.len() {
        RetireStepView::Delete(components[at])
    } else {
        match deletions[at] {
            Err(error) => RetireStepView::Done(retire_failure(error)),
            Ok(_) => retiring(components, deletions, at + 1),
        }
    }
}

/// Where retiring a graph stands: `deletions` is what became of deleting its Workers.
pub open spec fn retire_step(
    desired: Option<DesiredView>,
    deletions: Seq<Result<(), TargetErrorView>>,
) -> RetireStepView {
    match desired {
        None => RetireStepView::Done(
            RetireOutcomeView::Blocked(
                told(
                    Severity::Error,
                    "cloudflare.retire.unknown"@,
                    "cannot retire an unknown Cloudflare graph"@,
                ),
            ),
        ),
        Some(desired) => retiring(desired.components, deletions, 0),
    }
}

impl CloudflareConnector {
    /// Apply an approved plan: what comes next, after what has happened so far.
    pub fn apply(
        &self,
        desired: &DesiredSlice,
        approved: &Approved,
        facts: &Option<Result<AccountFacts, TargetError>>,
        results: &Vec<Result<Performed, TargetError>>,
    ) -> (step: ApplyStep)
        ensures
            step@ == apply_step(
                desired@,
                approved@,
                level_digest(desired@),
                happened(*facts),
                outcome_views(results@),
            ),
    {
        apply_with(desired, approved, &desired.digest(), facts, results)
    }

    /// Retire a graph: what comes next, after what has happened so far.
    pub fn retire(
        &self,
        desired: Option<&DesiredSlice>,
        deletions: &Vec<Result<(), TargetError>>,
    ) -> (step: RetireStep)
        ensures
            step@ == retire_step(option_view(desired), outcome_views(deletions@)),
    {
        let level = match desired {
            None => {
                return RetireStep::Done(
                    RetireOutcome::Blocked(
                        one(
                            Diagnostic::error(
                                "cloudflare.retire.unknown",
                                "cannot retire an unknown Cloudflare graph".to_owned(),
                            ),
                        ),
                    ),
                );
            },
            Some(level) => level,
        };
        let list = pins_list(&level.components);
        let ghost components = level@.components;
        let ghost said = outcome_views(deletions@);
        for at in 0..list.len()
            invariant
                list@.len() == components.len(),
                forall|j: int| 0 <= j < list@.len() ==> (#[trigger] list@[j])@ == components[j],
                said == outcome_views(deletions@),
                option_view(desired) matches Some(whole) && whole.components == components,
                retiring(components, said, 0) == retiring(components, said, at as int),
        {
            assert(list@[at as int]@ == components[at as int]);
            if at >= deletions.len() {
                return RetireStep::Delete(list[at].clone());
            }
            assert(said[at as int] == result_view(deletions@[at as int]));
            if let Err(error) = &deletions[at] {
                return RetireStep::Done(
                    match error {
                        TargetError::Config(detail) => RetireOutcome::Blocked(
                            one(Diagnostic::error("cloudflare.retire.blocked", detail.clone())),
                        ),
                        _ => RetireOutcome::Waiting(Retry { seconds: 2 }),
                    },
                );
            }
        }
        RetireStep::Done(RetireOutcome::Absent)
    }
}

// ---------------------------------------------------------------------------
// Laws
// ---------------------------------------------------------------------------
/// How many of the first `n` components are Workers.
pub open spec fn workers_before(components: Seq<PinView>, n: int) -> int
    decreases n,
{
    if n <= 0 {
        0
    } else {
        workers_before(components, n - 1) + if components[n - 1].context.is_tunnel() {
            0int
        } else {
            1
        }
    }
}

/// The component at `at` is a Worker of this name.
pub open spec fn is_worker(components: Seq<PinView>, at: int, name: Seq<char>) -> bool {
    &&& !components[at].context.is_tunnel()
    &&& components[at].context.deployed_name() == Ok::<Seq<char>, ContextErrorView>(name)
}

/// One of the first `n` components is a Worker of this name that was found to exist: the replies
/// are about the Workers in order.
pub open spec fn found_worker(
    components: Seq<PinView>,
    replies: Seq<Result<bool, TargetErrorView>>,
    n: int,
    name: Seq<char>,
) -> bool {
    exists|i: int|
        {
            &&& 0 <= i < n
            &&& #[trigger] is_worker(components, i, name)
            &&& workers_before(components, i) < replies.len()
            &&& replies[workers_before(components, i)] == Ok::<bool, TargetErrorView>(true)
        }
}

/// A component is a Worker of this name, and the replies are about the Workers before it.
pub open spec fn awaits_worker(
    components: Seq<PinView>,
    replies: Seq<Result<bool, TargetErrorView>>,
    name: Seq<char>,
) -> bool {
    exists|i: int|
        {
            &&& 0 <= i < components.len()
            &&& #[trigger] is_worker(components, i, name)
            &&& workers_before(components, i) == replies.len()
        }
}

/// The Workers found among more components are those found before, and perhaps one more.
proof fn lemma_found_next(
    components: Seq<PinView>,
    replies: Seq<Result<bool, TargetErrorView>>,
    n: int,
    name: Seq<char>,
)
    requires
        0 <= n < components.len(),
    ensures
        found_worker(components, replies, n + 1, name) <==> {
            ||| found_worker(components, replies, n, name)
            ||| {
                &&& is_worker(components, n, name)
                &&& workers_before(components, n) < replies.len()
                &&& replies[workers_before(components, n)] == Ok::<bool, TargetErrorView>(true)
            }
        },
{
    if found_worker(components, replies, n, name) {
        let i = choose|i: int|
            {
                &&& 0 <= i < n
                &&& #[trigger] is_worker(components, i, name)
                &&& workers_before(components, i) < replies.len()
                &&& replies[workers_before(components, i)] == Ok::<bool, TargetErrorView>(true)
            };
        assert(is_worker(components, i, name));
    }
    if found_worker(components, replies, n + 1, name) {
        let i = choose|i: int|
            {
                &&& 0 <= i < n + 1
                &&& #[trigger] is_worker(components, i, name)
                &&& workers_before(components, i) < replies.len()
                &&& replies[workers_before(components, i)] == Ok::<bool, TargetErrorView>(true)
            };
        if i < n {
            assert(is_worker(components, i, name));
        }
    }
}

/// What an observation from `at` on finds.
proof fn lemma_observing(
    components: Seq<PinView>,
    facts: FactsView,
    replies: Seq<Result<bool, TargetErrorView>>,
    at: int,
    existing: Seq<Seq<char>>,
)
    requires
        0 <= at <= components.len(),
        0 <= workers_before(components, at) <= replies.len(),
        existing.no_duplicates(),
        forall|name: Seq<char>| #[trigger]
            existing.contains(name) == found_worker(components, replies, at, name),
    ensures
        observing(
            components,
            facts,
            replies,
            at,
            workers_before(components, at),
            existing,
        ) matches ObserveStepView::Observed(found) ==> {
            &&& found.facts == facts
            &&& found.existing_workers.no_duplicates()
            &&& forall|name: Seq<char>| #[trigger]
                found.existing_workers.contains(name) == found_worker(
                    components,
                    replies,
                    components.len() as int,
                    name,
                )
        },
        observing(
            components,
            facts,
            replies,
            at,
            workers_before(components, at),
            existing,
        ) matches ObserveStepView::AskWorker(name) ==> awaits_worker(components, replies, name),
    decreases components.len() - at,
{
    if at < components.len() {
        let component = components[at];
        if component.context.is_tunnel() {
            assert forall|name: Seq<char>| #[trigger] existing.contains(name) == found_worker(
                components,
                replies,
                at + 1,
                name,
            ) by {
                lemma_found_next(components, replies, at, name);
            }
            lemma_observing(components, facts, replies, at + 1, existing);
        } else if let Ok(name) = component.context.deployed_name() {
            let used = workers_before(components, at);
            assert(is_worker(components, at, name));
            if used < replies.len() && replies[used] is Ok {
                let next = if replies[used]->Ok_0 {
                    with_name(existing, name)
                } else {
                    existing
                };
                assert forall|other: Seq<char>| #[trigger] next.contains(other) == found_worker(
                    components,
                    replies,
                    at + 1,
                    other,
                ) by {
                    lemma_found_next(components, replies, at, other);
                    if next != existing {
                        assert(next[existing.len() as int] == name);
                        if existing.contains(other) {
                            let k = choose|k: int| 0 <= k < existing.len() && existing[k] == other;
                            assert(next[k] == other);
                        }
                        if next.contains(other) {
                            let k = choose|k: int| 0 <= k < next.len() && next[k] == other;
                            if k < existing.len() {
                                assert(existing[k] == other);
                            }
                        }
                    }
                }
                lemma_observing(components, facts, replies, at + 1, next);
            } else if used >= replies.len() {
                assert(awaits_worker(components, replies, name));
            }
        }
    }
}

/// An observation lists exactly those of the level's Workers that were found to exist, each once;
/// it asks for the Workers in order, and never for a tunnel.
pub proof fn observations_list_the_levels_workers(
    desired: DesiredView,
    facts: Option<Result<FactsView, TargetErrorView>>,
    replies: Seq<Result<bool, TargetErrorView>>,
)
    ensures
        match observe_step(desired, facts, replies) {
            ObserveStepView::Observed(found) => {
                &&& facts == Some(Ok::<FactsView, TargetErrorView>(found.facts))
                &&& found.existing_workers.no_duplicates()
                &&& forall|name: Seq<char>| #[trigger]
                    found.existing_workers.contains(name) == found_worker(
                        desired.components,
                        replies,
                        desired.components.len() as int,
                        name,
                    )
            },
            ObserveStepView::AskWorker(name) => awaits_worker(desired.components, replies, name),
            _ => true,
        },
{
    if let Some(Ok(known)) = facts {
        lemma_observing(desired.components, known, replies, 0, Seq::empty());
    }
}

/// The first `n` operations were performed.
pub open spec fn all_performed(
    results: Seq<Result<PerformedView, TargetErrorView>>,
    n: int,
) -> bool {
    n <= results.len() && forall|i: int| 0 <= i < n ==> #[trigger] results[i] is Ok
}

/// The deployments that performing the first `n` operations leads to.
pub open spec fn deployments_after(
    operations: Seq<OperationView>,
    results: Seq<Result<PerformedView, TargetErrorView>>,
    n: int,
) -> Seq<(Seq<u8>, DeploymentView)>
    decreases n,
{
    if n <= 0 {
        Seq::empty()
    } else {
        with_performed(
            deployments_after(operations, results, n - 1),
            operations[n - 1],
            results[n - 1]->Ok_0,
        )
    }
}

/// Where performing stands, once the first `at` operations were performed.
proof fn lemma_performing(
    desired: DesiredView,
    approved: ApprovedView,
    results: Seq<Result<PerformedView, TargetErrorView>>,
    at: int,
)
    requires
        0 <= at <= approved.plan.operations.len(),
        all_performed(results, at),
    ensures
        ({
            let operations = approved.plan.operations;
            let step = performing(
                desired,
                approved,
                results,
                at,
                deployments_after(operations, results, at),
            );
            &&& all_performed(results, operations.len() as int) ==> step == ApplyStepView::Done(
                applied(
                    desired,
                    approved,
                    deployments_after(operations, results, operations.len() as int),
                ),
            )
            &&& match step {
                ApplyStepView::FetchFacts => false,
                ApplyStepView::Delete(next) => {
                    &&& next == results.len() < operations.len()
                    &&& all_performed(results, next)
                    &&& operations[next].action == PlanAction::Delete
                },
                ApplyStepView::Deploy(next) => {
                    &&& next == results.len() < operations.len()
                    &&& all_performed(results, next)
                    &&& operations[next].action != PlanAction::Delete
                },
                ApplyStepView::Done(ApplyOutcomeView::Ready { .. }) => all_performed(
                    results,
                    operations.len() as int,
                ),
                ApplyStepView::Done(_) => true,
            }
        }),
    decreases approved.plan.operations.len() - at,
{
    let operations = approved.plan.operations;
    if at < operations.len() && at < results.len() && results[at] is Ok {
        assert(all_performed(results, at + 1));
        lemma_performing(desired, approved, results, at + 1);
    }
}

/// A plan is applied only to the level that it was made for: any other level is refused, whatever
/// has happened.
pub proof fn stale_plans_are_refused(
    desired: DesiredView,
    approved: ApprovedView,
    digest: Seq<u8>,
    facts: Option<Result<FactsView, TargetErrorView>>,
    results: Seq<Result<PerformedView, TargetErrorView>>,
)
    requires
        approved.plan.desired_digest != digest_text(digest),
    ensures
        apply_step(desired, approved, digest, facts, results) matches ApplyStepView::Done(
            ApplyOutcomeView::Failed(_),
        ),
{
}

/// The operations of a plan are performed in order, one at a time: the next one only when each
/// before it was performed. The level is published only when all of them were.
pub proof fn operations_are_performed_in_order(
    desired: DesiredView,
    approved: ApprovedView,
    digest: Seq<u8>,
    facts: Option<Result<FactsView, TargetErrorView>>,
    results: Seq<Result<PerformedView, TargetErrorView>>,
)
    ensures
        match apply_step(desired, approved, digest, facts, results) {
            ApplyStepView::FetchFacts => facts is None,
            ApplyStepView::Delete(next) => {
                &&& next == results.len() < approved.plan.operations.len()
                &&& all_performed(results, next)
                &&& approved.plan.operations[next].action == PlanAction::Delete
            },
            ApplyStepView::Deploy(next) => {
                &&& next == results.len() < approved.plan.operations.len()
                &&& all_performed(results, next)
                &&& approved.plan.operations[next].action != PlanAction::Delete
            },
            ApplyStepView::Done(ApplyOutcomeView::Ready { .. }) => all_performed(
                results,
                approved.plan.operations.len() as int,
            ),
            ApplyStepView::Done(_) => true,
        },
{
    lemma_performing(desired, approved, results, 0);
}

/// A component whose operation was performed has a deployment.
proof fn lemma_deployment_recorded(
    operations: Seq<OperationView>,
    results: Seq<Result<PerformedView, TargetErrorView>>,
    n: int,
    at: int,
)
    requires
        0 <= at < n <= operations.len(),
        all_performed(results, n),
        operations[at].action != PlanAction::Delete,
        results[at]->Ok_0 is Deployed,
    ensures
        deployment_of(
            deployments_after(operations, results, n),
            operations[at].component.spec_hash,
        ) is Some,
    decreases n,
{
    let before = deployments_after(operations, results, n - 1);
    let after = deployments_after(operations, results, n);
    if at < n - 1 {
        assert(all_performed(results, n - 1));
        lemma_deployment_recorded(operations, results, n - 1, at);
    }
    if after != before {
        assert(after.drop_last() =~= before);
    }
}

/// Where each component has a name and a deployment, each has an output.
proof fn lemma_outputs_complete(
    components: Seq<PinView>,
    deployments: Seq<(Seq<u8>, DeploymentView)>,
    from: int,
)
    requires
        0 <= from <= components.len(),
        forall|i: int|
            from <= i < components.len() ==> {
                &&& (#[trigger] components[i]).context.deployed_name() is Ok
                &&& deployment_of(deployments, components[i].spec_hash) is Some
            },
    ensures
        output_problem(components, deployments, from) is None,
    decreases components.len() - from,
{
    if from < components.len() {
        lemma_outputs_complete(components, deployments, from + 1);
    }
}

/// A planned level becomes ready: where its plan is applied to it, the account is known and each
/// operation is performed, every component publishes an output under its spec hash, in order.
pub proof fn planned_levels_become_ready(
    desired: DesiredView,
    observed: ObservationView,
    unbound: Seq<UnboundView>,
    digest: Seq<u8>,
    approved: ApprovedView,
    facts: FactsView,
    results: Seq<Result<PerformedView, TargetErrorView>>,
)
    requires
        planned_with(desired, observed, unbound, digest) matches PlanOutcomeView::Apply(proposal)
            && proposal.plan == Some(approved.plan),
        all_performed(results, approved.plan.operations.len() as int),
        forall|i: int|
            0 <= i < approved.plan.operations.len() && (
            #[trigger] approved.plan.operations[i]).action != PlanAction::Delete
                ==> results[i]->Ok_0 is Deployed,
    ensures
        apply_step(
            desired,
            approved,
            digest,
            Some(Ok::<FactsView, TargetErrorView>(facts)),
            results,
        ) matches ApplyStepView::Done(ApplyOutcomeView::Ready { outputs, publication, .. }) && {
            &&& outputs.len() == desired.components.len()
            &&& forall|i: int|
                0 <= i < outputs.len() ==> (#[trigger] outputs[i]).component_spec_hash
                    == desired.components[i].spec_hash
            &&& publication is Some <==> desired.components.len() > 0
        },
{
    let operations = approved.plan.operations;
    let n = operations.len() as int;
    let deployments = deployments_after(operations, results, n);
    let removed = desired.removed_components.len();
    assert(operations == planned_operations(desired, observed.existing_workers));
    lemma_names_exist(desired.components, 0);
    assert forall|i: int| 0 <= i < desired.components.len() implies {
        &&& (#[trigger] desired.components[i]).context.deployed_name() is Ok
        &&& deployment_of(deployments, desired.components[i].spec_hash) is Some
    } by {
        let at = removed + i;
        assert(operations[at] == deploy_operation(
            desired.components[i],
            observed.existing_workers,
        ));
        lemma_deployment_recorded(operations, results, n, at);
    }
    lemma_outputs_complete(desired.components, deployments, 0);
    lemma_performing(desired, approved, results, 0);
}

/// Where deleting stands, once the first `at` Workers were deleted.
proof fn lemma_retiring(
    components: Seq<PinView>,
    deletions: Seq<Result<(), TargetErrorView>>,
    at: int,
)
    requires
        0 <= at <= components.len(),
        at <= deletions.len(),
        forall|i: int| 0 <= i < at ==> #[trigger] deletions[i] is Ok,
    ensures
        match retiring(components, deletions, at) {
            RetireStepView::Done(RetireOutcomeView::Absent) => {
                &&& components.len() <= deletions.len()
                &&& forall|i: int| 0 <= i < components.len() ==> #[trigger] deletions[i] is Ok
            },
            RetireStepView::Delete(component) => {
                &&& deletions.len() < components.len()
                &&& component == components[deletions.len() as int]
                &&& forall|i: int| 0 <= i < deletions.len() ==> #[trigger] deletions[i] is Ok
            },
            RetireStepView::Done(_) => exists|i: int|
                0 <= i < components.len() && i < deletions.len() && #[trigger] deletions[i] is Err,
        },
    decreases components.len() - at,
{
    if at < components.len() && at < deletions.len() && deletions[at] is Ok {
        lemma_retiring(components, deletions, at + 1);
    }
}

/// A known graph is retired exactly when each of its Workers was deleted; they are deleted in
/// order, one at a time, and only a deletion that failed ends the retirement early.
pub proof fn graphs_are_retired_when_their_workers_are_deleted(
    desired: DesiredView,
    deletions: Seq<Result<(), TargetErrorView>>,
)
    ensures
        match retire_step(Some(desired), deletions) {
            RetireStepView::Done(RetireOutcomeView::Absent) => {
                &&& desired.components.len() <= deletions.len()
                &&& forall|i: int|
                    0 <= i < desired.components.len() ==> #[trigger] deletions[i] is Ok
            },
            RetireStepView::Delete(component) => {
                &&& deletions.len() < desired.components.len()
                &&& component == desired.components[deletions.len() as int]
                &&& forall|i: int| 0 <= i < deletions.len() ==> #[trigger] deletions[i] is Ok
            },
            RetireStepView::Done(_) => exists|i: int|
                0 <= i < desired.components.len() && i < deletions.len()
                    && #[trigger] deletions[i] is Err,
        },
{
    lemma_retiring(desired.components, deletions, 0);
}

/// Of the deployments of a component the last one recorded counts; without any there is none.
pub proof fn the_last_deployment_counts(
    deployments: Seq<(Seq<u8>, DeploymentView)>,
    hash: Seq<u8>,
    at: int,
)
    requires
        -1 <= at < deployments.len(),
        at >= 0 ==> deployments[at].0 == hash,
        forall|j: int| at < j < deployments.len() ==> (#[trigger] deployments[j]).0 != hash,
    ensures
        deployment_of(deployments, hash) == if at >= 0 {
            Some(deployments[at].1)
        } else {
            None
        },
    decreases deployments.len(),
{
    if deployments.len() > 0 && at < deployments.len() - 1 {
        assert(deployments[deployments.len() - 1].0 != hash);
        let front = deployments.drop_last();
        assert forall|j: int| at < j < front.len() implies (#[trigger] front[j]).0 != hash by {
            assert(deployments[j].0 != hash);
        }
        the_last_deployment_counts(front, hash, at);
    }
}

/// The document is what a Worker publishes: the claim URL where its deployment has one, the
/// deployment's identity, its URL, its version, and the name that the component is deployed under;
/// nothing else.
pub open spec fn publishes_worker(
    values: JsonView,
    component: PinView,
    deployment: DeploymentView,
) -> bool {
    values matches JsonView::Object(members) && component.context.deployed_name() matches Ok(name)
        && {
        let claimed = if deployment.claim_url is Some {
            1int
        } else {
            0
        };
        &&& members.len() == claimed + 4
        &&& deployment.claim_url matches Some(url) ==> members[0] == (
            "claimUrl"@,
            JsonView::Text(url),
        )
        &&& members[claimed] == ("deploymentId"@, JsonView::Text(deployment.deployment_id))
        &&& members[claimed + 1] == ("url"@, JsonView::Text(deployment.url))
        &&& members[claimed + 2] == ("versionId"@, JsonView::Text(deployment.version_id))
        &&& members[claimed + 3] == ("workerName"@, JsonView::Text(name))
    }
}

/// The document is what a tunnel publishes: its capability, the claim URL where there is one, the
/// private host and port that it leads to, where its token is, its identity and its name; nothing
/// else.
pub open spec fn publishes_tunnel(
    values: JsonView,
    component: PinView,
    deployment: DeploymentView,
) -> bool {
    values matches JsonView::Object(members) && component.context.deployed_name() matches Ok(name)
        && component.context.tunnel matches Some(tunnel) && {
        let claimed = if deployment.claim_url is Some {
            1int
        } else {
            0
        };
        &&& members.len() == claimed + 5
        &&& members[0] == ("capability"@, JsonView::Text(deployment.version_id))
        &&& deployment.claim_url matches Some(url) ==> members[1] == (
            "claimUrl"@,
            JsonView::Text(url),
        )
        &&& members[claimed + 1] == (
            "privateHostname"@,
            JsonView::Text(tunnel.origin_host + ":"@ + decimal(tunnel.origin_port)),
        )
        &&& members[claimed + 2] == (
            "tokenRef"@,
            JsonView::Text("connector-volume://henosis-tunnel/token"@),
        )
        &&& members[claimed + 3] == ("tunnelId"@, JsonView::Text(deployment.deployment_id))
        &&& members[claimed + 4] == ("tunnelName"@, JsonView::Text(name))
    }
}

/// The document is what a component publishes of its deployment.
pub open spec fn publishes(
    values: JsonView,
    component: PinView,
    deployment: DeploymentView,
) -> bool {
    if component.context.tunnel is Some {
        publishes_tunnel(values, component, deployment)
    } else {
        publishes_worker(values, component, deployment)
    }
}

/// What a component with a name publishes of its deployment.
proof fn lemma_publishes(component: PinView, deployment: DeploymentView)
    requires
        component.context.deployed_name() is Ok,
    ensures
        publishes(
            output_values(component, component.context.deployed_name()->Ok_0, deployment),
            component,
            deployment,
        ),
{
}

/// Each component publishes, under its own hash, what the last deployment recorded for it tells;
/// where one has no deployment or no name, nothing is published.
pub proof fn each_component_publishes_its_last_deployment(
    components: Seq<PinView>,
    deployments: Seq<(Seq<u8>, DeploymentView)>,
    i: int,
    at: int,
)
    requires
        output_problem(components, deployments, 0) is None,
        0 <= i < components.len(),
        -1 <= at < deployments.len(),
        at >= 0 ==> deployments[at].0 == components[i].spec_hash,
        forall|j: int|
            at < j < deployments.len() ==> (#[trigger] deployments[j]).0 != components[i].spec_hash,
    ensures
        at >= 0,
        outputs_of(components, deployments).len() == components.len(),
        outputs_of(components, deployments)[i].component_spec_hash == components[i].spec_hash,
        publishes(
            outputs_of(components, deployments)[i].values,
            components[i],
            deployments[at].1,
        ),
{
    lemma_no_output_problem(components, deployments, 0);
    the_last_deployment_counts(deployments, components[i].spec_hash, at);
    assert(deployment_of(deployments, components[i].spec_hash) is Some);
    lemma_publishes(components[i], deployments[at].1);
    assert(outputs_of(components, deployments)[i] == component_output(components[i], deployments));
}

/// Where no component lacks an output, each has a name and a deployment.
proof fn lemma_no_output_problem(
    components: Seq<PinView>,
    deployments: Seq<(Seq<u8>, DeploymentView)>,
    from: int,
)
    requires
        0 <= from <= components.len(),
        output_problem(components, deployments, from) is None,
    ensures
        forall|i: int|
            from <= i < components.len() ==> {
                &&& (#[trigger] components[i]).context.deployed_name() is Ok
                &&& deployment_of(deployments, components[i].spec_hash) is Some
            },
    decreases components.len() - from,
{
    if from < components.len() {
        lemma_no_output_problem(components, deployments, from + 1);
    }
}

/// The operation at `k` deployed the component with this hash, with this outcome.
pub open spec fn deployed_by(
    operations: Seq<OperationView>,
    results: Seq<Result<PerformedView, TargetErrorView>>,
    k: int,
    hash: Seq<u8>,
) -> bool {
    &&& operations[k].component.spec_hash == hash
    &&& operations[k].action != PlanAction::Delete
    &&& results[k] matches Ok(PerformedView::Deployed(_))
}

/// The deployment of a component that performing operations leads to is that of the last one that
/// deployed it.
proof fn lemma_last_deployed(
    operations: Seq<OperationView>,
    results: Seq<Result<PerformedView, TargetErrorView>>,
    n: int,
    hash: Seq<u8>,
) -> (k: int)
    requires
        0 <= n <= operations.len(),
        all_performed(results, n),
        deployment_of(deployments_after(operations, results, n), hash) is Some,
    ensures
        0 <= k < n,
        deployed_by(operations, results, k, hash),
        forall|j: int| k < j < n ==> !#[trigger] deployed_by(operations, results, j, hash),
        deployment_of(deployments_after(operations, results, n), hash) == Some(
            results[k]->Ok_0->Deployed_0,
        ),
    decreases n,
{
    if n == 0 {
        assert(deployments_after(operations, results, 0).len() == 0);
        0
    } else {
        assert(results[n - 1] is Ok);
        assert(all_performed(results, n - 1));
        let before = deployments_after(operations, results, n - 1);
        let after = deployments_after(operations, results, n);
        if deployed_by(operations, results, n - 1, hash) {
            assert(after.last() == (hash, results[n - 1]->Ok_0->Deployed_0));
            n - 1
        } else {
            if after != before {
                assert(after.drop_last() =~= before);
                assert(after.last().0 == operations[n - 1].component.spec_hash);
            }
            lemma_last_deployed(operations, results, n - 1, hash)
        }
    }
}

/// When an apply ends ready, each component publishes under its hash what the last operation that
/// deployed it came to: of a Worker its URL, its identities and, under `workerName`, the name that
/// it is deployed under in its environment.
pub proof fn ready_levels_publish_what_was_deployed(
    desired: DesiredView,
    approved: ApprovedView,
    digest: Seq<u8>,
    facts: Option<Result<FactsView, TargetErrorView>>,
    results: Seq<Result<PerformedView, TargetErrorView>>,
    i: int,
) -> (k: int)
    requires
        apply_step(desired, approved, digest, facts, results) matches ApplyStepView::Done(
            ApplyOutcomeView::Ready { .. },
        ),
        0 <= i < desired.components.len(),
    ensures
        0 <= k < approved.plan.operations.len() <= results.len(),
        deployed_by(
            approved.plan.operations,
            results,
            k,
            desired.components[i].spec_hash,
        ),
        forall|j: int|
            k < j < approved.plan.operations.len() ==> !#[trigger] deployed_by(
                approved.plan.operations,
                results,
                j,
                desired.components[i].spec_hash,
            ),
        apply_step(desired, approved, digest, facts, results) matches ApplyStepView::Done(
            ApplyOutcomeView::Ready { outputs, .. },
        ) && {
            &&& outputs.len() == desired.components.len()
            &&& outputs[i].component_spec_hash == desired.components[i].spec_hash
            &&& publishes(
                outputs[i].values,
                desired.components[i],
                results[k]->Ok_0->Deployed_0,
            )
        },
{
    let operations = approved.plan.operations;
    let n = operations.len() as int;
    operations_are_performed_in_order(desired, approved, digest, facts, results);
    lemma_performing(desired, approved, results, 0);
    let deployments = deployments_after(operations, results, n);
    let component = desired.components[i];
    lemma_no_output_problem(desired.components, deployments, 0);
    assert(deployment_of(deployments, component.spec_hash) is Some);
    let k = lemma_last_deployed(operations, results, n, component.spec_hash);
    lemma_publishes(component, results[k]->Ok_0->Deployed_0);
    assert(outputs_of(desired.components, deployments)[i] == component_output(
        component,
        deployments,
    ));
    k
}

/// A ready level says which plan was applied and how many operations it had, and is published under
/// its generation, unless it has no component.
pub proof fn ready_levels_tell_what_was_applied(
    desired: DesiredView,
    approved: ApprovedView,
    digest: Seq<u8>,
    facts: Option<Result<FactsView, TargetErrorView>>,
    results: Seq<Result<PerformedView, TargetErrorView>>,
)
    ensures
        apply_step(desired, approved, digest, facts, results) matches ApplyStepView::Done(
            ApplyOutcomeView::Ready { outputs, diagnostics, publication },
        ) ==> {
            &&& outputs.len() == desired.components.len()
            &&& diagnostics.len() == 1
            &&& diagnostics[0].severity == Severity::Info
            &&& diagnostics[0].code == "cloudflare.plan.applied"@
            &&& diagnostics[0].message =~= "S2 plan "@ + approved.digest + " applied "@ + decimal(
                approved.plan.operations.len(),
            ) + " Cloudflare mutations"@
            &&& desired.components.len() == 0 ==> publication is None
            &&& desired.components.len() > 0 ==> (publication matches Some(published) && {
                &&& published.revision =~= "generation:"@ + decimal(desired.generation)
                &&& published.uri == "cloudflare://workers/deployments"@
            })
        },
{
    operations_are_performed_in_order(desired, approved, digest, facts, results);
    lemma_performing(desired, approved, results, 0);
}

/// Performing from `from` on ends at the first operation that failed.
proof fn lemma_performing_ends(
    desired: DesiredView,
    approved: ApprovedView,
    results: Seq<Result<PerformedView, TargetErrorView>>,
    from: int,
    deployments: Seq<(Seq<u8>, DeploymentView)>,
    at: int,
)
    requires
        0 <= from <= at < approved.plan.operations.len(),
        at < results.len(),
        forall|i: int| from <= i < at ==> #[trigger] results[i] is Ok,
        results[at] is Err,
    ensures
        performing(desired, approved, results, from, deployments) == ApplyStepView::Done(
            failure_outcome(results[at]->Err_0),
        ),
    decreases at - from,
{
    if from < at {
        assert(results[from] is Ok);
        lemma_performing_ends(
            desired,
            approved,
            results,
            from + 1,
            with_performed(deployments, approved.plan.operations[from], results[from]->Ok_0),
            at,
        );
    }
}

/// Performing from `from` on waits for the first operation without a result.
proof fn lemma_performing_waits(
    desired: DesiredView,
    approved: ApprovedView,
    results: Seq<Result<PerformedView, TargetErrorView>>,
    from: int,
    deployments: Seq<(Seq<u8>, DeploymentView)>,
)
    requires
        0 <= from <= results.len() < approved.plan.operations.len(),
        forall|i: int| from <= i < results.len() ==> #[trigger] results[i] is Ok,
    ensures
        performing(desired, approved, results, from, deployments) == if approved.plan.operations[
            results.len() as int
        ].action == PlanAction::Delete {
            ApplyStepView::Delete(results.len() as int)
        } else {
            ApplyStepView::Deploy(results.len() as int)
        },
    decreases results.len() - from,
{
    if from < results.len() {
        assert(results[from] is Ok);
        lemma_performing_waits(
            desired,
            approved,
            results,
            from + 1,
            with_performed(deployments, approved.plan.operations[from], results[from]->Ok_0),
        );
    }
}

/// An apply goes on, operation by operation, until something fails: a plan for another level is
/// refused, an account that cannot be told is waited for, the first operation that failed decides,
/// and while all went well the next operation is asked for.
pub proof fn applies_go_on_until_something_fails(
    desired: DesiredView,
    approved: ApprovedView,
    digest: Seq<u8>,
    facts: Option<Result<FactsView, TargetErrorView>>,
    results: Seq<Result<PerformedView, TargetErrorView>>,
    at: int,
)
    ensures
        ({
            let step = apply_step(desired, approved, digest, facts, results);
            let operations = approved.plan.operations;
            let fits = approved.plan.desired_digest == "blake3:"@ + lower_hex(digest);
            &&& !fits ==> (step matches ApplyStepView::Done(
                ApplyOutcomeView::Failed(diagnostics),
            ) && {
                &&& diagnostics.len() == 1
                &&& diagnostics[0] == (DiagnosticView {
                    severity: Severity::Error,
                    code: "cloudflare.plan.identity"@,
                    message: "approved plan does not match the current desired level"@,
                })
            })
            &&& fits && facts is None ==> step is FetchFacts
            &&& fits ==> (facts matches Some(Err(error)) ==> step == ApplyStepView::Done(
                waiting_outcome(error),
            ))
            &&& fits && (facts matches Some(Ok(_))) ==> {
                &&& results.len() < operations.len() && (forall|i: int|
                    0 <= i < results.len() ==> #[trigger] results[i] is Ok) ==> step
                    == if operations[results.len() as int].action == PlanAction::Delete {
                    ApplyStepView::Delete(results.len() as int)
                } else {
                    ApplyStepView::Deploy(results.len() as int)
                }
                &&& 0 <= at < operations.len() && at < results.len() && results[at] is Err && (
                forall|i: int| 0 <= i < at ==> #[trigger] results[i] is Ok) ==> step
                    == ApplyStepView::Done(failure_outcome(results[at]->Err_0))
            }
        }),
{
    let operations = approved.plan.operations;
    if results.len() < operations.len() && (forall|i: int|
        0 <= i < results.len() ==> #[trigger] results[i] is Ok) {
        lemma_performing_waits(desired, approved, results, 0, Seq::empty());
    }
    if 0 <= at < operations.len() && at < results.len() && results[at] is Err && (forall|i: int|
        0 <= i < at ==> #[trigger] results[i] is Ok) {
        lemma_performing_ends(desired, approved, results, 0, Seq::empty(), at);
    }
}

/// The first component that lacks an output decides.
proof fn lemma_first_without_output(
    components: Seq<PinView>,
    deployments: Seq<(Seq<u8>, DeploymentView)>,
    from: int,
    at: int,
)
    requires
        0 <= from <= at < components.len(),
        forall|i: int|
            from <= i < at ==> {
                &&& (#[trigger] components[i]).context.deployed_name() is Ok
                &&& deployment_of(deployments, components[i].spec_hash) is Some
            },
        deployment_of(deployments, components[at].spec_hash) is None
            || components[at].context.deployed_name() is Err,
    ensures
        output_problem(components, deployments, from) == Some(
            if deployment_of(deployments, components[at].spec_hash) is None {
                "deployment missing for component "@ + debug_quoted(components[at].name)
            } else {
                components[at].context.deployed_name()->Err_0.message()
            },
        ),
    decreases at - from,
{
    if from < at {
        assert(components[from].context.deployed_name() is Ok);
        lemma_first_without_output(components, deployments, from + 1, at);
    }
}

/// A level of which not every component has a deployment and a name does not become ready: the
/// first component that lacks one is told of.
pub proof fn incomplete_levels_are_not_ready(
    desired: DesiredView,
    approved: ApprovedView,
    deployments: Seq<(Seq<u8>, DeploymentView)>,
    at: int,
)
    requires
        0 <= at < desired.components.len(),
        forall|i: int|
            0 <= i < at ==> {
                &&& (#[trigger] desired.components[i]).context.deployed_name() is Ok
                &&& deployment_of(deployments, desired.components[i].spec_hash) is Some
            },
        deployment_of(deployments, desired.components[at].spec_hash) is None
            || desired.components[at].context.deployed_name() is Err,
    ensures
        applied(desired, approved, deployments) matches ApplyOutcomeView::Failed(diagnostics) && {
            &&& diagnostics.len() == 1
            &&& diagnostics[0].severity == Severity::Error
            &&& diagnostics[0].code == "cloudflare.outputs.incomplete"@
            &&& diagnostics[0].message == if deployment_of(
                deployments,
                desired.components[at].spec_hash,
            ) is None {
                "deployment missing for component "@ + debug_quoted(desired.components[at].name)
            } else {
                desired.components[at].context.deployed_name()->Err_0.message()
            }
        },
{
    lemma_first_without_output(desired.components, deployments, 0, at);
}

/// How many of the first `n` components are no tunnels.
pub open spec fn asked_before(components: Seq<PinView>, n: int) -> nat {
    count_of(components.take(n), |component: PinView| component.context.tunnel is None)
}

/// The component at `at` is settled: it is a tunnel, or a Worker with a name that was asked for
/// with an answer.
pub open spec fn is_settled(
    components: Seq<PinView>,
    replies: Seq<Result<bool, TargetErrorView>>,
    at: int,
) -> bool {
    components[at].context.tunnel is None ==> {
        &&& components[at].context.deployed_name() is Ok
        &&& asked_before(components, at) < replies.len()
        &&& replies[asked_before(components, at) as int] is Ok
    }
}

/// Observing from `from` on stands at the first component that is not settled.
proof fn lemma_observing_stands(
    components: Seq<PinView>,
    facts: FactsView,
    replies: Seq<Result<bool, TargetErrorView>>,
    from: int,
    existing: Seq<Seq<char>>,
    at: int,
) -> (found: Seq<Seq<char>>)
    requires
        0 <= from <= at <= components.len(),
        forall|i: int| from <= i < at ==> #[trigger] is_settled(components, replies, i),
    ensures
        observing(
            components,
            facts,
            replies,
            from,
            asked_before(components, from) as int,
            existing,
        ) == observing(
            components,
            facts,
            replies,
            at,
            asked_before(components, at) as int,
            found,
        ),
    decreases at - from,
{
    if from < at {
        assert(is_settled(components, replies, from));
        lemma_count_next(
            components,
            |component: PinView| component.context.tunnel is None,
            from,
        );
        let used = asked_before(components, from) as int;
        let next = if components[from].context.tunnel is None && replies[used]->Ok_0 {
            with_name(existing, components[from].context.deployed_name()->Ok_0)
        } else {
            existing
        };
        lemma_observing_stands(components, facts, replies, from + 1, next, at)
    } else {
        existing
    }
}

/// An observation asks for each Worker of the level in turn and stops at the first that has no name
/// or cannot be asked for; it ends once each was answered, with the account's facts as they were
/// found out. Nothing is asked before the facts are known.
pub proof fn each_worker_is_asked_for(
    desired: DesiredView,
    facts: FactsView,
    replies: Seq<Result<bool, TargetErrorView>>,
    error: TargetErrorView,
    at: int,
)
    requires
        0 <= at <= desired.components.len(),
        forall|i: int| 0 <= i < at ==> #[trigger] is_settled(desired.components, replies, i),
        at < desired.components.len() ==> !is_settled(desired.components, replies, at),
    ensures
        observe_step(desired, None, replies) is FetchFacts,
        observe_step(desired, Some(Err(error)), replies) == ObserveStepView::Stopped(
            blocked_outcome("account facts"@, error),
        ),
        ({
            let step = observe_step(
                desired,
                Some(Ok::<FactsView, TargetErrorView>(facts)),
                replies,
            );
            if at == desired.components.len() {
                step matches ObserveStepView::Observed(found) && found.facts == facts
            } else {
                match desired.components[at].context.deployed_name() {
                    Err(problem) => step == ObserveStepView::Stopped(
                        failed_outcome("worker identity"@, problem.message()),
                    ),
                    Ok(name) => if asked_before(desired.components, at) >= replies.len() {
                        step == ObserveStepView::AskWorker(name)
                    } else {
                        step == ObserveStepView::Stopped(
                            blocked_outcome(
                                "worker observation"@,
                                replies[asked_before(desired.components, at) as int]->Err_0,
                            ),
                        )
                    },
                }
            }
        }),
{
    let components = desired.components;
    assert(components.take(0) =~= Seq::<PinView>::empty());
    assert(asked_before(components, 0) == 0);
    let found = lemma_observing_stands(components, facts, replies, 0, Seq::empty(), at);
}

/// Deleting from `from` on ends at the first deletion that failed.
proof fn lemma_retiring_ends(
    components: Seq<PinView>,
    deletions: Seq<Result<(), TargetErrorView>>,
    from: int,
    at: int,
)
    requires
        0 <= from <= at < components.len(),
        at < deletions.len(),
        forall|i: int| from <= i < at ==> #[trigger] deletions[i] is Ok,
        deletions[at] is Err,
    ensures
        retiring(components, deletions, from) == RetireStepView::Done(
            retire_failure(deletions[at]->Err_0),
        ),
    decreases at - from,
{
    if from < at {
        assert(deletions[from] is Ok);
        lemma_retiring_ends(components, deletions, from + 1, at);
    }
}

/// The first deletion that failed decides a retirement: a wrong configuration blocks it, and
/// anything else is tried again after two seconds. A graph that is not known is not retired.
pub proof fn failed_deletions_hold_a_retirement_up(
    desired: DesiredView,
    deletions: Seq<Result<(), TargetErrorView>>,
    at: int,
)
    ensures
        retire_step(None, deletions) matches RetireStepView::Done(
            RetireOutcomeView::Blocked(diagnostics),
        ) && diagnostics.len() == 1 && diagnostics[0] == (DiagnosticView {
            severity: Severity::Error,
            code: "cloudflare.retire.unknown"@,
            message: "cannot retire an unknown Cloudflare graph"@,
        }),
        0 <= at < desired.components.len() && at < deletions.len() && deletions[at] is Err && (
        forall|i: int| 0 <= i < at ==> #[trigger] deletions[i] is Ok) ==> match deletions[at]->Err_0 {
            TargetErrorView::Config(detail) => {
                retire_step(Some(desired), deletions) matches RetireStepView::Done(
                    RetireOutcomeView::Blocked(diagnostics),
                ) && diagnostics.len() == 1 && diagnostics[0] == (DiagnosticView {
                    severity: Severity::Error,
                    code: "cloudflare.retire.blocked"@,
                    message: detail,
                })
            },
            _ => {
                retire_step(Some(desired), deletions) matches RetireStepView::Done(
                    RetireOutcomeView::Waiting(retry),
                ) && retry.seconds == 2
            },
        },
        desired.components.len() <= deletions.len() && (forall|i: int|
            0 <= i < desired.components.len() ==> #[trigger] deletions[i] is Ok) ==> retire_step(
            Some(desired),
            deletions,
        ) == RetireStepView::Done(RetireOutcomeView::Absent),
        deletions.len() < desired.components.len() && (forall|i: int|
            0 <= i < deletions.len() ==> #[trigger] deletions[i] is Ok) ==> retire_step(
            Some(desired),
            deletions,
        ) == RetireStepView::Delete(desired.components[deletions.len() as int]),
{
    graphs_are_retired_when_their_workers_are_deleted(desired, deletions);
    if 0 <= at < desired.components.len() && at < deletions.len() && deletions[at] is Err && (
    forall|i: int| 0 <= i < at ==> #[trigger] deletions[i] is Ok) {
        lemma_retiring_ends(desired.components, deletions, 0, at);
    }
}

/// Some member has this name.
pub open spec fn has_member(members: Seq<(Seq<char>, JsonView)>, name: Seq<char>) -> bool {
    exists|i: int| 0 <= i < members.len() && (#[trigger] members[i]).0 == name
}

/// A Worker publishes the outputs that its schema declares and no others; only the claim URL may be
/// left out.
pub proof fn workers_publish_what_their_schema_declares(
    component: PinView,
    worker_name: Seq<char>,
    deployment: DeploymentView,
    name: Seq<char>,
)
    requires
        component.context.tunnel is None,
    ensures
        ({
            let published = output_values(component, worker_name, deployment)->Object_0;
            let declared = outputs_schema()->Object_0[1].1->Object_0;
            &&& has_member(published, name) ==> has_member(declared, name)
            &&& has_member(declared, name) && name != "claimUrl"@ ==> has_member(published, name)
        }),
{
    let published = output_values(component, worker_name, deployment)->Object_0;
    let declared = outputs_schema()->Object_0[1].1->Object_0;
    let first = claim_member(deployment).len() as int;
    assert(declared[0].0 == "claimUrl"@ && declared[1].0 == "deploymentId"@);
    assert(declared[2].0 == "url"@ && declared[3].0 == "versionId"@);
    assert(declared[4].0 == "workerName"@);
    assert(published[first].0 == "deploymentId"@ && published[first + 1].0 == "url"@);
    assert(published[first + 2].0 == "versionId"@ && published[first + 3].0 == "workerName"@);
}

} // verus!
