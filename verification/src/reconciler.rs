//! The Cloudflare target's life: what a level asks for, what is planned, applied and retired.

use vstd::prelude::*;
use vstd::string::*;
use vstd::utf8::*;

use crate::bindings::{
    describe_requirement, look_up_all, only_missing_values_fail_as_unbound, requirement, resolved,
    secrets_before, slot_value, slot_values, tells_unbound, BindStepView, SlotValue, SlotValueView,
};
use crate::context::{ContextErrorView, InputSlot, SlotView};
use crate::hexadecimal::lower_hex;
use crate::json::json_text;
use crate::lifecycle::{
    one, ApplyOutcome, ApplyOutcomeView, BlockedInput, BlockedView, CloudflarePlan,
    ConcurrencyScope, Diagnostic, DiagnosticView, OperationView, Output, PlanAction, PlanOutcome,
    PlanOutcomeView, PlanProposal, PlanView, PlannedOperation, ProposalView, Retry, Severity,
    UnknownSlot, UnknownView,
};
use crate::model::{count_of, lemma_count_grows, lemma_count_next, views};
use crate::outside::{blake3_digest, hex_encode, pins_list};
use crate::review::{
    blocked_projection, blocked_review, declarative_review, plan_review, planned_url,
    review_projection, status_review,
};
use crate::slice::{
    decodes_to, slice_problem, ComponentPin, ContractError, DesiredSlice, DesiredView, PinView,
    TargetSlice,
};
use crate::target::{AccountFacts, FactsView, Target, TargetError, TargetErrorView};
use crate::text::same_text;
use crate::wire::desired_json;
use crate::CONNECTOR_NAME;

verus! {

/// Fresh Cloudflare facts used to classify create versus update.
#[derive(Debug, PartialEq, Eq)]
pub struct Observation {
    pub facts: AccountFacts,
    /// Names of the Workers that exist, none of them twice.
    pub existing_workers: Vec<String>,
}

/// Cloudflare lifecycle hooks.
#[derive(Debug, PartialEq, Eq)]
pub struct CloudflareConnector {
    pub target: Target,
}

/// A slot of a component that the level has no value for.
#[derive(Debug, PartialEq, Eq)]
pub struct UnboundSlot {
    pub component_spec_hash: [u8; 32],
    pub slot: InputSlot,
}

/// What an `UnboundSlot` says.
pub struct UnboundView {
    pub component_spec_hash: Seq<u8>,
    pub slot: SlotView,
}

impl View for UnboundSlot {
    type V = UnboundView;

    open spec fn view(&self) -> UnboundView {
        UnboundView { component_spec_hash: self.component_spec_hash@, slot: self.slot@ }
    }
}

/// What an `Observation` says.
pub struct ObservationView {
    pub facts: FactsView,
    pub existing_workers: Seq<Seq<char>>,
}

impl View for Observation {
    type V = ObservationView;

    open spec fn view(&self) -> ObservationView {
        ObservationView { facts: self.facts@, existing_workers: views(self.existing_workers@) }
    }
}

// ---------------------------------------------------------------------------
// Outcomes
// ---------------------------------------------------------------------------
/// How long to wait before the next attempt.
pub open spec fn short_wait() -> Retry {
    Retry { seconds: 2 }
}

/// A list of one diagnostic.
pub open spec fn told(severity: Severity, code: Seq<char>, message: Seq<char>) -> Seq<
    DiagnosticView,
> {
    seq![DiagnosticView { severity, code, message }]
}

/// A plan that cannot be made.
pub open spec fn failed_outcome(phase: Seq<char>, detail: Seq<char>) -> PlanOutcomeView {
    PlanOutcomeView::Failed {
        proposal: ProposalView::declarative(status_review("failed"@, phase, detail)),
        diagnostics: told(Severity::Error, "cloudflare.plan.invalid"@, detail),
    }
}

/// A plan that waits for the target.
pub open spec fn blocked_outcome(phase: Seq<char>, error: TargetErrorView) -> PlanOutcomeView {
    PlanOutcomeView::Waiting {
        proposal: ProposalView::declarative(status_review("blocked"@, phase, error.message())),
        diagnostics: told(Severity::Warning, "cloudflare.target.unavailable"@, error.message()),
        retry: short_wait(),
    }
}

/// An apply that waits for the target.
pub open spec fn waiting_outcome(error: TargetErrorView) -> ApplyOutcomeView {
    ApplyOutcomeView::Waiting {
        diagnostics: told(Severity::Warning, "cloudflare.target.unavailable"@, error.message()),
        retry: short_wait(),
    }
}

/// An apply that an operation ended: only a configuration error is final.
pub open spec fn failure_outcome(error: TargetErrorView) -> ApplyOutcomeView {
    match error {
        TargetErrorView::Config(detail) => ApplyOutcomeView::Failed(
            told(Severity::Error, "cloudflare.target.config"@, detail),
        ),
        _ => waiting_outcome(error),
    }
}

/// A plan that cannot be made.
pub fn failed_plan(phase: &str, detail: String) -> (outcome: PlanOutcome)
    ensures
        outcome@ == failed_outcome(phase@, detail@),
{
    PlanOutcome::Failed {
        proposal: PlanProposal::declarative(
            declarative_review("failed", phase, detail.as_str()),
        ),
        diagnostics: one(Diagnostic::error("cloudflare.plan.invalid", detail)),
    }
}

/// A plan that waits for the target.
pub fn blocked_target_plan(phase: &str, error: &TargetError) -> (outcome: PlanOutcome)
    ensures
        outcome@ == blocked_outcome(phase@, error@),
{
    let detail = error.message();
    PlanOutcome::Waiting {
        proposal: PlanProposal::declarative(
            declarative_review("blocked", phase, detail.as_str()),
        ),
        diagnostics: one(Diagnostic::warning("cloudflare.target.unavailable", detail)),
        retry: Retry { seconds: 2 },
    }
}

/// An apply that waits for the target.
pub fn target_waiting(error: &TargetError) -> (outcome: ApplyOutcome)
    ensures
        outcome@ == waiting_outcome(error@),
{
    ApplyOutcome::Waiting {
        diagnostics: one(Diagnostic::warning("cloudflare.target.unavailable", error.message())),
        retry: Retry { seconds: 2 },
    }
}

/// An apply that an operation ended.
pub fn target_failure(error: &TargetError) -> (outcome: ApplyOutcome)
    ensures
        outcome@ == failure_outcome(error@),
{
    match error {
        TargetError::Config(detail) => ApplyOutcome::Failed(
            one(Diagnostic::error("cloudflare.target.config", detail.clone())),
        ),
        _ => target_waiting(error),
    }
}

// ---------------------------------------------------------------------------
// Names of a level's components
// ---------------------------------------------------------------------------
/// Why the first component, from `from` on, without a deployed name has none.
pub open spec fn name_problem(components: Seq<PinView>, from: int) -> Option<ContextErrorView>
    decreases components.len() - from,
{
    if from >= components.len() {
        None
    } else {
        match components[from].context.deployed_name() {
            Err(error) => Some(error),
            Ok(_) => name_problem(components, from + 1),
        }
    }
}

/// No component of the level is deployed under this name.
pub open spec fn name_is_free(components: Seq<PinView>, name: Seq<char>) -> bool {
    forall|i: int|
        0 <= i < components.len() ==> (#[trigger] components[i]).context.deployed_name() != Ok::<
            Seq<char>,
            ContextErrorView,
        >(name)
}

/// A component's Worker is no longer named by the level of these components.
pub open spec fn is_removed(component: PinView, components: Seq<PinView>) -> bool {
    match component.context.deployed_name() {
        Ok(name) => name_is_free(components, name),
        Err(_) => false,
    }
}

/// The components of a previous level whose Workers the next level no longer names, in order.
pub open spec fn removed_by(previous: Seq<PinView>, next: Seq<PinView>) -> Seq<PinView>
    decreases previous.len(),
{
    if previous.len() == 0 {
        Seq::empty()
    } else {
        let earlier = removed_by(previous.drop_last(), next);
        if is_removed(previous.last(), next) {
            earlier.push(previous.last())
        } else {
            earlier
        }
    }
}

/// Whether one of these texts is `wanted`.
pub fn includes_text(texts: &Vec<String>, wanted: &str) -> (found: bool)
    ensures
        found == views(texts@).contains(wanted@),
{
    for i in 0..texts.len()
        invariant
            forall|j: int| 0 <= j < i ==> views(texts@)[j] != wanted@,
    {
        assert(views(texts@)[i as int] == texts@[i as int]@);
        if same_text(texts[i].as_str(), wanted) {
            return true;
        }
    }
    false
}

impl CloudflareConnector {
    /// The hooks for a target.
    #[must_use]
    pub fn new(target: Target) -> (connector: CloudflareConnector)
        ensures
            connector.target == target,
    {
        CloudflareConnector { target }
    }

    /// Connector registry key.
    pub fn name(&self) -> (name: &'static str)
        ensures
            name@ == CONNECTOR_NAME@,
    {
        CONNECTOR_NAME
    }

    /// Decode a level.
    pub fn decode(&self, slice: &TargetSlice) -> (decoded: Result<DesiredSlice, ContractError>)
        requires
            slice.components@.len() <= u32::MAX,
            slice.upstream_outputs@.len() <= u32::MAX,
        ensures
            match decoded {
                Ok(desired) => slice_problem(slice@) is None && decodes_to(slice@, desired@),
                Err(error) => slice_problem(slice@) == Some(error@),
            },
    {
        DesiredSlice::decode(slice)
    }

    /// One pass at a time over the whole connector.
    pub fn concurrency_scope(&self, _desired: &DesiredSlice) -> (scope: ConcurrencyScope)
        ensures
            scope == ConcurrencyScope::Connector,
    {
        ConcurrencyScope::Connector
    }

    /// Carry the components whose Workers the next level no longer names into that level.
    pub fn prepare_transition(
        &self,
        _previous_slice: &TargetSlice,
        previous: &DesiredSlice,
        _next_slice: &TargetSlice,
        next: &mut DesiredSlice,
    ) -> (outcome: Result<(), ContractError>)
        ensures
            match outcome {
                Ok(_) => {
                    &&& name_problem(old(next)@.components, 0) is None
                    &&& final(next)@ == (DesiredView {
                        removed_components: removed_by(
                            previous@.components,
                            old(next)@.components,
                        ),
                        ..old(next)@
                    })
                },
                Err(error) => {
                    &&& name_problem(old(next)@.components, 0) matches Some(problem)
                    &&& error@ == problem.message()
                    &&& *final(next) == *old(next)
                },
            },
    {
        let ghost kept = next@.components;
        let mut removed: Vec<ComponentPin> = Vec::new();
        let names = match deployed_names(next) {
            Ok(names) => names,
            Err(error) => {
                return Err(error);
            },
        };
        let before = pins_list(&previous.components);
        let ghost was = previous@.components;
        assert(views(removed@) =~= removed_by(was.take(0), kept));
        for i in 0..before.len()
            invariant
                before@.len() == was.len(),
                forall|j: int| 0 <= j < before@.len() ==> (#[trigger] before@[j])@ == was[j],
                forall|name: Seq<char>| #[trigger]
                    views(names@).contains(name) == !name_is_free(kept, name),
                views(removed@) == removed_by(was.take(i as int), kept),
        {
            let component = before[i];
            assert(component@ == was[i as int]);
            assert(was.take(i + 1).drop_last() =~= was.take(i as int));
            if let Ok(name) = component.context.deployed_name() {
                if !includes_text(&names, name.as_str()) {
                    let ghost earlier = removed@;
                    removed.push(component.clone());
                    assert(views(removed@) =~= views(earlier).push(component@));
                }
            }
        }
        assert(was.take(was.len() as int) =~= was);
        next.removed_components = removed;
        Ok(())
    }
}

/// The names under which a level's components are deployed.
fn deployed_names(desired: &DesiredSlice) -> (names: Result<Vec<String>, ContractError>)
    ensures
        match names {
            Ok(names) => {
                &&& name_problem(desired@.components, 0) is None
                &&& forall|name: Seq<char>| #[trigger]
                    views(names@).contains(name) == !name_is_free(desired@.components, name)
            },
            Err(error) => name_problem(desired@.components, 0) matches Some(problem) && error@
                == problem.message(),
        },
{
    let list = pins_list(&desired.components);
    let ghost components = desired@.components;
    let mut names: Vec<String> = Vec::new();
    for i in 0..list.len()
        invariant
            components == desired@.components,
            list@.len() == components.len(),
            forall|j: int| 0 <= j < list@.len() ==> (#[trigger] list@[j])@ == components[j],
            name_problem(components, 0) == name_problem(components, i as int),
            names@.len() == i,
            forall|j: int|
                0 <= j < i ==> (#[trigger] components[j]).context.deployed_name() == Ok::<
                    Seq<char>,
                    ContextErrorView,
                >(views(names@)[j]),
    {
        assert(list@[i as int]@ == components[i as int]);
        match list[i].context.deployed_name() {
            Err(error) => {
                return Err(ContractError::target(error.message()));
            },
            Ok(name) => {
                let ghost before = names@;
                names.push(name);
                assert(views(names@) =~= views(before).push(name@));
            },
        }
    }
    proof {
        assert forall|name: Seq<char>| #[trigger] views(names@).contains(name) == !name_is_free(
            components,
            name,
        ) by {
            if views(names@).contains(name) {
                let j = choose|j: int| 0 <= j < views(names@).len() && views(names@)[j] == name;
                assert(components[j].context.deployed_name() == Ok::<Seq<char>, ContextErrorView>(
                    name,
                ));
            }
            if !name_is_free(components, name) {
                let j = choose|j: int|
                    0 <= j < components.len() && (#[trigger] components[j]).context.deployed_name()
                        == Ok::<Seq<char>, ContextErrorView>(name);
                assert(views(names@)[j] == name);
            }
        }
    }
    Ok(names)
}

// ---------------------------------------------------------------------------
// Planning
// ---------------------------------------------------------------------------
/// The slots of a component without a value, in order.
pub open spec fn unbound_slots_of(
    component: Seq<u8>,
    slots: Seq<SlotView>,
    values: Seq<SlotValueView>,
) -> Seq<UnboundView>
    decreases slots.len(),
{
    if slots.len() == 0 {
        Seq::empty()
    } else {
        let earlier = unbound_slots_of(component, slots.drop_last(), values);
        if values[slots.len() - 1] is Found {
            earlier
        } else {
            earlier.push(UnboundView { component_spec_hash: component, slot: slots.last() })
        }
    }
}

/// The slots of these components that the level has no value for, in order.
pub open spec fn unbound_in(desired: DesiredView, components: Seq<PinView>) -> Seq<UnboundView>
    decreases components.len(),
{
    if components.len() == 0 {
        Seq::empty()
    } else {
        let component = components.last();
        unbound_in(desired, components.drop_last()) + unbound_slots_of(
            component.spec_hash,
            component.context.slots,
            slot_values(desired, component.context.slots),
        )
    }
}

/// What a proposal says of a slot that waits for its producer.
pub open spec fn blocked_slot(unbound: UnboundView) -> BlockedView {
    BlockedView {
        path: "/components/"@ + lower_hex(unbound.component_spec_hash) + "/vars/"@
            + unbound.slot.key,
        producer: lower_hex(unbound.slot.producer_spec_hash),
        output: unbound.slot.output,
    }
}

/// What a proposal says of the slots that wait for their producers.
pub open spec fn blocked_of(unbound: Seq<UnboundView>) -> Seq<BlockedView> {
    unbound.map_values(|slot: UnboundView| blocked_slot(slot))
}

/// The inputs of these components that the level has no value for, in order.
pub open spec fn blocked_in(desired: DesiredView, components: Seq<PinView>) -> Seq<BlockedView> {
    blocked_of(unbound_in(desired, components))
}

/// What is told of a slot that waits for its producer.
pub open spec fn unbound_diagnostic(unbound: UnboundView) -> DiagnosticView {
    DiagnosticView {
        severity: Severity::Info,
        code: "cloudflare.input.unbound"@,
        message: "Cloudflare plan is blocked on required producer outputs: "@ + requirement(
            unbound.slot,
        ),
    }
}

/// What is told of the slots that wait for their producers: one diagnostic for each.
pub open spec fn unbound_diagnostics(unbound: Seq<UnboundView>) -> Seq<DiagnosticView> {
    unbound.map_values(|slot: UnboundView| unbound_diagnostic(slot))
}

/// The operation that deletes a removed component's Worker.
pub open spec fn delete_operation(component: PinView) -> OperationView {
    OperationView {
        action: PlanAction::Delete,
        worker_name: component.context.deployed_name()->Ok_0,
        component,
    }
}

/// The operation that deploys a component: an update where its Worker exists.
pub open spec fn deploy_operation(component: PinView, existing: Seq<Seq<char>>) -> OperationView {
    let worker_name = component.context.deployed_name()->Ok_0;
    OperationView {
        action: if existing.contains(worker_name) {
            PlanAction::Update
        } else {
            PlanAction::Create
        },
        worker_name,
        component,
    }
}

/// The operations for a level: first the deletions, then the deployments.
pub open spec fn planned_operations(desired: DesiredView, existing: Seq<Seq<char>>) -> Seq<
    OperationView,
> {
    desired.removed_components.map_values(|component: PinView| delete_operation(component))
        + desired.components.map_values(
        |component: PinView| deploy_operation(component, existing),
    )
}

/// One value that only the apply of a component can tell.
pub open spec fn unknown_output(
    component: Seq<u8>,
    output: Seq<char>,
    reason: Seq<char>,
) -> UnknownView {
    UnknownView { path: "/outputs/"@ + lower_hex(component) + "/"@ + output, reason }
}

/// Why an identity is unknown before the apply.
pub open spec fn assigned_reason() -> Seq<char> {
    "Cloudflare assigns this value while applying the deployment"@
}

/// The values that only the apply of a component can tell.
pub open spec fn unknowns_of(component: PinView, subdomain: Seq<char>) -> Seq<UnknownView> {
    let hash = component.spec_hash;
    if component.context.is_tunnel() {
        seq![
            unknown_output(hash, "tunnelId"@, assigned_reason()),
            unknown_output(hash, "capability"@, assigned_reason()),
        ]
    } else {
        let always = seq![
            unknown_output(hash, "deploymentId"@, assigned_reason()),
            unknown_output(hash, "versionId"@, assigned_reason()),
            unknown_output(
                hash,
                "claimUrl"@,
                "present only when Cloudflare returns a temporary-account claim URL"@,
            ),
        ];
        if subdomain.len() == 0 {
            always.push(
                unknown_output(
                    hash,
                    "url"@,
                    "workers.dev subdomain is discovered from Wrangler during apply"@,
                ),
            )
        } else {
            always
        }
    }
}

/// The values that only an apply of these components can tell, in order.
pub open spec fn unknowns_in(components: Seq<PinView>, subdomain: Seq<char>) -> Seq<UnknownView>
    decreases components.len(),
{
    if components.len() == 0 {
        Seq::empty()
    } else {
        unknowns_in(components.drop_last(), subdomain) + unknowns_of(components.last(), subdomain)
    }
}

/// The digest of a level as a plan names it.
pub open spec fn digest_text(digest: Seq<u8>) -> Seq<char> {
    "blake3:"@ + lower_hex(digest)
}

/// The digest of a level.
pub open spec fn level_digest(desired: DesiredView) -> Seq<u8> {
    blake3_digest(encode_utf8(json_text(desired_json(desired))))
}

/// What planning a level leads to, given the slots that it has no value for and its digest.
pub open spec fn planned_with(
    desired: DesiredView,
    observed: ObservationView,
    unbound: Seq<UnboundView>,
    digest: Seq<u8>,
) -> PlanOutcomeView {
    if unbound.len() > 0 {
        PlanOutcomeView::Waiting {
            proposal: ProposalView {
                blocked_on_inputs: blocked_of(unbound),
                ..ProposalView::declarative(blocked_review(blocked_of(unbound)))
            },
            diagnostics: unbound_diagnostics(unbound),
            retry: short_wait(),
        }
    } else if let Some(problem) = name_problem(desired.removed_components, 0) {
        failed_outcome("removed worker identity"@, problem.message())
    } else if let Some(problem) = name_problem(desired.components, 0) {
        failed_outcome("worker identity"@, problem.message())
    } else {
        let plan = PlanView {
            desired_digest: digest_text(digest),
            operations: planned_operations(desired, observed.existing_workers),
        };
        let proposal = ProposalView::executable(
            plan,
            plan_review(plan, desired.components, observed.facts.subdomain),
        );
        if plan.operations.len() == 0 {
            PlanOutcomeView::Ready {
                proposal,
                outputs: Seq::empty(),
                diagnostics: Seq::empty(),
                publication: None,
            }
        } else {
            PlanOutcomeView::Apply(
                ProposalView {
                    unknown_slots: unknowns_in(desired.components, observed.facts.subdomain),
                    ..proposal
                },
            )
        }
    }
}

/// What planning a level leads to.
pub open spec fn planned(desired: DesiredView, observed: ObservationView) -> PlanOutcomeView {
    planned_with(desired, observed, unbound_in(desired, desired.components), level_digest(desired))
}

/// The slots of a component without a value, given what the level says about each slot.
pub fn unbound_slots(component: &ComponentPin, values: &Vec<SlotValue>) -> (unbound: Vec<
    UnboundSlot,
>)
    requires
        values@.len() == component.context.slots@.len(),
    ensures
        views(unbound@) == unbound_slots_of(
            component@.spec_hash,
            component@.context.slots,
            views(values@),
        ),
{
    let mut unbound: Vec<UnboundSlot> = Vec::new();
    let ghost slots = component@.context.slots;
    let ghost said = views(values@);
    assert(views(unbound@) =~= unbound_slots_of(component@.spec_hash, slots.take(0), said));
    for i in 0..component.context.slots.len()
        invariant
            slots == component@.context.slots,
            said == views(values@),
            values@.len() == component.context.slots@.len(),
            views(unbound@) == unbound_slots_of(component@.spec_hash, slots.take(i as int), said),
    {
        let slot = &component.context.slots[i];
        assert(slots[i as int] == slot@);
        assert(said[i as int] == values@[i as int]@);
        assert(slots.take(i + 1).drop_last() =~= slots.take(i as int));
        match &values[i] {
            SlotValue::Found(_) => {},
            _ => {
                let ghost before = unbound@;
                let waiting = UnboundSlot {
                    component_spec_hash: component.spec_hash,
                    slot: slot.clone(),
                };
                unbound.push(waiting);
                assert(views(unbound@) =~= views(before).push(waiting@));
            },
        }
    }
    assert(slots.take(slots.len() as int) =~= slots);
    unbound
}

/// The slots that a level has no value for.
pub fn unbound_inputs(desired: &DesiredSlice) -> (unbound: Vec<UnboundSlot>)
    ensures
        views(unbound@) == unbound_in(desired@, desired@.components),
{
    let mut unbound: Vec<UnboundSlot> = Vec::new();
    let list = pins_list(&desired.components);
    let ghost components = desired@.components;
    assert(views(unbound@) =~= unbound_in(desired@, components.take(0)));
    for i in 0..list.len()
        invariant
            list@.len() == components.len(),
            forall|j: int| 0 <= j < list@.len() ==> (#[trigger] list@[j])@ == components[j],
            views(unbound@) == unbound_in(desired@, components.take(i as int)),
    {
        let component = list[i];
        assert(component@ == components[i as int]);
        assert(components.take(i + 1).drop_last() =~= components.take(i as int));
        let values = look_up_all(desired, &component.context.slots);
        assert(values@.len() == views(values@).len());
        let mut more = unbound_slots(component, &values);
        let ghost before = unbound@;
        let ghost added = more@;
        unbound.append(&mut more);
        assert(views(unbound@) =~= views(before) + views(added));
    }
    assert(components.take(components.len() as int) =~= components);
    unbound
}

/// What a proposal says of the slots that wait for their producers.
fn blocked_list(unbound: &Vec<UnboundSlot>) -> (blocked: Vec<BlockedInput>)
    ensures
        views(blocked@) == blocked_of(views(unbound@)),
{
    let mut blocked: Vec<BlockedInput> = Vec::new();
    let ghost all = blocked_of(views(unbound@));
    for i in 0..unbound.len()
        invariant
            all == blocked_of(views(unbound@)),
            views(blocked@) == all.take(i as int),
    {
        let waiting = &unbound[i];
        let ghost before = blocked@;
        let input = BlockedInput {
            path: "/components/".to_owned().concat(
                hex_encode(waiting.component_spec_hash.as_slice()).as_str(),
            ).concat("/vars/").concat(waiting.slot.key.as_str()),
            producer: hex_encode(waiting.slot.producer_spec_hash.as_slice()),
            output: waiting.slot.output.clone(),
        };
        assert(views(unbound@)[i as int] == waiting@);
        assert(input@ == all[i as int]);
        blocked.push(input);
        assert(views(blocked@) =~= views(before).push(input@));
        assert(views(blocked@) =~= all.take(i + 1));
    }
    assert(all.take(unbound@.len() as int) =~= all);
    blocked
}

/// What is told of the slots that wait for their producers.
fn unbound_notes(unbound: &Vec<UnboundSlot>) -> (diagnostics: Vec<Diagnostic>)
    ensures
        views(diagnostics@) == unbound_diagnostics(views(unbound@)),
{
    let mut diagnostics: Vec<Diagnostic> = Vec::new();
    let ghost all = unbound_diagnostics(views(unbound@));
    for i in 0..unbound.len()
        invariant
            all == unbound_diagnostics(views(unbound@)),
            views(diagnostics@) == all.take(i as int),
    {
        let waiting = &unbound[i];
        let ghost before = diagnostics@;
        let diagnostic = Diagnostic::info(
            "cloudflare.input.unbound",
            "Cloudflare plan is blocked on required producer outputs: ".to_owned().concat(
                describe_requirement(&waiting.slot).as_str(),
            ),
        );
        assert(views(unbound@)[i as int] == waiting@);
        assert(diagnostic@ == all[i as int]);
        diagnostics.push(diagnostic);
        assert(views(diagnostics@) =~= views(before).push(diagnostic@));
        assert(views(diagnostics@) =~= all.take(i + 1));
    }
    assert(all.take(unbound@.len() as int) =~= all);
    diagnostics
}

/// The inputs that a level waits for.
pub fn blocked_inputs(desired: &DesiredSlice) -> (blocked: Vec<BlockedInput>)
    ensures
        views(blocked@) == blocked_in(desired@, desired@.components),
{
    blocked_list(&unbound_inputs(desired))
}

/// The digest of a level as a plan names it.
pub fn digest_name(digest: &[u8; 32]) -> (text: String)
    ensures
        text@ == digest_text(digest@),
{
    "blake3:".to_owned().concat(hex_encode(digest.as_slice()).as_str())
}

/// The operations that delete the Workers of removed components, or why the first without a name
/// has none.
fn delete_operations(removed: &Vec<ComponentPin>) -> (operations: Result<
    Vec<PlannedOperation>,
    String,
>)
    ensures
        match operations {
            Ok(operations) => {
                &&& name_problem(views(removed@), 0) is None
                &&& views(operations@) == views(removed@).map_values(
                    |component: PinView| delete_operation(component),
                )
            },
            Err(message) => name_problem(views(removed@), 0) matches Some(problem) && message@
                == problem.message(),
        },
{
    let mut operations: Vec<PlannedOperation> = Vec::new();
    let ghost components = views(removed@);
    let ghost all = components.map_values(|component: PinView| delete_operation(component));
    for i in 0..removed.len()
        invariant
            components == views(removed@),
            all == components.map_values(|component: PinView| delete_operation(component)),
            name_problem(components, 0) == name_problem(components, i as int),
            views(operations@) == all.take(i as int),
    {
        let component = &removed[i];
        assert(components[i as int] == component@);
        match component.context.deployed_name() {
            Err(error) => {
                return Err(error.message());
            },
            Ok(worker_name) => {
                let ghost before = operations@;
                let operation = PlannedOperation {
                    action: PlanAction::Delete,
                    worker_name,
                    component: component.clone(),
                };
                assert(operation@ == all[i as int]);
                operations.push(operation);
                assert(views(operations@) =~= views(before).push(all[i as int]));
                assert(views(operations@) =~= all.take(i + 1));
            },
        }
    }
    assert(all.take(components.len() as int) =~= all);
    Ok(operations)
}

/// The operations that deploy a level's components, or why the first without a name has none.
fn deploy_operations(desired: &DesiredSlice, existing: &Vec<String>) -> (operations: Result<
    Vec<PlannedOperation>,
    String,
>)
    ensures
        match operations {
            Ok(operations) => {
                &&& name_problem(desired@.components, 0) is None
                &&& views(operations@) == desired@.components.map_values(
                    |component: PinView| deploy_operation(component, views(existing@)),
                )
            },
            Err(message) => name_problem(desired@.components, 0) matches Some(problem) && message@
                == problem.message(),
        },
{
    let list = pins_list(&desired.components);
    let mut operations: Vec<PlannedOperation> = Vec::new();
    let ghost components = desired@.components;
    let ghost known = views(existing@);
    let ghost all = components.map_values(
        |component: PinView| deploy_operation(component, known),
    );
    for i in 0..list.len()
        invariant
            components == desired@.components,
            list@.len() == components.len(),
            forall|j: int| 0 <= j < list@.len() ==> (#[trigger] list@[j])@ == components[j],
            known == views(existing@),
            all == components.map_values(|component: PinView| deploy_operation(component, known)),
            name_problem(components, 0) == name_problem(components, i as int),
            views(operations@) == all.take(i as int),
    {
        let component = list[i];
        assert(components[i as int] == component@);
        match component.context.deployed_name() {
            Err(error) => {
                return Err(error.message());
            },
            Ok(worker_name) => {
                let ghost before = operations@;
                let action = if includes_text(existing, worker_name.as_str()) {
                    PlanAction::Update
                } else {
                    PlanAction::Create
                };
                let operation = PlannedOperation {
                    action,
                    worker_name,
                    component: component.clone(),
                };
                assert(operation@ == all[i as int]);
                operations.push(operation);
                assert(views(operations@) =~= views(before).push(all[i as int]));
                assert(views(operations@) =~= all.take(i + 1));
            },
        }
    }
    assert(all.take(components.len() as int) =~= all);
    Ok(operations)
}

/// One value that only the apply of a component can tell.
fn unknown_slot(component: &ComponentPin, output: &str, reason: &str) -> (unknown: UnknownSlot)
    ensures
        unknown@ == unknown_output(component@.spec_hash, output@, reason@),
{
    UnknownSlot {
        path: "/outputs/".to_owned().concat(
            hex_encode(component.spec_hash.as_slice()).as_str(),
        ).concat("/").concat(output),
        reason: reason.to_owned(),
    }
}

/// The values that only the apply of a component can tell.
fn unknown_slots_of(component: &ComponentPin, facts: &AccountFacts) -> (unknown: Vec<UnknownSlot>)
    ensures
        views(unknown@) == unknowns_of(component@, facts@.subdomain),
{
    let mut unknown: Vec<UnknownSlot> = Vec::new();
    let assigned = "Cloudflare assigns this value while applying the deployment";
    if component.context.is_tunnel() {
        unknown.push(unknown_slot(component, "tunnelId", assigned));
        unknown.push(unknown_slot(component, "capability", assigned));
    } else {
        unknown.push(unknown_slot(component, "deploymentId", assigned));
        unknown.push(unknown_slot(component, "versionId", assigned));
        unknown.push(
            unknown_slot(
                component,
                "claimUrl",
                "present only when Cloudflare returns a temporary-account claim URL",
            ),
        );
        if facts.subdomain.as_str().unicode_len() == 0 {
            unknown.push(
                unknown_slot(
                    component,
                    "url",
                    "workers.dev subdomain is discovered from Wrangler during apply",
                ),
            );
        }
    }
    assert(views(unknown@) =~= unknowns_of(component@, facts@.subdomain));
    unknown
}

/// The values that only the apply of a level can tell.
fn unknown_slots(desired: &DesiredSlice, facts: &AccountFacts) -> (unknown: Vec<UnknownSlot>)
    ensures
        views(unknown@) == unknowns_in(desired@.components, facts@.subdomain),
{
    let list = pins_list(&desired.components);
    let mut unknown: Vec<UnknownSlot> = Vec::new();
    let ghost components = desired@.components;
    let ghost subdomain = facts@.subdomain;
    assert(views(unknown@) =~= unknowns_in(components.take(0), subdomain));
    for i in 0..list.len()
        invariant
            list@.len() == components.len(),
            forall|j: int| 0 <= j < list@.len() ==> (#[trigger] list@[j])@ == components[j],
            subdomain == facts@.subdomain,
            views(unknown@) == unknowns_in(components.take(i as int), subdomain),
    {
        assert(list@[i as int]@ == components[i as int]);
        assert(components.take(i + 1).drop_last() =~= components.take(i as int));
        let mut more = unknown_slots_of(list[i], facts);
        let ghost before = unknown@;
        let ghost added = more@;
        unknown.append(&mut more);
        assert(views(unknown@) =~= views(before) + views(added));
    }
    assert(components.take(components.len() as int) =~= components);
    unknown
}

/// Plan a level, given the slots that it has no value for and its digest.
pub fn plan_with(
    desired: &DesiredSlice,
    observed: &Observation,
    unbound: Vec<UnboundSlot>,
    digest: &[u8; 32],
) -> (outcome: PlanOutcome)
    ensures
        outcome@ == planned_with(desired@, observed@, views(unbound@), digest@),
{
    if unbound.len() > 0 {
        let blocked = blocked_list(&unbound);
        let mut proposal = PlanProposal::declarative(blocked_projection(&blocked));
        proposal.blocked_on_inputs = blocked;
        return PlanOutcome::Waiting {
            proposal,
            diagnostics: unbound_notes(&unbound),
            retry: Retry { seconds: 2 },
        };
    }
    let mut operations = match delete_operations(&desired.removed_components) {
        Ok(operations) => operations,
        Err(message) => {
            return failed_plan("removed worker identity", message);
        },
    };
    let mut deployments = match deploy_operations(desired, &observed.existing_workers) {
        Ok(operations) => operations,
        Err(message) => {
            return failed_plan("worker identity", message);
        },
    };
    let ghost first = operations@;
    let ghost second = deployments@;
    operations.append(&mut deployments);
    assert(views(operations@) =~= views(first) + views(second));
    let plan = CloudflarePlan { desired_digest: digest_name(digest), operations };
    let review = review_projection(&plan, desired, &observed.facts);
    if plan.operations.len() == 0 {
        let outputs: Vec<Output> = Vec::new();
        let diagnostics: Vec<Diagnostic> = Vec::new();
        assert(views(outputs@) =~= Seq::empty());
        assert(views(diagnostics@) =~= Seq::empty());
        return PlanOutcome::Ready {
            proposal: PlanProposal::executable(plan, review),
            outputs,
            diagnostics,
            publication: None,
        };
    }
    let mut proposal = PlanProposal::executable(plan, review);
    proposal.unknown_slots = unknown_slots(desired, &observed.facts);
    PlanOutcome::Apply(proposal)
}

impl CloudflareConnector {
    /// Plan a level against what was observed.
    pub fn plan(&self, desired: &DesiredSlice, observed: &Observation) -> (outcome: PlanOutcome)
        ensures
            outcome@ == planned(desired@, observed@),
    {
        plan_with(desired, observed, unbound_inputs(desired), &desired.digest())
    }
}

// ---------------------------------------------------------------------------
// Laws
// ---------------------------------------------------------------------------
/// A level in which nothing is wrong with the names has one for each component from `from` on.
pub proof fn lemma_names_exist(components: Seq<PinView>, from: int)
    requires
        0 <= from <= components.len(),
        name_problem(components, from) is None,
    ensures
        forall|i: int|
            from <= i < components.len() ==> (
            #[trigger] components[i]).context.deployed_name() is Ok,
    decreases components.len() - from,
{
    if from < components.len() {
        lemma_names_exist(components, from + 1);
    }
}

/// A transition carries exactly those components of the previous level whose Workers the next level
/// no longer names.
pub proof fn transitions_carry_removed_workers(
    previous: Seq<PinView>,
    next: Seq<PinView>,
    component: PinView,
)
    ensures
        removed_by(previous, next).contains(component) <==> previous.contains(component)
            && is_removed(component, next),
    decreases previous.len(),
{
    if previous.len() > 0 {
        let front = previous.drop_last();
        let earlier = removed_by(front, next);
        transitions_carry_removed_workers(front, next, component);
        if previous.contains(component) {
            let k = choose|k: int| 0 <= k < previous.len() && previous[k] == component;
            if k < front.len() {
                assert(front[k] == component);
            }
        }
        if front.contains(component) {
            let k = choose|k: int| 0 <= k < front.len() && front[k] == component;
            assert(previous[k] == component);
        }
        if is_removed(previous.last(), next) {
            let all = earlier.push(previous.last());
            assert(all[all.len() - 1] == previous.last());
            if earlier.contains(component) {
                let k = choose|k: int| 0 <= k < earlier.len() && earlier[k] == component;
                assert(all[k] == component);
            }
            if all.contains(component) {
                let k = choose|k: int| 0 <= k < all.len() && all[k] == component;
                if k < earlier.len() {
                    assert(earlier[k] == component);
                } else {
                    assert(previous[previous.len() - 1] == component);
                }
            }
        }
    }
}

/// After a transition no planned deletion names a Worker that the plan deploys.
pub proof fn deletions_spare_deployed_workers(
    previous: DesiredView,
    desired: DesiredView,
    existing: Seq<Seq<char>>,
    i: int,
    j: int,
)
    requires
        desired.removed_components == removed_by(previous.components, desired.components),
        name_problem(desired.components, 0) is None,
        0 <= i < desired.removed_components.len(),
        desired.removed_components.len() <= j < planned_operations(desired, existing).len(),
    ensures
        planned_operations(desired, existing)[i].worker_name != planned_operations(
            desired,
            existing,
        )[j].worker_name,
{
    let gone = desired.removed_components[i];
    let kept = desired.components[j - desired.removed_components.len()];
    assert(desired.removed_components.contains(gone));
    transitions_carry_removed_workers(previous.components, desired.components, gone);
    lemma_names_exist(desired.components, 0);
    assert(kept.context.deployed_name() is Ok);
    assert(planned_operations(desired, existing)[i] == delete_operation(gone));
    assert(planned_operations(desired, existing)[j] == deploy_operation(kept, existing));
}

/// A plan deletes what is removed first and then deploys each component once, in order: it updates
/// the Workers that exist and creates the others.
pub proof fn plans_cover_the_level(desired: DesiredView, existing: Seq<Seq<char>>)
    ensures
        ({
            let operations = planned_operations(desired, existing);
            let removed = desired.removed_components;
            &&& operations.len() == removed.len() + desired.components.len()
            &&& forall|i: int|
                0 <= i < removed.len() ==> {
                    &&& (#[trigger] operations[i]).action == PlanAction::Delete
                    &&& operations[i].component == removed[i]
                }
            &&& forall|i: int|
                removed.len() <= i < operations.len() ==> {
                    &&& (#[trigger] operations[i]).component == desired.components[i
                        - removed.len()]
                    &&& operations[i].action == if existing.contains(operations[i].worker_name) {
                        PlanAction::Update
                    } else {
                        PlanAction::Create
                    }
                }
        }),
{
}

/// A level whose producers have not all published is recorded as blocked and never applied: its
/// proposal has no plan and names every input that it waits for.
pub proof fn blocked_levels_are_not_applied(
    desired: DesiredView,
    observed: ObservationView,
    unbound: Seq<UnboundView>,
    digest: Seq<u8>,
)
    ensures
        match planned_with(desired, observed, unbound, digest) {
            PlanOutcomeView::Apply(proposal) => unbound.len() == 0 && proposal.plan is Some,
            PlanOutcomeView::Ready { proposal, .. } => unbound.len() == 0 && proposal.plan is Some,
            PlanOutcomeView::Waiting { proposal, .. } => {
                &&& unbound.len() > 0
                &&& proposal.plan is None
                &&& proposal.blocked_on_inputs == blocked_of(unbound)
            },
            PlanOutcomeView::Failed { proposal, .. } => unbound.len() == 0 && proposal.plan is None,
        },
{
}

/// The text tells the producer and the output that a slot takes its value from.
pub open spec fn names_source(text: Seq<char>, slot: SlotView) -> bool {
    (slot.producer + "."@ + slot.output).is_suffix_of(text)
}

/// A blocked plan tells of each slot that the level has no value for, in order, under the code for
/// unbound inputs, naming both the producer and its output.
pub proof fn blocked_plans_name_their_producers(
    desired: DesiredView,
    observed: ObservationView,
    unbound: Seq<UnboundView>,
    digest: Seq<u8>,
)
    requires
        unbound.len() > 0,
    ensures
        planned_with(desired, observed, unbound, digest) matches PlanOutcomeView::Waiting {
            diagnostics,
            ..
        } && {
            &&& diagnostics.len() == unbound.len()
            &&& forall|i: int|
                0 <= i < unbound.len() ==> {
                    &&& (#[trigger] diagnostics[i]).code == "cloudflare.input.unbound"@
                    &&& names_source(diagnostics[i].message, unbound[i].slot)
                }
        },
{
    let diagnostics = unbound_diagnostics(unbound);
    assert forall|i: int| 0 <= i < unbound.len() implies names_source(
        (#[trigger] diagnostics[i]).message,
        unbound[i].slot,
    ) by {
        let slot = unbound[i].slot;
        let source = slot.producer + "."@ + slot.output;
        let before = "Cloudflare plan is blocked on required producer outputs: "@ + slot.key
            + " requires "@;
        assert(diagnostics[i].message =~= before + source);
        assert(source =~= (before + source).skip(before.len() as int));
    }
}

/// A component has an unbound slot exactly when one of its slots has no value.
proof fn lemma_unbound_slots(component: Seq<u8>, slots: Seq<SlotView>, values: Seq<SlotValueView>)
    requires
        slots.len() <= values.len(),
    ensures
        unbound_slots_of(component, slots, values).len() == 0 <==> forall|i: int|
            0 <= i < slots.len() ==> #[trigger] values[i] is Found,
    decreases slots.len(),
{
    if slots.len() > 0 {
        lemma_unbound_slots(component, slots.drop_last(), values);
        let n = slots.len() - 1;
        if forall|i: int| 0 <= i < slots.len() ==> #[trigger] values[i] is Found {
            assert(values[n] is Found);
        }
    }
}

/// The level has a value for each slot of a component.
pub open spec fn slots_are_filled(desired: DesiredView, component: PinView) -> bool {
    forall|i: int|
        0 <= i < component.context.slots.len() ==> slot_value(
            desired,
            #[trigger] component.context.slots[i],
        ) is Found
}

/// No input is blocked exactly when the level has a value for each slot of each component.
pub proof fn nothing_is_blocked_when_slots_are_filled(
    desired: DesiredView,
    components: Seq<PinView>,
)
    ensures
        blocked_in(desired, components).len() == 0 <==> forall|i: int|
            0 <= i < components.len() ==> slots_are_filled(desired, #[trigger] components[i]),
    decreases components.len(),
{
    if components.len() > 0 {
        let front = components.drop_last();
        let last = components.last();
        let slots = last.context.slots;
        let values = slot_values(desired, slots);
        nothing_is_blocked_when_slots_are_filled(desired, front);
        lemma_unbound_slots(last.spec_hash, slots, values);
        assert((forall|i: int| 0 <= i < slots.len() ==> #[trigger] values[i] is Found)
            <==> slots_are_filled(desired, last)) by {
            if slots_are_filled(desired, last) {
                assert forall|i: int| 0 <= i < slots.len() implies #[trigger] values[i] is Found by {
                    assert(slot_value(desired, slots[i]) is Found);
                }
            }
            if forall|i: int| 0 <= i < slots.len() ==> #[trigger] values[i] is Found {
                assert forall|i: int| 0 <= i < slots.len() implies slot_value(
                    desired,
                    #[trigger] slots[i],
                ) is Found by {
                    assert(values[i] is Found);
                }
            }
        }
        if forall|i: int|
            0 <= i < components.len() ==> slots_are_filled(desired, #[trigger] components[i]) {
            assert forall|i: int| 0 <= i < front.len() implies slots_are_filled(
                desired,
                #[trigger] front[i],
            ) by {
                assert(front[i] == components[i]);
            }
            assert(slots_are_filled(desired, components[components.len() - 1]));
        }
        if blocked_in(desired, components).len() == 0 {
            assert forall|i: int| 0 <= i < components.len() implies slots_are_filled(
                desired,
                #[trigger] components[i],
            ) by {
                if i < front.len() {
                    assert(front[i] == components[i]);
                }
            }
        }
    }
}

/// What planning and binding find unbound agree: where no input of a level is blocked, binding one
/// of its components never fails as unbound; a component with a slot that has no value is never
/// bound, and fails once each secret that it may take was read.
pub proof fn blocked_inputs_are_those_that_binding_misses(
    desired: DesiredView,
    component: PinView,
    reads: Seq<Result<Seq<char>, Seq<char>>>,
)
    requires
        desired.components.contains(component),
    ensures
        blocked_in(desired, desired.components).len() == 0 ==> (resolved(
            desired,
            component,
            reads,
        ) matches BindStepView::Failed(error) ==> !tells_unbound(error)),
        !slots_are_filled(desired, component) ==> {
            let slots = component.context.slots;
            &&& blocked_in(desired, desired.components).len() > 0
            &&& !(resolved(desired, component, reads) is Bound)
            &&& reads.len() >= secrets_before(slots, slots.len() as int) ==> resolved(
                desired,
                component,
                reads,
            ) is Failed
        },
{
    let slots = component.context.slots;
    let values = slot_values(desired, slots);
    let at = desired.components.index_of(component);
    assert(desired.components[at] == component);
    nothing_is_blocked_when_slots_are_filled(desired, desired.components);
    only_missing_values_fail_as_unbound(slots, values, reads);
    if slots_are_filled(desired, component) {
        assert forall|i: int| 0 <= i < slots.len() implies #[trigger] values[i] is Found by {
            assert(slot_value(desired, slots[i]) is Found);
        }
    } else {
        let i = choose|i: int|
            0 <= i < slots.len() && !(slot_value(desired, #[trigger] slots[i]) is Found);
        assert(!(values[i] is Found));
    }
}

/// Plans hold no upstream value: besides the slots without a value and the level's digest, nothing
/// of what producers have published goes into a level's plan or its review.
pub proof fn plans_hold_no_upstream_values(
    desired: DesiredView,
    other: DesiredView,
    observed: ObservationView,
    unbound: Seq<UnboundView>,
    digest: Seq<u8>,
)
    requires
        other == (DesiredView { upstream_outputs: other.upstream_outputs, ..desired }),
    ensures
        planned_with(desired, observed, unbound, digest) == planned_with(
            other,
            observed,
            unbound,
            digest,
        ),
{
}

/// The values that an apply can only tell of a component are among those of the level.
proof fn lemma_unknowns(components: Seq<PinView>, subdomain: Seq<char>, at: int, k: int)
    requires
        0 <= at < components.len(),
        0 <= k < unknowns_of(components[at], subdomain).len(),
    ensures
        unknowns_in(components, subdomain).contains(unknowns_of(components[at], subdomain)[k]),
    decreases components.len(),
{
    let front = unknowns_in(components.drop_last(), subdomain);
    let own = unknowns_of(components.last(), subdomain);
    let wanted = unknowns_of(components[at], subdomain)[k];
    if at == components.len() - 1 {
        assert((front + own)[front.len() + k] == wanted);
    } else {
        lemma_unknowns(components.drop_last(), subdomain, at, k);
        let j = choose|j: int| 0 <= j < front.len() && front[j] == wanted;
        assert((front + own)[j] == wanted);
    }
}

/// The identities that Cloudflare assigns, the claim URL, and a URL whose subdomain is not known
/// are declared as unknown for every Worker that is planned; a URL is planned exactly where it is
/// not declared as unknown.
pub proof fn apply_time_values_are_declared_unknown(
    components: Seq<PinView>,
    subdomain: Seq<char>,
    at: int,
)
    requires
        0 <= at < components.len(),
        !components[at].context.is_tunnel(),
    ensures
        ({
            let hash = components[at].spec_hash;
            let unknown = unknowns_in(components, subdomain);
            &&& unknown.contains(unknown_output(hash, "deploymentId"@, assigned_reason()))
            &&& unknown.contains(unknown_output(hash, "versionId"@, assigned_reason()))
            &&& unknown.contains(
                unknown_output(
                    hash,
                    "claimUrl"@,
                    "present only when Cloudflare returns a temporary-account claim URL"@,
                ),
            )
            &&& subdomain.len() == 0 ==> unknown.contains(
                unknown_output(
                    hash,
                    "url"@,
                    "workers.dev subdomain is discovered from Wrangler during apply"@,
                ),
            )
            &&& planned_url(components[at], subdomain) is Some <==> subdomain.len()
                > 0
        }),
{
    lemma_unknowns(components, subdomain, at, 0);
    lemma_unknowns(components, subdomain, at, 1);
    lemma_unknowns(components, subdomain, at, 2);
    if subdomain.len() == 0 {
        lemma_unknowns(components, subdomain, at, 3);
    }
}

/// How many of these slots the level has no value for.
pub open spec fn unfilled_among(desired: DesiredView, slots: Seq<SlotView>) -> nat {
    count_of(slots, |slot: SlotView| !(slot_value(desired, slot) is Found))
}

/// How many slots of the first `n` components the level has no value for.
pub open spec fn unfilled_before(desired: DesiredView, components: Seq<PinView>, n: int) -> nat
    decreases n,
{
    if n <= 0 {
        0
    } else {
        unfilled_before(desired, components, n - 1) + unfilled_among(
            desired,
            components[n - 1].context.slots,
        )
    }
}

/// Each slot of a component without a value stands behind those before it.
proof fn lemma_unbound_position(
    desired: DesiredView,
    component: Seq<u8>,
    slots: Seq<SlotView>,
    n: int,
    at: int,
)
    requires
        0 <= at < n <= slots.len(),
    ensures
        ({
            let unbound = unbound_slots_of(component, slots.take(n), slot_values(desired, slots));
            let before = unfilled_among(desired, slots.take(at)) as int;
            &&& unbound.len() == unfilled_among(desired, slots.take(n))
            &&& !(slot_value(desired, slots[at]) is Found) ==> {
                &&& before < unbound.len()
                &&& unbound[before] == (UnboundView {
                    component_spec_hash: component,
                    slot: slots[at],
                })
            }
        }),
    decreases n,
{
    let values = slot_values(desired, slots);
    let picks = |slot: SlotView| !(slot_value(desired, slot) is Found);
    let last = n - 1;
    assert(slots.take(n).drop_last() =~= slots.take(last));
    assert(values[last] == slot_value(desired, slots[last]));
    lemma_count_next(slots, picks, last);
    if last == 0 {
        assert(slots.take(0) =~= Seq::<SlotView>::empty());
        assert(unbound_slots_of(component, slots.take(0), values).len() == 0);
    } else {
        if at < last {
            lemma_unbound_position(desired, component, slots, last, at);
            lemma_count_grows(slots, picks, at, last);
        } else {
            lemma_unbound_position(desired, component, slots, last, 0);
        }
    }
}

/// The unbound slots of a component are as many as its slots without a value.
proof fn lemma_unbound_count(desired: DesiredView, component: Seq<u8>, slots: Seq<SlotView>)
    ensures
        unbound_slots_of(component, slots, slot_values(desired, slots)).len() == unfilled_among(
            desired,
            slots,
        ),
{
    if slots.len() > 0 {
        lemma_unbound_position(desired, component, slots, slots.len() as int, 0);
        assert(slots.take(slots.len() as int) =~= slots);
    }
}

/// The unbound slots of the first components come first.
proof fn lemma_unbound_in(desired: DesiredView, components: Seq<PinView>, n: int, at: int)
    requires
        0 <= at < n <= components.len(),
    ensures
        ({
            let all = unbound_in(desired, components.take(n));
            let component = components[at];
            let own = unbound_slots_of(
                component.spec_hash,
                component.context.slots,
                slot_values(desired, component.context.slots),
            );
            let before = unfilled_before(desired, components, at) as int;
            &&& all.len() == unfilled_before(desired, components, n)
            &&& before + own.len() <= all.len()
            &&& forall|k: int| 0 <= k < own.len() ==> all[before + k] == #[trigger] own[k]
        }),
    decreases n,
{
    let last = n - 1;
    let component = components[last];
    assert(components.take(n).drop_last() =~= components.take(last));
    lemma_unbound_count(desired, component.spec_hash, component.context.slots);
    let front = unbound_in(desired, components.take(last));
    let all = unbound_in(desired, components.take(n));
    assert(all == front + unbound_slots_of(
        component.spec_hash,
        component.context.slots,
        slot_values(desired, component.context.slots),
    ));
    if last == 0 {
        assert(components.take(0) =~= Seq::<PinView>::empty());
        assert(front.len() == 0);
        assert(unfilled_before(desired, components, 0) == 0);
    } else if at < last {
        lemma_unbound_in(desired, components, last, at);
    } else {
        lemma_unbound_in(desired, components, last, 0);
    }
}

/// The slots that a level has no value for are named in order, one by one: those of each component
/// in the order of its slots, and the components in the order of the level. Each is named with its
/// component's hash, and no other slot is named. The inputs that block the level are these slots,
/// each told by the path of its variable, its producer's hash and its output.
pub proof fn every_slot_without_a_value_is_named(desired: DesiredView, at: int, k: int)
    requires
        0 <= at < desired.components.len(),
        0 <= k < desired.components[at].context.slots.len(),
    ensures
        ({
            let components = desired.components;
            let slots = components[at].context.slots;
            let unbound = unbound_in(desired, components);
            let blocked = blocked_in(desired, components);
            let position = unfilled_before(desired, components, at) + unfilled_among(
                desired,
                slots.take(k),
            );
            &&& unbound.len() == unfilled_before(desired, components, components.len() as int)
            &&& blocked.len() == unbound.len()
            &&& !(slot_value(desired, slots[k]) is Found) ==> {
                &&& position < unbound.len()
                &&& unbound[position as int].component_spec_hash == components[at].spec_hash
                &&& unbound[position as int].slot == slots[k]
                &&& blocked[position as int].path =~= "/components/"@ + lower_hex(
                    components[at].spec_hash,
                ) + "/vars/"@ + slots[k].key
                &&& blocked[position as int].producer == lower_hex(slots[k].producer_spec_hash)
                &&& blocked[position as int].output == slots[k].output
            }
        }),
{
    let components = desired.components;
    let slots = components[at].context.slots;
    let n = components.len() as int;
    lemma_unbound_in(desired, components, n, at);
    assert(components.take(n) =~= components);
    lemma_unbound_position(
        desired,
        components[at].spec_hash,
        slots,
        slots.len() as int,
        k,
    );
    assert(slots.take(slots.len() as int) =~= slots);
}

/// A level without components names no slot.
pub proof fn levels_without_components_wait_for_nothing(desired: DesiredView)
    requires
        desired.components.len() == 0,
    ensures
        unbound_in(desired, desired.components).len() == 0,
        blocked_in(desired, desired.components).len() == 0,
{
}

/// A plan is blocked exactly when the level has no value for some slot. Its proposal then names
/// each such slot in order, with the path of its variable, its producer's hash and its output, and
/// a diagnostic for each names the producer and the output; the level is looked at again after two
/// seconds.
pub proof fn blocked_plans_name_every_slot_without_a_value(
    desired: DesiredView,
    observed: ObservationView,
    at: int,
    k: int,
)
    requires
        0 <= at < desired.components.len(),
        0 <= k < desired.components[at].context.slots.len(),
    ensures
        planned(desired, observed) is Waiting <==> unfilled_before(
            desired,
            desired.components,
            desired.components.len() as int,
        ) > 0,
        planned(desired, observed) matches PlanOutcomeView::Waiting {
            proposal,
            diagnostics,
            retry,
        } ==> {
            let component = desired.components[at];
            let slots = component.context.slots;
            let total = unfilled_before(
                desired,
                desired.components,
                desired.components.len() as int,
            );
            let position = unfilled_before(desired, desired.components, at) + unfilled_among(
                desired,
                slots.take(k),
            );
            &&& retry.seconds == 2
            &&& proposal.plan is None
            &&& proposal.unknown_slots.len() == 0
            &&& proposal.blocked_on_inputs.len() == total
            &&& diagnostics.len() == total
            &&& proposal.review == blocked_review(proposal.blocked_on_inputs)
            &&& !(slot_value(desired, slots[k]) is Found) ==> {
                let input = proposal.blocked_on_inputs[position as int];
                let told = diagnostics[position as int];
                &&& position < total
                &&& input.path =~= "/components/"@ + lower_hex(component.spec_hash) + "/vars/"@
                    + slots[k].key
                &&& input.producer == lower_hex(slots[k].producer_spec_hash)
                &&& input.output == slots[k].output
                &&& told.severity == Severity::Info
                &&& told.code == "cloudflare.input.unbound"@
                &&& told.message =~= "Cloudflare plan is blocked on required producer outputs: "@
                    + slots[k].key + " requires "@ + slots[k].producer + "."@ + slots[k].output
            }
        },
{
    every_slot_without_a_value_is_named(desired, at, k);
    let unbound = unbound_in(desired, desired.components);
    if unbound.len() > 0 {
        let position = (unfilled_before(desired, desired.components, at) + unfilled_among(
            desired,
            desired.components[at].context.slots.take(k),
        )) as int;
        if position < unbound.len() {
            assert(blocked_of(unbound)[position] == blocked_slot(unbound[position]));
            assert(unbound_diagnostics(unbound)[position] == unbound_diagnostic(
                unbound[position],
            ));
        }
    }
}

/// Every component has a deployed name.
pub open spec fn all_named(components: Seq<PinView>) -> bool {
    forall|i: int|
        0 <= i < components.len() ==> (#[trigger] components[i]).context.deployed_name() is Ok
}

/// Where every component has a name, nothing is wrong with the names.
proof fn lemma_all_named(components: Seq<PinView>, from: int)
    requires
        0 <= from <= components.len(),
        all_named(components),
    ensures
        name_problem(components, from) is None,
    decreases components.len() - from,
{
    if from < components.len() {
        assert(components[from].context.deployed_name() is Ok);
        lemma_all_named(components, from + 1);
    }
}

/// The first component without a name decides.
pub proof fn the_first_component_without_a_name_is_told(
    components: Seq<PinView>,
    from: int,
    at: int,
)
    requires
        0 <= from <= at < components.len(),
        components[at].context.deployed_name() is Err,
        forall|i: int|
            from <= i < at ==> (#[trigger] components[i]).context.deployed_name() is Ok,
    ensures
        name_problem(components, from) == Some(components[at].context.deployed_name()->Err_0),
    decreases at - from,
{
    if from < at {
        assert(components[from].context.deployed_name() is Ok);
        the_first_component_without_a_name_is_told(components, from + 1, at);
    }
}

/// The proposal that an outcome comes with.
pub open spec fn proposal_of(outcome: PlanOutcomeView) -> ProposalView {
    match outcome {
        PlanOutcomeView::Ready { proposal, .. } => proposal,
        PlanOutcomeView::Apply(proposal) => proposal,
        PlanOutcomeView::Waiting { proposal, .. } => proposal,
        PlanOutcomeView::Failed { proposal, .. } => proposal,
    }
}

/// A level whose slots all have values and whose components, removed ones included, all have names
/// is planned: each removed component's Worker is deleted and then each component is deployed under
/// its deployed name, as an update where a Worker of that name was observed. The plan is for the
/// level with exactly this digest. Where there is nothing to do, the level is ready, with nothing to
/// publish.
pub proof fn levels_are_planned_operation_by_operation(
    desired: DesiredView,
    observed: ObservationView,
)
    requires
        unbound_in(desired, desired.components).len() == 0,
        all_named(desired.removed_components),
        all_named(desired.components),
    ensures
        ({
            let removed = desired.removed_components;
            let total = removed.len() + desired.components.len();
            let outcome = planned(desired, observed);
            let proposal = proposal_of(outcome);
            let plan = proposal.plan->Some_0;
            &&& total > 0 ==> outcome is Apply
            &&& total == 0 ==> (outcome matches PlanOutcomeView::Ready {
                outputs,
                diagnostics,
                publication,
                ..
            } && outputs.len() == 0 && diagnostics.len() == 0 && publication is None)
            &&& proposal.plan is Some
            &&& proposal.blocked_on_inputs.len() == 0
            &&& proposal.review == plan_review(
                plan,
                desired.components,
                observed.facts.subdomain,
            )
            &&& plan.desired_digest =~= "blake3:"@ + lower_hex(
                blake3_digest(encode_utf8(json_text(desired_json(desired)))),
            )
            &&& plan.operations.len() == total
            &&& forall|i: int|
                0 <= i < removed.len() ==> {
                    &&& (#[trigger] plan.operations[i]).action == PlanAction::Delete
                    &&& plan.operations[i].component == removed[i]
                    &&& Ok::<Seq<char>, ContextErrorView>(plan.operations[i].worker_name)
                        == removed[i].context.deployed_name()
                }
            &&& forall|i: int|
                removed.len() <= i < total ==> {
                    let component = desired.components[i - removed.len()];
                    &&& (#[trigger] plan.operations[i]).component == component
                    &&& Ok::<Seq<char>, ContextErrorView>(plan.operations[i].worker_name)
                        == component.context.deployed_name()
                    &&& observed.existing_workers.contains(plan.operations[i].worker_name)
                        ==> plan.operations[i].action == PlanAction::Update
                    &&& !observed.existing_workers.contains(plan.operations[i].worker_name)
                        ==> plan.operations[i].action == PlanAction::Create
                }
        }),
{
    lemma_all_named(desired.removed_components, 0);
    lemma_all_named(desired.components, 0);
    let removed = desired.removed_components;
    let operations = planned_operations(desired, observed.existing_workers);
    assert forall|i: int| 0 <= i < removed.len() implies operations[i] == delete_operation(
        removed[i],
    ) by {}
    assert forall|i: int| removed.len() <= i < operations.len() implies operations[i]
        == deploy_operation(
        desired.components[i - removed.len()],
        observed.existing_workers,
    ) by {}
    assert forall|i: int| removed.len() <= i < operations.len() implies (
    #[trigger] operations[i]).component.context.deployed_name() is Ok by {
        assert(desired.components[i - removed.len()].context.deployed_name() is Ok);
    }
}

/// A level in which some component has no name is not planned: the plan fails, for the first removed
/// component without a name or else for the first component without one.
pub proof fn levels_without_names_are_not_planned(
    desired: DesiredView,
    observed: ObservationView,
    at: int,
)
    requires
        unbound_in(desired, desired.components).len() == 0,
    ensures
        0 <= at < desired.removed_components.len()
            && desired.removed_components[at].context.deployed_name() is Err && (forall|i: int|
            0 <= i < at ==> (
            #[trigger] desired.removed_components[i]).context.deployed_name() is Ok) ==> planned(
            desired,
            observed,
        ) == failed_outcome(
            "removed worker identity"@,
            desired.removed_components[at].context.deployed_name()->Err_0.message(),
        ),
        all_named(desired.removed_components) && 0 <= at < desired.components.len()
            && desired.components[at].context.deployed_name() is Err && (forall|i: int|
            0 <= i < at ==> (#[trigger] desired.components[i]).context.deployed_name() is Ok)
            ==> planned(desired, observed) == failed_outcome(
            "worker identity"@,
            desired.components[at].context.deployed_name()->Err_0.message(),
        ),
{
    let removed = desired.removed_components;
    if 0 <= at < removed.len() && removed[at].context.deployed_name() is Err && (forall|i: int|
        0 <= i < at ==> (#[trigger] removed[i]).context.deployed_name() is Ok) {
        the_first_component_without_a_name_is_told(removed, 0, at);
    }
    if all_named(removed) && 0 <= at < desired.components.len()
        && desired.components[at].context.deployed_name() is Err && (forall|i: int|
        0 <= i < at ==> (#[trigger] desired.components[i]).context.deployed_name() is Ok) {
        lemma_all_named(removed, 0);
        the_first_component_without_a_name_is_told(desired.components, 0, at);
    }
}

/// The outputs of a component that only its apply can tell.
pub open spec fn untold_outputs(component: PinView, subdomain: Seq<char>) -> Seq<Seq<char>> {
    if component.context.tunnel is Some {
        seq!["tunnelId"@, "capability"@]
    } else if subdomain.len() > 0 {
        seq!["deploymentId"@, "versionId"@, "claimUrl"@]
    } else {
        seq!["deploymentId"@, "versionId"@, "claimUrl"@, "url"@]
    }
}

/// How many outputs of the first `n` components only their apply can tell.
pub open spec fn untold_before(components: Seq<PinView>, subdomain: Seq<char>, n: int) -> nat
    decreases n,
{
    if n <= 0 {
        0
    } else {
        untold_before(components, subdomain, n - 1) + untold_outputs(
            components[n - 1],
            subdomain,
        ).len()
    }
}

/// The outputs of the first components come first.
proof fn lemma_untold(components: Seq<PinView>, subdomain: Seq<char>, n: int, at: int, k: int)
    requires
        0 <= at < n <= components.len(),
        0 <= k < untold_outputs(components[at], subdomain).len(),
    ensures
        ({
            let all = unknowns_in(components.take(n), subdomain);
            let position = untold_before(components, subdomain, at) + k;
            &&& all.len() == untold_before(components, subdomain, n)
            &&& position < all.len()
            &&& all[position] == unknowns_of(components[at], subdomain)[k]
        }),
    decreases n,
{
    let last = n - 1;
    assert(components.take(n).drop_last() =~= components.take(last));
    let front = unknowns_in(components.take(last), subdomain);
    let all = unknowns_in(components.take(n), subdomain);
    assert(all == front + unknowns_of(components[last], subdomain));
    if last == 0 {
        assert(components.take(0) =~= Seq::<PinView>::empty());
        assert(front.len() == 0);
        assert(untold_before(components, subdomain, 0) == 0);
    } else if at < last {
        lemma_untold(components, subdomain, last, at, k);
    } else {
        lemma_untold(components, subdomain, last, 0, 0);
    }
}

/// A proposal declares, in order, each output of each component that only the apply can tell, and
/// nothing else: the identities that Cloudflare assigns, a claim URL, and a URL whose subdomain is
/// not known; of a tunnel its identity and its capability.
pub proof fn untold_outputs_are_declared_in_order(
    desired: DesiredView,
    observed: ObservationView,
    at: int,
    k: int,
)
    requires
        planned(desired, observed) is Apply,
        0 <= at < desired.components.len(),
        0 <= k < untold_outputs(desired.components[at], observed.facts.subdomain).len(),
    ensures
        planned(desired, observed) matches PlanOutcomeView::Apply(proposal) && {
            let components = desired.components;
            let subdomain = observed.facts.subdomain;
            let position = untold_before(components, subdomain, at) + k;
            let name = untold_outputs(components[at], subdomain)[k];
            let declared = proposal.unknown_slots[position];
            &&& proposal.unknown_slots.len() == untold_before(
                components,
                subdomain,
                components.len() as int,
            )
            &&& position < proposal.unknown_slots.len()
            &&& declared.path =~= "/outputs/"@ + lower_hex(components[at].spec_hash) + "/"@ + name
            &&& components[at].context.tunnel is Some || k < 2 ==> declared.reason
                == "Cloudflare assigns this value while applying the deployment"@
            &&& components[at].context.tunnel is None && k == 2 ==> declared.reason
                == "present only when Cloudflare returns a temporary-account claim URL"@
            &&& components[at].context.tunnel is None && k == 3 ==> declared.reason
                == "workers.dev subdomain is discovered from Wrangler during apply"@
        },
{
    let components = desired.components;
    let n = components.len() as int;
    lemma_untold(components, observed.facts.subdomain, n, at, k);
    assert(components.take(n) =~= components);
}

/// The component's Worker is not among those that the level deploys.
pub open spec fn is_gone(component: PinView, next: Seq<PinView>) -> bool {
    component.context.deployed_name() matches Ok(name) && forall|j: int|
        0 <= j < next.len() ==> (
        (#[trigger] next[j]).context.deployed_name() matches Ok(other) ==> other != name)
}

/// A component is removed where its Worker is gone.
proof fn lemma_is_gone(component: PinView, next: Seq<PinView>)
    ensures
        is_removed(component, next) == is_gone(component, next),
{
    if let Ok(name) = component.context.deployed_name() {
        if is_gone(component, next) {
            assert forall|j: int| 0 <= j < next.len() implies (
            #[trigger] next[j]).context.deployed_name() != Ok::<Seq<char>, ContextErrorView>(
                name,
            ) by {
                assert(next[j].context.deployed_name() matches Ok(other) ==> other != name);
            }
        }
        if name_is_free(next, name) {
            assert forall|j: int| 0 <= j < next.len() implies (
            (#[trigger] next[j]).context.deployed_name() matches Ok(other) ==> other != name) by {
                assert(next[j].context.deployed_name() != Ok::<Seq<char>, ContextErrorView>(name));
            }
        }
    }
}

/// A transition carries the components whose Workers are gone, each in its place among them, and no
/// others.
pub proof fn transitions_carry_what_is_gone_in_order(
    previous: Seq<PinView>,
    next: Seq<PinView>,
    at: int,
)
    requires
        0 <= at < previous.len(),
    ensures
        ({
            let gone = |component: PinView| is_gone(component, next);
            let carried = removed_by(previous, next);
            let position = count_of(previous.take(at), gone) as int;
            &&& carried.len() == count_of(previous, gone)
            &&& is_gone(previous[at], next) ==> position < carried.len() && carried[position]
                == previous[at]
        }),
    decreases previous.len(),
{
    let gone = |component: PinView| is_gone(component, next);
    let n = previous.len() - 1;
    let front = previous.drop_last();
    lemma_is_gone(previous.last(), next);
    if n == 0 {
        assert(front =~= Seq::<PinView>::empty());
        assert(previous.take(0) =~= front);
        assert(removed_by(front, next).len() == 0);
        assert(count_of(front, gone) == 0);
    } else if at < n {
        transitions_carry_what_is_gone_in_order(front, next, at);
        assert(front.take(at) =~= previous.take(at));
    } else {
        transitions_carry_what_is_gone_in_order(front, next, 0);
        assert(previous.take(n) =~= front);
    }
}

/// What each outcome tells: a plan that cannot be made is an error that stands; a target that is
/// out of reach is a warning, and is tried again after two seconds; and of what an operation ends
/// in only a wrong configuration stands. Nothing of it holds a plan that could be applied.
pub proof fn failures_are_told_and_only_some_stand(
    phase: Seq<char>,
    detail: Seq<char>,
    error: TargetErrorView,
)
    ensures
        failed_outcome(phase, detail) matches PlanOutcomeView::Failed { proposal, diagnostics } && {
            &&& proposal.plan is None
            &&& proposal.blocked_on_inputs.len() == 0
            &&& proposal.unknown_slots.len() == 0
            &&& proposal.review == status_review("failed"@, phase, detail)
            &&& diagnostics.len() == 1
            &&& diagnostics[0] == (DiagnosticView {
                severity: Severity::Error,
                code: "cloudflare.plan.invalid"@,
                message: detail,
            })
        },
        blocked_outcome(phase, error) matches PlanOutcomeView::Waiting {
            proposal,
            diagnostics,
            retry,
        } && {
            &&& proposal.plan is None
            &&& proposal.blocked_on_inputs.len() == 0
            &&& proposal.unknown_slots.len() == 0
            &&& proposal.review == status_review("blocked"@, phase, error.message())
            &&& diagnostics.len() == 1
            &&& diagnostics[0] == (DiagnosticView {
                severity: Severity::Warning,
                code: "cloudflare.target.unavailable"@,
                message: error.message(),
            })
            &&& retry.seconds == 2
        },
        waiting_outcome(error) matches ApplyOutcomeView::Waiting { diagnostics, retry } && {
            &&& diagnostics.len() == 1
            &&& diagnostics[0] == (DiagnosticView {
                severity: Severity::Warning,
                code: "cloudflare.target.unavailable"@,
                message: error.message(),
            })
            &&& retry.seconds == 2
        },
        failure_outcome(TargetErrorView::Config(detail)) matches ApplyOutcomeView::Failed(
            diagnostics,
        ) && {
            &&& diagnostics.len() == 1
            &&& diagnostics[0] == (DiagnosticView {
                severity: Severity::Error,
                code: "cloudflare.target.config"@,
                message: detail,
            })
        },
        failure_outcome(TargetErrorView::Provider(detail)) == waiting_outcome(
            TargetErrorView::Provider(detail),
        ),
        failure_outcome(TargetErrorView::Stage(detail)) == waiting_outcome(
            TargetErrorView::Stage(detail),
        ),
{
}

} // verus!
