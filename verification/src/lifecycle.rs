//! What the connector hands back to core at each step of a component's life.

use vstd::prelude::*;
use vstd::string::*;

use crate::json::{Json, JsonView};
use crate::model::{option_view, views};
use crate::slice::{ComponentPin, PinView};

verus! {

/// Complete private Cloudflare plan.
#[derive(Debug, PartialEq, Eq)]
pub struct CloudflarePlan {
    pub desired_digest: String,
    pub operations: Vec<PlannedOperation>,
}

/// One target mutation covered by the plan.
#[derive(Debug, PartialEq, Eq)]
pub struct PlannedOperation {
    pub action: PlanAction,
    pub worker_name: String,
    pub component: ComponentPin,
}

/// Cloudflare mutation classification.
#[derive(Clone, Copy, Debug, PartialEq, Eq, Structural)]
pub enum PlanAction {
    Create,
    Update,
    Delete,
}

/// How much a diagnostic matters.
#[derive(Clone, Copy, Debug, PartialEq, Eq, Structural)]
pub enum Severity {
    Info,
    Warning,
    Error,
}

/// One thing to tell about a step.
#[derive(Debug, PartialEq, Eq)]
pub struct Diagnostic {
    pub severity: Severity,
    pub code: String,
    pub message: String,
}

/// A slot that no producer has filled yet.
#[derive(Debug, PartialEq, Eq)]
pub struct BlockedInput {
    pub path: String,
    pub producer: String,
    pub output: String,
}

/// A value that only an apply can tell.
#[derive(Debug, PartialEq, Eq)]
pub struct UnknownSlot {
    pub path: String,
    pub reason: String,
}

/// The redacted forms of a plan, for review.
#[derive(Debug, PartialEq, Eq)]
pub struct ReviewProjection {
    pub json: Json,
    pub markdown: String,
}

/// A plan to record. Only one with a private plan can be applied.
#[derive(Debug, PartialEq, Eq)]
pub struct PlanProposal {
    pub plan: Option<CloudflarePlan>,
    pub review: ReviewProjection,
    pub blocked_on_inputs: Vec<BlockedInput>,
    pub unknown_slots: Vec<UnknownSlot>,
}

/// When to try again.
#[derive(Clone, Copy, Debug, PartialEq, Eq, Structural)]
pub struct Retry {
    pub seconds: u64,
}

/// Where a published level can be found.
#[derive(Debug, PartialEq, Eq)]
pub struct Publication {
    pub revision: String,
    pub uri: String,
}

/// What a component publishes.
#[derive(Debug, PartialEq, Eq)]
pub struct Output {
    pub component_spec_hash: [u8; 32],
    pub values: Json,
}

/// What planning a level led to.
#[derive(Debug, PartialEq, Eq)]
pub enum PlanOutcome {
    Waiting { proposal: PlanProposal, diagnostics: Vec<Diagnostic>, retry: Retry },
    Ready {
        proposal: PlanProposal,
        outputs: Vec<Output>,
        diagnostics: Vec<Diagnostic>,
        publication: Option<Publication>,
    },
    Failed { proposal: PlanProposal, diagnostics: Vec<Diagnostic> },
    Apply(PlanProposal),
}

/// What applying a plan led to.
#[derive(Debug, PartialEq, Eq)]
pub enum ApplyOutcome {
    Waiting { diagnostics: Vec<Diagnostic>, retry: Retry },
    Failed(Vec<Diagnostic>),
    Ready {
        outputs: Vec<Output>,
        diagnostics: Vec<Diagnostic>,
        publication: Option<Publication>,
    },
}

/// What retiring a graph led to.
#[derive(Debug, PartialEq, Eq)]
pub enum RetireOutcome {
    Blocked(Vec<Diagnostic>),
    Waiting(Retry),
    Absent,
}

/// What may run at the same time.
#[derive(Clone, Copy, Debug, PartialEq, Eq, Structural)]
pub enum ConcurrencyScope {
    /// One pass at a time over the whole connector.
    Connector,
}

/// A plan that was recorded and may be applied.
#[derive(Debug, PartialEq, Eq)]
pub struct Approved {
    pub plan: CloudflarePlan,
    pub digest: String,
}

// ---------------------------------------------------------------------------
// Views
// ---------------------------------------------------------------------------
/// What a `CloudflarePlan` says.
pub struct PlanView {
    pub desired_digest: Seq<char>,
    pub operations: Seq<OperationView>,
}

/// What a `PlannedOperation` says.
pub struct OperationView {
    pub action: PlanAction,
    pub worker_name: Seq<char>,
    pub component: PinView,
}

/// What a `Diagnostic` says.
pub struct DiagnosticView {
    pub severity: Severity,
    pub code: Seq<char>,
    pub message: Seq<char>,
}

/// What a `BlockedInput` says.
pub struct BlockedView {
    pub path: Seq<char>,
    pub producer: Seq<char>,
    pub output: Seq<char>,
}

/// What an `UnknownSlot` says.
pub struct UnknownView {
    pub path: Seq<char>,
    pub reason: Seq<char>,
}

/// What a `ReviewProjection` says.
pub struct ReviewView {
    pub json: JsonView,
    pub markdown: Seq<char>,
}

/// What a `PlanProposal` says.
pub struct ProposalView {
    pub plan: Option<PlanView>,
    pub review: ReviewView,
    pub blocked_on_inputs: Seq<BlockedView>,
    pub unknown_slots: Seq<UnknownView>,
}

/// What a `Publication` says.
pub struct PublicationView {
    pub revision: Seq<char>,
    pub uri: Seq<char>,
}

/// What an `Output` says.
pub struct OutputView {
    pub component_spec_hash: Seq<u8>,
    pub values: JsonView,
}

/// What a `PlanOutcome` says.
pub enum PlanOutcomeView {
    Waiting { proposal: ProposalView, diagnostics: Seq<DiagnosticView>, retry: Retry },
    Ready {
        proposal: ProposalView,
        outputs: Seq<OutputView>,
        diagnostics: Seq<DiagnosticView>,
        publication: Option<PublicationView>,
    },
    Failed { proposal: ProposalView, diagnostics: Seq<DiagnosticView> },
    Apply(ProposalView),
}

/// What an `ApplyOutcome` says.
pub enum ApplyOutcomeView {
    Waiting { diagnostics: Seq<DiagnosticView>, retry: Retry },
    Failed(Seq<DiagnosticView>),
    Ready {
        outputs: Seq<OutputView>,
        diagnostics: Seq<DiagnosticView>,
        publication: Option<PublicationView>,
    },
}

/// What a `RetireOutcome` says.
pub enum RetireOutcomeView {
    Blocked(Seq<DiagnosticView>),
    Waiting(Retry),
    Absent,
}

/// What an `Approved` says.
pub struct ApprovedView {
    pub plan: PlanView,
    pub digest: Seq<char>,
}

impl View for CloudflarePlan {
    type V = PlanView;

    open spec fn view(&self) -> PlanView {
        PlanView { desired_digest: self.desired_digest@, operations: views(self.operations@) }
    }
}

impl View for PlannedOperation {
    type V = OperationView;

    open spec fn view(&self) -> OperationView {
        OperationView {
            action: self.action,
            worker_name: self.worker_name@,
            component: self.component@,
        }
    }
}

impl View for Diagnostic {
    type V = DiagnosticView;

    open spec fn view(&self) -> DiagnosticView {
        DiagnosticView { severity: self.severity, code: self.code@, message: self.message@ }
    }
}

impl View for BlockedInput {
    type V = BlockedView;

    open spec fn view(&self) -> BlockedView {
        BlockedView { path: self.path@, producer: self.producer@, output: self.output@ }
    }
}

impl View for UnknownSlot {
    type V = UnknownView;

    open spec fn view(&self) -> UnknownView {
        UnknownView { path: self.path@, reason: self.reason@ }
    }
}

impl View for ReviewProjection {
    type V = ReviewView;

    open spec fn view(&self) -> ReviewView {
        ReviewView { json: self.json@, markdown: self.markdown@ }
    }
}

impl View for PlanProposal {
    type V = ProposalView;

    open spec fn view(&self) -> ProposalView {
        ProposalView {
            plan: option_view(self.plan),
            review: self.review@,
            blocked_on_inputs: views(self.blocked_on_inputs@),
            unknown_slots: views(self.unknown_slots@),
        }
    }
}

impl View for Publication {
    type V = PublicationView;

    open spec fn view(&self) -> PublicationView {
        PublicationView { revision: self.revision@, uri: self.uri@ }
    }
}

impl View for Output {
    type V = OutputView;

    open spec fn view(&self) -> OutputView {
        OutputView { component_spec_hash: self.component_spec_hash@, values: self.values@ }
    }
}

impl View for PlanOutcome {
    type V = PlanOutcomeView;

    open spec fn view(&self) -> PlanOutcomeView {
        match self {
            PlanOutcome::Waiting { proposal, diagnostics, retry } => PlanOutcomeView::Waiting {
                proposal: proposal@,
                diagnostics: views(diagnostics@),
                retry: *retry,
            },
            PlanOutcome::Ready { proposal, outputs, diagnostics, publication } => {
                PlanOutcomeView::Ready {
                    proposal: proposal@,
                    outputs: views(outputs@),
                    diagnostics: views(diagnostics@),
                    publication: option_view(*publication),
                }
            },
            PlanOutcome::Failed { proposal, diagnostics } => PlanOutcomeView::Failed {
                proposal: proposal@,
                diagnostics: views(diagnostics@),
            },
            PlanOutcome::Apply(proposal) => PlanOutcomeView::Apply(proposal@),
        }
    }
}

impl View for ApplyOutcome {
    type V = ApplyOutcomeView;

    open spec fn view(&self) -> ApplyOutcomeView {
        match self {
            ApplyOutcome::Waiting { diagnostics, retry } => ApplyOutcomeView::Waiting {
                diagnostics: views(diagnostics@),
                retry: *retry,
            },
            ApplyOutcome::Failed(diagnostics) => ApplyOutcomeView::Failed(views(diagnostics@)),
            ApplyOutcome::Ready { outputs, diagnostics, publication } => ApplyOutcomeView::Ready {
                outputs: views(outputs@),
                diagnostics: views(diagnostics@),
                publication: option_view(*publication),
            },
        }
    }
}

impl View for RetireOutcome {
    type V = RetireOutcomeView;

    open spec fn view(&self) -> RetireOutcomeView {
        match self {
            RetireOutcome::Blocked(diagnostics) => RetireOutcomeView::Blocked(views(diagnostics@)),
            RetireOutcome::Waiting(retry) => RetireOutcomeView::Waiting(*retry),
            RetireOutcome::Absent => RetireOutcomeView::Absent,
        }
    }
}

impl View for Approved {
    type V = ApprovedView;

    open spec fn view(&self) -> ApprovedView {
        ApprovedView { plan: self.plan@, digest: self.digest@ }
    }
}

// ---------------------------------------------------------------------------
// Makers
// ---------------------------------------------------------------------------
impl Diagnostic {
    /// Something worth knowing.
    pub fn info(code: &str, message: String) -> (diagnostic: Diagnostic)
        ensures
            diagnostic@ == (DiagnosticView {
                severity: Severity::Info,
                code: code@,
                message: message@,
            }),
    {
        Diagnostic { severity: Severity::Info, code: code.to_owned(), message }
    }

    /// Something that holds a step up.
    pub fn warning(code: &str, message: String) -> (diagnostic: Diagnostic)
        ensures
            diagnostic@ == (DiagnosticView {
                severity: Severity::Warning,
                code: code@,
                message: message@,
            }),
    {
        Diagnostic { severity: Severity::Warning, code: code.to_owned(), message }
    }

    /// Something that makes a step fail.
    pub fn error(code: &str, message: String) -> (diagnostic: Diagnostic)
        ensures
            diagnostic@ == (DiagnosticView {
                severity: Severity::Error,
                code: code@,
                message: message@,
            }),
    {
        Diagnostic { severity: Severity::Error, code: code.to_owned(), message }
    }
}

/// A list of one diagnostic.
pub fn one(diagnostic: Diagnostic) -> (list: Vec<Diagnostic>)
    ensures
        views(list@) == seq![diagnostic@],
{
    let mut list: Vec<Diagnostic> = Vec::new();
    list.push(diagnostic);
    assert(views(list@) =~= seq![diagnostic@]);
    list
}

impl ProposalView {
    /// A proposal that only tells.
    pub open spec fn declarative(review: ReviewView) -> ProposalView {
        ProposalView {
            plan: None,
            review,
            blocked_on_inputs: Seq::empty(),
            unknown_slots: Seq::empty(),
        }
    }

    /// A proposal that can be applied.
    pub open spec fn executable(plan: PlanView, review: ReviewView) -> ProposalView {
        ProposalView { plan: Some(plan), ..ProposalView::declarative(review) }
    }
}

impl PlanProposal {
    /// A proposal that only tells.
    pub fn declarative(review: ReviewProjection) -> (proposal: PlanProposal)
        ensures
            proposal@ == ProposalView::declarative(review@),
    {
        let blocked_on_inputs: Vec<BlockedInput> = Vec::new();
        let unknown_slots: Vec<UnknownSlot> = Vec::new();
        assert(views(blocked_on_inputs@) =~= Seq::empty());
        assert(views(unknown_slots@) =~= Seq::empty());
        PlanProposal { plan: None, review, blocked_on_inputs, unknown_slots }
    }

    /// A proposal that can be applied.
    pub fn executable(plan: CloudflarePlan, review: ReviewProjection) -> (proposal: PlanProposal)
        ensures
            proposal@ == ProposalView::executable(plan@, review@),
    {
        let mut proposal = PlanProposal::declarative(review);
        proposal.plan = Some(plan);
        proposal
    }
}

// ---------------------------------------------------------------------------
// Laws
// ---------------------------------------------------------------------------
/// A proposal holds the review that it is made with. Only one that is made with a plan has one, and
/// as it is made it waits for no input and leaves no value open.
pub proof fn proposals_hold_their_review(plan: PlanView, review: ReviewView)
    ensures
        ({
            let declared = ProposalView::declarative(review);
            let executable = ProposalView::executable(plan, review);
            &&& declared.plan is None
            &&& declared.review == review
            &&& declared.blocked_on_inputs.len() == 0
            &&& declared.unknown_slots.len() == 0
            &&& executable.plan == Some(plan)
            &&& executable.review == review
            &&& executable.blocked_on_inputs.len() == 0
            &&& executable.unknown_slots.len() == 0
        }),
{
}

} // verus!
