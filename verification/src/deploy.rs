//! Deploying and deleting a Worker, one step at a time: each function looks at what has happened so
//! far and says what comes next.

use vstd::prelude::*;
use vstd::string::*;
use vstd::utf8::*;

use crate::bindings::{
    is_confined, resolve_bindings, resolved, secrets_stay_under_their_root, slot_values, BindStep,
    BindStepView,
};
use crate::context::{FileView, ProjectFile};
use crate::model::{option_view, outcome_views, pair_views, result_view, views};
use crate::outside::{blake3_digest, blake3_hash};
use crate::review::planned_url;
use crate::slice::{ComponentPin, DesiredSlice, DesiredView, PinView};
use crate::target::{
    happened, AccountFacts, ConfigView, Deployment, DeploymentView, FactsView, Target, TargetError,
    TargetErrorView,
};
use crate::wrangler::{
    delete_command, deploy_command, deployment_from, deployment_in,
    each_plain_value_is_handed_over, runs_in_the_account, secret_command,
    secrets_and_deletions_name_the_worker, to_delete, to_deploy, to_put_secret, CommandOutput,
    CommandOutputView, CommandView, WorkingDirectory, WranglerCommand,
};

verus! {

/// What became of handing a secret to Wrangler.
#[derive(Debug, PartialEq, Eq)]
pub enum SecretPut {
    /// The command could not be started, fed or awaited.
    Failed(String),
    /// The command has no standard input.
    NoInput,
    /// The command ended, with success or without.
    Ended(bool),
}

/// What has happened so far in a deployment.
#[derive(Debug, PartialEq, Eq)]
pub struct DeployHistory {
    /// What became of staging the component's files in a fresh directory.
    pub staged: Option<Result<(), String>>,
    /// What became of reading the secrets that were asked for, in order.
    pub secrets_read: Vec<Result<String, String>>,
    /// What became of running Wrangler's deploy command.
    pub deployed: Option<Result<CommandOutput, String>>,
    /// What became of putting the secrets that were asked for, in order.
    pub secrets_put: Vec<SecretPut>,
}

/// Where a deployment stands.
#[derive(Debug, PartialEq, Eq)]
pub enum DeployStep {
    /// These files have to be staged in a fresh directory.
    Stage(Vec<ProjectFile>),
    /// The secret of this name has to be read under this directory.
    ReadSecret { root: String, name: String },
    /// Wrangler has to deploy.
    Run(WranglerCommand),
    /// Wrangler has to be handed this secret on its standard input.
    PutSecret { command: WranglerCommand, value: String },
    Done(Result<Deployment, TargetError>),
}

/// Where a deletion stands.
#[derive(Debug, PartialEq, Eq)]
pub enum DeleteStep {
    /// Wrangler has to delete the Worker.
    Run(WranglerCommand),
    Done(Result<(), TargetError>),
}

// ---------------------------------------------------------------------------
// Views
// ---------------------------------------------------------------------------
/// What a `SecretPut` says.
pub enum SecretPutView {
    Failed(Seq<char>),
    NoInput,
    Ended(bool),
}

/// What a `DeployHistory` says.
pub struct HistoryView {
    pub staged: Option<Result<(), Seq<char>>>,
    pub secrets_read: Seq<Result<Seq<char>, Seq<char>>>,
    pub deployed: Option<Result<CommandOutputView, Seq<char>>>,
    pub secrets_put: Seq<SecretPutView>,
}

/// What a `DeployStep` says.
pub enum DeployStepView {
    Stage(Seq<FileView>),
    ReadSecret { root: Seq<char>, name: Seq<char> },
    Run(CommandView),
    PutSecret { command: CommandView, value: Seq<char> },
    Done(Result<DeploymentView, TargetErrorView>),
}

/// What a `DeleteStep` says.
pub enum DeleteStepView {
    Run(CommandView),
    Done(Result<(), TargetErrorView>),
}

impl View for SecretPut {
    type V = SecretPutView;

    open spec fn view(&self) -> SecretPutView {
        match self {
            SecretPut::Failed(reason) => SecretPutView::Failed(reason@),
            SecretPut::NoInput => SecretPutView::NoInput,
            SecretPut::Ended(success) => SecretPutView::Ended(*success),
        }
    }
}

impl View for DeployHistory {
    type V = HistoryView;

    open spec fn view(&self) -> HistoryView {
        HistoryView {
            staged: happened(self.staged),
            secrets_read: outcome_views(self.secrets_read@),
            deployed: happened(self.deployed),
            secrets_put: views(self.secrets_put@),
        }
    }
}

impl View for DeployStep {
    type V = DeployStepView;

    open spec fn view(&self) -> DeployStepView {
        match self {
            DeployStep::Stage(files) => DeployStepView::Stage(views(files@)),
            DeployStep::ReadSecret { root, name } => DeployStepView::ReadSecret {
                root: root@,
                name: name@,
            },
            DeployStep::Run(command) => DeployStepView::Run(command@),
            DeployStep::PutSecret { command, value } => DeployStepView::PutSecret {
                command: command@,
                value: value@,
            },
            DeployStep::Done(deployment) => DeployStepView::Done(result_view(*deployment)),
        }
    }
}

impl View for DeleteStep {
    type V = DeleteStepView;

    open spec fn view(&self) -> DeleteStepView {
        match self {
            DeleteStep::Run(command) => DeleteStepView::Run(command@),
            DeleteStep::Done(outcome) => DeleteStepView::Done(result_view(*outcome)),
        }
    }
}

// ---------------------------------------------------------------------------
// Deployment
// ---------------------------------------------------------------------------
/// What is wrong with handing over a secret, if anything.
pub open spec fn put_problem(put: SecretPutView, key: Seq<char>) -> Option<Seq<char>> {
    match put {
        SecretPutView::Failed(reason) => Some(reason),
        SecretPutView::NoInput => Some("wrangler secret stdin unavailable"@),
        SecretPutView::Ended(success) => if success {
            None
        } else {
            Some("wrangler secret put failed for "@ + key)
        },
    }
}

/// Where putting the secrets from `from` on stands; `deployment` is what it leads to.
pub open spec fn putting(
    config: ConfigView,
    worker_name: Seq<char>,
    secrets: Seq<(Seq<char>, Seq<char>)>,
    puts: Seq<SecretPutView>,
    from: int,
    deployment: DeploymentView,
) -> DeployStepView
    decreases secrets.len() - from,
{
    if from >= secrets.len() {
        DeployStepView::Done(Ok(deployment))
    } else if from >= puts.len() {
        DeployStepView::PutSecret {
            command: secret_command(config, worker_name, secrets[from].0),
            value: secrets[from].1,
        }
    } else {
        match put_problem(puts[from], secrets[from].0) {
            Some(problem) => DeployStepView::Done(Err(TargetErrorView::Provider(problem))),
            None => putting(config, worker_name, secrets, puts, from + 1, deployment),
        }
    }
}

/// Where a staged deployment of the Worker of this name stands, given where binding its slots
/// stands and the digest of what Wrangler printed: every slot is bound before Wrangler deploys, and
/// secrets are put once Wrangler has deployed.
pub open spec fn bound_step(
    config: ConfigView,
    worker_name: Seq<char>,
    bound: BindStepView,
    facts: FactsView,
    history: HistoryView,
    digest: Seq<u8>,
) -> DeployStepView {
    match bound {
        BindStepView::ReadSecret(name) => DeployStepView::ReadSecret {
            root: config.secret_root,
            name,
        },
        BindStepView::Failed(error) => DeployStepView::Done(Err(error)),
        BindStepView::Bound(bindings) => match history.deployed {
            None => DeployStepView::Run(deploy_command(config, worker_name, bindings.plain)),
            Some(Err(reason)) => DeployStepView::Done(Err(TargetErrorView::Provider(reason))),
            Some(Ok(output)) => if !output.success {
                DeployStepView::Done(Err(TargetErrorView::Provider(output.stderr)))
            } else {
                putting(
                    config,
                    worker_name,
                    bindings.secrets,
                    history.secrets_put,
                    0,
                    deployment_in(worker_name, facts.subdomain, output.stdout, digest),
                )
            },
        },
    }
}

/// What Wrangler has printed so far.
pub open spec fn printed(history: HistoryView) -> Seq<char> {
    match history.deployed {
        Some(Ok(output)) => output.stdout,
        _ => ""@,
    }
}

/// Where a deployment stands: the component's own files are staged before anything else is done.
pub open spec fn deploy_step(
    config: ConfigView,
    desired: DesiredView,
    component: PinView,
    facts: FactsView,
    history: HistoryView,
) -> DeployStepView {
    match history.staged {
        None => DeployStepView::Stage(component.context.files),
        Some(Err(reason)) => DeployStepView::Done(Err(TargetErrorView::Stage(reason))),
        Some(Ok(_)) => match component.context.deployed_name() {
            Err(error) => DeployStepView::Done(Err(TargetErrorView::Config(error.message()))),
            Ok(worker_name) => bound_step(
                config,
                worker_name,
                resolved(desired, component, history.secrets_read),
                facts,
                history,
                blake3_digest(encode_utf8(printed(history))),
            ),
        },
    }
}

/// Where a deletion stands.
pub open spec fn delete_step(
    config: ConfigView,
    component: PinView,
    output: Option<Result<CommandOutputView, Seq<char>>>,
) -> DeleteStepView {
    match component.context.deployed_name() {
        Err(error) => DeleteStepView::Done(Err(TargetErrorView::Config(error.message()))),
        Ok(worker_name) => match output {
            None => DeleteStepView::Run(delete_command(config, worker_name)),
            Some(Err(reason)) => DeleteStepView::Done(Err(TargetErrorView::Provider(reason))),
            Some(Ok(output)) => if output.success {
                DeleteStepView::Done(Ok(()))
            } else {
                DeleteStepView::Done(Err(TargetErrorView::Provider(output.stderr)))
            },
        },
    }
}

/// What is wrong with handing over a secret, if anything.
fn problem_of(put: &SecretPut, key: &str) -> (problem: Option<String>)
    ensures
        option_view(problem) == put_problem(put@, key@),
{
    match put {
        SecretPut::Failed(reason) => Some(reason.clone()),
        SecretPut::NoInput => Some("wrangler secret stdin unavailable".to_owned()),
        SecretPut::Ended(success) => if *success {
            None
        } else {
            Some("wrangler secret put failed for ".to_owned().concat(key))
        },
    }
}

impl Target {
    /// Put the secrets of a deployed Worker, one after the other.
    fn put_secrets(
        &self,
        worker_name: &str,
        secrets: &Vec<(String, String)>,
        puts: &Vec<SecretPut>,
        deployment: Deployment,
    ) -> (step: DeployStep)
        ensures
            step@ == putting(
                self.config@,
                worker_name@,
                pair_views(secrets@),
                views(puts@),
                0,
                deployment@,
            ),
    {
        let ghost all = pair_views(secrets@);
        let ghost done = views(puts@);
        for i in 0..secrets.len()
            invariant
                all == pair_views(secrets@),
                done == views(puts@),
                putting(self.config@, worker_name@, all, done, 0, deployment@) == putting(
                    self.config@,
                    worker_name@,
                    all,
                    done,
                    i as int,
                    deployment@,
                ),
        {
            assert(all[i as int] == (secrets@[i as int].0@, secrets@[i as int].1@));
            if i >= puts.len() {
                return DeployStep::PutSecret {
                    command: to_put_secret(&self.config, worker_name, secrets[i].0.as_str()),
                    value: secrets[i].1.clone(),
                };
            }
            assert(done[i as int] == puts@[i as int]@);
            if let Some(problem) = problem_of(&puts[i], secrets[i].0.as_str()) {
                return DeployStep::Done(Err(TargetError::Provider(problem)));
            }
        }
        DeployStep::Done(Ok(deployment))
    }

    /// Deploy the Worker of this name from staged files: what comes next, given where binding its
    /// slots stands and the digest of what Wrangler printed.
    pub fn deploy_bound(
        &self,
        worker_name: &str,
        bound: BindStep,
        facts: &AccountFacts,
        history: &DeployHistory,
        digest: &[u8; 32],
    ) -> (step: DeployStep)
        ensures
            step@ == bound_step(self.config@, worker_name@, bound@, facts@, history@, digest@),
    {
        match bound {
            BindStep::ReadSecret(name) => DeployStep::ReadSecret {
                root: self.config.secret_root.clone(),
                name,
            },
            BindStep::Failed(error) => DeployStep::Done(Err(error)),
            BindStep::Bound(bindings) => match &history.deployed {
                None => DeployStep::Run(to_deploy(&self.config, worker_name, &bindings.plain)),
                Some(Err(reason)) => DeployStep::Done(Err(TargetError::Provider(reason.clone()))),
                Some(Ok(output)) => if !output.success {
                    DeployStep::Done(Err(TargetError::Provider(output.stderr.clone())))
                } else {
                    let deployment = deployment_from(
                        worker_name,
                        facts,
                        output.stdout.as_str(),
                        digest,
                    );
                    self.put_secrets(
                        worker_name,
                        &bindings.secrets,
                        &history.secrets_put,
                        deployment,
                    )
                },
            },
        }
    }

    /// Deploy a component with current-generation bindings without editing native files: what
    /// comes next, after what has happened so far.
    pub fn deploy(
        &self,
        desired: &DesiredSlice,
        component: &ComponentPin,
        facts: &AccountFacts,
        history: &DeployHistory,
    ) -> (step: DeployStep)
        ensures
            step@ == deploy_step(self.config@, desired@, component@, facts@, history@),
    {
        match &history.staged {
            None => {
                let files = component.context.files.clone();
                assert(views(files@) =~= component@.context.files);
                return DeployStep::Stage(files);
            },
            Some(Err(reason)) => {
                return DeployStep::Done(Err(TargetError::Stage(reason.clone())));
            },
            Some(Ok(_)) => {},
        }
        let worker_name = match component.context.deployed_name() {
            Ok(worker_name) => worker_name,
            Err(error) => {
                return DeployStep::Done(Err(TargetError::Config(error.message())));
            },
        };
        let bound = resolve_bindings(desired, component, &history.secrets_read);
        let stdout = match &history.deployed {
            Some(Ok(output)) => output.stdout.as_str(),
            _ => "",
        };
        let digest = blake3_hash(stdout.as_bytes());
        self.deploy_bound(worker_name.as_str(), bound, facts, history, &digest)
    }

    /// Delete a deployed Worker: what comes next, after what became of the command.
    pub fn delete(
        &self,
        component: &ComponentPin,
        output: &Option<Result<CommandOutput, String>>,
    ) -> (step: DeleteStep)
        ensures
            step@ == delete_step(self.config@, component@, happened(*output)),
    {
        let worker_name = match component.context.deployed_name() {
            Ok(worker_name) => worker_name,
            Err(error) => {
                return DeleteStep::Done(Err(TargetError::Config(error.message())));
            },
        };
        match output {
            None => DeleteStep::Run(to_delete(&self.config, worker_name.as_str())),
            Some(Err(reason)) => DeleteStep::Done(Err(TargetError::Provider(reason.clone()))),
            Some(Ok(output)) => if output.success {
                DeleteStep::Done(Ok(()))
            } else {
                DeleteStep::Done(Err(TargetError::Provider(output.stderr.clone())))
            },
        }
    }
}

// ---------------------------------------------------------------------------
// Laws
// ---------------------------------------------------------------------------
/// Every secret was handed over with success.
pub open spec fn all_put(secrets: Seq<(Seq<char>, Seq<char>)>, puts: Seq<SecretPutView>) -> bool {
    secrets.len() <= puts.len() && forall|i: int|
        0 <= i < secrets.len() ==> #[trigger] puts[i] == SecretPutView::Ended(true)
}

/// Putting secrets ends well exactly when each was handed over.
proof fn lemma_putting(
    config: ConfigView,
    worker_name: Seq<char>,
    secrets: Seq<(Seq<char>, Seq<char>)>,
    puts: Seq<SecretPutView>,
    from: int,
    deployment: DeploymentView,
)
    requires
        0 <= from <= secrets.len(),
        from <= puts.len(),
        forall|i: int| 0 <= i < from ==> #[trigger] puts[i] == SecretPutView::Ended(true),
    ensures
        ({
            let step = putting(config, worker_name, secrets, puts, from, deployment);
            &&& all_put(secrets, puts) ==> step == DeployStepView::Done(
                Ok::<DeploymentView, TargetErrorView>(deployment),
            )
            &&& !all_put(secrets, puts) ==> match step {
                DeployStepView::PutSecret { command, value } => {
                    &&& puts.len() < secrets.len()
                    &&& command == secret_command(config, worker_name, secrets[puts.len() as int].0)
                    &&& value == secrets[puts.len() as int].1
                },
                DeployStepView::Done(Err(TargetErrorView::Provider(_))) => true,
                _ => false,
            }
        }),
    decreases secrets.len() - from,
{
    if from < secrets.len() && from < puts.len() {
        if puts[from] == SecretPutView::Ended(true) {
            lemma_putting(config, worker_name, secrets, puts, from + 1, deployment);
        }
    }
}

/// Where a deployment stands that Wrangler has printed something for: its secrets are being put.
proof fn lemma_put_of(
    config: ConfigView,
    desired: DesiredView,
    component: PinView,
    facts: FactsView,
    history: HistoryView,
)
    ensures
        component.context.deployed_name() matches Ok(worker_name) ==> (resolved(
            desired,
            component,
            history.secrets_read,
        ) matches BindStepView::Bound(bindings) ==> (history.deployed matches Some(Ok(output))
            ==> ({
            let deployment = deployment_in(
                worker_name,
                facts.subdomain,
                output.stdout,
                blake3_digest(encode_utf8(output.stdout)),
            );
            let step = putting(
                config,
                worker_name,
                bindings.secrets,
                history.secrets_put,
                0,
                deployment,
            );
            let done = all_put(bindings.secrets, history.secrets_put);
            let next = history.secrets_put.len() as int;
            &&& done ==> step == DeployStepView::Done(
                Ok::<DeploymentView, TargetErrorView>(deployment),
            )
            &&& !done ==> match step {
                DeployStepView::PutSecret { command, value } => {
                    &&& next < bindings.secrets.len()
                    &&& command == secret_command(config, worker_name, bindings.secrets[next].0)
                    &&& value == bindings.secrets[next].1
                },
                DeployStepView::Done(Err(TargetErrorView::Provider(_))) => true,
                _ => false,
            }
        }))),
{
    if let (Ok(worker_name), BindStepView::Bound(bindings), Some(Ok(output))) = (
        component.context.deployed_name(),
        resolved(desired, component, history.secrets_read),
        history.deployed,
    ) {
        lemma_putting(
            config,
            worker_name,
            bindings.secrets,
            history.secrets_put,
            0,
            deployment_in(
                worker_name,
                facts.subdomain,
                output.stdout,
                blake3_digest(encode_utf8(output.stdout)),
            ),
        );
    }
}

/// A deployment succeeds exactly when its files were staged, its Worker has a name, every slot was
/// bound, Wrangler deployed, and every secret was handed over.
pub proof fn deployment_succeeds_when_each_step_did(
    config: ConfigView,
    desired: DesiredView,
    component: PinView,
    facts: FactsView,
    history: HistoryView,
)
    ensures
        (deploy_step(config, desired, component, facts, history) matches DeployStepView::Done(Ok(_)))
            <==> {
            &&& history.staged matches Some(Ok(_))
            &&& component.context.deployed_name() is Ok
            &&& resolved(desired, component, history.secrets_read) matches BindStepView::Bound(
                bindings,
            )
            &&& history.deployed matches Some(Ok(output))
            &&& output.success
            &&& all_put(bindings.secrets, history.secrets_put)
        },
{
    lemma_put_of(config, desired, component, facts, history);
}

/// Wrangler deploys only from staged files and once every slot is bound, and gets the plain values
/// and no secret on its command line.
pub proof fn wrangler_deploys_bound_components(
    config: ConfigView,
    desired: DesiredView,
    component: PinView,
    facts: FactsView,
    history: HistoryView,
)
    requires
        deploy_step(config, desired, component, facts, history) is Run,
    ensures
        history.staged matches Some(Ok(_)),
        component.context.deployed_name() is Ok,
        resolved(desired, component, history.secrets_read) is Bound,
        deploy_step(config, desired, component, facts, history)->Run_0 == deploy_command(
            config,
            component.context.deployed_name()->Ok_0,
            resolved(desired, component, history.secrets_read)->Bound_0.plain,
        ),
{
    lemma_put_of(config, desired, component, facts, history);
}

/// A secret is handed over only once Wrangler has deployed, on the command's standard input, under
/// the key of the first secret not handed over yet.
pub proof fn secrets_follow_the_deployment(
    config: ConfigView,
    desired: DesiredView,
    component: PinView,
    facts: FactsView,
    history: HistoryView,
)
    requires
        deploy_step(config, desired, component, facts, history) is PutSecret,
    ensures
        history.deployed matches Some(Ok(output)) && output.success,
        resolved(desired, component, history.secrets_read) is Bound,
        ({
            let secrets = resolved(desired, component, history.secrets_read)->Bound_0.secrets;
            let next = history.secrets_put.len() as int;
            &&& next < secrets.len()
            &&& deploy_step(config, desired, component, facts, history) == (
            DeployStepView::PutSecret {
                command: secret_command(
                    config,
                    component.context.deployed_name()->Ok_0,
                    secrets[next].0,
                ),
                value: secrets[next].1,
            })
        }),
{
    lemma_put_of(config, desired, component, facts, history);
}

/// The URL that a plan tells of a Worker is the URL under which it is deployed in the same account.
pub proof fn planned_urls_are_deployed(
    config: ConfigView,
    desired: DesiredView,
    component: PinView,
    facts: FactsView,
    history: HistoryView,
)
    requires
        deploy_step(config, desired, component, facts, history) matches DeployStepView::Done(Ok(_)),
        planned_url(component, facts.subdomain) is Some,
    ensures
        deploy_step(config, desired, component, facts, history) matches DeployStepView::Done(
            Ok(deployment),
        ) && Some(deployment.url) == planned_url(component, facts.subdomain),
{
    deployment_succeeds_when_each_step_did(config, desired, component, facts, history);
    lemma_put_of(config, desired, component, facts, history);
}

/// What a deployment stages is the component's own files, byte for byte, and nothing is run before.
pub proof fn staged_files_are_the_components(
    config: ConfigView,
    desired: DesiredView,
    component: PinView,
    facts: FactsView,
    history: HistoryView,
)
    ensures
        deploy_step(config, desired, component, facts, history) matches DeployStepView::Stage(files)
            ==> files == component.context.files && history.staged is None,
        history.staged is None ==> deploy_step(config, desired, component, facts, history)
            == DeployStepView::Stage(component.context.files),
{
    lemma_put_of(config, desired, component, facts, history);
}

/// Wrangler deploys and takes secrets in the staging directory.
pub proof fn wrangler_works_in_the_staging_directory(
    config: ConfigView,
    desired: DesiredView,
    component: PinView,
    facts: FactsView,
    history: HistoryView,
)
    ensures
        match deploy_step(config, desired, component, facts, history) {
            DeployStepView::Run(command) => command.directory == WorkingDirectory::Staging
                && history.staged matches Some(Ok(_)),
            DeployStepView::PutSecret { command, .. } => command.directory
                == WorkingDirectory::Staging && history.staged matches Some(Ok(_)),
            _ => true,
        },
{
    lemma_put_of(config, desired, component, facts, history);
}

/// Every secret that a deployment reads stays under the configured root.
pub proof fn deployments_read_secrets_under_their_root(
    config: ConfigView,
    desired: DesiredView,
    component: PinView,
    facts: FactsView,
    history: HistoryView,
)
    ensures
        deploy_step(config, desired, component, facts, history) matches DeployStepView::ReadSecret {
            root,
            name,
        } ==> {
            &&& root == config.secret_root
            &&& is_confined(name)
        },
{
    lemma_put_of(config, desired, component, facts, history);
    let slots = component.context.slots;
    secrets_stay_under_their_root(slots, slot_values(desired, slots), history.secrets_read);
}

/// What keeps the secret at `at` from having been put, as it is told; the keys of secrets are told,
/// never their values.
pub open spec fn put_failure(put: SecretPutView, key: Seq<char>) -> Seq<char> {
    match put {
        SecretPutView::Failed(reason) => reason,
        SecretPutView::NoInput => "wrangler secret stdin unavailable"@,
        SecretPutView::Ended(_) => "wrangler secret put failed for "@ + key,
    }
}

/// Putting from `from` on ends at the first secret that was not put.
proof fn lemma_putting_ends(
    config: ConfigView,
    worker_name: Seq<char>,
    secrets: Seq<(Seq<char>, Seq<char>)>,
    puts: Seq<SecretPutView>,
    from: int,
    deployment: DeploymentView,
    at: int,
)
    requires
        0 <= from <= at < secrets.len(),
        at < puts.len(),
        forall|i: int| 0 <= i < at ==> #[trigger] puts[i] == SecretPutView::Ended(true),
        puts[at] != SecretPutView::Ended(true),
    ensures
        putting(config, worker_name, secrets, puts, from, deployment) == DeployStepView::Done(
            Err::<DeploymentView, TargetErrorView>(
                TargetErrorView::Provider(put_failure(puts[at], secrets[at].0)),
            ),
        ),
    decreases at - from,
{
    if from < at {
        assert(puts[from] == SecretPutView::Ended(true));
        lemma_putting_ends(config, worker_name, secrets, puts, from + 1, deployment, at);
    }
}

/// A deployment that fails tells why: its files were not staged, its Worker has no name, a slot has
/// no value, Wrangler could not be run or ended without success, or a secret was not put.
pub proof fn failed_deployments_tell_why(
    config: ConfigView,
    desired: DesiredView,
    component: PinView,
    facts: FactsView,
    history: HistoryView,
    at: int,
)
    ensures
        ({
            let step = deploy_step(config, desired, component, facts, history);
            let bound = resolved(desired, component, history.secrets_read);
            let staged = history.staged matches Some(Ok(_));
            let named = component.context.deployed_name() is Ok;
            &&& history.staged matches Some(Err(reason)) ==> step == DeployStepView::Done(
                Err::<DeploymentView, TargetErrorView>(TargetErrorView::Stage(reason)),
            )
            &&& staged ==> (component.context.deployed_name() matches Err(error) ==> step
                == DeployStepView::Done(
                Err::<DeploymentView, TargetErrorView>(TargetErrorView::Config(error.message())),
            ))
            &&& staged && named ==> (bound matches BindStepView::Failed(error) ==> step
                == DeployStepView::Done(Err::<DeploymentView, TargetErrorView>(error)))
            &&& staged && named ==> (bound matches BindStepView::ReadSecret(name) ==> step == (
            DeployStepView::ReadSecret { root: config.secret_root, name }))
            &&& staged && named && bound is Bound ==> {
                &&& history.deployed is None ==> step is Run
                &&& history.deployed matches Some(Err(reason)) ==> step == DeployStepView::Done(
                    Err::<DeploymentView, TargetErrorView>(TargetErrorView::Provider(reason)),
                )
                &&& history.deployed matches Some(Ok(output)) ==> {
                    &&& !output.success ==> step == DeployStepView::Done(
                        Err::<DeploymentView, TargetErrorView>(
                            TargetErrorView::Provider(output.stderr),
                        ),
                    )
                    &&& output.success && 0 <= at < bound->Bound_0.secrets.len() && at
                        < history.secrets_put.len() && (forall|i: int|
                        0 <= i < at ==> #[trigger] history.secrets_put[i] == SecretPutView::Ended(
                            true,
                        )) && history.secrets_put[at] != SecretPutView::Ended(true) ==> step
                        == DeployStepView::Done(
                        Err::<DeploymentView, TargetErrorView>(
                            TargetErrorView::Provider(
                                put_failure(
                                    history.secrets_put[at],
                                    bound->Bound_0.secrets[at].0,
                                ),
                            ),
                        ),
                    )
                    &&& output.success && history.secrets_put.len() < bound->Bound_0.secrets.len()
                        && (forall|i: int|
                        0 <= i < history.secrets_put.len() ==> #[trigger] history.secrets_put[i]
                            == SecretPutView::Ended(true)) ==> step is PutSecret
                }
            }
        }),
{
    if let (Ok(worker_name), BindStepView::Bound(bindings), Some(Ok(output))) = (
        component.context.deployed_name(),
        resolved(desired, component, history.secrets_read),
        history.deployed,
    ) {
        let puts = history.secrets_put;
        let secrets = bindings.secrets;
        let deployment = deployment_in(
            worker_name,
            facts.subdomain,
            output.stdout,
            blake3_digest(encode_utf8(output.stdout)),
        );
        if 0 <= at < secrets.len() && at < puts.len() && (forall|i: int|
            0 <= i < at ==> #[trigger] puts[i] == SecretPutView::Ended(true)) && puts[at]
            != SecretPutView::Ended(true) {
            lemma_putting_ends(config, worker_name, secrets, puts, 0, deployment, at);
        }
        if puts.len() < secrets.len() && (forall|i: int|
            0 <= i < puts.len() ==> #[trigger] puts[i] == SecretPutView::Ended(true)) {
            lemma_putting_waits(config, worker_name, secrets, puts, 0, deployment);
        }
    }
}

/// While each secret handed over so far was put, the next one is put.
proof fn lemma_putting_waits(
    config: ConfigView,
    worker_name: Seq<char>,
    secrets: Seq<(Seq<char>, Seq<char>)>,
    puts: Seq<SecretPutView>,
    from: int,
    deployment: DeploymentView,
)
    requires
        0 <= from <= puts.len() < secrets.len(),
        forall|i: int| 0 <= i < puts.len() ==> #[trigger] puts[i] == SecretPutView::Ended(true),
    ensures
        putting(config, worker_name, secrets, puts, from, deployment) is PutSecret,
    decreases puts.len() - from,
{
    if from < puts.len() {
        assert(puts[from] == SecretPutView::Ended(true));
        lemma_putting_waits(config, worker_name, secrets, puts, from + 1, deployment);
    }
}

/// A deployment that succeeds tells of the Worker that was deployed under the component's name and
/// of what Wrangler printed for it.
pub proof fn deployments_tell_of_their_worker(
    config: ConfigView,
    desired: DesiredView,
    component: PinView,
    facts: FactsView,
    history: HistoryView,
)
    requires
        deploy_step(config, desired, component, facts, history) matches DeployStepView::Done(Ok(_)),
    ensures
        deploy_step(config, desired, component, facts, history) == DeployStepView::Done(
            Ok::<DeploymentView, TargetErrorView>(
                deployment_in(
                    component.context.deployed_name()->Ok_0,
                    facts.subdomain,
                    history.deployed->Some_0->Ok_0.stdout,
                    blake3_digest(encode_utf8(history.deployed->Some_0->Ok_0.stdout)),
                ),
            ),
        ),
{
    deployment_succeeds_when_each_step_did(config, desired, component, facts, history);
    lemma_put_of(config, desired, component, facts, history);
}

/// What a deployment hands to Wrangler: under the component's deployed name, each plain value of
/// its bound slots on the command line, and each secret under its key on the standard input.
pub proof fn bound_values_are_handed_to_wrangler(
    config: ConfigView,
    desired: DesiredView,
    component: PinView,
    facts: FactsView,
    history: HistoryView,
)
    ensures
        match deploy_step(config, desired, component, facts, history) {
            DeployStepView::Run(command) => {
                let plain = resolved(desired, component, history.secrets_read)->Bound_0.plain;
                &&& resolved(desired, component, history.secrets_read) is Bound
                &&& component.context.deployed_name() is Ok
                &&& runs_in_the_account(command, config)
                &&& command.arguments.len() == 3 + 2 * plain.len()
                &&& command.arguments[0] == "deploy"@
                &&& command.arguments[1] == "--name"@
                &&& command.arguments[2] == component.context.deployed_name()->Ok_0
                &&& forall|i: int|
                    0 <= i < plain.len() ==> {
                        &&& (#[trigger] command.arguments[3 + 2 * i]) == "--var"@
                        &&& command.arguments[4 + 2 * i] == plain[i].0 + ":"@ + plain[i].1
                    }
            },
            DeployStepView::PutSecret { command, value } => {
                let secrets = resolved(desired, component, history.secrets_read)->Bound_0.secrets;
                let next = history.secrets_put.len() as int;
                &&& resolved(desired, component, history.secrets_read) is Bound
                &&& component.context.deployed_name() is Ok
                &&& next < secrets.len()
                &&& value == secrets[next].1
                &&& runs_in_the_account(command, config)
                &&& command.arguments.len() == 5
                &&& command.arguments[0] == "secret"@
                &&& command.arguments[1] == "put"@
                &&& command.arguments[2] == secrets[next].0
                &&& command.arguments[3] == "--name"@
                &&& command.arguments[4] == component.context.deployed_name()->Ok_0
            },
            _ => true,
        },
{
    lemma_put_of(config, desired, component, facts, history);
    if let (Ok(worker_name), BindStepView::Bound(bindings)) = (
        component.context.deployed_name(),
        resolved(desired, component, history.secrets_read),
    ) {
        each_plain_value_is_handed_over(config, worker_name, bindings.plain);
        let next = history.secrets_put.len() as int;
        secrets_and_deletions_name_the_worker(config, worker_name, bindings.secrets[next].0);
    }
}

/// Deleting a component runs Wrangler once, on the component's deployed name, and succeeds exactly
/// when the command did; a failure tells why.
pub proof fn deletions_follow_wrangler(
    config: ConfigView,
    component: PinView,
    output: Option<Result<CommandOutputView, Seq<char>>>,
)
    ensures
        match (component.context.deployed_name(), output) {
            (Err(error), _) => delete_step(config, component, output) == DeleteStepView::Done(
                Err::<(), TargetErrorView>(TargetErrorView::Config(error.message())),
            ),
            (Ok(name), None) => delete_step(config, component, output) matches DeleteStepView::Run(
                command,
            ) && {
                &&& runs_in_the_account(command, config)
                &&& command.arguments.len() == 4
                &&& command.arguments[0] == "delete"@
                &&& command.arguments[1] == "--name"@
                &&& command.arguments[2] == name
                &&& command.arguments[3] == "--force"@
            },
            (Ok(_), Some(Err(reason))) => delete_step(config, component, output)
                == DeleteStepView::Done(
                Err::<(), TargetErrorView>(TargetErrorView::Provider(reason)),
            ),
            (Ok(_), Some(Ok(ended))) => delete_step(config, component, output)
                == DeleteStepView::Done(
                if ended.success {
                    Ok::<(), TargetErrorView>(())
                } else {
                    Err::<(), TargetErrorView>(TargetErrorView::Provider(ended.stderr))
                },
            ),
        },
{
    if let Ok(name) = component.context.deployed_name() {
        secrets_and_deletions_name_the_worker(config, name, name);
    }
}

} // verus!
