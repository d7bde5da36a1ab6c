//! Wrangler deployment boundary: what is asked of the account API and of Wrangler, and what their
//! answers mean.

use vstd::prelude::*;
use vstd::string::*;

use crate::model::{copy_option, option_view, result_view};

verus! {

/// Cloudflare account and Wrangler execution configuration.
#[derive(Debug, PartialEq, Eq)]
pub struct TargetConfig {
    /// Wrangler executable.
    pub wrangler: String,
    /// Account identifier.
    pub account_id: Option<String>,
    /// API token used by Wrangler and account API.
    pub api_token: Option<String>,
    /// Wrangler's own configuration file.
    pub wrangler_config: Option<String>,
    /// Explicit subdomain override, avoiding an API lookup in tests/local use.
    pub account_subdomain: Option<String>,
    /// Directory containing connector-resolvable secret refs.
    pub secret_root: String,
    /// Root of the Cloudflare API.
    pub api_base: String,
    /// File that holds the tunnel's token.
    pub tunnel_token_file: String,
}

/// Plan-time account facts.
#[derive(Debug, PartialEq, Eq)]
pub struct AccountFacts {
    /// workers.dev account subdomain.
    pub subdomain: String,
}

/// One successful deployment observation.
#[derive(Debug, PartialEq, Eq)]
pub struct Deployment {
    /// Worker URL.
    pub url: String,
    /// Deployment identifier.
    pub deployment_id: String,
    /// Version identifier.
    pub version_id: String,
    /// Temporary-account claim URL, when applicable.
    pub claim_url: Option<String>,
}

/// Provider boundary failure.
#[derive(Debug, PartialEq, Eq)]
pub enum TargetError {
    /// Required configuration is absent.
    Config(String),
    /// Provider or Wrangler operation failed.
    Provider(String),
    /// Filesystem staging failed.
    Stage(String),
}

/// Cloudflare target adapter.
#[derive(Debug, PartialEq, Eq)]
pub struct Target {
    pub config: TargetConfig,
}

// ---------------------------------------------------------------------------
// Views
// ---------------------------------------------------------------------------
/// What a `TargetConfig` says.
pub struct ConfigView {
    pub wrangler: Seq<char>,
    pub account_id: Option<Seq<char>>,
    pub api_token: Option<Seq<char>>,
    pub wrangler_config: Option<Seq<char>>,
    pub account_subdomain: Option<Seq<char>>,
    pub secret_root: Seq<char>,
    pub api_base: Seq<char>,
    pub tunnel_token_file: Seq<char>,
}

/// What an `AccountFacts` says.
pub struct FactsView {
    pub subdomain: Seq<char>,
}

/// What a `Deployment` says.
pub struct DeploymentView {
    pub url: Seq<char>,
    pub deployment_id: Seq<char>,
    pub version_id: Seq<char>,
    pub claim_url: Option<Seq<char>>,
}

/// What a `TargetError` says.
pub enum TargetErrorView {
    Config(Seq<char>),
    Provider(Seq<char>),
    Stage(Seq<char>),
}

impl View for TargetConfig {
    type V = ConfigView;

    open spec fn view(&self) -> ConfigView {
        ConfigView {
            wrangler: self.wrangler@,
            account_id: option_view(self.account_id),
            api_token: option_view(self.api_token),
            wrangler_config: option_view(self.wrangler_config),
            account_subdomain: option_view(self.account_subdomain),
            secret_root: self.secret_root@,
            api_base: self.api_base@,
            tunnel_token_file: self.tunnel_token_file@,
        }
    }
}

impl View for AccountFacts {
    type V = FactsView;

    open spec fn view(&self) -> FactsView {
        FactsView { subdomain: self.subdomain@ }
    }
}

impl View for Deployment {
    type V = DeploymentView;

    open spec fn view(&self) -> DeploymentView {
        DeploymentView {
            url: self.url@,
            deployment_id: self.deployment_id@,
            version_id: self.version_id@,
            claim_url: option_view(self.claim_url),
        }
    }
}

impl View for TargetError {
    type V = TargetErrorView;

    open spec fn view(&self) -> TargetErrorView {
        match self {
            TargetError::Config(message) => TargetErrorView::Config(message@),
            TargetError::Provider(message) => TargetErrorView::Provider(message@),
            TargetError::Stage(message) => TargetErrorView::Stage(message@),
        }
    }
}

impl TargetErrorView {
    /// How the error reads.
    pub open spec fn message(self) -> Seq<char> {
        match self {
            TargetErrorView::Config(detail) => "cloudflare configuration: "@ + detail,
            TargetErrorView::Provider(detail) => "cloudflare operation failed: "@ + detail,
            TargetErrorView::Stage(detail) => "deployment staging failed: "@ + detail,
        }
    }
}

// ---------------------------------------------------------------------------
// Copies
// ---------------------------------------------------------------------------
impl Clone for TargetConfig {
    fn clone(&self) -> (copy: Self)
        ensures
            copy@ == self@,
    {
        TargetConfig {
            wrangler: self.wrangler.clone(),
            account_id: copy_option(&self.account_id),
            api_token: copy_option(&self.api_token),
            wrangler_config: copy_option(&self.wrangler_config),
            account_subdomain: copy_option(&self.account_subdomain),
            secret_root: self.secret_root.clone(),
            api_base: self.api_base.clone(),
            tunnel_token_file: self.tunnel_token_file.clone(),
        }
    }
}

impl Clone for AccountFacts {
    fn clone(&self) -> (copy: Self)
        ensures
            copy@ == self@,
    {
        AccountFacts { subdomain: self.subdomain.clone() }
    }
}

impl Clone for Deployment {
    fn clone(&self) -> (copy: Self)
        ensures
            copy@ == self@,
    {
        Deployment {
            url: self.url.clone(),
            deployment_id: self.deployment_id.clone(),
            version_id: self.version_id.clone(),
            claim_url: copy_option(&self.claim_url),
        }
    }
}

impl Clone for TargetError {
    fn clone(&self) -> (copy: Self)
        ensures
            copy@ == self@,
    {
        match self {
            TargetError::Config(detail) => TargetError::Config(detail.clone()),
            TargetError::Provider(detail) => TargetError::Provider(detail.clone()),
            TargetError::Stage(detail) => TargetError::Stage(detail.clone()),
        }
    }
}

impl Clone for Target {
    fn clone(&self) -> (copy: Self)
        ensures
            copy.config@ == self.config@,
    {
        Target { config: self.config.clone() }
    }
}

impl TargetError {
    /// How the error reads.
    pub fn message(&self) -> (message: String)
        ensures
            message@ == self@.message(),
    {
        match self {
            TargetError::Config(detail) => "cloudflare configuration: ".to_owned().concat(
                detail.as_str(),
            ),
            TargetError::Provider(detail) => "cloudflare operation failed: ".to_owned().concat(
                detail.as_str(),
            ),
            TargetError::Stage(detail) => "deployment staging failed: ".to_owned().concat(
                detail.as_str(),
            ),
        }
    }
}

impl Target {
    /// Construct an adapter.
    #[must_use]
    pub fn new(config: TargetConfig) -> (target: Target)
        ensures
            target.config == config,
    {
        Target { config }
    }
}

// ---------------------------------------------------------------------------
// Account facts
// ---------------------------------------------------------------------------
/// The status of an HTTP reply.
#[derive(Debug, PartialEq, Eq)]
pub struct HttpStatus {
    pub code: u16,
    /// The status as it is told: the code, and the reason where there is one.
    pub text: String,
}

/// Where finding out the account's facts stands.
#[derive(Debug, PartialEq, Eq)]
pub enum AccountStep {
    /// This URL has to be fetched with this bearer token.
    Fetch { url: String, token: String },
    /// The subdomain has to be read in the reply's body.
    ReadBody,
    Done(Result<AccountFacts, TargetError>),
}

/// What an `HttpStatus` says.
pub struct StatusView {
    pub code: nat,
    pub text: Seq<char>,
}

/// What an `AccountStep` says.
pub enum AccountStepView {
    Fetch { url: Seq<char>, token: Seq<char> },
    ReadBody,
    Done(Result<FactsView, TargetErrorView>),
}

impl View for HttpStatus {
    type V = StatusView;

    open spec fn view(&self) -> StatusView {
        StatusView { code: self.code as nat, text: self.text@ }
    }
}

impl View for AccountStep {
    type V = AccountStepView;

    open spec fn view(&self) -> AccountStepView {
        match self {
            AccountStep::Fetch { url, token } => AccountStepView::Fetch {
                url: url@,
                token: token@,
            },
            AccountStep::ReadBody => AccountStepView::ReadBody,
            AccountStep::Done(facts) => AccountStepView::Done(result_view(*facts)),
        }
    }
}

/// The URL that tells an account's workers.dev subdomain.
pub open spec fn subdomain_url(api_base: Seq<char>, account: Seq<char>) -> Seq<char> {
    api_base + "/accounts/"@ + account + "/workers/subdomain"@
}

/// Where finding out the account's facts stands: `sent` is what became of the request, if it was
/// made, and `body` what became of reading the subdomain in the reply.
pub open spec fn account_step(
    config: ConfigView,
    sent: Option<Result<StatusView, Seq<char>>>,
    body: Option<Result<Seq<char>, Seq<char>>>,
) -> AccountStepView {
    match (config.account_subdomain, config.account_id, config.api_token) {
        (Some(subdomain), _, _) => AccountStepView::Done(Ok(FactsView { subdomain })),
        (None, None, _) => AccountStepView::Done(
            Err(
                TargetErrorView::Config(
                    "CLOUDFLARE_ACCOUNT_ID is required for plan-time workers.dev URLs"@,
                ),
            ),
        ),
        (None, Some(_), None) => AccountStepView::Done(
            Err(
                TargetErrorView::Config(
                    "CLOUDFLARE_API_TOKEN is required for plan-time workers.dev URLs"@,
                ),
            ),
        ),
        (None, Some(account), Some(token)) => match sent {
            None => AccountStepView::Fetch { url: subdomain_url(config.api_base, account), token },
            Some(Err(reason)) => AccountStepView::Done(Err(TargetErrorView::Provider(reason))),
            Some(Ok(status)) => if !(200 <= status.code < 300) {
                AccountStepView::Done(
                    Err(
                        TargetErrorView::Provider(
                            "workers subdomain API returned "@ + status.text,
                        ),
                    ),
                )
            } else {
                match body {
                    None => AccountStepView::ReadBody,
                    Some(Err(reason)) => AccountStepView::Done(
                        Err(TargetErrorView::Provider(reason)),
                    ),
                    Some(Ok(subdomain)) => AccountStepView::Done(Ok(FactsView { subdomain })),
                }
            },
        },
    }
}

/// The view of what may have happened.
pub open spec fn happened<T: View, E: View>(event: Option<Result<T, E>>) -> Option<
    Result<T::V, E::V>,
> {
    match event {
        Some(outcome) => Some(result_view(outcome)),
        None => None,
    }
}

impl Target {
    /// Find out the account's facts: the configured subdomain, or what the account API says.
    pub fn account_facts(
        &self,
        sent: &Option<Result<HttpStatus, String>>,
        body: &Option<Result<String, String>>,
    ) -> (step: AccountStep)
        ensures
            step@ == account_step(self.config@, happened(*sent), happened(*body)),
    {
        if let Some(subdomain) = &self.config.account_subdomain {
            return AccountStep::Done(Ok(AccountFacts { subdomain: subdomain.clone() }));
        }
        let account = match &self.config.account_id {
            Some(account) => account,
            None => {
                return AccountStep::Done(
                    Err(
                        TargetError::Config(
                            "CLOUDFLARE_ACCOUNT_ID is required for plan-time workers.dev URLs".to_owned(),
                        ),
                    ),
                );
            },
        };
        let token = match &self.config.api_token {
            Some(token) => token,
            None => {
                return AccountStep::Done(
                    Err(
                        TargetError::Config(
                            "CLOUDFLARE_API_TOKEN is required for plan-time workers.dev URLs".to_owned(),
                        ),
                    ),
                );
            },
        };
        match sent {
            None => AccountStep::Fetch {
                url: self.config.api_base.clone().concat("/accounts/").concat(
                    account.as_str(),
                ).concat("/workers/subdomain"),
                token: token.clone(),
            },
            Some(Err(reason)) => AccountStep::Done(Err(TargetError::Provider(reason.clone()))),
            Some(Ok(status)) => {
                if status.code < 200 || status.code >= 300 {
                    return AccountStep::Done(
                        Err(
                            TargetError::Provider(
                                "workers subdomain API returned ".to_owned().concat(
                                    status.text.as_str(),
                                ),
                            ),
                        ),
                    );
                }
                match body {
                    None => AccountStep::ReadBody,
                    Some(Err(reason)) => AccountStep::Done(
                        Err(TargetError::Provider(reason.clone())),
                    ),
                    Some(Ok(subdomain)) => AccountStep::Done(
                        Ok(AccountFacts { subdomain: subdomain.clone() }),
                    ),
                }
            },
        }
    }
}

// ---------------------------------------------------------------------------
// Laws
// ---------------------------------------------------------------------------
/// A configured subdomain is taken as it is. Otherwise the account's identifier and then the token
/// have to be configured, and the account API is asked once, under the account's identifier and
/// with the token; the subdomain is what the body of a reply with a 2xx status says, and nothing
/// else.
pub proof fn subdomains_are_configured_or_fetched(
    config: ConfigView,
    sent: Option<Result<StatusView, Seq<char>>>,
    body: Option<Result<Seq<char>, Seq<char>>>,
)
    ensures
        config.account_subdomain matches Some(subdomain) ==> account_step(config, sent, body)
            == AccountStepView::Done(Ok::<FactsView, TargetErrorView>(FactsView { subdomain })),
        config.account_subdomain is None && config.account_id is None ==> account_step(
            config,
            sent,
            body,
        ) == AccountStepView::Done(
            Err::<FactsView, TargetErrorView>(
                TargetErrorView::Config(
                    "CLOUDFLARE_ACCOUNT_ID is required for plan-time workers.dev URLs"@,
                ),
            ),
        ),
        config.account_subdomain is None && config.account_id is Some && config.api_token is None
            ==> account_step(config, sent, body) == AccountStepView::Done(
            Err::<FactsView, TargetErrorView>(
                TargetErrorView::Config(
                    "CLOUDFLARE_API_TOKEN is required for plan-time workers.dev URLs"@,
                ),
            ),
        ),
        account_step(config, sent, body) matches AccountStepView::Fetch { url, token } ==> {
            &&& sent is None
            &&& config.account_subdomain is None
            &&& config.account_id matches Some(account)
            &&& url =~= config.api_base + "/accounts/"@ + account + "/workers/subdomain"@
            &&& config.api_token == Some(token)
        },
        config.account_subdomain is None && config.account_id is Some && config.api_token is Some
            ==> match sent {
            None => account_step(config, sent, body) is Fetch,
            Some(Err(reason)) => account_step(config, sent, body) == AccountStepView::Done(
                Err::<FactsView, TargetErrorView>(TargetErrorView::Provider(reason)),
            ),
            Some(Ok(status)) => if status.code < 200 || status.code > 299 {
                account_step(config, sent, body) == AccountStepView::Done(
                    Err::<FactsView, TargetErrorView>(
                        TargetErrorView::Provider(
                            "workers subdomain API returned "@ + status.text,
                        ),
                    ),
                )
            } else {
                match body {
                    None => account_step(config, sent, body) is ReadBody,
                    Some(Err(reason)) => account_step(config, sent, body) == AccountStepView::Done(
                        Err::<FactsView, TargetErrorView>(TargetErrorView::Provider(reason)),
                    ),
                    Some(Ok(subdomain)) => account_step(config, sent, body)
                        == AccountStepView::Done(
                        Ok::<FactsView, TargetErrorView>(FactsView { subdomain }),
                    ),
                }
            },
        },
{
}

/// How an error reads tells its kind and its detail.
pub proof fn errors_read_as_their_kind(detail: Seq<char>)
    ensures
        TargetErrorView::Config(detail).message() =~= "cloudflare configuration: "@ + detail,
        TargetErrorView::Provider(detail).message() =~= "cloudflare operation failed: "@ + detail,
        TargetErrorView::Stage(detail).message() =~= "deployment staging failed: "@ + detail,
{
}

/// What happened is seen as it happened: nothing where nothing did, and each outcome as it is.
pub proof fn events_are_seen_as_they_happened<T: View, E: View>(event: Option<Result<T, E>>)
    ensures
        event is None <==> happened(event) is None,
        event matches Some(Ok(value)) ==> happened(event) == Some(Ok::<T::V, E::V>(value@)),
        event matches Some(Err(error)) ==> happened(event) == Some(Err::<T::V, E::V>(error@)),
{
}

} // verus!
