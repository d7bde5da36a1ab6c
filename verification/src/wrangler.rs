//! Wrangler: the commands that the connector runs, and what it reads in their output.

use vstd::prelude::*;
use vstd::string::*;

use crate::hexadecimal::lower_hex;
use crate::model::{option_view, pair_views, views};
use crate::outside::hex_encode;
use crate::target::{AccountFacts, ConfigView, Deployment, DeploymentView, TargetConfig};
use crate::text::{
    contains_text, find, first_at, is_alphanumeric, lemma_first_at, lines, occurs_at, slice_text,
    split_lines, split_white, starts_with, to_chars, trim, trimmed, white_pieces,
};

verus! {

/// The directory that a command runs in.
#[derive(Clone, Copy, Debug, PartialEq, Eq, Structural)]
pub enum WorkingDirectory {
    /// The directory in which the component's files were staged.
    Staging,
    /// The directory of whoever runs it.
    Inherited,
}

/// A command to run.
#[derive(Debug, PartialEq, Eq)]
pub struct WranglerCommand {
    pub program: String,
    pub arguments: Vec<String>,
    /// Environment variables that the command gets besides those of its parent.
    pub environment: Vec<(String, String)>,
    pub directory: WorkingDirectory,
}

/// What a command that has run left behind.
#[derive(Debug, PartialEq, Eq)]
pub struct CommandOutput {
    pub success: bool,
    pub stdout: String,
    pub stderr: String,
}

/// What a `WranglerCommand` says.
pub struct CommandView {
    pub program: Seq<char>,
    pub arguments: Seq<Seq<char>>,
    pub environment: Seq<(Seq<char>, Seq<char>)>,
    pub directory: WorkingDirectory,
}

/// What a `CommandOutput` says.
pub struct CommandOutputView {
    pub success: bool,
    pub stdout: Seq<char>,
    pub stderr: Seq<char>,
}

impl View for WranglerCommand {
    type V = CommandView;

    open spec fn view(&self) -> CommandView {
        CommandView {
            program: self.program@,
            arguments: views(self.arguments@),
            environment: pair_views(self.environment@),
            directory: self.directory,
        }
    }
}

impl View for CommandOutput {
    type V = CommandOutputView;

    open spec fn view(&self) -> CommandOutputView {
        CommandOutputView { success: self.success, stdout: self.stdout@, stderr: self.stderr@ }
    }
}

// ---------------------------------------------------------------------------
// Commands
// ---------------------------------------------------------------------------
/// The account that Wrangler works in, as far as it is configured.
pub open spec fn account_environment(config: ConfigView) -> Seq<(Seq<char>, Seq<char>)> {
    let account = match config.account_id {
        Some(account) => seq![("CLOUDFLARE_ACCOUNT_ID"@, account)],
        None => Seq::empty(),
    };
    match config.api_token {
        Some(token) => account.push(("CLOUDFLARE_API_TOKEN"@, token)),
        None => account,
    }
}

/// The arguments that hand plain values over.
pub open spec fn var_arguments(plain: Seq<(Seq<char>, Seq<char>)>) -> Seq<Seq<char>>
    decreases plain.len(),
{
    if plain.len() == 0 {
        Seq::empty()
    } else {
        var_arguments(plain.drop_last()).push("--var"@).push(
            plain.last().0 + ":"@ + plain.last().1,
        )
    }
}

/// Deploys a Worker with plain values, from where its files were staged.
pub open spec fn deploy_command(
    config: ConfigView,
    worker_name: Seq<char>,
    plain: Seq<(Seq<char>, Seq<char>)>,
) -> CommandView {
    CommandView {
        program: config.wrangler,
        arguments: seq!["deploy"@, "--name"@, worker_name] + var_arguments(plain),
        environment: account_environment(config),
        directory: WorkingDirectory::Staging,
    }
}

/// Puts a secret of a Worker, from where its files were staged; its value goes to the command's
/// standard input.
pub open spec fn secret_command(
    config: ConfigView,
    worker_name: Seq<char>,
    key: Seq<char>,
) -> CommandView {
    CommandView {
        program: config.wrangler,
        arguments: seq!["secret"@, "put"@, key, "--name"@, worker_name],
        environment: account_environment(config),
        directory: WorkingDirectory::Staging,
    }
}

/// Deletes a Worker.
pub open spec fn delete_command(config: ConfigView, worker_name: Seq<char>) -> CommandView {
    CommandView {
        program: config.wrangler,
        arguments: seq!["delete"@, "--name"@, worker_name, "--force"@],
        environment: account_environment(config),
        directory: WorkingDirectory::Inherited,
    }
}

/// The account that Wrangler works in, as far as it is configured.
fn account_variables(config: &TargetConfig) -> (environment: Vec<(String, String)>)
    ensures
        pair_views(environment@) == account_environment(config@),
{
    let mut environment: Vec<(String, String)> = Vec::new();
    match &config.account_id {
        Some(account) => {
            environment.push(("CLOUDFLARE_ACCOUNT_ID".to_owned(), account.clone()));
        },
        None => {},
    }
    match &config.api_token {
        Some(token) => {
            environment.push(("CLOUDFLARE_API_TOKEN".to_owned(), token.clone()));
        },
        None => {},
    }
    assert(pair_views(environment@) =~= account_environment(config@));
    environment
}

/// Deploys a Worker with plain values.
pub fn to_deploy(
    config: &TargetConfig,
    worker_name: &str,
    plain: &Vec<(String, String)>,
) -> (command: WranglerCommand)
    ensures
        command@ == deploy_command(config@, worker_name@, pair_views(plain@)),
{
    let mut arguments: Vec<String> = Vec::new();
    arguments.push("deploy".to_owned());
    arguments.push("--name".to_owned());
    arguments.push(worker_name.to_owned());
    let ghost head = seq!["deploy"@, "--name"@, worker_name@];
    let ghost said = pair_views(plain@);
    assert(views(arguments@) =~= head + var_arguments(said.take(0)));
    for i in 0..plain.len()
        invariant
            said == pair_views(plain@),
            views(arguments@) == head + var_arguments(said.take(i as int)),
    {
        let ghost before = views(arguments@);
        assert(said.take(i + 1).drop_last() =~= said.take(i as int));
        assert(said[i as int] == (plain@[i as int].0@, plain@[i as int].1@));
        arguments.push("--var".to_owned());
        arguments.push(plain[i].0.clone().concat(":").concat(plain[i].1.as_str()));
        assert(views(arguments@) =~= before.push("--var"@).push(
            said[i as int].0 + ":"@ + said[i as int].1,
        ));
        assert(views(arguments@) =~= head + var_arguments(said.take(i + 1)));
    }
    assert(said.take(plain@.len() as int) =~= said);
    WranglerCommand {
        program: config.wrangler.clone(),
        arguments,
        environment: account_variables(config),
        directory: WorkingDirectory::Staging,
    }
}

/// Puts a secret of a Worker.
pub fn to_put_secret(config: &TargetConfig, worker_name: &str, key: &str) -> (command:
    WranglerCommand)
    ensures
        command@ == secret_command(config@, worker_name@, key@),
{
    let mut arguments: Vec<String> = Vec::new();
    arguments.push("secret".to_owned());
    arguments.push("put".to_owned());
    arguments.push(key.to_owned());
    arguments.push("--name".to_owned());
    arguments.push(worker_name.to_owned());
    assert(views(arguments@) =~= seq!["secret"@, "put"@, key@, "--name"@, worker_name@]);
    WranglerCommand {
        program: config.wrangler.clone(),
        arguments,
        environment: account_variables(config),
        directory: WorkingDirectory::Staging,
    }
}

/// Deletes a Worker.
pub fn to_delete(config: &TargetConfig, worker_name: &str) -> (command: WranglerCommand)
    ensures
        command@ == delete_command(config@, worker_name@),
{
    let mut arguments: Vec<String> = Vec::new();
    arguments.push("delete".to_owned());
    arguments.push("--name".to_owned());
    arguments.push(worker_name.to_owned());
    arguments.push("--force".to_owned());
    assert(views(arguments@) =~= seq!["delete"@, "--name"@, worker_name@, "--force"@]);
    WranglerCommand {
        program: config.wrangler.clone(),
        arguments,
        environment: account_variables(config),
        directory: WorkingDirectory::Inherited,
    }
}

// ---------------------------------------------------------------------------
// Output
// ---------------------------------------------------------------------------
/// What follows the first marker in a line, without the white space around it.
pub open spec fn after_marker(line: Seq<char>, marker: Seq<char>) -> Option<Seq<char>> {
    match first_at(line, marker, 0) {
        Some(at) => Some(trimmed(line.skip(at + marker.len()))),
        None => None,
    }
}

/// What follows the marker in the first line, from `from` on, that has it.
pub open spec fn first_after(found: Seq<Seq<char>>, marker: Seq<char>, from: int) -> Option<
    Seq<char>,
>
    decreases found.len() - from,
{
    if from >= found.len() {
        None
    } else {
        match after_marker(found[from], marker) {
            Some(value) => Some(value),
            None => first_after(found, marker, from + 1),
        }
    }
}

/// What follows the marker in the first line of a text that has it, unless nothing does.
pub open spec fn extracted(text: Seq<char>, marker: Seq<char>) -> Option<Seq<char>> {
    match first_after(lines(text), marker, 0) {
        Some(value) => if value.len() == 0 {
            None
        } else {
            Some(value)
        },
        None => None,
    }
}

/// A text without what cannot end a URL: anything but ASCII letters, digits and slashes.
pub open spec fn trim_url(text: Seq<char>) -> Seq<char>
    decreases text.len(),
{
    if text.len() > 0 && !is_alphanumeric(text.last()) && text.last() != '/' {
        trim_url(text.drop_last())
    } else {
        text
    }
}

/// The first of these words, from `from` on, that is a claim URL.
pub open spec fn first_claim(words: Seq<Seq<char>>, from: int) -> Option<Seq<char>>
    decreases words.len() - from,
{
    if from >= words.len() {
        None
    } else if "https://dash.cloudflare.com/sign-up/workers-and-pages"@.is_prefix_of(words[from]) {
        Some(trim_url(words[from]))
    } else {
        first_claim(words, from + 1)
    }
}

/// The URL under which a Worker is reached.
pub open spec fn worker_url(worker_name: Seq<char>, subdomain: Seq<char>) -> Seq<char> {
    "https://"@ + worker_name + "."@ + subdomain + ".workers.dev"@
}

/// The deployment that Wrangler's output tells of. An output without a version is identified by
/// the first half of `digest`.
pub open spec fn deployment_in(
    worker_name: Seq<char>,
    subdomain: Seq<char>,
    stdout: Seq<char>,
    digest: Seq<u8>,
) -> DeploymentView {
    let version = match extracted(stdout, "Version ID:"@) {
        Some(version) => version,
        None => lower_hex(digest.take(16)),
    };
    DeploymentView {
        url: worker_url(worker_name, subdomain),
        deployment_id: version,
        version_id: version,
        claim_url: first_claim(white_pieces(stdout), 0),
    }
}

/// What follows the marker in the first line of the output that has it, unless nothing does.
pub fn extract_after(output: &str, marker: &str) -> (value: Option<String>)
    ensures
        option_view(value) == extracted(output@, marker@),
{
    let found = split_lines(output);
    let ghost said = lines(output@);
    let width = marker.unicode_len();
    for i in 0..found.len()
        invariant
            views(found@) == said,
            said == lines(output@),
            width == marker@.len(),
            first_after(said, marker@, 0) == first_after(said, marker@, i as int),
    {
        let line = found[i].as_str();
        assert(said[i as int] == line@);
        match find(line, marker) {
            Some(at) => {
                proof {
                    lemma_first_at(line@, marker@, 0);
                }
                let n = line.unicode_len();
                assert(line@.subrange(at + width, n as int) =~= line@.skip(at + width));
                let value = trim(slice_text(line, at + width, n).as_str());
                if value.as_str().unicode_len() == 0 {
                    return None;
                }
                return Some(value);
            },
            None => {},
        }
    }
    None
}

/// The first half of a digest.
fn digest_id(digest: &[u8; 32]) -> (id: String)
    ensures
        id@ == lower_hex(digest@.take(16)),
{
    let mut half: Vec<u8> = Vec::new();
    for i in 0..16
        invariant
            half@ == digest@.take(i as int),
    {
        half.push(digest[i]);
        assert(half@ =~= digest@.take(i + 1));
    }
    hex_encode(half.as_slice())
}

/// A text without what cannot end a URL.
fn without_tail(text: &str) -> (url: String)
    ensures
        url@ == trim_url(text@),
{
    let t = to_chars(text);
    let mut end: usize = t.len();
    assert(text@.take(t.len() as int) =~= text@);
    while end > 0 && !ends_url(t[end - 1])
        invariant
            t@ == text@,
            end <= t.len(),
            trim_url(text@) == trim_url(text@.take(end as int)),
        decreases end,
    {
        assert(text@.take(end as int).drop_last() =~= text@.take(end - 1));
        end = end - 1;
    }
    assert(text@.subrange(0, end as int) =~= text@.take(end as int));
    slice_text(text, 0, end)
}

/// Whether a URL may end in `c`.
fn ends_url(c: char) -> (r: bool)
    ensures
        r == (is_alphanumeric(c) || c == '/'),
{
    ('a' <= c && c <= 'z') || ('A' <= c && c <= 'Z') || ('0' <= c && c <= '9') || c == '/'
}

/// The claim URL in an output, where there is one.
pub fn claim_url(output: &str) -> (url: Option<String>)
    ensures
        option_view(url) == first_claim(white_pieces(output@), 0),
{
    let words = split_white(output);
    let ghost said = white_pieces(output@);
    for i in 0..words.len()
        invariant
            views(words@) == said,
            said == white_pieces(output@),
            first_claim(said, 0) == first_claim(said, i as int),
    {
        assert(said[i as int] == words@[i as int]@);
        if starts_with(
            words[i].as_str(),
            "https://dash.cloudflare.com/sign-up/workers-and-pages",
        ) {
            return Some(without_tail(words[i].as_str()));
        }
    }
    None
}

/// The URL under which a Worker is reached.
pub fn to_url(worker_name: &str, subdomain: &str) -> (url: String)
    ensures
        url@ == worker_url(worker_name@, subdomain@),
{
    "https://".to_owned().concat(worker_name).concat(".").concat(subdomain).concat(".workers.dev")
}

/// The deployment that Wrangler's output tells of, given the digest of that output.
pub fn deployment_from(
    worker_name: &str,
    facts: &AccountFacts,
    stdout: &str,
    digest: &[u8; 32],
) -> (deployment: Deployment)
    ensures
        deployment@ == deployment_in(worker_name@, facts@.subdomain, stdout@, digest@),
{
    let version_id = match extract_after(stdout, "Version ID:") {
        Some(version) => version,
        None => digest_id(digest),
    };
    Deployment {
        url: to_url(worker_name, facts.subdomain.as_str()),
        deployment_id: version_id.clone(),
        version_id,
        claim_url: claim_url(stdout),
    }
}

// ---------------------------------------------------------------------------
// Laws
// ---------------------------------------------------------------------------
/// The command runs Wrangler in the configured account: it gets the account's identifier and the
/// token, as far as they are configured, and no other variable.
pub open spec fn runs_in_the_account(command: CommandView, config: ConfigView) -> bool {
    let identified = if config.account_id is Some {
        1int
    } else {
        0
    };
    &&& command.program == config.wrangler
    &&& command.environment.len() == identified + if config.api_token is Some {
        1int
    } else {
        0
    }
    &&& config.account_id matches Some(account) ==> command.environment[0] == (
        "CLOUDFLARE_ACCOUNT_ID"@,
        account,
    )
    &&& config.api_token matches Some(token) ==> command.environment[identified] == (
        "CLOUDFLARE_API_TOKEN"@,
        token,
    )
}

/// How plain values stand on the command line.
proof fn lemma_var_arguments(plain: Seq<(Seq<char>, Seq<char>)>)
    ensures
        var_arguments(plain).len() == 2 * plain.len(),
        forall|i: int|
            0 <= i < plain.len() ==> {
                &&& (#[trigger] var_arguments(plain)[2 * i]) == "--var"@
                &&& var_arguments(plain)[2 * i + 1] == plain[i].0 + ":"@ + plain[i].1
            },
    decreases plain.len(),
{
    if plain.len() > 0 {
        let front = plain.drop_last();
        lemma_var_arguments(front);
        assert forall|i: int| 0 <= i < plain.len() implies {
            &&& (#[trigger] var_arguments(plain)[2 * i]) == "--var"@
            &&& var_arguments(plain)[2 * i + 1] == plain[i].0 + ":"@ + plain[i].1
        } by {
            if i < front.len() {
                assert(var_arguments(front)[2 * i] == "--var"@);
                assert(plain[i] == front[i]);
            }
        }
    }
}

/// Wrangler is told to deploy under the Worker's name, and each plain value, in order, is handed
/// over behind a `--var` of its own as its key, a colon and the value. Nothing else stands on the
/// command line.
pub proof fn each_plain_value_is_handed_over(
    config: ConfigView,
    worker_name: Seq<char>,
    plain: Seq<(Seq<char>, Seq<char>)>,
)
    ensures
        ({
            let command = deploy_command(config, worker_name, plain);
            &&& runs_in_the_account(command, config)
            &&& command.directory == WorkingDirectory::Staging
            &&& command.arguments.len() == 3 + 2 * plain.len()
            &&& command.arguments[0] == "deploy"@
            &&& command.arguments[1] == "--name"@
            &&& command.arguments[2] == worker_name
            &&& forall|i: int|
                0 <= i < plain.len() ==> {
                    &&& (#[trigger] command.arguments[3 + 2 * i]) == "--var"@
                    &&& command.arguments[4 + 2 * i] =~= plain[i].0 + ":"@ + plain[i].1
                }
        }),
{
    lemma_var_arguments(plain);
    let command = deploy_command(config, worker_name, plain);
    let head = seq!["deploy"@, "--name"@, worker_name];
    assert forall|i: int| 0 <= i < plain.len() implies {
        &&& (#[trigger] command.arguments[3 + 2 * i]) == "--var"@
        &&& command.arguments[4 + 2 * i] =~= plain[i].0 + ":"@ + plain[i].1
    } by {
        assert(var_arguments(plain)[2 * i] == "--var"@);
    }
}

/// A secret is put under its key for the Worker of this name, and a Worker is deleted by its name;
/// no value stands on either command line.
pub proof fn secrets_and_deletions_name_the_worker(
    config: ConfigView,
    worker_name: Seq<char>,
    key: Seq<char>,
)
    ensures
        ({
            let command = secret_command(config, worker_name, key);
            &&& runs_in_the_account(command, config)
            &&& command.directory == WorkingDirectory::Staging
            &&& command.arguments.len() == 5
            &&& command.arguments[0] == "secret"@
            &&& command.arguments[1] == "put"@
            &&& command.arguments[2] == key
            &&& command.arguments[3] == "--name"@
            &&& command.arguments[4] == worker_name
        }),
        ({
            let command = delete_command(config, worker_name);
            &&& runs_in_the_account(command, config)
            &&& command.directory == WorkingDirectory::Inherited
            &&& command.arguments.len() == 4
            &&& command.arguments[0] == "delete"@
            &&& command.arguments[1] == "--name"@
            &&& command.arguments[2] == worker_name
            &&& command.arguments[3] == "--force"@
        }),
{
}

/// The first line, from `from` on, that has the marker decides.
proof fn lemma_first_after(found: Seq<Seq<char>>, marker: Seq<char>, from: int, at: int)
    requires
        0 <= from <= at < found.len(),
        contains_text(found[at], marker),
        forall|i: int| from <= i < at ==> !contains_text(#[trigger] found[i], marker),
    ensures
        first_after(found, marker, from) == after_marker(found[at], marker),
        after_marker(found[at], marker) is Some,
    decreases at - from,
{
    lemma_first_at(found[from], marker, 0);
    lemma_first_at(found[at], marker, 0);
    if from < at {
        assert(!contains_text(found[from], marker));
        lemma_first_after(found, marker, from + 1, at);
    }
}

/// Where no line from `from` on has the marker, nothing follows it.
proof fn lemma_none_after(found: Seq<Seq<char>>, marker: Seq<char>, from: int)
    requires
        0 <= from,
        forall|i: int| 0 <= i < found.len() ==> !contains_text(#[trigger] found[i], marker),
    ensures
        first_after(found, marker, from) is None,
    decreases found.len() - from,
{
    if from < found.len() {
        lemma_first_at(found[from], marker, 0);
        assert(!contains_text(found[from], marker));
        lemma_none_after(found, marker, from + 1);
    }
}

/// What is read behind a marker is the rest of the first line that has it, from the marker's first
/// occurrence there on, without the white space around it; nothing is read where nothing is left,
/// nor where no line has the marker.
pub proof fn markers_are_read_in_the_first_line_that_has_them(
    text: Seq<char>,
    marker: Seq<char>,
    line: int,
    at: int,
)
    requires
        0 <= line < lines(text).len(),
        forall|i: int| 0 <= i < line ==> !contains_text(#[trigger] lines(text)[i], marker),
        occurs_at(lines(text)[line], marker, at),
        forall|i: int| 0 <= i < at ==> !#[trigger] occurs_at(lines(text)[line], marker, i),
    ensures
        ({
            let rest = trimmed(lines(text)[line].skip(at + marker.len()));
            &&& rest.len() > 0 ==> extracted(text, marker) == Some(rest)
            &&& rest.len() == 0 ==> extracted(text, marker) is None
        }),
{
    let found = lines(text);
    assert(contains_text(found[line], marker));
    lemma_first_after(found, marker, 0, line);
    lemma_first_at(found[line], marker, 0);
    let first = first_at(found[line], marker, 0)->Some_0;
    assert(occurs_at(found[line], marker, first));
}

/// Nothing is read behind a marker that no line has.
pub proof fn absent_markers_are_not_read(text: Seq<char>, marker: Seq<char>)
    requires
        forall|i: int| 0 <= i < lines(text).len() ==> !contains_text(#[trigger] lines(text)[i], marker),
    ensures
        extracted(text, marker) is None,
{
    lemma_none_after(lines(text), marker, 0);
}

/// A URL may end in an ASCII letter, an ASCII digit or a slash.
pub open spec fn may_end_a_url(c: char) -> bool {
    let code = c as int;
    97 <= code <= 122 || 65 <= code <= 90 || 48 <= code <= 57 || code == 47
}

/// Trimming a URL takes off what cannot end it, as much of it as there is, and nothing else.
pub proof fn urls_keep_all_but_their_tail(text: Seq<char>)
    ensures
        trim_url(text).len() <= text.len(),
        trim_url(text) == text.take(trim_url(text).len() as int),
        forall|i: int|
            trim_url(text).len() <= i < text.len() ==> !may_end_a_url(#[trigger] text[i]),
        trim_url(text).len() > 0 ==> may_end_a_url(trim_url(text).last()),
    decreases text.len(),
{
    if text.len() > 0 && !is_alphanumeric(text.last()) && text.last() != '/' {
        let front = text.drop_last();
        urls_keep_all_but_their_tail(front);
        assert(front.take(trim_url(front).len() as int) =~= text.take(
            trim_url(front).len() as int,
        ));
        assert forall|i: int| trim_url(text).len() <= i < text.len() implies !may_end_a_url(
            #[trigger] text[i],
        ) by {
            if i < front.len() {
                assert(front[i] == text[i]);
            }
        }
    } else {
        assert(text =~= text.take(text.len() as int));
    }
}

/// The first word, from `from` on, that is a claim URL decides.
proof fn lemma_first_claim(words: Seq<Seq<char>>, from: int, at: int)
    requires
        0 <= from <= at <= words.len(),
        forall|i: int|
            from <= i < at
                ==> !"https://dash.cloudflare.com/sign-up/workers-and-pages"@.is_prefix_of(
                #[trigger] words[i],
            ),
        at < words.len() ==> "https://dash.cloudflare.com/sign-up/workers-and-pages"@.is_prefix_of(
            words[at],
        ),
    ensures
        first_claim(words, from) == if at < words.len() {
            Some(trim_url(words[at]))
        } else {
            None
        },
    decreases at - from,
{
    if from < at {
        assert(!"https://dash.cloudflare.com/sign-up/workers-and-pages"@.is_prefix_of(words[from]));
        lemma_first_claim(words, from + 1, at);
    }
}

/// A deployment has the URL of its Worker in the account's subdomain; it is identified by the
/// version that Wrangler printed, or by 32 hexadecimal digits of what it printed; and its claim URL
/// is the first word in the output that begins as one, without the punctuation behind it.
pub proof fn deployments_follow_the_output(
    worker_name: Seq<char>,
    subdomain: Seq<char>,
    stdout: Seq<char>,
    digest: Seq<u8>,
    at: int,
)
    requires
        0 <= at <= white_pieces(stdout).len(),
        forall|i: int|
            0 <= i < at
                ==> !"https://dash.cloudflare.com/sign-up/workers-and-pages"@.is_prefix_of(
                #[trigger] white_pieces(stdout)[i],
            ),
        at < white_pieces(stdout).len()
            ==> "https://dash.cloudflare.com/sign-up/workers-and-pages"@.is_prefix_of(
            white_pieces(stdout)[at],
        ),
    ensures
        ({
            let deployment = deployment_in(worker_name, subdomain, stdout, digest);
            &&& deployment.url =~= "https://"@ + worker_name + "."@ + subdomain + ".workers.dev"@
            &&& deployment.deployment_id == deployment.version_id
            &&& extracted(stdout, "Version ID:"@) matches Some(version) ==> deployment.version_id
                == version
            &&& extracted(stdout, "Version ID:"@) is None ==> deployment.version_id == lower_hex(
                digest.subrange(0, 16),
            )
            &&& deployment.claim_url is Some <==> at < white_pieces(stdout).len()
            &&& deployment.claim_url matches Some(url) ==> url == trim_url(white_pieces(stdout)[at])
        }),
{
    lemma_first_claim(white_pieces(stdout), 0, at);
    assert(digest.subrange(0, 16) =~= digest.take(16));
}

} // verus!
