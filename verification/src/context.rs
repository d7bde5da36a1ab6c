//! Connector-owned deployment context derived from native Wrangler files.

use vstd::prelude::*;
use vstd::string::*;
use vstd::utf8::*;

use crate::hexadecimal::{lemma_lower_hex_shape, lower_hex};
use crate::model::{copy_bytes, copy_option, option_view, result_view, views};
use crate::outside::{blake3_digest, blake3_hash, debug_quoted, debug_text, hex_encode};
use crate::text::{
    ascii_lower, byte_len, byte_prefix_or_all, contains, contains_text, count_bytes, cut_bytes,
    is_alphanumeric, lemma_ascii_byte_prefix, lowercase, occurs_at, same_text, starts_with,
    strip_all, strip_repeated, to_chars, to_lowercase,
};

verus! {

/// Version of the opaque connector context.
pub const API_VERSION: &'static str = "henosis.dev/cloudflare-worker/v1";

/// Complete immutable Worker source material and binding declarations.
#[derive(Debug, PartialEq, Eq)]
pub struct ComponentContext {
    /// Context schema version.
    pub api_version: String,
    /// Native Wrangler name before environment mapping.
    pub worker_name: String,
    /// Relative entry module path.
    pub entry: String,
    /// Optional static-assets directory.
    pub assets_directory: Option<String>,
    /// Environment mapping selected by authoring.
    pub environment: String,
    /// Native project files required by Wrangler.
    pub files: Vec<ProjectFile>,
    /// Runtime variable slots.
    pub slots: Vec<InputSlot>,
    /// The origin behind a private tunnel, where the component is a tunnel and no Worker.
    pub tunnel: Option<Tunnel>,
}

/// One file copied from the native Worker project into the deployment boundary.
#[derive(Debug, PartialEq, Eq)]
pub struct ProjectFile {
    /// Slash-separated path relative to the project root.
    pub path: String,
    /// Exact bytes.
    pub bytes: Vec<u8>,
}

/// One `[vars]` value supplied from an upstream component output.
#[derive(Debug, PartialEq, Eq)]
pub struct InputSlot {
    /// Wrangler variable name.
    pub key: String,
    /// Human-facing upstream component name.
    pub producer: String,
    /// Upstream output property.
    pub output: String,
    /// Immutable producer spec hash resolved by authoring.
    pub producer_spec_hash: [u8; 32],
}

/// The origin that a tunnel leads to.
#[derive(Debug, PartialEq, Eq)]
pub struct Tunnel {
    /// Host name of the origin.
    pub origin_host: String,
    /// Port of the origin.
    pub origin_port: u16,
}

/// Context parse or semantic failure.
#[derive(Debug, PartialEq, Eq)]
pub enum ContextError {
    /// JSON encoding is invalid.
    Json(String),
    /// A semantic invariant is violated.
    Invalid(String),
}

// ---------------------------------------------------------------------------
// Views
// ---------------------------------------------------------------------------
/// What a `ComponentContext` says.
pub struct ContextView {
    pub api_version: Seq<char>,
    pub worker_name: Seq<char>,
    pub entry: Seq<char>,
    pub assets_directory: Option<Seq<char>>,
    pub environment: Seq<char>,
    pub files: Seq<FileView>,
    pub slots: Seq<SlotView>,
    pub tunnel: Option<TunnelView>,
}

/// What a `ProjectFile` says.
pub struct FileView {
    pub path: Seq<char>,
    pub bytes: Seq<u8>,
}

/// What an `InputSlot` says.
pub struct SlotView {
    pub key: Seq<char>,
    pub producer: Seq<char>,
    pub output: Seq<char>,
    pub producer_spec_hash: Seq<u8>,
}

/// What a `Tunnel` says.
pub struct TunnelView {
    pub origin_host: Seq<char>,
    pub origin_port: nat,
}

/// What a `ContextError` says.
pub enum ContextErrorView {
    Json(Seq<char>),
    Invalid(Seq<char>),
}

impl View for ComponentContext {
    type V = ContextView;

    open spec fn view(&self) -> ContextView {
        ContextView {
            api_version: self.api_version@,
            worker_name: self.worker_name@,
            entry: self.entry@,
            assets_directory: option_view(self.assets_directory),
            environment: self.environment@,
            files: views(self.files@),
            slots: views(self.slots@),
            tunnel: option_view(self.tunnel),
        }
    }
}

impl View for ProjectFile {
    type V = FileView;

    open spec fn view(&self) -> FileView {
        FileView { path: self.path@, bytes: self.bytes@ }
    }
}

impl View for InputSlot {
    type V = SlotView;

    open spec fn view(&self) -> SlotView {
        SlotView {
            key: self.key@,
            producer: self.producer@,
            output: self.output@,
            producer_spec_hash: self.producer_spec_hash@,
        }
    }
}

impl View for Tunnel {
    type V = TunnelView;

    open spec fn view(&self) -> TunnelView {
        TunnelView { origin_host: self.origin_host@, origin_port: self.origin_port as nat }
    }
}

impl View for ContextError {
    type V = ContextErrorView;

    open spec fn view(&self) -> ContextErrorView {
        match self {
            ContextError::Json(message) => ContextErrorView::Json(message@),
            ContextError::Invalid(message) => ContextErrorView::Invalid(message@),
        }
    }
}

impl ContextErrorView {
    /// How the error reads.
    pub open spec fn message(self) -> Seq<char> {
        match self {
            ContextErrorView::Json(message) => "connector context is invalid JSON: "@ + message,
            ContextErrorView::Invalid(message) => message,
        }
    }
}

impl ContextView {
    /// The component is a tunnel and no Worker.
    pub open spec fn is_tunnel(self) -> bool {
        self.tunnel is Some
    }

    /// The name under which the component is deployed.
    pub open spec fn deployed_name(self) -> Result<Seq<char>, ContextErrorView> {
        deployed_worker_name(self.worker_name, self.environment)
    }
}

// ---------------------------------------------------------------------------
// Validity of a context
// ---------------------------------------------------------------------------
/// Lowercase letters, digits and hyphens.
pub open spec fn is_label_char(c: char) -> bool {
    'a' <= c <= 'z' || '0' <= c <= '9' || c == '-'
}

/// A lowercase DNS label.
pub open spec fn is_dns_label(value: Seq<char>) -> bool {
    &&& 0 < value.len() <= 63
    &&& forall|i: int| 0 <= i < value.len() ==> is_label_char(#[trigger] value[i])
    &&& value[0] != '-'
    &&& value.last() != '-'
}

/// What is said of a text that is no DNS label.
pub open spec fn label_problem(value: Seq<char>) -> Seq<char> {
    "Worker name "@ + debug_quoted(value)
        + " must be a lowercase DNS label no longer than 63 characters"@
}

/// The text, where it is a DNS label.
pub open spec fn checked_label(value: Seq<char>) -> Result<Seq<char>, ContextErrorView> {
    if is_dns_label(value) {
        Ok(value)
    } else {
        Err(ContextErrorView::Invalid(label_problem(value)))
    }
}

/// A path that may lead out of the project: an absolute one, or one with `..` in it.
pub open spec fn is_unsafe_path(path: Seq<char>) -> bool {
    "/"@.is_prefix_of(path) || contains_text(path, ".."@)
}

/// What is said of the first file, from `from` on, whose path is unsafe.
pub open spec fn file_problem(files: Seq<FileView>, from: int) -> Option<Seq<char>>
    decreases files.len() - from,
{
    if from >= files.len() {
        None
    } else if is_unsafe_path(files[from].path) {
        Some("project file path "@ + debug_quoted(files[from].path) + " is unsafe"@)
    } else {
        file_problem(files, from + 1)
    }
}

/// What is said of a context that is not valid: the first of the rules that it breaks.
pub open spec fn context_problem(context: ContextView) -> Option<Seq<char>> {
    if context.api_version != API_VERSION@ {
        Some("apiVersion must be \"henosis.dev/cloudflare-worker/v1\""@)
    } else if !is_dns_label(context.worker_name) {
        Some(label_problem(context.worker_name))
    } else if is_unsafe_path(context.entry) {
        Some("entry must be a safe relative path"@)
    } else if context.files.len() == 0 {
        Some("files must not be empty"@)
    } else {
        file_problem(context.files, 0)
    }
}

/// What becomes of the outcome of parsing a context.
pub open spec fn accepted_context(parsed: Result<ContextView, Seq<char>>) -> Result<
    ContextView,
    ContextErrorView,
> {
    match parsed {
        Err(message) => Err(ContextErrorView::Json(message)),
        Ok(context) => match context_problem(context) {
            Some(problem) => Err(ContextErrorView::Invalid(problem)),
            None => Ok(context),
        },
    }
}

// ---------------------------------------------------------------------------
// Deployed names
// ---------------------------------------------------------------------------
/// The preview identifier in an environment: what follows `preview_`, cut to twelve bytes.
pub open spec fn preview_id(environment: Seq<char>) -> Seq<char> {
    let id = strip_repeated(environment, "preview_"@);
    byte_prefix_or_all(
        id,
        if byte_len(id) < 12 {
            byte_len(id) as int
        } else {
            12
        },
    )
}

/// The name of a Worker in an environment, however long, where the environment is supported.
pub open spec fn mapped_name(base: Seq<char>, environment: Seq<char>) -> Option<Seq<char>> {
    if environment == "dev"@ || environment == "prod"@ {
        Some(base + "-"@ + environment)
    } else if "preview_"@.is_prefix_of(environment) {
        Some(lowercase(base + "-preview-"@ + preview_id(environment)))
    } else {
        None
    }
}

/// A name of at most 63 bytes: a longer one keeps its first 54 and ends in the first four bytes of
/// `digest`.
pub open spec fn bounded(value: Seq<char>, digest: Seq<u8>) -> Seq<char> {
    if byte_len(value) <= 63 {
        value
    } else {
        byte_prefix_or_all(value, 54) + "-"@ + lower_hex(digest.take(4))
    }
}

/// The stable name of a Worker in an environment.
pub open spec fn deployed_worker_name(base: Seq<char>, environment: Seq<char>) -> Result<
    Seq<char>,
    ContextErrorView,
> {
    match mapped_name(base, environment) {
        None => Err(
            ContextErrorView::Invalid("unsupported environment "@ + debug_quoted(environment)),
        ),
        Some(value) => checked_label(bounded(value, blake3_digest(encode_utf8(value)))),
    }
}

// ---------------------------------------------------------------------------
// Copies
// ---------------------------------------------------------------------------
impl Clone for ProjectFile {
    fn clone(&self) -> (copy: Self)
        ensures
            copy@ == self@,
    {
        ProjectFile { path: self.path.clone(), bytes: copy_bytes(self.bytes.as_slice()) }
    }
}

impl Clone for InputSlot {
    fn clone(&self) -> (copy: Self)
        ensures
            copy@ == self@,
    {
        InputSlot {
            key: self.key.clone(),
            producer: self.producer.clone(),
            output: self.output.clone(),
            producer_spec_hash: self.producer_spec_hash,
        }
    }
}

impl Clone for Tunnel {
    fn clone(&self) -> (copy: Self)
        ensures
            copy@ == self@,
    {
        Tunnel { origin_host: self.origin_host.clone(), origin_port: self.origin_port }
    }
}

impl Clone for ContextError {
    fn clone(&self) -> (copy: Self)
        ensures
            copy@ == self@,
    {
        match self {
            ContextError::Json(message) => ContextError::Json(message.clone()),
            ContextError::Invalid(message) => ContextError::Invalid(message.clone()),
        }
    }
}

impl Clone for ComponentContext {
    fn clone(&self) -> (copy: Self)
        ensures
            copy@ == self@,
    {
        let files = self.files.clone();
        assert(views(files@) =~= views(self.files@));
        let slots = self.slots.clone();
        assert(views(slots@) =~= views(self.slots@));
        ComponentContext {
            api_version: self.api_version.clone(),
            worker_name: self.worker_name.clone(),
            entry: self.entry.clone(),
            assets_directory: copy_option(&self.assets_directory),
            environment: self.environment.clone(),
            files,
            slots,
            tunnel: match &self.tunnel {
                Some(tunnel) => Some(tunnel.clone()),
                None => None,
            },
        }
    }
}

// ---------------------------------------------------------------------------
// Code
// ---------------------------------------------------------------------------
impl ContextError {
    /// How the error reads.
    pub fn message(&self) -> (message: String)
        ensures
            message@ == self@.message(),
    {
        match self {
            ContextError::Json(message) => "connector context is invalid JSON: ".to_owned().concat(
                message.as_str(),
            ),
            ContextError::Invalid(message) => message.clone(),
        }
    }
}

/// Whether a path may lead out of the project.
fn unsafe_path(path: &str) -> (r: bool)
    ensures
        r == is_unsafe_path(path@),
{
    starts_with(path, "/") || contains(path, "..")
}

impl ComponentContext {
    /// Accept the outcome of parsing an opaque context received from core: a context that was
    /// parsed must also keep every rule.
    pub fn from_parsed(parsed: Result<ComponentContext, String>) -> (accepted: Result<
        ComponentContext,
        ContextError,
    >)
        ensures
            result_view(accepted) == accepted_context(result_view(parsed)),
            accepted matches Ok(context) ==> parsed == Ok::<ComponentContext, String>(context),
    {
        match parsed {
            Err(message) => Err(ContextError::Json(message)),
            Ok(context) => {
                context.validate()?;
                Ok(context)
            },
        }
    }

    /// Check the rules that a context keeps.
    pub fn validate(&self) -> (outcome: Result<(), ContextError>)
        ensures
            match outcome {
                Ok(_) => context_problem(self@) is None,
                Err(error) => context_problem(self@) matches Some(problem) && error@
                    == ContextErrorView::Invalid(problem),
            },
    {
        if !same_text(self.api_version.as_str(), API_VERSION) {
            return Err(
                ContextError::Invalid(
                    "apiVersion must be \"henosis.dev/cloudflare-worker/v1\"".to_owned(),
                ),
            );
        }
        match validate_dns_label(self.worker_name.as_str()) {
            Ok(_) => {},
            Err(error) => {
                return Err(error);
            },
        }
        if unsafe_path(self.entry.as_str()) {
            return Err(ContextError::Invalid("entry must be a safe relative path".to_owned()));
        }
        if self.files.len() == 0 {
            return Err(ContextError::Invalid("files must not be empty".to_owned()));
        }
        for i in 0..self.files.len()
            invariant
                file_problem(self@.files, 0) == file_problem(self@.files, i as int),
                context_problem(self@) == file_problem(self@.files, 0),
        {
            assert(self@.files[i as int] == self.files@[i as int]@);
            if unsafe_path(self.files[i].path.as_str()) {
                return Err(
                    ContextError::Invalid(
                        "project file path ".to_owned().concat(
                            debug_text(self.files[i].path.as_str()).as_str(),
                        ).concat(" is unsafe"),
                    ),
                );
            }
        }
        Ok(())
    }

    /// Whether the component is a tunnel and no Worker.
    pub fn is_tunnel(&self) -> (r: bool)
        ensures
            r == self@.is_tunnel(),
    {
        self.tunnel.is_some()
    }

    /// Stable deployed Worker name for a graph environment.
    pub fn deployed_name(&self) -> (name: Result<String, ContextError>)
        ensures
            result_view(name) == self@.deployed_name(),
    {
        worker_name(self.worker_name.as_str(), self.environment.as_str())
    }
}

/// Map native name and graph environment to a valid stable Worker name.
pub fn worker_name(base: &str, environment: &str) -> (name: Result<String, ContextError>)
    ensures
        result_view(name) == deployed_worker_name(base@, environment@),
{
    match map_name(base, environment) {
        Some(value) => {
            let digest = blake3_hash(value.as_str().as_bytes());
            bounded_name(value.as_str(), &digest)
        },
        None => Err(
            ContextError::Invalid(
                "unsupported environment ".to_owned().concat(debug_text(environment).as_str()),
            ),
        ),
    }
}

/// The name of a Worker in an environment, however long, where the environment is supported.
pub fn map_name(base: &str, environment: &str) -> (name: Option<String>)
    ensures
        option_view(name) == mapped_name(base@, environment@),
{
    if same_text(environment, "dev") || same_text(environment, "prod") {
        Some(base.to_owned().concat("-").concat(environment))
    } else if starts_with(environment, "preview_") {
        proof {
            reveal_strlit("preview_");
        }
        let id = strip_all(environment, "preview_");
        let n = count_bytes(id.as_str());
        let short = cut_bytes(
            id.as_str(),
            if n < 12 {
                n
            } else {
                12
            },
        );
        let value = base.to_owned().concat("-preview-").concat(short.as_str());
        Some(to_lowercase(value.as_str()))
    } else {
        None
    }
}

/// Bound a name to 63 bytes, given the digest of the name, and check that it is a DNS label.
pub fn bounded_name(value: &str, digest: &[u8; 32]) -> (name: Result<String, ContextError>)
    ensures
        result_view(name) == checked_label(bounded(value@, digest@)),
{
    let short = if count_bytes(value) <= 63 {
        value.to_owned()
    } else {
        let head: [u8; 4] = [digest[0], digest[1], digest[2], digest[3]];
        assert(head@ =~= digest@.take(4));
        cut_bytes(value, 54).concat("-").concat(hex_encode(head.as_slice()).as_str())
    };
    match validate_dns_label(short.as_str()) {
        Ok(_) => Ok(short),
        Err(error) => Err(error),
    }
}

/// Check that a text is a DNS label.
pub fn validate_dns_label(value: &str) -> (outcome: Result<(), ContextError>)
    ensures
        match outcome {
            Ok(_) => is_dns_label(value@),
            Err(error) => !is_dns_label(value@) && error@ == ContextErrorView::Invalid(
                label_problem(value@),
            ),
        },
{
    let chars = to_chars(value);
    let mut valid = 0 < chars.len() && chars.len() <= 63 && chars[0] != '-' && chars[chars.len()
        - 1] != '-';
    let mut i: usize = 0;
    while valid && i < chars.len()
        invariant
            chars@ == value@,
            i <= chars.len(),
            valid ==> {
                &&& 0 < chars.len() <= 63
                &&& chars@[0] != '-'
                &&& chars@.last() != '-'
                &&& forall|j: int| 0 <= j < i ==> is_label_char(#[trigger] chars@[j])
            },
            !valid ==> !is_dns_label(value@),
        decreases chars.len() - i,
    {
        let c = chars[i];
        valid = ('a' <= c && c <= 'z') || ('0' <= c && c <= '9') || c == '-';
        i = i + 1;
    }
    if valid {
        Ok(())
    } else {
        Err(
            ContextError::Invalid(
                "Worker name ".to_owned().concat(debug_text(value).as_str()).concat(
                    " must be a lowercase DNS label no longer than 63 characters",
                ),
            ),
        )
    }
}

// ---------------------------------------------------------------------------
// Laws
// ---------------------------------------------------------------------------
/// Every deployed name is a lowercase DNS label no longer than 63 characters.
pub proof fn deployed_names_are_labels(base: Seq<char>, environment: Seq<char>)
    ensures
        deployed_worker_name(base, environment) matches Ok(name) ==> is_dns_label(name),
{
}

/// Label characters encode to one byte each.
proof fn lemma_label_is_ascii(value: Seq<char>)
    requires
        forall|i: int| 0 <= i < value.len() ==> is_label_char(#[trigger] value[i]),
    ensures
        byte_len(value) == value.len(),
        forall|n: int| 0 <= n <= value.len() ==> byte_prefix_or_all(value, n) == value.take(n),
{
    assert(is_ascii_chars(value)) by {
        assert forall|i: int| 0 <= i < value.len() implies (value[i] as int) < 128 by {
            assert(is_label_char(value[i]));
        }
    }
    lemma_ascii_byte_prefix(value, 0);
    assert forall|n: int| 0 <= n <= value.len() implies byte_prefix_or_all(value, n)
        == value.take(n) by {
        lemma_ascii_byte_prefix(value, n);
    }
}

/// `dev` and `prod` map a Worker's name to `<name>-dev` and `<name>-prod`, as long as that is no
/// longer than 63 characters.
pub proof fn stable_environments_are_suffixes(base: Seq<char>, environment: Seq<char>)
    requires
        is_dns_label(base),
        environment == "dev"@ || environment == "prod"@,
        base.len() + 1 + environment.len() <= 63,
    ensures
        deployed_worker_name(base, environment) == Ok::<Seq<char>, ContextErrorView>(
            base + "-"@ + environment,
        ),
{
    reveal_strlit("dev");
    reveal_strlit("prod");
    reveal_strlit("-");
    let value = base + "-"@ + environment;
    assert forall|i: int| 0 <= i < value.len() implies is_label_char(#[trigger] value[i]) by {
        if i < base.len() {
            assert(value[i] == base[i]);
        } else if i == base.len() {
            assert(value[i] == '-');
        } else {
            assert(value[i] == environment[i - base.len() - 1]);
        }
    }
    assert(value[0] == base[0]);
    assert(value.last() == environment.last());
    lemma_label_is_ascii(value);
}

/// A preview identifier stands alone behind its prefix.
proof fn lemma_preview_id(id: Seq<char>)
    requires
        forall|i: int| 0 <= i < id.len() ==> is_alphanumeric(#[trigger] id[i]) || id[i] == '-',
    ensures
        "preview_"@.is_prefix_of("preview_"@ + id),
        preview_id("preview_"@ + id) == id.take(
            if id.len() < 12 {
                id.len() as int
            } else {
                12
            },
        ),
{
    reveal_strlit("preview_");
    let prefix = "preview_"@;
    let environment = prefix + id;
    assert(environment.subrange(0, 8) =~= prefix);
    assert(environment.skip(8) =~= id);
    assert(!prefix.is_prefix_of(id)) by {
        if prefix.is_prefix_of(id) {
            assert(id.subrange(0, 8)[7] == prefix[7]);
            assert(is_alphanumeric(id[7]) || id[7] == '-');
        }
    }
    reveal_with_fuel(strip_repeated, 2);
    assert(strip_repeated(environment, prefix) == id);
    assert(is_ascii_chars(id)) by {
        assert forall|i: int| 0 <= i < id.len() implies (id[i] as int) < 128 by {
            assert(is_alphanumeric(id[i]) || id[i] == '-');
        }
    }
    lemma_ascii_byte_prefix(id, 0);
    lemma_ascii_byte_prefix(
        id,
        if id.len() < 12 {
            id.len() as int
        } else {
            12
        },
    );
}

/// `preview_<id>` maps a Worker's name to `<name>-preview-` and the first twelve characters of the
/// identifier, lowercased, as long as that is no longer than 63 characters.
pub proof fn previews_use_the_identifiers_start(base: Seq<char>, id: Seq<char>)
    requires
        is_dns_label(base),
        12 <= id.len(),
        forall|i: int| 0 <= i < id.len() ==> is_alphanumeric(#[trigger] id[i]),
        base.len() + 21 <= 63,
    ensures
        deployed_worker_name(base, "preview_"@ + id) == Ok::<Seq<char>, ContextErrorView>(
            base + "-preview-"@ + lowercase(id.take(12)),
        ),
{
    reveal_strlit("preview_");
    reveal_strlit("-preview-");
    reveal_strlit("dev");
    reveal_strlit("prod");
    lemma_preview_id(id);
    let environment = "preview_"@ + id;
    assert(environment.len() > 4);
    let short = id.take(12);
    let middle = "-preview-"@;
    let value = base + middle + lowercase(short);
    assert(lowercase(base + middle + short) =~= value) by {
        assert forall|i: int| 0 <= i < value.len() implies lowercase(base + middle + short)[i]
            == value[i] by {
            if i < base.len() {
                assert(is_label_char(base[i]));
            }
        }
    }
    assert forall|i: int| 0 <= i < value.len() implies is_label_char(#[trigger] value[i]) by {
        if i < base.len() {
            assert(value[i] == base[i]);
        } else if i < base.len() + 9 {
            assert(value[i] == middle[i - base.len()]);
        } else {
            let k = i - base.len() - 9;
            assert(is_alphanumeric(id[k]));
            assert(value[i] == ascii_lower(id[k]));
        }
    }
    assert(value[0] == base[0]);
    assert(value.last() == ascii_lower(id[11])) by {
        assert(value[value.len() - 1] == lowercase(short)[11]);
    }
    assert(is_alphanumeric(id[11]));
    lemma_label_is_ascii(value);
}

/// A name longer than 63 characters is truncated and ends in an 8-digit digest, which makes it 63
/// characters long.
pub proof fn long_names_end_in_a_digest(value: Seq<char>, digest: Seq<u8>)
    requires
        value.len() > 63,
        forall|i: int| 0 <= i < value.len() ==> is_label_char(#[trigger] value[i]),
        value[0] != '-',
        digest.len() == 32,
    ensures
        bounded(value, digest).len() == 63,
        checked_label(bounded(value, digest)) == Ok::<Seq<char>, ContextErrorView>(
            value.take(54) + "-"@ + lower_hex(digest.take(4)),
        ),
{
    reveal_strlit("-");
    lemma_label_is_ascii(value);
    lemma_lower_hex_shape(digest.take(4));
    let tail = lower_hex(digest.take(4));
    let name = value.take(54) + "-"@ + tail;
    assert forall|i: int| 0 <= i < name.len() implies is_label_char(#[trigger] name[i]) by {
        if i < 54 {
            assert(name[i] == value[i]);
        } else if i == 54 {
            assert(name[i] == '-');
        } else {
            assert(name[i] == tail[i - 55]);
        }
    }
    assert(name.last() == tail[7]);
}

/// A context that is accepted names a DNS label, an entry and files that stay inside the project,
/// and at least one file; it is handed on unchanged.
pub proof fn accepted_contexts_are_safe(parsed: Result<ContextView, Seq<char>>)
    requires
        accepted_context(parsed) is Ok,
    ensures
        parsed == Ok::<ContextView, Seq<char>>(accepted_context(parsed)->Ok_0),
        ({
            let context = accepted_context(parsed)->Ok_0;
            &&& context.api_version == API_VERSION@
            &&& is_dns_label(context.worker_name)
            &&& !is_unsafe_path(context.entry)
            &&& context.files.len() > 0
            &&& forall|i: int|
                0 <= i < context.files.len() ==> !is_unsafe_path(
                    (#[trigger] context.files[i]).path,
                )
        }),
{
    lemma_files_are_safe(parsed->Ok_0.files, 0);
}

/// Where nothing is said of files, none has an unsafe path.
proof fn lemma_files_are_safe(files: Seq<FileView>, from: int)
    requires
        0 <= from <= files.len(),
        file_problem(files, from) is None,
    ensures
        forall|i: int| from <= i < files.len() ==> !is_unsafe_path((#[trigger] files[i]).path),
    decreases files.len() - from,
{
    if from < files.len() {
        lemma_files_are_safe(files, from + 1);
    }
}

/// Between one and 63 characters, each of them a lowercase ASCII letter, an ASCII digit or a
/// hyphen, with no hyphen at either end.
pub open spec fn reads_as_a_label(value: Seq<char>) -> bool {
    &&& 1 <= value.len() <= 63
    &&& forall|i: int|
        0 <= i < value.len() ==> {
            let code = (#[trigger] value[i]) as int;
            97 <= code <= 122 || 48 <= code <= 57 || code == 45
        }
    &&& value[0] as int != 45
    &&& value[value.len() - 1] as int != 45
}

/// A path that begins with a slash, or has two periods in a row.
pub open spec fn may_lead_out(path: Seq<char>) -> bool {
    ||| path.len() > 0 && path[0] == '/'
    ||| exists|i: int| 0 <= i && i + 1 < path.len() && #[trigger] path[i] == '.' && path[i + 1] == '.'
}

/// Names are checked for being lowercase DNS labels, and handed on unchanged.
pub proof fn labels_are_lowercase_words(value: Seq<char>)
    ensures
        is_dns_label(value) <==> reads_as_a_label(value),
        checked_label(value) is Ok <==> reads_as_a_label(value),
        checked_label(value) matches Ok(name) ==> name == value,
        checked_label(value) matches Err(error) ==> error == ContextErrorView::Invalid(
            "Worker name "@ + debug_quoted(value)
                + " must be a lowercase DNS label no longer than 63 characters"@,
        ),
{
    if is_dns_label(value) {
        assert forall|i: int| 0 <= i < value.len() implies {
            let code = (#[trigger] value[i]) as int;
            97 <= code <= 122 || 48 <= code <= 57 || code == 45
        } by {
            assert(is_label_char(value[i]));
        }
    }
    if reads_as_a_label(value) {
        assert forall|i: int| 0 <= i < value.len() implies is_label_char(#[trigger] value[i]) by {
            let code = value[i] as int;
            assert(97 <= code <= 122 || 48 <= code <= 57 || code == 45);
        }
    }
}

/// A path is unsafe where it is absolute or has two periods in a row.
pub proof fn unsafe_paths_may_lead_out(path: Seq<char>)
    ensures
        is_unsafe_path(path) <==> may_lead_out(path),
{
    reveal_strlit("/");
    reveal_strlit("..");
    if path.len() > 0 && path[0] == '/' {
        assert(path.subrange(0, 1) =~= "/"@);
    }
    if "/"@.is_prefix_of(path) {
        assert(path.subrange(0, 1)[0] == '/');
    }
    if contains_text(path, ".."@) {
        let at = choose|at: int| occurs_at(path, ".."@, at);
        assert(path.subrange(at, at + 2)[0] == '.');
        assert(path.subrange(at, at + 2)[1] == '.');
        assert(path[at] == '.' && path[at + 1] == '.');
    }
    if exists|i: int| 0 <= i && i + 1 < path.len() && #[trigger] path[i] == '.' && path[i + 1] == '.' {
        let i = choose|i: int|
            0 <= i && i + 1 < path.len() && #[trigger] path[i] == '.' && path[i + 1] == '.';
        assert(path.subrange(i, i + 2) =~= ".."@);
        assert(occurs_at(path, ".."@, i));
    }
}

/// Where no file is unsafe, nothing is said of files.
proof fn lemma_safe_files(files: Seq<FileView>, from: int)
    requires
        0 <= from <= files.len(),
        forall|i: int| from <= i < files.len() ==> !is_unsafe_path((#[trigger] files[i]).path),
    ensures
        file_problem(files, from) is None,
    decreases files.len() - from,
{
    if from < files.len() {
        lemma_safe_files(files, from + 1);
    }
}

/// A context is accepted, unchanged, exactly when it has the supported version, a Worker name that
/// is a lowercase DNS label, an entry that stays in the project, and files, at least one of them,
/// that all do. Nothing is asked of its slots, its assets or its environment.
pub proof fn contexts_are_accepted_when_they_keep_the_rules(context: ContextView)
    ensures
        accepted_context(Ok(context)) is Ok <==> {
            &&& context.api_version == "henosis.dev/cloudflare-worker/v1"@
            &&& reads_as_a_label(context.worker_name)
            &&& !may_lead_out(context.entry)
            &&& context.files.len() > 0
            &&& forall|i: int|
                0 <= i < context.files.len() ==> !may_lead_out((#[trigger] context.files[i]).path)
        },
        accepted_context(Ok(context)) matches Ok(accepted) ==> accepted == context,
        context_problem(context) is None <==> accepted_context(Ok(context)) is Ok,
{
    labels_are_lowercase_words(context.worker_name);
    unsafe_paths_may_lead_out(context.entry);
    let files = context.files;
    assert forall|i: int| 0 <= i < files.len() implies is_unsafe_path((#[trigger] files[i]).path)
        == may_lead_out(files[i].path) by {
        unsafe_paths_may_lead_out(files[i].path);
    }
    if file_problem(files, 0) is None {
        lemma_files_are_safe(files, 0);
    }
    if forall|i: int| 0 <= i < files.len() ==> !may_lead_out((#[trigger] files[i]).path) {
        lemma_safe_files(files, 0);
    }
}

/// A text that could not be parsed is refused, whatever it says, with the parser's own words.
pub proof fn unparsed_contexts_are_refused(message: Seq<char>)
    ensures
        accepted_context(Err(message)) == Err::<ContextView, ContextErrorView>(
            ContextErrorView::Json(message),
        ),
        ContextErrorView::Json(message).message() =~= "connector context is invalid JSON: "@
            + message,
        ContextErrorView::Invalid(message).message() == message,
{
}

/// The first file with an unsafe path is the one that is told of.
proof fn lemma_first_unsafe(files: Seq<FileView>, from: int, at: int)
    requires
        0 <= from <= at < files.len(),
        is_unsafe_path(files[at].path),
        forall|i: int| from <= i < at ==> !is_unsafe_path((#[trigger] files[i]).path),
    ensures
        file_problem(files, from) == Some(
            "project file path "@ + debug_quoted(files[at].path) + " is unsafe"@,
        ),
    decreases at - from,
{
    if from < at {
        assert(!is_unsafe_path(files[from].path));
        lemma_first_unsafe(files, from + 1, at);
    }
}

/// The first rule that a context breaks is the one that is told: its version, its name, its entry,
/// that it has files, and then the path of each file in order.
pub proof fn broken_rules_are_told_in_order(context: ContextView, at: int)
    ensures
        ({
            let version = context.api_version == "henosis.dev/cloudflare-worker/v1"@;
            let label = reads_as_a_label(context.worker_name);
            let entry = !may_lead_out(context.entry);
            let files = context.files;
            &&& !version ==> context_problem(context) == Some(
                "apiVersion must be \"henosis.dev/cloudflare-worker/v1\""@,
            )
            &&& version && !label ==> context_problem(context) == Some(
                "Worker name "@ + debug_quoted(context.worker_name)
                    + " must be a lowercase DNS label no longer than 63 characters"@,
            )
            &&& version && label && !entry ==> context_problem(context) == Some(
                "entry must be a safe relative path"@,
            )
            &&& version && label && entry && files.len() == 0 ==> context_problem(context) == Some(
                "files must not be empty"@,
            )
            &&& version && label && entry && 0 <= at < files.len() && may_lead_out(files[at].path)
                && (forall|i: int| 0 <= i < at ==> !may_lead_out((#[trigger] files[i]).path))
                ==> context_problem(context) == Some(
                "project file path "@ + debug_quoted(files[at].path) + " is unsafe"@,
            )
        }),
{
    labels_are_lowercase_words(context.worker_name);
    unsafe_paths_may_lead_out(context.entry);
    let files = context.files;
    if 0 <= at < files.len() && may_lead_out(files[at].path) && (forall|i: int|
        0 <= i < at ==> !may_lead_out((#[trigger] files[i]).path)) {
        assert forall|i: int| 0 <= i < files.len() implies is_unsafe_path(
            (#[trigger] files[i]).path,
        ) == may_lead_out(files[i].path) by {
            unsafe_paths_may_lead_out(files[i].path);
        }
        assert(is_unsafe_path(files[at].path));
        lemma_first_unsafe(files, 0, at);
    }
}

/// A Worker is deployed under this full name as it is up to 63 characters; of a longer one the first
/// 54 are kept, behind which stand a hyphen and the first eight hexadecimal digits of its hash, all
/// of whose bytes are there.
pub open spec fn is_deployed_as(
    base: Seq<char>,
    environment: Seq<char>,
    full: Seq<char>,
) -> bool {
    let digest = blake3_digest(encode_utf8(full));
    &&& full.len() <= 63 ==> deployed_worker_name(base, environment) == Ok::<
        Seq<char>,
        ContextErrorView,
    >(full)
    &&& full.len() > 63 && digest.len() == 32 ==> deployed_worker_name(base, environment) == Ok::<
        Seq<char>,
        ContextErrorView,
    >(full.take(54) + "-"@ + lower_hex(digest.take(4)))
}

/// A mapped name that is made of label characters is deployed, cut where it is too long.
proof fn lemma_deployed(base: Seq<char>, environment: Seq<char>, full: Seq<char>)
    requires
        mapped_name(base, environment) == Some(full),
        full.len() > 0,
        forall|i: int| 0 <= i < full.len() ==> is_label_char(#[trigger] full[i]),
        full[0] != '-',
        full.last() != '-',
    ensures
        is_deployed_as(base, environment, full),
{
    lemma_label_is_ascii(full);
    let digest = blake3_digest(encode_utf8(full));
    if full.len() > 63 && digest.len() == 32 {
        long_names_end_in_a_digest(full, digest);
    }
}

/// In `dev` and `prod` a Worker is deployed under its name, a hyphen and the environment; where that
/// is longer than 63 characters, its first 54 are kept, behind which stand a hyphen and eight
/// hexadecimal digits of the hash of the whole.
pub proof fn stable_names_end_in_their_environment(base: Seq<char>, environment: Seq<char>)
    requires
        reads_as_a_label(base),
        environment == "dev"@ || environment == "prod"@,
    ensures
        is_deployed_as(base, environment, base + "-"@ + environment),
{
    reveal_strlit("dev");
    reveal_strlit("prod");
    reveal_strlit("-");
    labels_are_lowercase_words(base);
    let full = base + "-"@ + environment;
    assert forall|i: int| 0 <= i < full.len() implies is_label_char(#[trigger] full[i]) by {
        if i < base.len() {
            assert(full[i] == base[i]);
        } else if i == base.len() {
            assert(full[i] == '-');
        } else {
            assert(full[i] == environment[i - base.len() - 1]);
        }
    }
    assert(full[0] == base[0]);
    assert(full.last() == environment.last());
    lemma_deployed(base, environment, full);
}

/// In a preview a Worker is deployed under its name, `-preview-` and the first twelve characters of
/// the preview's identifier, all of them lowercase; a name longer than 63 characters is cut as in
/// the stable environments.
pub proof fn preview_names_end_in_their_identifier(base: Seq<char>, id: Seq<char>)
    requires
        reads_as_a_label(base),
        id.len() > 0,
        forall|i: int| 0 <= i < id.len() ==> is_alphanumeric(#[trigger] id[i]) || id[i] == '-',
        id[if id.len() < 12 {
            id.len() - 1
        } else {
            11
        }] != '-',
    ensures
        ({
            let short = id.take(
                if id.len() < 12 {
                    id.len() as int
                } else {
                    12
                },
            );
            is_deployed_as(base, "preview_"@ + id, base + "-preview-"@ + lowercase(short))
        }),
{
    reveal_strlit("preview_");
    reveal_strlit("-preview-");
    reveal_strlit("dev");
    reveal_strlit("prod");
    labels_are_lowercase_words(base);
    lemma_preview_id(id);
    let environment = "preview_"@ + id;
    assert(environment.len() > 4);
    let short = id.take(
        if id.len() < 12 {
            id.len() as int
        } else {
            12
        },
    );
    let middle = "-preview-"@;
    let full = base + middle + lowercase(short);
    assert(lowercase(base + middle + short) =~= full) by {
        assert forall|i: int| 0 <= i < full.len() implies lowercase(base + middle + short)[i]
            == full[i] by {
            if i < base.len() {
                assert(is_label_char(base[i]));
            }
        }
    }
    assert forall|i: int| 0 <= i < full.len() implies is_label_char(#[trigger] full[i]) by {
        if i < base.len() {
            assert(full[i] == base[i]);
        } else if i < base.len() + 9 {
            assert(full[i] == middle[i - base.len()]);
        } else {
            let k = i - base.len() - 9;
            assert(is_alphanumeric(id[k]) || id[k] == '-');
            assert(full[i] == ascii_lower(id[k]));
        }
    }
    assert(full[0] == base[0]);
    assert(full.last() == ascii_lower(id[short.len() - 1])) by {
        assert(full[full.len() - 1] == lowercase(short)[short.len() - 1]);
    }
    assert(is_alphanumeric(id[short.len() - 1]));
    lemma_deployed(base, environment, full);
}

/// Repeating the prefix of a preview's environment makes no difference.
pub proof fn repeated_preview_prefixes_make_no_difference(base: Seq<char>, id: Seq<char>)
    ensures
        deployed_worker_name(base, "preview_"@ + ("preview_"@ + id)) == deployed_worker_name(
            base,
            "preview_"@ + id,
        ),
{
    reveal_strlit("preview_");
    reveal_strlit("dev");
    reveal_strlit("prod");
    let prefix = "preview_"@;
    let once = prefix + id;
    let twice = prefix + once;
    assert(once.subrange(0, 8) =~= prefix);
    assert(twice.subrange(0, 8) =~= prefix);
    assert(twice.skip(8) =~= once);
    assert(once.len() > 4 && twice.len() > 4);
}

/// No other environment is supported.
pub proof fn other_environments_are_refused(base: Seq<char>, environment: Seq<char>)
    requires
        environment != "dev"@,
        environment != "prod"@,
        !"preview_"@.is_prefix_of(environment),
    ensures
        deployed_worker_name(base, environment) == Err::<Seq<char>, ContextErrorView>(
            ContextErrorView::Invalid("unsupported environment "@ + debug_quoted(environment)),
        ),
{
}

/// A component is deployed under the name that its Worker name and its environment map to, whatever
/// else it holds, and it is a tunnel exactly where it has a tunnel's origin.
pub proof fn names_follow_worker_and_environment(context: ContextView)
    ensures
        context.deployed_name() == deployed_worker_name(context.worker_name, context.environment),
        context.is_tunnel() == !(context.tunnel is None),
        context.deployed_name() matches Ok(name) ==> reads_as_a_label(name),
{
    if let Ok(name) = context.deployed_name() {
        labels_are_lowercase_words(name);
    }
}

} // verus!
