//! Pure native-Wrangler component derivation; no marker files are consulted.

use vstd::prelude::*;
use vstd::string::*;
use vstd::utf8::*;

use crate::context::{
    accepted_context, context_problem, API_VERSION, ComponentContext, ContextErrorView,
    ContextView, FileView, InputSlot, ProjectFile, SlotView,
};
use crate::entries::{
    entries_are_found_by_name, entries_sorted, entry_value, find_entry,
};
use crate::json::{add_member, json_text, Json, JsonView};
use crate::model::{
    copy_bytes, copy_option, count_of, lemma_count_next, option_view, outcome_views, pair_views,
    result_view, views,
};
use crate::outside::{debug_quoted, debug_text};
use crate::paths::{
    all_below, distinct_paths, has_path, is_outside, paths_ascending, same_below, sort_paths,
    sorted_paths_are_the_same_paths, sorting_ignores_the_root, FoundPath, PathView,
};
use crate::text::{
    find_last, last_of, lemma_last_of, lemma_text_less_irreflexive, lemma_text_less_transitive,
    less, replace, replaced, slice_text, starts_with, text_less,
};
use crate::wire::context_json;
use crate::CONNECTOR_NAME;

verus! {

/// Complete material used to register a core component spec.
#[derive(Debug, PartialEq, Eq)]
pub struct DerivedComponent {
    /// Native Worker name.
    pub name: String,
    /// Connector registry key.
    pub connector: String,
    /// Henosis output-shape schema.
    pub outputs_schema: Json,
    /// Upstream immutable spec hashes.
    pub depends_on: Vec<Vec<u8>>,
    /// Connector-owned deployment context.
    pub connector_context: ComponentContext,
}

/// Native Wrangler derivation failure.
#[derive(Debug, PartialEq, Eq)]
pub enum DeriveError {
    /// Filesystem access failed.
    Read { path: String, source: String },
    /// Wrangler TOML is malformed.
    Toml { path: String, source: String },
    /// Native project cannot map to a component.
    Invalid { path: String, message: String },
    /// Context encoding failed.
    Serialize(String),
}

/// What a `wrangler.toml` says that matters here.
#[derive(Debug, PartialEq, Eq)]
pub struct WranglerConfig {
    pub name: String,
    pub main: Option<String>,
    pub assets_directory: Option<String>,
    /// The variables by name; one whose value is no string has none here.
    pub vars: Vec<(String, Option<String>)>,
}

/// What became of reading a `wrangler.toml`.
#[derive(Debug, PartialEq, Eq)]
pub enum ConfigOutcome {
    Unreadable(String),
    Malformed(String),
    Parsed(WranglerConfig),
}

/// Something found in an assets directory.
#[derive(Debug, PartialEq, Eq)]
pub struct FoundAsset {
    pub path: FoundPath,
    pub is_file: bool,
}

/// What became of looking for an assets directory.
#[derive(Debug, PartialEq, Eq)]
pub enum AssetsOutcome {
    /// There is no such directory.
    Missing,
    /// The directory could not be walked.
    Failed(String),
    Listed(Vec<FoundAsset>),
}

/// What was found out about a project so far.
#[derive(Debug, PartialEq, Eq)]
pub struct Survey {
    /// Where `wrangler.toml` stands.
    pub config_path: FoundPath,
    pub config: Option<ConfigOutcome>,
    /// Where the entry module stands, and whether there is such a file.
    pub entry: Option<FoundAsset>,
    pub assets: Option<AssetsOutcome>,
    /// What became of reading the files that were asked for, in order.
    pub files: Vec<Result<Vec<u8>, String>>,
}

/// Where deriving a component stands.
#[derive(Debug, PartialEq, Eq)]
pub enum DeriveStep {
    /// `wrangler.toml` has to be read.
    ReadConfig,
    /// The entry module of this name has to be found.
    FindEntry(String),
    /// The assets directory of this name has to be walked.
    ListAssets(String),
    /// The file at this path has to be read.
    ReadFile(FoundPath),
    Done(Result<DerivedComponent, DeriveError>),
}

// ---------------------------------------------------------------------------
// Views
// ---------------------------------------------------------------------------
/// What a `DerivedComponent` says.
pub struct DerivedView {
    pub name: Seq<char>,
    pub connector: Seq<char>,
    pub outputs_schema: JsonView,
    pub depends_on: Seq<Seq<u8>>,
    pub connector_context: ContextView,
}

/// What a `DeriveError` says.
pub enum DeriveErrorView {
    Read { path: Seq<char>, source: Seq<char> },
    Toml { path: Seq<char>, source: Seq<char> },
    Invalid { path: Seq<char>, message: Seq<char> },
    Serialize(Seq<char>),
}

/// What a `WranglerConfig` says.
pub struct WranglerConfigView {
    pub name: Seq<char>,
    pub main: Option<Seq<char>>,
    pub assets_directory: Option<Seq<char>>,
    pub vars: Seq<(Seq<char>, Option<Seq<char>>)>,
}

/// What a `ConfigOutcome` says.
pub enum ConfigOutcomeView {
    Unreadable(Seq<char>),
    Malformed(Seq<char>),
    Parsed(WranglerConfigView),
}

/// What a `FoundAsset` says.
pub struct AssetView {
    pub path: PathView,
    pub is_file: bool,
}

/// What an `AssetsOutcome` says.
pub enum AssetsOutcomeView {
    Missing,
    Failed(Seq<char>),
    Listed(Seq<AssetView>),
}

/// What a `Survey` says.
pub struct SurveyView {
    pub config_path: PathView,
    pub config: Option<ConfigOutcomeView>,
    pub entry: Option<AssetView>,
    pub assets: Option<AssetsOutcomeView>,
    pub files: Seq<Result<Seq<u8>, Seq<char>>>,
}

/// What a `DeriveStep` says.
pub enum DeriveStepView {
    ReadConfig,
    FindEntry(Seq<char>),
    ListAssets(Seq<char>),
    ReadFile(PathView),
    Done(Result<DerivedView, DeriveErrorView>),
}

impl View for DerivedComponent {
    type V = DerivedView;

    open spec fn view(&self) -> DerivedView {
        DerivedView {
            name: self.name@,
            connector: self.connector@,
            outputs_schema: self.outputs_schema@,
            depends_on: views(self.depends_on@),
            connector_context: self.connector_context@,
        }
    }
}

impl View for DeriveError {
    type V = DeriveErrorView;

    open spec fn view(&self) -> DeriveErrorView {
        match self {
            DeriveError::Read { path, source } => DeriveErrorView::Read {
                path: path@,
                source: source@,
            },
            DeriveError::Toml { path, source } => DeriveErrorView::Toml {
                path: path@,
                source: source@,
            },
            DeriveError::Invalid { path, message } => DeriveErrorView::Invalid {
                path: path@,
                message: message@,
            },
            DeriveError::Serialize(message) => DeriveErrorView::Serialize(message@),
        }
    }
}

impl View for WranglerConfig {
    type V = WranglerConfigView;

    open spec fn view(&self) -> WranglerConfigView {
        WranglerConfigView {
            name: self.name@,
            main: option_view(self.main),
            assets_directory: option_view(self.assets_directory),
            vars: self.vars@.map_values(
                |var: (String, Option<String>)| (var.0@, option_view(var.1)),
            ),
        }
    }
}

impl View for ConfigOutcome {
    type V = ConfigOutcomeView;

    open spec fn view(&self) -> ConfigOutcomeView {
        match self {
            ConfigOutcome::Unreadable(source) => ConfigOutcomeView::Unreadable(source@),
            ConfigOutcome::Malformed(source) => ConfigOutcomeView::Malformed(source@),
            ConfigOutcome::Parsed(config) => ConfigOutcomeView::Parsed(config@),
        }
    }
}

impl View for FoundAsset {
    type V = AssetView;

    open spec fn view(&self) -> AssetView {
        AssetView { path: self.path@, is_file: self.is_file }
    }
}

impl View for AssetsOutcome {
    type V = AssetsOutcomeView;

    open spec fn view(&self) -> AssetsOutcomeView {
        match self {
            AssetsOutcome::Missing => AssetsOutcomeView::Missing,
            AssetsOutcome::Failed(message) => AssetsOutcomeView::Failed(message@),
            AssetsOutcome::Listed(assets) => AssetsOutcomeView::Listed(views(assets@)),
        }
    }
}

impl View for Survey {
    type V = SurveyView;

    open spec fn view(&self) -> SurveyView {
        SurveyView {
            config_path: self.config_path@,
            config: option_view(self.config),
            entry: option_view(self.entry),
            assets: option_view(self.assets),
            files: outcome_views(self.files@),
        }
    }
}

impl View for DeriveStep {
    type V = DeriveStepView;

    open spec fn view(&self) -> DeriveStepView {
        match self {
            DeriveStep::ReadConfig => DeriveStepView::ReadConfig,
            DeriveStep::FindEntry(name) => DeriveStepView::FindEntry(name@),
            DeriveStep::ListAssets(name) => DeriveStepView::ListAssets(name@),
            DeriveStep::ReadFile(path) => DeriveStepView::ReadFile(path@),
            DeriveStep::Done(outcome) => DeriveStepView::Done(result_view(*outcome)),
        }
    }
}

impl DeriveErrorView {
    /// How the error reads.
    pub open spec fn message(self) -> Seq<char> {
        match self {
            DeriveErrorView::Read { path, source } => "cannot read "@ + path + ": "@ + source,
            DeriveErrorView::Toml { path, source } => "invalid TOML in "@ + path + ": "@ + source,
            DeriveErrorView::Invalid { path, message } => "invalid Wrangler project at "@ + path
                + ": "@ + message,
            DeriveErrorView::Serialize(message) => "cannot serialize connector context: "@
                + message,
        }
    }
}

impl DeriveError {
    /// How the error reads.
    pub fn message(&self) -> (message: String)
        ensures
            message@ == self@.message(),
    {
        match self {
            DeriveError::Read { path, source } => "cannot read ".to_owned().concat(
                path.as_str(),
            ).concat(": ").concat(source.as_str()),
            DeriveError::Toml { path, source } => "invalid TOML in ".to_owned().concat(
                path.as_str(),
            ).concat(": ").concat(source.as_str()),
            DeriveError::Invalid { path, message } => {
                "invalid Wrangler project at ".to_owned().concat(path.as_str()).concat(
                    ": ",
                ).concat(message.as_str())
            },
            DeriveError::Serialize(message) => {
                "cannot serialize connector context: ".to_owned().concat(message.as_str())
            },
        }
    }
}

// ---------------------------------------------------------------------------
// Slots
// ---------------------------------------------------------------------------
/// The producer and the output that a variable's value names: `${henosis:<producer>.<output>}`,
/// split at the last period, neither of them empty.
pub open spec fn slot_source(value: Seq<char>) -> Option<(Seq<char>, Seq<char>)> {
    let prefix = "${henosis:"@;
    if prefix.is_prefix_of(value) && prefix.len() < value.len() && value.last() == '}' {
        let inner = value.subrange(prefix.len() as int, value.len() - 1);
        match last_of(inner, '.') {
            Some(at) => if 0 < at && at + 1 < inner.len() {
                Some((inner.take(at), inner.skip(at + 1)))
            } else {
                None
            },
            None => None,
        }
    } else {
        None
    }
}

/// The slot that a variable is, where its value names an output.
pub open spec fn var_source(var: (Seq<char>, Option<Seq<char>>)) -> Option<
    (Seq<char>, Seq<char>),
> {
    match var.1 {
        Some(value) => slot_source(value),
        None => None,
    }
}

/// What is said of a variable whose producer has no known spec hash.
pub open spec fn unknown_producer(key: Seq<char>, producer: Seq<char>) -> Seq<char> {
    "[vars]."@ + key + " names producer "@ + debug_quoted(producer)
        + ", but authoring did not receive its immutable spec hash"@
}

/// What is said of the first variable, from `from` on, whose producer has no known spec hash.
pub open spec fn vars_problem(
    vars: Seq<(Seq<char>, Option<Seq<char>>)>,
    dependencies: Seq<(Seq<char>, Seq<u8>)>,
    from: int,
) -> Option<Seq<char>>
    decreases vars.len() - from,
{
    if from >= vars.len() {
        None
    } else {
        match var_source(vars[from]) {
            Some((producer, _)) => if entry_value(dependencies, producer) is None {
                Some(unknown_producer(vars[from].0, producer))
            } else {
                vars_problem(vars, dependencies, from + 1)
            },
            None => vars_problem(vars, dependencies, from + 1),
        }
    }
}

/// The slots among the variables, in the order of the variables.
pub open spec fn declared_slots(
    vars: Seq<(Seq<char>, Option<Seq<char>>)>,
    dependencies: Seq<(Seq<char>, Seq<u8>)>,
) -> Seq<SlotView>
    decreases vars.len(),
{
    if vars.len() == 0 {
        Seq::empty()
    } else {
        let earlier = declared_slots(vars.drop_last(), dependencies);
        match var_source(vars.last()) {
            Some((producer, output)) => earlier.push(
                SlotView {
                    key: vars.last().0,
                    producer,
                    output,
                    producer_spec_hash: entry_value(dependencies, producer)->Some_0,
                },
            ),
            None => earlier,
        }
    }
}

/// The first position, from `from` on, whose slot comes behind `slot`.
pub open spec fn slot_position(slots: Seq<SlotView>, slot: SlotView, from: int) -> int
    decreases slots.len() - from,
{
    if from >= slots.len() || text_less(slot.key, slots[from].key) {
        from
    } else {
        slot_position(slots, slot, from + 1)
    }
}

/// The slots by key; those with the same key stay in order.
pub open spec fn slots_by_key(slots: Seq<SlotView>) -> Seq<SlotView>
    decreases slots.len(),
{
    if slots.len() == 0 {
        Seq::empty()
    } else {
        let earlier = slots_by_key(slots.drop_last());
        earlier.insert(slot_position(earlier, slots.last(), 0), slots.last())
    }
}

/// The producer and the output that a variable's value names.
pub fn parse_slot(value: &str) -> (source: Option<(String, String)>)
    ensures
        match source {
            Some((producer, output)) => slot_source(value@) == Some((producer@, output@)),
            None => slot_source(value@) is None,
        },
{
    if !starts_with(value, "${henosis:") {
        return None;
    }
    let width = "${henosis:".unicode_len();
    let n = value.unicode_len();
    if width >= n || value.get_char(n - 1) != '}' {
        return None;
    }
    let inner = slice_text(value, width, n - 1);
    let m = inner.as_str().unicode_len();
    proof {
        lemma_last_of(inner@, '.');
    }
    match find_last(inner.as_str(), '.') {
        Some(at) => {
            if 0 < at && at + 1 < m {
                assert(inner@.subrange(0, at as int) =~= inner@.take(at as int));
                assert(inner@.subrange(at + 1, m as int) =~= inner@.skip(at + 1));
                Some((slice_text(inner.as_str(), 0, at), slice_text(inner.as_str(), at + 1, m)))
            } else {
                None
            }
        },
        None => None,
    }
}

/// Adds a slot to slots by key, behind those with the same key.
fn add_slot(slots: &mut Vec<InputSlot>, slot: InputSlot)
    ensures
        views(final(slots)@) == views(old(slots)@).insert(
            slot_position(views(old(slots)@), slot@, 0),
            slot@,
        ),
{
    let ghost said = views(slots@);
    let ghost new = slot@;
    let mut at: usize = 0;
    while at < slots.len() && !less(slot.key.as_str(), slots[at].key.as_str())
        invariant
            at <= slots.len(),
            said == views(slots@),
            new == slot@,
            slot_position(said, new, 0) == slot_position(said, new, at as int),
        decreases slots.len() - at,
    {
        assert(said[at as int] == slots@[at as int]@);
        at = at + 1;
    }
    proof {
        if at < slots.len() {
            assert(said[at as int] == slots@[at as int]@);
        }
    }
    slots.insert(at, slot);
    assert(views(slots@) =~= said.insert(at as int, new));
}

/// The slots among the variables by key, or what is said of the first whose producer is unknown.
/// The dependencies are the spec hashes of producers, in the order of their names.
pub fn find_slots(
    vars: &Vec<(String, Option<String>)>,
    dependencies: &Vec<(String, [u8; 32])>,
) -> (slots: Result<Vec<InputSlot>, String>)
    requires
        entries_sorted(pair_views(dependencies@)),
    ensures
        ({
            let said = vars@.map_values(
                |var: (String, Option<String>)| (var.0@, option_view(var.1)),
            );
            match slots {
                Ok(slots) => {
                    &&& vars_problem(said, pair_views(dependencies@), 0) is None
                    &&& views(slots@) == slots_by_key(
                        declared_slots(said, pair_views(dependencies@)),
                    )
                },
                Err(message) => vars_problem(said, pair_views(dependencies@), 0) == Some(message@),
            }
        }),
{
    let mut slots: Vec<InputSlot> = Vec::new();
    let ghost said = vars@.map_values(|var: (String, Option<String>)| (var.0@, option_view(var.1)));
    let ghost known = pair_views(dependencies@);
    assert(views(slots@) =~= slots_by_key(declared_slots(said.take(0), known)));
    for i in 0..vars.len()
        invariant
            said == vars@.map_values(
                |var: (String, Option<String>)| (var.0@, option_view(var.1)),
            ),
            known == pair_views(dependencies@),
            vars_problem(said, known, 0) == vars_problem(said, known, i as int),
            views(slots@) == slots_by_key(declared_slots(said.take(i as int), known)),
    {
        assert(said[i as int] == (vars@[i as int].0@, option_view(vars@[i as int].1)));
        assert(said.take(i + 1).drop_last() =~= said.take(i as int));
        let source = match &vars[i].1 {
            Some(value) => parse_slot(value.as_str()),
            None => None,
        };
        if let Some((producer, output)) = source {
            let ghost declared = declared_slots(said.take(i as int), known);
            match find_entry(dependencies, producer.as_str()) {
                None => {
                    return Err(
                        "[vars].".to_owned().concat(vars[i].0.as_str()).concat(
                            " names producer ",
                        ).concat(debug_text(producer.as_str()).as_str()).concat(
                            ", but authoring did not receive its immutable spec hash",
                        ),
                    );
                },
                Some(at) => {
                    let slot = InputSlot {
                        key: vars[i].0.clone(),
                        producer,
                        output,
                        producer_spec_hash: dependencies[at].1,
                    };
                    assert(declared.push(slot@).drop_last() =~= declared);
                    add_slot(&mut slots, slot);
                },
            }
        }
    }
    assert(said.take(vars@.len() as int) =~= said);
    Ok(slots)
}

// ---------------------------------------------------------------------------
// Derivation
// ---------------------------------------------------------------------------
/// The entry module: `main`, or the default.
pub open spec fn entry_name(config: WranglerConfigView) -> Seq<char> {
    match config.main {
        Some(main) => main,
        None => "src/index.js"@,
    }
}

/// The regular files among what was found, in order.
pub open spec fn asset_paths(assets: Seq<AssetView>) -> Seq<PathView>
    decreases assets.len(),
{
    if assets.len() == 0 {
        Seq::empty()
    } else {
        let earlier = asset_paths(assets.drop_last());
        if assets.last().is_file {
            earlier.push(assets.last().path)
        } else {
            earlier
        }
    }
}

/// A failure that is told of `wrangler.toml`.
pub open spec fn invalid_project(survey: SurveyView, message: Seq<char>) -> DeriveStepView {
    DeriveStepView::Done(Err(DeriveErrorView::Invalid { path: survey.config_path.shown, message }))
}

/// A project file at this path with these bytes.
pub open spec fn project_file(path: PathView, bytes: Seq<u8>) -> FileView {
    FileView { path: replaced(path.relative->Some_0, '\\', '/'), bytes }
}

/// The project files at these paths.
pub open spec fn project_files(
    paths: Seq<PathView>,
    reads: Seq<Result<Seq<u8>, Seq<char>>>,
) -> Seq<FileView> {
    Seq::new(paths.len(), |i: int| project_file(paths[i], reads[i]->Ok_0))
}

/// The context of a derived component.
pub open spec fn derived_context(
    config: WranglerConfigView,
    environment: Seq<char>,
    slots: Seq<SlotView>,
    files: Seq<FileView>,
) -> ContextView {
    ContextView {
        api_version: API_VERSION@,
        worker_name: config.name,
        entry: entry_name(config),
        assets_directory: config.assets_directory,
        environment,
        files,
        slots,
        tunnel: None,
    }
}

/// An output of this kind.
pub open spec fn output_kind(kind: Seq<char>) -> JsonView {
    JsonView::Object(seq![("kind"@, JsonView::Text(kind))])
}

/// The shape of what a Worker publishes.
pub open spec fn outputs_schema() -> JsonView {
    JsonView::Object(
        seq![
            ("kind"@, JsonView::Text("object"@)),
            (
                "shape"@,
                JsonView::Object(
                    seq![
                        ("claimUrl"@, output_kind("url"@)),
                        ("deploymentId"@, output_kind("string"@)),
                        (
                            "url"@,
                            JsonView::Object(
                                seq![
                                    ("kind"@, JsonView::Text("url"@)),
                                    ("role"@, JsonView::Text("ui"@)),
                                ],
                            ),
                        ),
                        ("versionId"@, output_kind("string"@)),
                        ("workerName"@, output_kind("string"@)),
                    ],
                ),
            ),
        ],
    )
}

/// What deriving a component with this context leads to.
pub open spec fn derived(
    survey: SurveyView,
    context: ContextView,
    dependencies: Seq<(Seq<char>, Seq<u8>)>,
) -> DeriveStepView {
    match context_problem(context) {
        Some(problem) => invalid_project(survey, problem),
        None => DeriveStepView::Done(
            Ok(
                DerivedView {
                    name: context.worker_name,
                    connector: CONNECTOR_NAME@,
                    outputs_schema: outputs_schema(),
                    depends_on: dependencies.map_values(
                        |dependency: (Seq<char>, Seq<u8>)| dependency.1,
                    ),
                    connector_context: context,
                },
            ),
        ),
    }
}

/// Where reading the files at these paths stands, from `at` on; none once all are read.
pub open spec fn reading(
    paths: Seq<PathView>,
    reads: Seq<Result<Seq<u8>, Seq<char>>>,
    at: int,
) -> Option<DeriveStepView>
    decreases paths.len() - at,
{
    if at >= paths.len() {
        None
    } else if paths[at].relative is None {
        Some(
            DeriveStepView::Done(
                Err(
                    DeriveErrorView::Invalid {
                        path: paths[at].shown,
                        message: "file escapes project root"@,
                    },
                ),
            ),
        )
    } else if at >= reads.len() {
        Some(DeriveStepView::ReadFile(paths[at]))
    } else {
        match reads[at] {
            Err(source) => Some(
                DeriveStepView::Done(Err(DeriveErrorView::Read { path: paths[at].shown, source })),
            ),
            Ok(_) => reading(paths, reads, at + 1),
        }
    }
}

/// Where deriving a component from these project files stands.
pub open spec fn collecting(
    survey: SurveyView,
    config: WranglerConfigView,
    environment: Seq<char>,
    dependencies: Seq<(Seq<char>, Seq<u8>)>,
    found: Seq<PathView>,
) -> DeriveStepView {
    let paths = distinct_paths(found);
    match reading(paths, survey.files, 0) {
        Some(step) => step,
        None => derived(
            survey,
            derived_context(
                config,
                environment,
                slots_by_key(declared_slots(config.vars, dependencies)),
                project_files(paths, survey.files),
            ),
            dependencies,
        ),
    }
}

/// Where deriving a component stands, after what was found out so far. The configuration is checked
/// before the slots, these before the assets, and all of them before any file is read.
pub open spec fn derive_step(
    survey: SurveyView,
    environment: Seq<char>,
    dependencies: Seq<(Seq<char>, Seq<u8>)>,
) -> DeriveStepView {
    match survey.config {
        None => DeriveStepView::ReadConfig,
        Some(ConfigOutcomeView::Unreadable(source)) => DeriveStepView::Done(
            Err(DeriveErrorView::Read { path: survey.config_path.shown, source }),
        ),
        Some(ConfigOutcomeView::Malformed(source)) => DeriveStepView::Done(
            Err(DeriveErrorView::Toml { path: survey.config_path.shown, source }),
        ),
        Some(ConfigOutcomeView::Parsed(config)) => if config.name.len() == 0 {
            invalid_project(survey, "name must not be empty"@)
        } else {
            match survey.entry {
                None => DeriveStepView::FindEntry(entry_name(config)),
                Some(entry) => if !entry.is_file {
                    invalid_project(
                        survey,
                        "main entry "@ + debug_quoted(entry_name(config)) + " does not exist"@,
                    )
                } else if let Some(problem) = vars_problem(config.vars, dependencies, 0) {
                    invalid_project(survey, problem)
                } else {
                    let own = seq![survey.config_path, entry.path];
                    match config.assets_directory {
                        None => collecting(survey, config, environment, dependencies, own),
                        Some(directory) => match survey.assets {
                            None => DeriveStepView::ListAssets(directory),
                            Some(AssetsOutcomeView::Missing) => invalid_project(
                                survey,
                                "assets directory "@ + debug_quoted(directory)
                                    + " does not exist"@,
                            ),
                            Some(AssetsOutcomeView::Failed(message)) => invalid_project(
                                survey,
                                message,
                            ),
                            Some(AssetsOutcomeView::Listed(assets)) => collecting(
                                survey,
                                config,
                                environment,
                                dependencies,
                                own + asset_paths(assets),
                            ),
                        },
                    }
                },
            }
        },
    }
}

/// A failure that is told of `wrangler.toml`.
fn invalid(survey: &Survey, message: String) -> (step: DeriveStep)
    ensures
        step@ == invalid_project(survey@, message@),
{
    DeriveStep::Done(
        Err(DeriveError::Invalid { path: survey.config_path.shown.clone(), message }),
    )
}

/// An output of this kind.
fn kind_to_json(kind: &str) -> (json: Json)
    ensures
        json@ == output_kind(kind@),
{
    let mut members: Vec<(String, Json)> = Vec::new();
    assert(pair_views(members@) =~= Seq::empty());
    add_member(&mut members, "kind", Json::text(kind));
    assert(pair_views(members@) =~= output_kind(kind@)->Object_0);
    Json::object(members)
}

/// The shape of what a Worker publishes.
pub fn schema_to_json() -> (json: Json)
    ensures
        json@ == outputs_schema(),
{
    let mut url: Vec<(String, Json)> = Vec::new();
    assert(pair_views(url@) =~= Seq::empty());
    add_member(&mut url, "kind", Json::text("url"));
    add_member(&mut url, "role", Json::text("ui"));
    let mut shape: Vec<(String, Json)> = Vec::new();
    assert(pair_views(shape@) =~= Seq::empty());
    add_member(&mut shape, "claimUrl", kind_to_json("url"));
    add_member(&mut shape, "deploymentId", kind_to_json("string"));
    let ghost first = pair_views(shape@);
    let ui = Json::object(url);
    assert(ui@->Object_0 =~= seq![
        ("kind"@, JsonView::Text("url"@)),
        ("role"@, JsonView::Text("ui"@)),
    ]);
    add_member(&mut shape, "url", ui);
    add_member(&mut shape, "versionId", kind_to_json("string"));
    add_member(&mut shape, "workerName", kind_to_json("string"));
    let inner = Json::object(shape);
    assert(inner@->Object_0 =~= outputs_schema()->Object_0[1].1->Object_0);
    let mut members: Vec<(String, Json)> = Vec::new();
    assert(pair_views(members@) =~= Seq::empty());
    add_member(&mut members, "kind", Json::text("object"));
    add_member(&mut members, "shape", inner);
    assert(pair_views(members@) =~= outputs_schema()->Object_0);
    Json::object(members)
}

/// The regular files among what was found, behind the paths there are.
fn add_assets(paths: &mut Vec<FoundPath>, assets: &Vec<FoundAsset>)
    ensures
        views(final(paths)@) == views(old(paths)@) + asset_paths(views(assets@)),
{
    let ghost own = views(paths@);
    let ghost said = views(assets@);
    assert(own =~= own + asset_paths(said.take(0)));
    for i in 0..assets.len()
        invariant
            said == views(assets@),
            views(paths@) == own + asset_paths(said.take(i as int)),
    {
        assert(said[i as int] == assets@[i as int]@);
        assert(said.take(i + 1).drop_last() =~= said.take(i as int));
        if assets[i].is_file {
            let ghost before = paths@;
            let path = assets[i].path.clone();
            paths.push(path);
            assert(views(paths@) =~= views(before).push(path@));
            assert(views(paths@) =~= own + asset_paths(said.take(i + 1)));
        }
    }
    assert(said.take(assets@.len() as int) =~= said);
}

/// The project files at these paths, or where reading them stands.
fn collect_files(paths: &Vec<FoundPath>, reads: &Vec<Result<Vec<u8>, String>>) -> (files: Result<
    Vec<ProjectFile>,
    DeriveStep,
>)
    ensures
        match files {
            Ok(files) => {
                &&& reading(views(paths@), outcome_views(reads@), 0) is None
                &&& views(files@) == project_files(views(paths@), outcome_views(reads@))
            },
            Err(step) => reading(views(paths@), outcome_views(reads@), 0) == Some(step@),
        },
{
    let mut files: Vec<ProjectFile> = Vec::new();
    let ghost places = views(paths@);
    let ghost read = outcome_views(reads@);
    let ghost all = project_files(places, read);
    for at in 0..paths.len()
        invariant
            places == views(paths@),
            read == outcome_views(reads@),
            all == project_files(places, read),
            reading(places, read, 0) == reading(places, read, at as int),
            views(files@) == all.take(at as int),
    {
        assert(places[at as int] == paths@[at as int]@);
        let relative = match &paths[at].relative {
            Some(relative) => relative,
            None => {
                return Err(
                    DeriveStep::Done(
                        Err(
                            DeriveError::Invalid {
                                path: paths[at].shown.clone(),
                                message: "file escapes project root".to_owned(),
                            },
                        ),
                    ),
                );
            },
        };
        if at >= reads.len() {
            return Err(DeriveStep::ReadFile(paths[at].clone()));
        }
        assert(read[at as int] == result_view(reads@[at as int]));
        match &reads[at] {
            Err(source) => {
                return Err(
                    DeriveStep::Done(
                        Err(
                            DeriveError::Read {
                                path: paths[at].shown.clone(),
                                source: source.clone(),
                            },
                        ),
                    ),
                );
            },
            Ok(bytes) => {
                let ghost before = files@;
                let file = ProjectFile {
                    path: replace(relative.as_str(), '\\', '/'),
                    bytes: copy_bytes(bytes.as_slice()),
                };
                assert(file@ == all[at as int]);
                files.push(file);
                assert(views(files@) =~= views(before).push(all[at as int]));
                assert(views(files@) =~= all.take(at + 1));
            },
        }
    }
    assert(all.take(places.len() as int) =~= all);
    Ok(files)
}

/// The hashes of the dependencies, in order.
fn hashes_of(dependencies: &Vec<(String, [u8; 32])>) -> (hashes: Vec<Vec<u8>>)
    ensures
        views(hashes@) == pair_views(dependencies@).map_values(
            |dependency: (Seq<char>, Seq<u8>)| dependency.1,
        ),
{
    let mut hashes: Vec<Vec<u8>> = Vec::new();
    let ghost all = pair_views(dependencies@).map_values(
        |dependency: (Seq<char>, Seq<u8>)| dependency.1,
    );
    for i in 0..dependencies.len()
        invariant
            all == pair_views(dependencies@).map_values(
                |dependency: (Seq<char>, Seq<u8>)| dependency.1,
            ),
            views(hashes@) == all.take(i as int),
    {
        let ghost before = hashes@;
        let hash = copy_bytes(dependencies[i].1.as_slice());
        hashes.push(hash);
        assert(hash@ == all[i as int]);
        assert(views(hashes@) =~= views(before).push(all[i as int]));
        assert(views(hashes@) =~= all.take(i + 1));
    }
    assert(all.take(dependencies@.len() as int) =~= all);
    hashes
}

/// Derive from `wrangler.toml` and native project files only: what comes next, after what was found
/// out so far. The dependencies are the spec hashes of producers by name, in the order of their
/// names.
pub fn derive_component(
    survey: &Survey,
    environment: &str,
    dependencies: &Vec<(String, [u8; 32])>,
) -> (step: DeriveStep)
    requires
        entries_sorted(pair_views(dependencies@)),
    ensures
        step@ == derive_step(survey@, environment@, pair_views(dependencies@)),
{
    let config = match &survey.config {
        None => {
            return DeriveStep::ReadConfig;
        },
        Some(ConfigOutcome::Unreadable(source)) => {
            return DeriveStep::Done(
                Err(
                    DeriveError::Read {
                        path: survey.config_path.shown.clone(),
                        source: source.clone(),
                    },
                ),
            );
        },
        Some(ConfigOutcome::Malformed(source)) => {
            return DeriveStep::Done(
                Err(
                    DeriveError::Toml {
                        path: survey.config_path.shown.clone(),
                        source: source.clone(),
                    },
                ),
            );
        },
        Some(ConfigOutcome::Parsed(config)) => config,
    };
    if config.name.as_str().unicode_len() == 0 {
        return invalid(survey, "name must not be empty".to_owned());
    }
    let entry = match &config.main {
        Some(main) => main.clone(),
        None => "src/index.js".to_owned(),
    };
    let found = match &survey.entry {
        None => {
            return DeriveStep::FindEntry(entry);
        },
        Some(found) => found,
    };
    if !found.is_file {
        return invalid(
            survey,
            "main entry ".to_owned().concat(debug_text(entry.as_str()).as_str()).concat(
                " does not exist",
            ),
        );
    }
    let slots = match find_slots(&config.vars, dependencies) {
        Ok(slots) => slots,
        Err(message) => {
            return invalid(survey, message);
        },
    };
    let mut paths: Vec<FoundPath> = Vec::new();
    paths.push(survey.config_path.clone());
    paths.push(found.path.clone());
    assert(views(paths@) =~= seq![survey@.config_path, found@.path]);
    if let Some(directory) = &config.assets_directory {
        match &survey.assets {
            None => {
                return DeriveStep::ListAssets(directory.clone());
            },
            Some(AssetsOutcome::Missing) => {
                return invalid(
                    survey,
                    "assets directory ".to_owned().concat(
                        debug_text(directory.as_str()).as_str(),
                    ).concat(" does not exist"),
                );
            },
            Some(AssetsOutcome::Failed(message)) => {
                return invalid(survey, message.clone());
            },
            Some(AssetsOutcome::Listed(assets)) => {
                add_assets(&mut paths, assets);
            },
        }
    }
    let sorted = sort_paths(paths);
    let files = match collect_files(&sorted, &survey.files) {
        Ok(files) => files,
        Err(step) => {
            return step;
        },
    };
    let context = ComponentContext {
        api_version: API_VERSION.to_owned(),
        worker_name: config.name.clone(),
        entry,
        assets_directory: copy_option(&config.assets_directory),
        environment: environment.to_owned(),
        files,
        slots,
        tunnel: None,
    };
    match context.validate() {
        Err(error) => invalid(survey, error.message()),
        Ok(_) => DeriveStep::Done(
            Ok(
                DerivedComponent {
                    name: config.name.clone(),
                    connector: CONNECTOR_NAME.to_owned(),
                    outputs_schema: schema_to_json(),
                    depends_on: hashes_of(dependencies),
                    connector_context: context,
                },
            ),
        ),
    }
}

impl DerivedComponent {
    /// Encode opaque connector context.
    pub fn connector_context_bytes(&self) -> (bytes: Result<Vec<u8>, DeriveError>)
        ensures
            bytes matches Ok(bytes) && bytes@ == encode_utf8(
                json_text(context_json(self@.connector_context)),
            ),
    {
        let text = self.connector_context.to_json().to_text();
        Ok(copy_bytes(text.as_str().as_bytes()))
    }

    /// Encode output contract.
    pub fn outputs_schema_bytes(&self) -> (bytes: Result<Vec<u8>, DeriveError>)
        ensures
            bytes matches Ok(bytes) && bytes@ == encode_utf8(json_text(self@.outputs_schema)),
    {
        let text = self.outputs_schema.to_text();
        Ok(copy_bytes(text.as_str().as_bytes()))
    }
}

// ---------------------------------------------------------------------------
// Laws
// ---------------------------------------------------------------------------
/// Slots in ascending order of their keys.
pub open spec fn keys_ascending(slots: Seq<SlotView>) -> bool {
    forall|i: int, j: int|
        0 <= i < j < slots.len() ==> !text_less(
            (#[trigger] slots[j]).key,
            (#[trigger] slots[i]).key,
        )
}

/// `slot_position` stands behind exactly the leading slots that do not come behind the slot.
proof fn lemma_slot_position(slots: Seq<SlotView>, slot: SlotView, from: int)
    requires
        0 <= from <= slots.len(),
    ensures
        ({
            let at = slot_position(slots, slot, from);
            &&& from <= at <= slots.len()
            &&& forall|i: int| from <= i < at ==> !text_less(slot.key, (#[trigger] slots[i]).key)
            &&& at < slots.len() ==> text_less(slot.key, slots[at].key)
        }),
    decreases slots.len() - from,
{
    if from < slots.len() && !text_less(slot.key, slots[from].key) {
        lemma_slot_position(slots, slot, from + 1);
    }
}

/// No key comes before another and behind it.
proof fn lemma_key_asymmetric(a: Seq<char>, b: Seq<char>)
    requires
        text_less(a, b),
    ensures
        !text_less(b, a),
{
    if text_less(b, a) {
        lemma_text_less_transitive(a, b, a);
        lemma_text_less_irreflexive(a);
    }
}

/// Ordering slots by key loses none and adds none.
pub proof fn slots_are_ordered_by_key(slots: Seq<SlotView>)
    ensures
        keys_ascending(slots_by_key(slots)),
        slots_by_key(slots).to_multiset() == slots.to_multiset(),
    decreases slots.len(),
{
    if slots.len() > 0 {
        let front = slots.drop_last();
        let slot = slots.last();
        slots_are_ordered_by_key(front);
        let earlier = slots_by_key(front);
        lemma_slot_position(earlier, slot, 0);
        let at = slot_position(earlier, slot, 0);
        let all = earlier.insert(at, slot);
        assert forall|i: int, j: int| 0 <= i < j < all.len() implies !text_less(
            (#[trigger] all[j]).key,
            (#[trigger] all[i]).key,
        ) by {
            if j == at {
                assert(all[i] == earlier[i]);
            } else if i == at {
                assert(all[j] == earlier[j - 1]);
                if at < j - 1 {
                    if text_less(earlier[j - 1].key, slot.key) {
                        lemma_text_less_transitive(
                            earlier[j - 1].key,
                            slot.key,
                            earlier[at].key,
                        );
                    }
                } else {
                    lemma_key_asymmetric(slot.key, earlier[at].key);
                }
            } else {
                let before = if i < at {
                    i
                } else {
                    i - 1
                };
                let behind = if j < at {
                    j
                } else {
                    j - 1
                };
                assert(all[i] == earlier[before]);
                assert(all[j] == earlier[behind]);
            }
        }
        vstd::seq_lib::to_multiset_insert(earlier, at, slot);
        vstd::seq_lib::to_multiset_build(front, slot);
        assert(front.push(slot) =~= slots);
    } else {
        assert(slots_by_key(slots) =~= slots);
    }
}

/// A value of the form `${henosis:<producer>.<output>}` names its producer and its output, as long
/// as neither is empty and the output has no period.
pub proof fn slots_name_their_source(producer: Seq<char>, output: Seq<char>)
    requires
        producer.len() > 0,
        output.len() > 0,
        !output.contains('.'),
    ensures
        slot_source("${henosis:"@ + producer + seq!['.'] + output + seq!['}']) == Some(
            (producer, output),
        ),
{
    reveal_strlit("${henosis:");
    let prefix = "${henosis:"@;
    let value = prefix + producer + seq!['.'] + output + seq!['}'];
    let inner = producer + seq!['.'] + output;
    assert(value.subrange(0, prefix.len() as int) =~= prefix);
    assert(value.last() == '}');
    assert(value.subrange(prefix.len() as int, value.len() - 1) =~= inner);
    lemma_last_of(inner, '.');
    let n = producer.len() as int;
    assert(inner[n] == '.');
    match last_of(inner, '.') {
        Some(at) => {
            if at > n {
                assert(inner[at] == output[at - n - 1]);
            }
            assert(at == n);
        },
        None => {},
    }
    assert(inner.take(n) =~= producer);
    assert(inner.skip(n + 1) =~= output);
}

/// Where nothing is said of variables, each producer that they name from `from` on is known.
proof fn lemma_vars_are_known(
    vars: Seq<(Seq<char>, Option<Seq<char>>)>,
    dependencies: Seq<(Seq<char>, Seq<u8>)>,
    from: int,
)
    requires
        0 <= from <= vars.len(),
        vars_problem(vars, dependencies, from) is None,
    ensures
        forall|i: int|
            from <= i < vars.len() ==> (var_source(#[trigger] vars[i]) matches Some(source)
                ==> entry_value(dependencies, source.0) is Some),
    decreases vars.len() - from,
{
    if from < vars.len() {
        lemma_vars_are_known(vars, dependencies, from + 1);
    }
}

/// Each slot among the variables carries the spec hash of its producer.
proof fn lemma_declared_slots(
    vars: Seq<(Seq<char>, Option<Seq<char>>)>,
    dependencies: Seq<(Seq<char>, Seq<u8>)>,
)
    requires
        forall|i: int|
            0 <= i < vars.len() ==> (var_source(#[trigger] vars[i]) matches Some(source)
                ==> entry_value(dependencies, source.0) is Some),
    ensures
        forall|k: int|
            0 <= k < declared_slots(vars, dependencies).len() ==> entry_value(
                dependencies,
                (#[trigger] declared_slots(vars, dependencies)[k]).producer,
            ) == Some(declared_slots(vars, dependencies)[k].producer_spec_hash),
    decreases vars.len(),
{
    if vars.len() > 0 {
        let front = vars.drop_last();
        assert forall|i: int| 0 <= i < front.len() implies (
        var_source(#[trigger] front[i]) matches Some(source) ==> entry_value(
            dependencies,
            source.0,
        ) is Some) by {
            assert(front[i] == vars[i]);
        }
        lemma_declared_slots(front, dependencies);
        assert(vars[vars.len() - 1] == vars.last());
    }
}

/// While files are still to be read, no component is derived.
proof fn lemma_reading_done(
    paths: Seq<PathView>,
    reads: Seq<Result<Seq<u8>, Seq<char>>>,
    at: int,
)
    requires
        0 <= at <= paths.len(),
    ensures
        reading(paths, reads, at) matches Some(step) ==> match step {
            DeriveStepView::Done(Ok(_)) => false,
            _ => true,
        },
    decreases paths.len() - at,
{
    if at < paths.len() {
        lemma_reading_done(paths, reads, at + 1);
    }
}

/// The paths of a project's files: its `wrangler.toml`, its entry module and its assets.
pub open spec fn found_paths(survey: SurveyView) -> Seq<PathView> {
    let own = seq![survey.config_path, survey.entry->Some_0.path];
    match (survey.config->Some_0->Parsed_0.assets_directory, survey.assets) {
        (Some(_), Some(AssetsOutcomeView::Listed(assets))) => own + asset_paths(assets),
        _ => own,
    }
}

/// A derived component has the name and the entry of its `wrangler.toml` and the connector's key;
/// its context is valid as it stands and holds the project's files, each once and in order; its
/// slots stand in the order of their keys and each carries the spec hash that was given for its
/// producer; and it depends on every hash that was given.
pub proof fn derived_components_are_valid(
    survey: SurveyView,
    environment: Seq<char>,
    dependencies: Seq<(Seq<char>, Seq<u8>)>,
)
    requires
        derive_step(survey, environment, dependencies) matches DeriveStepView::Done(Ok(_)),
    ensures
        survey.config matches Some(ConfigOutcomeView::Parsed(config)) && ({
            let component = derive_step(survey, environment, dependencies)->Done_0->Ok_0;
            let context = component.connector_context;
            &&& component.name == config.name
            &&& component.connector == CONNECTOR_NAME@
            &&& component.depends_on == dependencies.map_values(
                |dependency: (Seq<char>, Seq<u8>)| dependency.1,
            )
            &&& context.worker_name == config.name
            &&& context.entry == entry_name(config)
            &&& context.assets_directory == config.assets_directory
            &&& context.environment == environment
            &&& context.tunnel is None
            &&& accepted_context(Ok(context)) == Ok::<
                ContextView,
                ContextErrorView,
            >(context)
            &&& context.files == project_files(distinct_paths(found_paths(survey)), survey.files)
            &&& keys_ascending(context.slots)
            &&& forall|k: int|
                0 <= k < context.slots.len() ==> entry_value(
                    dependencies,
                    (#[trigger] context.slots[k]).producer,
                ) == Some(context.slots[k].producer_spec_hash)
        }),
{
    let config = survey.config->Some_0->Parsed_0;
    let paths = distinct_paths(found_paths(survey));
    lemma_reading_done(paths, survey.files, 0);
    let declared = declared_slots(config.vars, dependencies);
    let slots = slots_by_key(declared);
    slots_are_ordered_by_key(declared);
    lemma_vars_are_known(config.vars, dependencies, 0);
    lemma_declared_slots(config.vars, dependencies);
    assert forall|k: int| 0 <= k < slots.len() implies entry_value(
        dependencies,
        (#[trigger] slots[k]).producer,
    ) == Some(slots[k].producer_spec_hash) by {
        assert(slots.contains(slots[k]));
        vstd::seq_lib::to_multiset_contains(slots, slots[k]);
        vstd::seq_lib::to_multiset_contains(declared, slots[k]);
        let j = choose|j: int| 0 <= j < declared.len() && declared[j] == slots[k];
        assert(declared[j] == slots[k]);
    }
    let context = derived_context(
        config,
        environment,
        slots,
        project_files(paths, survey.files),
    );
    assert(context_problem(context) is None);
}

/// Two outcomes agree: both are failures, or both are the same value.
pub open spec fn outcomes_agree<T, E>(a: Result<T, E>, b: Result<T, E>) -> bool {
    match (a, b) {
        (Ok(x), Ok(y)) => x == y,
        (Err(_), Err(_)) => true,
        _ => false,
    }
}

/// Two paths stand in the same place below their roots, or each outside of its root.
pub open spec fn same_place(
    a: PathView,
    first: Seq<Seq<u8>>,
    b: PathView,
    second: Seq<Seq<u8>>,
) -> bool {
    same_below(a, first, b, second) || is_outside(a, first) && is_outside(b, second)
}

/// The same was found at the same place.
pub open spec fn same_asset(
    a: AssetView,
    first: Seq<Seq<u8>>,
    b: AssetView,
    second: Seq<Seq<u8>>,
) -> bool {
    a.is_file == b.is_file && same_place(a.path, first, b.path, second)
}

/// The same was found at the same places, in the same order.
pub open spec fn same_assets(
    a: Seq<AssetView>,
    first: Seq<Seq<u8>>,
    b: Seq<AssetView>,
    second: Seq<Seq<u8>>,
) -> bool {
    &&& a.len() == b.len()
    &&& forall|i: int| 0 <= i < a.len() ==> same_asset(#[trigger] a[i], first, b[i], second)
}

/// Two projects, each surveyed at its own root, have the same `wrangler.toml`, the same entry and
/// the same assets. How a failure to walk the assets reads may differ.
pub open spec fn same_project(
    a: SurveyView,
    first: Seq<Seq<u8>>,
    b: SurveyView,
    second: Seq<Seq<u8>>,
) -> bool {
    &&& same_below(a.config_path, first, b.config_path, second)
    &&& a.config == b.config
    &&& match (a.entry, b.entry) {
        (None, None) => true,
        (Some(x), Some(y)) => same_asset(x, first, y, second),
        _ => false,
    }
    &&& match (a.assets, b.assets) {
        (None, None) => true,
        (Some(AssetsOutcomeView::Missing), Some(AssetsOutcomeView::Missing)) => true,
        (Some(AssetsOutcomeView::Failed(_)), Some(AssetsOutcomeView::Failed(_))) => true,
        (Some(AssetsOutcomeView::Listed(x)), Some(AssetsOutcomeView::Listed(y))) => same_assets(
            x,
            first,
            y,
            second,
        ),
        _ => false,
    }
}

/// What was read below the root is what these contents hold by path below the root; they hold
/// nothing for a file that cannot be read.
pub open spec fn read_from(
    survey: SurveyView,
    root: Seq<Seq<u8>>,
    contents: spec_fn(Seq<Seq<u8>>) -> Option<Seq<u8>>,
) -> bool {
    let paths = distinct_paths(found_paths(survey));
    forall|i: int|
        0 <= i < paths.len() && i < survey.files.len() && root.is_prefix_of(paths[i].parts) ==> {
            let held = contents(paths[i].parts.skip(root.len() as int));
            match #[trigger] survey.files[i] {
                Ok(bytes) => held == Some(bytes),
                Err(_) => held is None,
            }
        }
}

/// The regular files among what was found at the same places are at the same places.
proof fn lemma_same_assets(
    a: Seq<AssetView>,
    first: Seq<Seq<u8>>,
    b: Seq<AssetView>,
    second: Seq<Seq<u8>>,
)
    requires
        same_assets(a, first, b, second),
    ensures
        asset_paths(a).len() == asset_paths(b).len(),
        forall|i: int|
            0 <= i < asset_paths(a).len() ==> same_place(
                #[trigger] asset_paths(a)[i],
                first,
                asset_paths(b)[i],
                second,
            ),
    decreases a.len(),
{
    if a.len() > 0 {
        let n = a.len() - 1;
        assert(same_asset(a[n], first, b[n], second));
        assert forall|i: int| 0 <= i < n implies same_asset(
            #[trigger] a.drop_last()[i],
            first,
            b.drop_last()[i],
            second,
        ) by {
            assert(same_asset(a[i], first, b[i], second));
        }
        lemma_same_assets(a.drop_last(), first, b.drop_last(), second);
        let x = asset_paths(a.drop_last());
        let y = asset_paths(b.drop_last());
        assert forall|i: int| 0 <= i < asset_paths(a).len() implies same_place(
            #[trigger] asset_paths(a)[i],
            first,
            asset_paths(b)[i],
            second,
        ) by {
            if i < x.len() {
                assert(same_place(x[i], first, y[i], second));
            }
        }
    }
}

/// Once all files are read, each of them stands below the root.
proof fn lemma_read_files_have_places(
    paths: Seq<PathView>,
    reads: Seq<Result<Seq<u8>, Seq<char>>>,
    at: int,
)
    requires
        0 <= at <= paths.len(),
        reading(paths, reads, at) is None,
    ensures
        forall|i: int| at <= i < paths.len() ==> (#[trigger] paths[i]).relative is Some,
    decreases paths.len() - at,
{
    if at < paths.len() {
        lemma_read_files_have_places(paths, reads, at + 1);
    }
}

/// Reading files does not end well where one of them stands outside of the root.
proof fn lemma_outside_is_not_read(
    found: Seq<PathView>,
    root: Seq<Seq<u8>>,
    reads: Seq<Result<Seq<u8>, Seq<char>>>,
    at: int,
)
    requires
        0 <= at < found.len(),
        is_outside(found[at], root),
        forall|i: int|
            0 <= i < found.len() ==> root.is_prefix_of((#[trigger] found[i]).parts) || is_outside(
                found[i],
                root,
            ),
    ensures
        reading(distinct_paths(found), reads, 0) is Some,
{
    let paths = distinct_paths(found);
    sorted_paths_are_the_same_paths(found);
    assert(has_path(paths, found[at].parts));
    let k = choose|k: int| 0 <= k < paths.len() && (#[trigger] paths[k]).parts == found[at].parts;
    assert(found.contains(paths[k]));
    let j = choose|j: int| 0 <= j < found.len() && found[j] == paths[k];
    assert(is_outside(found[j], root));
    if reading(paths, reads, 0) is None {
        lemma_read_files_have_places(paths, reads, 0);
        assert(paths[k].relative is Some);
    }
}

/// Where nothing is left to ask for.
spec fn is_settled(step: Option<DeriveStepView>) -> bool {
    step matches Some(step) ==> step is Done
}

/// Reading the same contents at the same places ends alike.
proof fn lemma_same_reading(
    a: Seq<PathView>,
    first: Seq<Seq<u8>>,
    reads: Seq<Result<Seq<u8>, Seq<char>>>,
    b: Seq<PathView>,
    second: Seq<Seq<u8>>,
    others: Seq<Result<Seq<u8>, Seq<char>>>,
    at: int,
)
    requires
        0 <= at <= a.len(),
        all_below(a, first, b, second),
        forall|i: int|
            0 <= i < a.len() && i < reads.len() && i < others.len() ==> outcomes_agree(
                #[trigger] reads[i],
                others[i],
            ),
        is_settled(reading(a, reads, at)),
        is_settled(reading(b, others, at)),
    ensures
        reading(a, reads, at) is None <==> reading(b, others, at) is None,
        reading(a, reads, at) is None ==> forall|i: int|
            at <= i < a.len() ==> (#[trigger] reads[i])->Ok_0 == others[i]->Ok_0,
    decreases a.len() - at,
{
    if at < a.len() {
        assert(same_below(a[at], first, b[at], second));
        if a[at].relative is Some && at < reads.len() && at < others.len() {
            assert(reads[at] is Ok <==> others[at] is Ok);
            if reads[at] is Ok {
                lemma_same_reading(a, first, reads, b, second, others, at + 1);
            }
        }
    }
}

/// Deriving ends alike where the files to collect are at the same places and hold the same.
proof fn lemma_same_collecting(
    a: SurveyView,
    first: Seq<Seq<u8>>,
    b: SurveyView,
    second: Seq<Seq<u8>>,
    contents: spec_fn(Seq<Seq<u8>>) -> Option<Seq<u8>>,
    config: WranglerConfigView,
    environment: Seq<char>,
    dependencies: Seq<(Seq<char>, Seq<u8>)>,
)
    requires
        found_paths(a).len() == found_paths(b).len(),
        forall|i: int|
            0 <= i < found_paths(a).len() ==> same_place(
                #[trigger] found_paths(a)[i],
                first,
                found_paths(b)[i],
                second,
            ),
        read_from(a, first, contents),
        read_from(b, second, contents),
        collecting(a, config, environment, dependencies, found_paths(a)) is Done,
        collecting(b, config, environment, dependencies, found_paths(b)) is Done,
    ensures
        outcomes_agree(
            collecting(a, config, environment, dependencies, found_paths(a))->Done_0,
            collecting(b, config, environment, dependencies, found_paths(b))->Done_0,
        ),
{
    let found = found_paths(a);
    let others = found_paths(b);
    let x = distinct_paths(found);
    let y = distinct_paths(others);
    lemma_reading_done(x, a.files, 0);
    lemma_reading_done(y, b.files, 0);
    if all_below(found, first, others, second) {
        sorting_ignores_the_root(found, first, others, second);
        assert forall|i: int|
            0 <= i < x.len() && i < a.files.len() && i < b.files.len() implies outcomes_agree(
            #[trigger] a.files[i],
            b.files[i],
        ) by {
            assert(same_below(x[i], first, y[i], second));
            let held = contents(x[i].parts.skip(first.len() as int));
            assert(held == contents(y[i].parts.skip(second.len() as int)));
            assert(held is Some <==> a.files[i] is Ok);
            assert(held is Some <==> b.files[i] is Ok);
        }
        lemma_same_reading(x, first, a.files, y, second, b.files, 0);
        if reading(x, a.files, 0) is None {
            assert forall|i: int| 0 <= i < x.len() implies project_files(x, a.files)[i]
                == project_files(y, b.files)[i] by {
                assert(same_below(x[i], first, y[i], second));
                assert(a.files[i]->Ok_0 == b.files[i]->Ok_0);
            }
            assert(project_files(x, a.files) =~= project_files(y, b.files));
        }
    } else {
        let at = choose|at: int|
            0 <= at < found.len() && !same_below(#[trigger] found[at], first, others[at], second);
        assert(same_place(found[at], first, others[at], second));
        assert forall|i: int| 0 <= i < found.len() implies first.is_prefix_of(
            (#[trigger] found[i]).parts,
        ) || is_outside(found[i], first) by {
            assert(same_place(found[i], first, others[i], second));
        }
        assert forall|i: int| 0 <= i < others.len() implies second.is_prefix_of(
            (#[trigger] others[i]).parts,
        ) || is_outside(others[i], second) by {
            assert(same_place(found[i], first, others[i], second));
        }
        lemma_outside_is_not_read(found, first, a.files, at);
        lemma_outside_is_not_read(others, second, b.files, at);
    }
}

/// A component is derived from `wrangler.toml`, the entry module and the assets alone: two projects
/// in which these are the same, whatever else stands at their roots and wherever the roots are,
/// give the same component or both none. Where the configuration names a place by its absolute
/// path, that place has to stand outside of both roots or at the same place below each.
pub proof fn components_depend_on_native_files_only(
    a: SurveyView,
    first: Seq<Seq<u8>>,
    b: SurveyView,
    second: Seq<Seq<u8>>,
    contents: spec_fn(Seq<Seq<u8>>) -> Option<Seq<u8>>,
    environment: Seq<char>,
    dependencies: Seq<(Seq<char>, Seq<u8>)>,
)
    requires
        same_project(a, first, b, second),
        read_from(a, first, contents),
        read_from(b, second, contents),
        derive_step(a, environment, dependencies) is Done,
        derive_step(b, environment, dependencies) is Done,
    ensures
        outcomes_agree(
            derive_step(a, environment, dependencies)->Done_0,
            derive_step(b, environment, dependencies)->Done_0,
        ),
{
    if let (Some(ConfigOutcomeView::Parsed(config)), Some(entry), Some(other)) = (
        a.config,
        a.entry,
        b.entry,
    ) {
        let found = found_paths(a);
        let others = found_paths(b);
        if let (
            Some(AssetsOutcomeView::Listed(x)),
            Some(AssetsOutcomeView::Listed(y)),
        ) = (a.assets, b.assets) {
            lemma_same_assets(x, first, y, second);
        }
        assert forall|i: int| 0 <= i < found.len() implies same_place(
            #[trigger] found[i],
            first,
            others[i],
            second,
        ) by {
            if i >= 2 {
                assert(same_place(
                    asset_paths(a.assets->Some_0->Listed_0)[i - 2],
                    first,
                    asset_paths(b.assets->Some_0->Listed_0)[i - 2],
                    second,
                ));
            }
        }
        if collecting(a, config, environment, dependencies, found) is Done && collecting(
            b,
            config,
            environment,
            dependencies,
            others,
        ) is Done {
            lemma_same_collecting(
                a,
                first,
                b,
                second,
                contents,
                config,
                environment,
                dependencies,
            );
        }
    }
}

/// The value is `${henosis:<producer>.<output>}`, with a producer and an output that are not empty
/// and no period in the output.
pub open spec fn interpolates(value: Seq<char>, producer: Seq<char>, output: Seq<char>) -> bool {
    &&& producer.len() > 0
    &&& output.len() > 0
    &&& !output.contains('.')
    &&& value =~= seq!['$', '{', 'h', 'e', 'n', 'o', 's', 'i', 's', ':'] + producer + seq!['.']
        + output + seq!['}']
}

/// The variable is a string that interpolates some output of some producer.
pub open spec fn is_interpolated(var: (Seq<char>, Option<Seq<char>>)) -> bool {
    var.1 matches Some(value) && exists|producer: Seq<char>, output: Seq<char>|
        interpolates(value, producer, output)
}

/// A value names the producer and the output that it interpolates, and no others.
pub proof fn interpolations_name_their_source(
    value: Seq<char>,
    producer: Seq<char>,
    output: Seq<char>,
)
    ensures
        slot_source(value) == Some((producer, output)) <==> interpolates(value, producer, output),
{
    reveal_strlit("${henosis:");
    let prefix = "${henosis:"@;
    assert(prefix =~= seq!['$', '{', 'h', 'e', 'n', 'o', 's', 'i', 's', ':']);
    if interpolates(value, producer, output) {
        slots_name_their_source(producer, output);
        assert(value =~= prefix + producer + seq!['.'] + output + seq!['}']);
    }
    if slot_source(value) == Some((producer, output)) {
        let inner = value.subrange(prefix.len() as int, value.len() - 1);
        lemma_last_of(inner, '.');
        let at = last_of(inner, '.')->Some_0;
        assert(value.subrange(0, prefix.len() as int) =~= prefix);
        assert(inner =~= producer + seq!['.'] + output) by {
            assert(inner.take(at) == producer);
            assert(inner.skip(at + 1) == output);
            assert forall|i: int| 0 <= i < inner.len() implies inner[i] == (producer + seq!['.']
                + output)[i] by {
                if i < at {
                    assert(inner.take(at)[i] == producer[i]);
                } else if i > at {
                    assert(inner.skip(at + 1)[i - at - 1] == output[i - at - 1]);
                }
            }
        }
        assert(value =~= prefix + inner + seq!['}']);
        assert(!output.contains('.')) by {
            if output.contains('.') {
                let k = choose|k: int| 0 <= k < output.len() && output[k] == '.';
                assert(inner.skip(at + 1)[k] == '.');
                assert(inner[at + 1 + k] == '.');
            }
        }
    }
}

/// A variable is taken for a slot exactly when it is interpolated.
proof fn lemma_is_interpolated(var: (Seq<char>, Option<Seq<char>>))
    ensures
        var_source(var) is Some <==> is_interpolated(var),
        var_source(var) matches Some(source) ==> var.1 is Some && interpolates(
            var.1->Some_0,
            source.0,
            source.1,
        ),
{
    if let Some(value) = var.1 {
        if let Some((producer, output)) = slot_source(value) {
            interpolations_name_their_source(value, producer, output);
        }
        if is_interpolated(var) {
            let (producer, output) = choose|producer: Seq<char>, output: Seq<char>|
                interpolates(value, producer, output);
            interpolations_name_their_source(value, producer, output);
        }
    }
}

/// The slot that the variable at `at` becomes stands behind those before it.
proof fn lemma_declared_position(
    vars: Seq<(Seq<char>, Option<Seq<char>>)>,
    dependencies: Seq<(Seq<char>, Seq<u8>)>,
    n: int,
    at: int,
)
    requires
        0 <= at < n <= vars.len(),
    ensures
        ({
            let picks = |var: (Seq<char>, Option<Seq<char>>)| is_interpolated(var);
            let declared = declared_slots(vars.take(n), dependencies);
            let position = count_of(vars.take(at), picks) as int;
            &&& declared.len() == count_of(vars.take(n), picks)
            &&& var_source(vars[at]) matches Some(source) ==> {
                &&& position < declared.len()
                &&& declared[position] == (SlotView {
                    key: vars[at].0,
                    producer: source.0,
                    output: source.1,
                    producer_spec_hash: entry_value(dependencies, source.0)->Some_0,
                })
            }
        }),
    decreases n,
{
    let picks = |var: (Seq<char>, Option<Seq<char>>)| is_interpolated(var);
    let last = n - 1;
    assert(vars.take(n).drop_last() =~= vars.take(last));
    lemma_is_interpolated(vars[last]);
    lemma_count_next(vars, picks, last);
    if last == 0 {
        assert(vars.take(0).len() == 0);
        assert(declared_slots(vars.take(0), dependencies).len() == 0);
        assert(count_of(vars.take(0), picks) == 0);
    } else if at < last {
        lemma_declared_position(vars, dependencies, last, at);
    } else {
        lemma_declared_position(vars, dependencies, last, 0);
    }
}

/// Each slot comes from a variable.
proof fn lemma_declared_source(
    vars: Seq<(Seq<char>, Option<Seq<char>>)>,
    dependencies: Seq<(Seq<char>, Seq<u8>)>,
    n: int,
    k: int,
) -> (at: int)
    requires
        0 <= n <= vars.len(),
        0 <= k < declared_slots(vars.take(n), dependencies).len(),
    ensures
        0 <= at < n,
        var_source(vars[at]) is Some,
        k == count_of(
            vars.take(at),
            |var: (Seq<char>, Option<Seq<char>>)| is_interpolated(var),
        ),
        declared_slots(vars.take(n), dependencies)[k] == (SlotView {
            key: vars[at].0,
            producer: var_source(vars[at])->Some_0.0,
            output: var_source(vars[at])->Some_0.1,
            producer_spec_hash: entry_value(
                dependencies,
                var_source(vars[at])->Some_0.0,
            )->Some_0,
        }),
    decreases n,
{
    if n == 0 {
        assert(declared_slots(vars.take(0), dependencies).len() == 0);
        0
    } else {
        let last = n - 1;
        let earlier = declared_slots(vars.take(last), dependencies);
        assert(vars.take(n).drop_last() =~= vars.take(last));
        if k < earlier.len() {
            lemma_declared_source(vars, dependencies, last, k)
        } else {
            lemma_declared_position(vars, dependencies, n, last);
            if last > 0 {
                lemma_declared_position(vars, dependencies, last, 0);
            } else {
                assert(vars.take(0).len() == 0);
                assert(count_of(
                    vars.take(0),
                    |var: (Seq<char>, Option<Seq<char>>)| is_interpolated(var),
                ) == 0);
            }
            last
        }
    }
}

/// Every variable that interpolates an output becomes a slot with its key, that producer, that
/// output and the hash that is given for the producer, whatever the output is called; there are as
/// many slots as such variables, each from one of them, and where no two variables have the same
/// key no two slots have.
pub proof fn each_interpolated_variable_becomes_a_slot(
    vars: Seq<(Seq<char>, Option<Seq<char>>)>,
    dependencies: Seq<(Seq<char>, Seq<u8>)>,
    at: int,
    producer: Seq<char>,
    output: Seq<char>,
)
    requires
        vars_problem(vars, dependencies, 0) is None,
        entries_sorted(dependencies),
        0 <= at < vars.len(),
    ensures
        ({
            let slots = slots_by_key(declared_slots(vars, dependencies));
            &&& slots.len() == count_of(
                vars,
                |var: (Seq<char>, Option<Seq<char>>)| is_interpolated(var),
            )
            &&& (vars[at].1 matches Some(value) && interpolates(value, producer, output))
                ==> exists|k: int|
                {
                    &&& 0 <= k < slots.len()
                    &&& (#[trigger] slots[k]).key == vars[at].0
                    &&& slots[k].producer == producer
                    &&& slots[k].output == output
                    &&& dependencies.contains((producer, slots[k].producer_spec_hash))
                }
            &&& forall|k: int|
                0 <= k < slots.len() ==> exists|i: int|
                    {
                        &&& 0 <= i < vars.len()
                        &&& (#[trigger] vars[i]).0 == (#[trigger] slots[k]).key
                        &&& vars[i].1 is Some
                        &&& interpolates(vars[i].1->Some_0, slots[k].producer, slots[k].output)
                    }
            &&& (forall|i: int, j: int|
                0 <= i < j < vars.len() ==> (#[trigger] vars[i]).0 != (#[trigger] vars[j]).0)
                ==> forall|k: int, m: int|
                0 <= k < m < slots.len() ==> (#[trigger] slots[k]).key != (
                #[trigger] slots[m]).key
        }),
{
    let n = vars.len() as int;
    let declared = declared_slots(vars, dependencies);
    let slots = slots_by_key(declared);
    assert(vars.take(n) =~= vars);
    slots_are_ordered_by_key(declared);
    vstd::seq_lib::to_multiset_len(declared);
    vstd::seq_lib::to_multiset_len(slots);
    lemma_declared_position(vars, dependencies, n, at);
    lemma_vars_are_known(vars, dependencies, 0);
    if vars[at].1 matches Some(value) && interpolates(value, producer, output) {
        interpolations_name_their_source(vars[at].1->Some_0, producer, output);
        let position = count_of(
            vars.take(at),
            |var: (Seq<char>, Option<Seq<char>>)| is_interpolated(var),
        ) as int;
        let slot = declared[position];
        assert(declared.contains(slot));
        vstd::seq_lib::to_multiset_contains(declared, slot);
        vstd::seq_lib::to_multiset_contains(slots, slot);
        let k = choose|k: int| 0 <= k < slots.len() && slots[k] == slot;
        assert(entry_value(dependencies, producer) is Some);
        entries_are_found_by_name(dependencies, producer, slot.producer_spec_hash);
        assert(slots[k].key == vars[at].0);
    }
    assert forall|k: int| 0 <= k < slots.len() implies exists|i: int|
        {
            &&& 0 <= i < vars.len()
            &&& (#[trigger] vars[i]).0 == (#[trigger] slots[k]).key
            &&& vars[i].1 is Some
            &&& interpolates(vars[i].1->Some_0, slots[k].producer, slots[k].output)
        } by {
        assert(slots.contains(slots[k]));
        vstd::seq_lib::to_multiset_contains(slots, slots[k]);
        vstd::seq_lib::to_multiset_contains(declared, slots[k]);
        let j = choose|j: int| 0 <= j < declared.len() && declared[j] == slots[k];
        let i = lemma_declared_source(vars, dependencies, n, j);
        lemma_is_interpolated(vars[i]);
        assert(vars[i].0 == slots[k].key);
    }
    if forall|i: int, j: int|
        0 <= i < j < vars.len() ==> (#[trigger] vars[i]).0 != (#[trigger] vars[j]).0 {
        lemma_distinct_slots(vars, dependencies);
    }
}

/// Slots of variables with different keys have different keys.
proof fn lemma_distinct_slots(
    vars: Seq<(Seq<char>, Option<Seq<char>>)>,
    dependencies: Seq<(Seq<char>, Seq<u8>)>,
)
    requires
        forall|i: int, j: int|
            0 <= i < j < vars.len() ==> (#[trigger] vars[i]).0 != (#[trigger] vars[j]).0,
    ensures
        ({
            let slots = slots_by_key(declared_slots(vars, dependencies));
            forall|k: int, m: int|
                0 <= k < m < slots.len() ==> (#[trigger] slots[k]).key != (
                #[trigger] slots[m]).key
        }),
{
    let n = vars.len() as int;
    let declared = declared_slots(vars, dependencies);
    let slots = slots_by_key(declared);
    assert(vars.take(n) =~= vars);
    slots_are_ordered_by_key(declared);
    assert forall|x: int, y: int| 0 <= x < y < declared.len() implies (
    #[trigger] declared[x]).key != (#[trigger] declared[y]).key by {
        let i = lemma_declared_source(vars, dependencies, n, x);
        let j = lemma_declared_source(vars, dependencies, n, y);
        assert(i != j);
        assert(vars[i].0 != vars[j].0);
    }
    assert(declared.no_duplicates());
    declared.lemma_multiset_has_no_duplicates();
    assert forall|x: SlotView| slots.to_multiset().contains(x) implies slots.to_multiset().count(
        x,
    ) == 1 by {
        assert(declared.to_multiset().contains(x));
    }
    slots.lemma_multiset_has_no_duplicates_conv();
    assert forall|k: int, m: int| 0 <= k < m < slots.len() implies (#[trigger] slots[k]).key != (
    #[trigger] slots[m]).key by {
        assert(slots.contains(slots[k]) && slots.contains(slots[m]));
        vstd::seq_lib::to_multiset_contains(slots, slots[k]);
        vstd::seq_lib::to_multiset_contains(slots, slots[m]);
        vstd::seq_lib::to_multiset_contains(declared, slots[k]);
        vstd::seq_lib::to_multiset_contains(declared, slots[m]);
        let x = choose|x: int| 0 <= x < declared.len() && declared[x] == slots[k];
        let y = choose|y: int| 0 <= y < declared.len() && declared[y] == slots[m];
        assert(slots[k] != slots[m]);
        if x < y {
            assert(declared[x].key != declared[y].key);
        } else {
            assert(declared[y].key != declared[x].key);
        }
    }
}

/// The first interpolated variable whose producer's hash is not given decides.
pub proof fn the_first_unknown_producer_is_told(
    vars: Seq<(Seq<char>, Option<Seq<char>>)>,
    dependencies: Seq<(Seq<char>, Seq<u8>)>,
    from: int,
    at: int,
    producer: Seq<char>,
    output: Seq<char>,
)
    requires
        0 <= from <= at < vars.len(),
        forall|i: int|
            from <= i < at ==> (var_source(#[trigger] vars[i]) matches Some(source)
                ==> entry_value(dependencies, source.0) is Some),
        vars[at].1 matches Some(value) && interpolates(value, producer, output),
        entry_value(dependencies, producer) is None,
    ensures
        vars_problem(vars, dependencies, from) == Some(
            "[vars]."@ + vars[at].0 + " names producer "@ + debug_quoted(producer)
                + ", but authoring did not receive its immutable spec hash"@,
        ),
    decreases at - from,
{
    interpolations_name_their_source(vars[at].1->Some_0, producer, output);
    if from < at {
        assert(var_source(vars[from]) matches Some(source) ==> entry_value(
            dependencies,
            source.0,
        ) is Some);
        the_first_unknown_producer_is_told(vars, dependencies, from + 1, at, producer, output);
    }
}

/// Where the producer of each interpolated variable is known, nothing is said of the variables.
pub proof fn known_producers_are_accepted(
    vars: Seq<(Seq<char>, Option<Seq<char>>)>,
    dependencies: Seq<(Seq<char>, Seq<u8>)>,
    from: int,
)
    requires
        0 <= from <= vars.len(),
        forall|i: int, producer: Seq<char>, output: Seq<char>|
            0 <= i < vars.len() && (#[trigger] vars[i]).1 is Some && #[trigger] interpolates(
                vars[i].1->Some_0,
                producer,
                output,
            ) ==> entry_value(dependencies, producer) is Some,
    ensures
        vars_problem(vars, dependencies, from) is None,
    decreases vars.len() - from,
{
    if from < vars.len() {
        lemma_is_interpolated(vars[from]);
        if let Some(source) = var_source(vars[from]) {
            assert(interpolates(vars[from].1->Some_0, source.0, source.1));
        }
        known_producers_are_accepted(vars, dependencies, from + 1);
    }
}

/// A derived component's slots are those of the variables in its `wrangler.toml`: one for each
/// that interpolates an output, with its key, its producer, its output and the producer's hash.
pub proof fn derived_slots_are_the_interpolated_variables(
    survey: SurveyView,
    environment: Seq<char>,
    dependencies: Seq<(Seq<char>, Seq<u8>)>,
    at: int,
    producer: Seq<char>,
    output: Seq<char>,
)
    requires
        derive_step(survey, environment, dependencies) matches DeriveStepView::Done(Ok(_)),
        entries_sorted(dependencies),
        0 <= at < survey.config->Some_0->Parsed_0.vars.len(),
    ensures
        ({
            let vars = survey.config->Some_0->Parsed_0.vars;
            let slots = derive_step(
                survey,
                environment,
                dependencies,
            )->Done_0->Ok_0.connector_context.slots;
            &&& slots.len() == count_of(
                vars,
                |var: (Seq<char>, Option<Seq<char>>)| is_interpolated(var),
            )
            &&& (vars[at].1 matches Some(value) && interpolates(value, producer, output))
                ==> exists|k: int|
                {
                    &&& 0 <= k < slots.len()
                    &&& (#[trigger] slots[k]).key == vars[at].0
                    &&& slots[k].producer == producer
                    &&& slots[k].output == output
                    &&& dependencies.contains((producer, slots[k].producer_spec_hash))
                }
            &&& (forall|i: int, j: int|
                0 <= i < j < vars.len() ==> (#[trigger] vars[i]).0 != (#[trigger] vars[j]).0)
                ==> forall|k: int, m: int|
                0 <= k < m < slots.len() ==> (#[trigger] slots[k]).key != (
                #[trigger] slots[m]).key
        }),
{
    let config = survey.config->Some_0->Parsed_0;
    derived_components_are_valid(survey, environment, dependencies);
    lemma_reading_done(distinct_paths(found_paths(survey)), survey.files, 0);
    each_interpolated_variable_becomes_a_slot(
        config.vars,
        dependencies,
        at,
        producer,
        output,
    );
}

/// A `wrangler.toml` without variables gives a component without slots.
pub proof fn projects_without_variables_have_no_slots(
    survey: SurveyView,
    environment: Seq<char>,
    dependencies: Seq<(Seq<char>, Seq<u8>)>,
)
    requires
        derive_step(survey, environment, dependencies) matches DeriveStepView::Done(Ok(_)),
        survey.config->Some_0->Parsed_0.vars.len() == 0,
    ensures
        derive_step(
            survey,
            environment,
            dependencies,
        )->Done_0->Ok_0.connector_context.slots.len() == 0,
{
    lemma_reading_done(distinct_paths(found_paths(survey)), survey.files, 0);
}

/// The regular files among what was found are taken in order, and nothing else is.
pub proof fn each_regular_file_is_an_asset(assets: Seq<AssetView>, at: int)
    requires
        0 <= at < assets.len(),
    ensures
        ({
            let picks = |asset: AssetView| asset.is_file;
            let position = count_of(assets.take(at), picks) as int;
            &&& asset_paths(assets).len() == count_of(assets, picks)
            &&& assets[at].is_file ==> position < asset_paths(assets).len() && asset_paths(
                assets,
            )[position] == assets[at].path
        }),
    decreases assets.len(),
{
    let picks = |asset: AssetView| asset.is_file;
    let n = assets.len() - 1;
    let front = assets.drop_last();
    if n == 0 {
        assert(front.len() == 0);
        assert(assets.take(0) =~= front);
        assert(asset_paths(front).len() == 0);
        assert(count_of(front, picks) == 0);
    } else if at < n {
        each_regular_file_is_an_asset(front, at);
        assert(front.take(at) =~= assets.take(at));
    } else {
        each_regular_file_is_an_asset(front, 0);
        assert(assets.take(n) =~= front);
    }
}

/// A derived component holds the project's own files, each once and in the order of their paths:
/// `wrangler.toml`, the entry module and, where an assets directory is named, every regular file in
/// it. Each has the path below the root, with slashes for backslashes, and the bytes that were
/// read.
pub proof fn derived_files_are_the_projects_own(
    survey: SurveyView,
    environment: Seq<char>,
    dependencies: Seq<(Seq<char>, Seq<u8>)>,
    at: int,
)
    requires
        derive_step(survey, environment, dependencies) matches DeriveStepView::Done(Ok(_)),
    ensures
        ({
            let config = survey.config->Some_0->Parsed_0;
            let found = found_paths(survey);
            let paths = distinct_paths(found);
            let files = derive_step(
                survey,
                environment,
                dependencies,
            )->Done_0->Ok_0.connector_context.files;
            &&& survey.entry is Some && survey.entry->Some_0.is_file
            &&& found[0] == survey.config_path
            &&& found[1] == survey.entry->Some_0.path
            &&& config.assets_directory is None ==> found.len() == 2
            &&& config.assets_directory is Some ==> {
                &&& survey.assets matches Some(AssetsOutcomeView::Listed(assets))
                &&& found =~= found.take(2) + asset_paths(assets)
            }
            &&& paths_ascending(paths)
            &&& files.len() == paths.len()
            &&& 0 <= at < files.len() ==> {
                &&& survey.files[at] == Ok::<Seq<u8>, Seq<char>>(files[at].bytes)
                &&& paths[at].relative matches Some(relative)
                &&& files[at].path.len() == relative.len()
                &&& forall|i: int|
                    0 <= i < relative.len() ==> (#[trigger] files[at].path[i]) == if relative[i]
                        == '\\' {
                        '/'
                    } else {
                        relative[i]
                    }
            }
        }),
{
    let paths = distinct_paths(found_paths(survey));
    derived_components_are_valid(survey, environment, dependencies);
    lemma_reading_done(paths, survey.files, 0);
    sorted_paths_are_the_same_paths(found_paths(survey));
    lemma_read_files_have_places(paths, survey.files, 0);
    lemma_all_read(paths, survey.files, 0);
    if 0 <= at < paths.len() {
        assert(paths[at].relative is Some);
        assert(survey.files[at] is Ok);
    }
}

/// Once all files are read, each was read well.
proof fn lemma_all_read(
    paths: Seq<PathView>,
    reads: Seq<Result<Seq<u8>, Seq<char>>>,
    at: int,
)
    requires
        0 <= at <= paths.len(),
        reading(paths, reads, at) is None,
    ensures
        forall|i: int| at <= i < paths.len() ==> i < reads.len() && #[trigger] reads[i] is Ok,
    decreases paths.len() - at,
{
    if at < paths.len() {
        lemma_all_read(paths, reads, at + 1);
    }
}

/// Reading from `from` on stands at the first file that was not read well.
proof fn lemma_reading_stands(
    paths: Seq<PathView>,
    reads: Seq<Result<Seq<u8>, Seq<char>>>,
    from: int,
    at: int,
)
    requires
        0 <= from <= at <= paths.len(),
        forall|i: int|
            from <= i < at ==> (#[trigger] paths[i]).relative is Some && i < reads.len()
                && reads[i] is Ok,
    ensures
        reading(paths, reads, from) == reading(paths, reads, at),
    decreases at - from,
{
    if from < at {
        assert(paths[from].relative is Some);
        lemma_reading_stands(paths, reads, from + 1, at);
    }
}

/// Deriving asks for the configuration, the entry and the assets in this order, then for each file
/// in the order of the paths; the first thing that is missing or amiss is told, of the path where
/// it stands. The entry is `main`, or `src/index.js` where none is named.
pub proof fn derivations_ask_in_order(
    survey: SurveyView,
    environment: Seq<char>,
    dependencies: Seq<(Seq<char>, Seq<u8>)>,
    at: int,
)
    ensures
        ({
            let step = derive_step(survey, environment, dependencies);
            let shown = survey.config_path.shown;
            &&& survey.config is None ==> step is ReadConfig
            &&& survey.config matches Some(ConfigOutcomeView::Unreadable(source)) ==> step
                == DeriveStepView::Done(
                Err::<DerivedView, DeriveErrorView>(
                    (DeriveErrorView::Read { path: shown, source }),
                ),
            )
            &&& survey.config matches Some(ConfigOutcomeView::Malformed(source)) ==> step
                == DeriveStepView::Done(
                Err::<DerivedView, DeriveErrorView>(
                    (DeriveErrorView::Toml { path: shown, source }),
                ),
            )
            &&& survey.config matches Some(ConfigOutcomeView::Parsed(config)) ==> {
                let entry = match config.main {
                    Some(main) => main,
                    None => "src/index.js"@,
                };
                let problem = vars_problem(config.vars, dependencies, 0);
                let ready = config.name.len() > 0 && survey.entry is Some
                    && survey.entry->Some_0.is_file && problem is None && (
                config.assets_directory is None || (survey.assets matches Some(
                    AssetsOutcomeView::Listed(_),
                )));
                let paths = distinct_paths(found_paths(survey));
                &&& config.name.len() == 0 ==> is_told(step, shown, "name must not be empty"@)
                &&& config.name.len() > 0 && survey.entry is None ==> step
                    == DeriveStepView::FindEntry(entry)
                &&& config.name.len() > 0 && survey.entry is Some && !survey.entry->Some_0.is_file
                    ==> is_told(
                    step,
                    shown,
                    "main entry "@ + debug_quoted(entry) + " does not exist"@,
                )
                &&& config.name.len() > 0 && survey.entry is Some && survey.entry->Some_0.is_file
                    ==> {
                    &&& problem matches Some(message) ==> is_told(step, shown, message)
                    &&& problem is None ==> (config.assets_directory matches Some(directory) ==> {
                        &&& survey.assets is None ==> step == DeriveStepView::ListAssets(directory)
                        &&& survey.assets matches Some(AssetsOutcomeView::Missing) ==> is_told(
                            step,
                            shown,
                            "assets directory "@ + debug_quoted(directory) + " does not exist"@,
                        )
                        &&& survey.assets matches Some(AssetsOutcomeView::Failed(message))
                            ==> is_told(step, shown, message)
                    })
                }
                &&& ready && 0 <= at < paths.len() && (forall|i: int|
                    0 <= i < at ==> (#[trigger] paths[i]).relative is Some && i
                        < survey.files.len() && survey.files[i] is Ok) ==> {
                    &&& paths[at].relative is None ==> is_told(
                        step,
                        paths[at].shown,
                        "file escapes project root"@,
                    )
                    &&& paths[at].relative is Some && at >= survey.files.len() ==> step
                        == DeriveStepView::ReadFile(paths[at])
                    &&& paths[at].relative is Some && at < survey.files.len() ==> (
                    survey.files[at] matches Err(source) ==> step == DeriveStepView::Done(
                        Err::<DerivedView, DeriveErrorView>(
                            (DeriveErrorView::Read { path: paths[at].shown, source }),
                        ),
                    ))
                }
            }
        }),
{
    let paths = distinct_paths(found_paths(survey));
    if 0 <= at < paths.len() && (forall|i: int|
        0 <= i < at ==> (#[trigger] paths[i]).relative is Some && i < survey.files.len()
            && survey.files[i] is Ok) {
        lemma_reading_stands(paths, survey.files, 0, at);
    }
}

/// The step ends in a failure that is told of this path.
pub open spec fn is_told(step: DeriveStepView, path: Seq<char>, message: Seq<char>) -> bool {
    step == DeriveStepView::Done(
        Err::<DerivedView, DeriveErrorView>((DeriveErrorView::Invalid { path, message })),
    )
}

/// Once every file was read, the component is derived exactly when its context keeps the rules; the
/// rule that it breaks is told otherwise.
pub proof fn read_projects_are_derived(
    survey: SurveyView,
    environment: Seq<char>,
    dependencies: Seq<(Seq<char>, Seq<u8>)>,
    config: WranglerConfigView,
)
    requires
        survey.config == Some(ConfigOutcomeView::Parsed(config)),
        config.name.len() > 0,
        survey.entry matches Some(entry) && entry.is_file,
        vars_problem(config.vars, dependencies, 0) is None,
        config.assets_directory is None || (survey.assets matches Some(
            AssetsOutcomeView::Listed(_),
        )),
        forall|i: int|
            0 <= i < distinct_paths(found_paths(survey)).len() ==> (
            #[trigger] distinct_paths(found_paths(survey))[i]).relative is Some && i
                < survey.files.len() && survey.files[i] is Ok,
    ensures
        ({
            let context = ContextView {
                api_version: "henosis.dev/cloudflare-worker/v1"@,
                worker_name: config.name,
                entry: match config.main {
                    Some(main) => main,
                    None => "src/index.js"@,
                },
                assets_directory: config.assets_directory,
                environment,
                files: project_files(distinct_paths(found_paths(survey)), survey.files),
                slots: slots_by_key(declared_slots(config.vars, dependencies)),
                tunnel: None,
            };
            let step = derive_step(survey, environment, dependencies);
            &&& context_problem(context) matches Some(problem) ==> is_told(
                step,
                survey.config_path.shown,
                problem,
            )
            &&& context_problem(context) is None ==> (step matches DeriveStepView::Done(
                Ok(component),
            ) && component.connector_context == context && component.name == config.name
                && component.connector == "cloudflare"@ && component.depends_on.len()
                == dependencies.len() && forall|i: int|
                0 <= i < dependencies.len() ==> #[trigger] component.depends_on[i]
                    == dependencies[i].1)
        }),
{
    let paths = distinct_paths(found_paths(survey));
    lemma_reading_stands(paths, survey.files, 0, paths.len() as int);
}

/// Each failure reads as what went wrong, with the path where it did and the reason.
pub proof fn derivation_failures_tell_path_and_reason(path: Seq<char>, reason: Seq<char>)
    ensures
        ({
            let read = DeriveErrorView::Read { path, source: reason };
            let toml = DeriveErrorView::Toml { path, source: reason };
            let invalid = DeriveErrorView::Invalid { path, message: reason };
            let written = DeriveErrorView::Serialize(reason);
            &&& read.message() =~= "cannot read "@ + (path + ": "@ + reason)
            &&& toml.message() =~= "invalid TOML in "@ + (path + ": "@ + reason)
            &&& invalid.message() =~= "invalid Wrangler project at "@ + (path + ": "@ + reason)
            &&& written.message() =~= "cannot serialize connector context: "@ + reason
        }),
{
}

/// The schema declares an object of five outputs: two URLs, of which `url` is what a user sees, and
/// three strings.
pub proof fn schemas_declare_five_outputs(at: int)
    requires
        0 <= at < 5,
    ensures
        ({
            let schema = outputs_schema()->Object_0;
            let shape = schema[1].1->Object_0;
            let (name, declared) = shape[at];
            let names = seq!["claimUrl"@, "deploymentId"@, "url"@, "versionId"@, "workerName"@];
            let kind = if at == 0 || at == 2 {
                "url"@
            } else {
                "string"@
            };
            &&& outputs_schema() is Object
            &&& schema.len() == 2
            &&& schema[0] == ("kind"@, JsonView::Text("object"@))
            &&& schema[1].0 == "shape"@
            &&& schema[1].1 is Object
            &&& shape.len() == 5
            &&& name == names[at]
            &&& declared is Object
            &&& declared->Object_0[0] == ("kind"@, JsonView::Text(kind))
            &&& at == 2 ==> declared->Object_0.len() == 2 && declared->Object_0[1] == (
                "role"@,
                JsonView::Text("ui"@),
            )
            &&& at != 2 ==> declared->Object_0.len() == 1
        }),
{
}

} // verus!
