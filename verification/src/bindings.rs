//! Runtime values that upstream outputs supply to a component's slots.

use vstd::prelude::*;
use vstd::string::*;

use crate::context::{InputSlot, SlotView};
use crate::entries::{
    added_entry_is_found, entries_are_found_by_name, entries_sorted, entries_stay_sorted,
    entry_value, put_entry, with_entry,
};
use crate::model::{
    count_of, lemma_count_next, outcome_views, pair_views, result_view, views,
};
use crate::outside::{
    debug_quoted, debug_text, json_as_str, json_compact, json_error_message, json_error_text,
    json_get, json_members, json_parse, json_parsed, json_string, json_to_text, outputs,
    outputs_get,
};
use crate::slice::{
    output_from, ComponentPin, DesiredSlice, DesiredView, PinView, UpstreamOutput, UpstreamView,
};
use crate::target::{TargetError, TargetErrorView};
use crate::text::{
    ends_with, path_parts, same_text, slice_text, split_path, starts_with, trim_back, trim_end,
};

verus! {

/// What the current level says about a slot.
#[derive(Debug, PartialEq, Eq)]
pub enum SlotValue {
    /// The producer has published nothing.
    Unpublished,
    /// What the producer has published is no JSON, for this reason.
    Unreadable(String),
    /// The producer has published, but not this output.
    Missing,
    /// The output: the text of a JSON string, or any other JSON value written down.
    Found(String),
}

/// The values for a Worker, by variable name.
#[derive(Debug, PartialEq, Eq)]
pub struct Bindings {
    /// Handed to Wrangler on its command line.
    pub plain: Vec<(String, String)>,
    /// Handed to Wrangler as secrets.
    pub secrets: Vec<(String, String)>,
}

/// Where binding a component's slots stands.
#[derive(Debug, PartialEq, Eq)]
pub enum BindStep {
    /// A secret of this name has to be read.
    ReadSecret(String),
    /// Every slot has its value.
    Bound(Bindings),
    /// A slot cannot have a value.
    Failed(TargetError),
}

// ---------------------------------------------------------------------------
// Views
// ---------------------------------------------------------------------------
/// What a `SlotValue` says.
pub enum SlotValueView {
    Unpublished,
    Unreadable(Seq<char>),
    Missing,
    Found(Seq<char>),
}

/// What a `Bindings` says.
pub struct BindingsView {
    pub plain: Seq<(Seq<char>, Seq<char>)>,
    pub secrets: Seq<(Seq<char>, Seq<char>)>,
}

/// What a `BindStep` says.
pub enum BindStepView {
    ReadSecret(Seq<char>),
    Bound(BindingsView),
    Failed(TargetErrorView),
}

impl View for SlotValue {
    type V = SlotValueView;

    open spec fn view(&self) -> SlotValueView {
        match self {
            SlotValue::Unpublished => SlotValueView::Unpublished,
            SlotValue::Unreadable(message) => SlotValueView::Unreadable(message@),
            SlotValue::Missing => SlotValueView::Missing,
            SlotValue::Found(text) => SlotValueView::Found(text@),
        }
    }
}

impl View for Bindings {
    type V = BindingsView;

    open spec fn view(&self) -> BindingsView {
        BindingsView { plain: pair_views(self.plain@), secrets: pair_views(self.secrets@) }
    }
}

impl View for BindStep {
    type V = BindStepView;

    open spec fn view(&self) -> BindStepView {
        match self {
            BindStep::ReadSecret(name) => BindStepView::ReadSecret(name@),
            BindStep::Bound(bindings) => BindStepView::Bound(bindings@),
            BindStep::Failed(error) => BindStepView::Failed(error@),
        }
    }
}

impl BindingsView {
    /// No bindings.
    pub open spec fn none() -> BindingsView {
        BindingsView { plain: Seq::empty(), secrets: Seq::empty() }
    }

    /// With one more value on the command line.
    pub open spec fn with_plain(self, key: Seq<char>, value: Seq<char>) -> BindingsView {
        BindingsView { plain: with_entry(self.plain, key, value), ..self }
    }

    /// With one more secret.
    pub open spec fn with_secret(self, key: Seq<char>, value: Seq<char>) -> BindingsView {
        BindingsView { secrets: with_entry(self.secrets, key, value), ..self }
    }
}

// ---------------------------------------------------------------------------
// What the level says about a slot
// ---------------------------------------------------------------------------
/// A JSON value as a variable's text.
pub open spec fn variable_text(value: serde_json::Value) -> Seq<char> {
    match json_string(value) {
        Some(text) => text,
        None => json_compact(value),
    }
}

/// What published values, where there are any, say about an output.
pub open spec fn value_in(published: Option<Seq<u8>>, output: Seq<char>) -> SlotValueView {
    match published {
        None => SlotValueView::Unpublished,
        Some(bytes) => match json_parsed(bytes) {
            Err(error) => SlotValueView::Unreadable(json_error_message(error)),
            Ok(value) => if json_members(value).contains_key(output) {
                SlotValueView::Found(variable_text(json_members(value)[output]))
            } else {
                SlotValueView::Missing
            },
        },
    }
}

/// What the level says about a slot.
pub open spec fn slot_value(desired: DesiredView, slot: SlotView) -> SlotValueView {
    value_in(desired.published(slot.producer_spec_hash), slot.output)
}

/// What the level says about each of these slots.
pub open spec fn slot_values(desired: DesiredView, slots: Seq<SlotView>) -> Seq<SlotValueView> {
    slots.map_values(|slot: SlotView| slot_value(desired, slot))
}

/// Read an output in published values.
fn read_output(values_json: &[u8], output: &str) -> (value: SlotValue)
    ensures
        value@ == value_in(Some(values_json@), output@),
{
    match json_parse(values_json) {
        Err(error) => SlotValue::Unreadable(json_error_text(&error)),
        Ok(value) => match json_get(&value, output) {
            None => SlotValue::Missing,
            Some(member) => match json_as_str(member) {
                Some(text) => SlotValue::Found(text.to_owned()),
                None => SlotValue::Found(json_to_text(member)),
            },
        },
    }
}

/// Where an item with this producer stands, the first such item is one with its values.
proof fn lemma_output_found(items: Seq<UpstreamOutput>, output: UpstreamOutput, from: int)
    requires
        0 <= from <= items.len(),
        exists|i: int| from <= i < items.len() && #[trigger] items[i] == output,
        forall|i: int|
            0 <= i < items.len() && items[i].component_spec_hash@ == output.component_spec_hash@
                ==> #[trigger] items[i] == output,
    ensures
        output_from(views(items), output.component_spec_hash@, from) == Some(output.values_json@),
    decreases items.len() - from,
{
    assert(views(items)[from] == items[from]@);
    if items[from].component_spec_hash@ == output.component_spec_hash@ {
        assert(items[from] == output);
    } else {
        lemma_output_found(items, output, from + 1);
    }
}

/// Where no item has this producer, none is found.
proof fn lemma_output_absent(items: Seq<UpstreamOutput>, producer: Seq<u8>, from: int)
    requires
        0 <= from <= items.len(),
        forall|i: int|
            0 <= i < items.len() ==> (#[trigger] items[i]).component_spec_hash@ != producer,
    ensures
        output_from(views(items), producer, from) is None,
    decreases items.len() - from,
{
    if from < items.len() {
        assert(views(items)[from] == items[from]@);
        lemma_output_absent(items, producer, from + 1);
    }
}

/// What the level says about a slot.
pub fn look_up(desired: &DesiredSlice, slot: &InputSlot) -> (value: SlotValue)
    ensures
        value@ == slot_value(desired@, slot@),
{
    match outputs_get(&desired.upstream_outputs, &slot.producer_spec_hash) {
        Some(output) => {
            proof {
                lemma_output_found(outputs(desired.upstream_outputs), *output, 0);
            }
            read_output(output.values_json.as_slice(), slot.output.as_str())
        },
        None => {
            proof {
                lemma_output_absent(
                    outputs(desired.upstream_outputs),
                    slot.producer_spec_hash@,
                    0,
                );
            }
            SlotValue::Unpublished
        },
    }
}

/// What the level says about each of these slots.
pub fn look_up_all(desired: &DesiredSlice, slots: &Vec<InputSlot>) -> (values: Vec<SlotValue>)
    ensures
        views(values@) == slot_values(desired@, views(slots@)),
{
    let mut values: Vec<SlotValue> = Vec::new();
    let ghost all = slot_values(desired@, views(slots@));
    for i in 0..slots.len()
        invariant
            all == slot_values(desired@, views(slots@)),
            views(values@) == all.take(i as int),
    {
        let ghost before = values@;
        values.push(look_up(desired, &slots[i]));
        assert(views(values@) =~= views(before).push(all[i as int]));
        assert(views(values@) =~= all.take(i + 1));
    }
    assert(all.take(slots@.len() as int) =~= all);
    values
}

// ---------------------------------------------------------------------------
// Binding
// ---------------------------------------------------------------------------
/// The slot takes a secret: its output names a reference to one.
pub open spec fn takes_secret(slot: SlotView) -> bool {
    "Ref"@.is_suffix_of(slot.output)
}

/// What a slot requires: the output of its producer.
pub open spec fn requirement(slot: SlotView) -> Seq<char> {
    slot.key + " requires "@ + slot.producer + "."@ + slot.output
}

/// What is said of a slot without a value.
pub open spec fn unbound_message(slot: SlotView) -> Seq<char> {
    "cloudflare.input.unbound: "@ + requirement(slot)
}

/// How far below its start a walk along the first `n` parts of a path ends: an empty part and `.`
/// stay, `..` leads up, and any other part leads down.
pub open spec fn depth_after(parts: Seq<Seq<char>>, n: int) -> int
    decreases n,
{
    if n <= 0 {
        0
    } else {
        let part = parts[n - 1];
        depth_after(parts, n - 1) + if part.len() == 0 || part == "."@ {
            0int
        } else if part == ".."@ {
            -1
        } else {
            1
        }
    }
}

/// A name that stays under the directory it is read in: it is not absolute, and a walk along its
/// parts at no point leads above that directory. Parts that lead up again to a place under the
/// directory, or to the directory itself, are no harm.
pub open spec fn is_confined(name: Seq<char>) -> bool {
    &&& !"/"@.is_prefix_of(name)
    &&& forall|n: int|
        0 <= n <= path_parts(name).len() ==> 0 <= #[trigger] depth_after(path_parts(name), n)
}

/// The name in a reference to a secret, where the reference is of the supported kind and the name
/// stays under the secret root.
pub open spec fn secret_name(reference: Seq<char>) -> Option<Seq<char>> {
    let prefix = "docker-secret://"@;
    if prefix.is_prefix_of(reference) && is_confined(reference.skip(prefix.len() as int)) {
        Some(reference.skip(prefix.len() as int))
    } else {
        None
    }
}

/// What is said of a reference that is not supported.
pub open spec fn unsupported_reference(reference: Seq<char>) -> Seq<char> {
    "unsupported secret reference "@ + debug_quoted(reference)
        + "; plaintext values never cross core"@
}

/// What is said of a reference whose name does not stay under the secret root.
pub open spec fn escaping_reference(reference: Seq<char>) -> Seq<char> {
    "secret reference "@ + debug_quoted(reference) + " must name a file under the secret root"@
}

/// What is said of a reference without a name that can be read.
pub open spec fn refused_reference(reference: Seq<char>) -> Seq<char> {
    if "docker-secret://"@.is_prefix_of(reference) {
        escaping_reference(reference)
    } else {
        unsupported_reference(reference)
    }
}

/// What is said of a secret that cannot be read.
pub open spec fn unreadable_secret(reference: Seq<char>, reason: Seq<char>) -> Seq<char> {
    "cannot resolve secret ref "@ + debug_quoted(reference) + ": "@ + reason
}

/// Where binding stands: `bound` came from the slots before `at`, for which the first `used` of
/// the secrets read so far were needed.
pub open spec fn binding(
    slots: Seq<SlotView>,
    values: Seq<SlotValueView>,
    reads: Seq<Result<Seq<char>, Seq<char>>>,
    at: int,
    used: int,
    bound: BindingsView,
) -> BindStepView
    decreases slots.len() - at,
{
    if at >= slots.len() {
        BindStepView::Bound(bound)
    } else {
        match values[at] {
            SlotValueView::Unpublished | SlotValueView::Missing => BindStepView::Failed(
                TargetErrorView::Config(unbound_message(slots[at])),
            ),
            SlotValueView::Unreadable(reason) => BindStepView::Failed(
                TargetErrorView::Config(reason),
            ),
            SlotValueView::Found(text) => if takes_secret(slots[at]) {
                match secret_name(text) {
                    None => BindStepView::Failed(
                        TargetErrorView::Config(refused_reference(text)),
                    ),
                    Some(name) => if used >= reads.len() {
                        BindStepView::ReadSecret(name)
                    } else {
                        match reads[used] {
                            Err(reason) => BindStepView::Failed(
                                TargetErrorView::Config(unreadable_secret(text, reason)),
                            ),
                            Ok(content) => binding(
                                slots,
                                values,
                                reads,
                                at + 1,
                                used + 1,
                                bound.with_secret(slots[at].key, trim_back(content)),
                            ),
                        }
                    },
                }
            } else {
                binding(
                    slots,
                    values,
                    reads,
                    at + 1,
                    used,
                    bound.with_plain(slots[at].key, text),
                )
            },
        }
    }
}

/// Where binding these slots stands, after these secrets were read.
pub open spec fn bind_step(
    slots: Seq<SlotView>,
    values: Seq<SlotValueView>,
    reads: Seq<Result<Seq<char>, Seq<char>>>,
) -> BindStepView {
    binding(slots, values, reads, 0, 0, BindingsView::none())
}

/// What a slot requires: the output of its producer.
pub fn describe_requirement(slot: &InputSlot) -> (text: String)
    ensures
        text@ == requirement(slot@),
{
    slot.key.clone().concat(" requires ").concat(slot.producer.as_str()).concat(".").concat(
        slot.output.as_str(),
    )
}

/// Whether a name stays under the directory it is read in.
pub fn stays_under_root(name: &str) -> (r: bool)
    ensures
        r == is_confined(name@),
{
    if starts_with(name, "/") {
        return false;
    }
    let parts = split_path(name);
    let ghost said = path_parts(name@);
    let mut depth: usize = 0;
    for i in 0..parts.len()
        invariant
            said == path_parts(name@),
            said == views(parts@),
            depth <= i,
            depth == depth_after(said, i as int),
            forall|n: int| 0 <= n <= i ==> 0 <= #[trigger] depth_after(said, n),
    {
        let part = parts[i].as_str();
        assert(said[i as int] == part@);
        if same_text(part, "..") {
            proof {
                reveal_strlit(".");
                reveal_strlit("..");
            }
            assert(depth_after(said, i + 1) == depth - 1);
            if depth == 0 {
                return false;
            }
            depth = depth - 1;
        } else if part.unicode_len() > 0 && !same_text(part, ".") {
            depth = depth + 1;
        }
    }
    true
}

/// The name in a reference to a secret, or why there is none that can be read.
pub fn resolve_secret_ref(reference: &str) -> (name: Result<String, TargetError>)
    ensures
        match name {
            Ok(name) => secret_name(reference@) == Some(name@),
            Err(error) => secret_name(reference@) is None && error@ == TargetErrorView::Config(
                refused_reference(reference@),
            ),
        },
{
    if starts_with(reference, "docker-secret://") {
        let prefix = "docker-secret://".unicode_len();
        let n = reference.unicode_len();
        assert(reference@.subrange(prefix as int, n as int) =~= reference@.skip(prefix as int));
        let name = slice_text(reference, prefix, n);
        if stays_under_root(name.as_str()) {
            Ok(name)
        } else {
            Err(
                TargetError::Config(
                    "secret reference ".to_owned().concat(debug_text(reference).as_str()).concat(
                        " must name a file under the secret root",
                    ),
                ),
            )
        }
    } else {
        Err(
            TargetError::Config(
                "unsupported secret reference ".to_owned().concat(
                    debug_text(reference).as_str(),
                ).concat("; plaintext values never cross core"),
            ),
        )
    }
}

/// Bind these slots to these values, as far as the secrets read so far allow: the values of slots
/// that take a secret are references, and the secrets come in the order of those slots.
pub fn bind_slots(
    slots: &Vec<InputSlot>,
    values: &Vec<SlotValue>,
    reads: &Vec<Result<String, String>>,
) -> (step: BindStep)
    requires
        values@.len() == slots@.len(),
    ensures
        step@ == bind_step(views(slots@), views(values@), outcome_views(reads@)),
{
    let mut plain: Vec<(String, String)> = Vec::new();
    let mut secrets: Vec<(String, String)> = Vec::new();
    let mut used: usize = 0;
    let ghost all = views(slots@);
    let ghost said = views(values@);
    let ghost read = outcome_views(reads@);
    assert(pair_views(plain@) =~= Seq::empty());
    assert(pair_views(secrets@) =~= Seq::empty());
    for at in 0..slots.len()
        invariant
            values@.len() == slots@.len(),
            all == views(slots@),
            said == views(values@),
            read == outcome_views(reads@),
            used <= reads@.len(),
            bind_step(all, said, read) == binding(
                all,
                said,
                read,
                at as int,
                used as int,
                BindingsView { plain: pair_views(plain@), secrets: pair_views(secrets@) },
            ),
    {
        let slot = &slots[at];
        assert(all[at as int] == slot@);
        assert(said[at as int] == values@[at as int]@);
        match &values[at] {
            SlotValue::Unpublished | SlotValue::Missing => {
                return BindStep::Failed(
                    TargetError::Config(
                        "cloudflare.input.unbound: ".to_owned().concat(
                            describe_requirement(slot).as_str(),
                        ),
                    ),
                );
            },
            SlotValue::Unreadable(reason) => {
                return BindStep::Failed(TargetError::Config(reason.clone()));
            },
            SlotValue::Found(text) => {
                if ends_with(slot.output.as_str(), "Ref") {
                    match resolve_secret_ref(text.as_str()) {
                        Err(error) => {
                            return BindStep::Failed(error);
                        },
                        Ok(name) => {
                            if used >= reads.len() {
                                return BindStep::ReadSecret(name);
                            }
                            assert(read[used as int] == result_view(
                                reads@[used as int],
                            ));
                            match &reads[used] {
                                Err(reason) => {
                                    return BindStep::Failed(
                                        TargetError::Config(
                                            "cannot resolve secret ref ".to_owned().concat(
                                                debug_text(text.as_str()).as_str(),
                                            ).concat(": ").concat(reason.as_str()),
                                        ),
                                    );
                                },
                                Ok(content) => {
                                    put_entry(
                                        &mut secrets,
                                        slot.key.clone(),
                                        trim_end(content.as_str()),
                                    );
                                },
                            }
                            used = used + 1;
                        },
                    }
                } else {
                    put_entry(&mut plain, slot.key.clone(), text.clone());
                }
            },
        }
    }
    BindStep::Bound(Bindings { plain, secrets })
}

/// Resolve a component's slots from the current level, as far as the secrets read so far allow.
pub fn resolve_bindings(
    desired: &DesiredSlice,
    component: &ComponentPin,
    reads: &Vec<Result<String, String>>,
) -> (step: BindStep)
    ensures
        step@ == resolved(desired@, component@, outcome_views(reads@)),
{
    let values = look_up_all(desired, &component.context.slots);
    assert(values@.len() == views(values@).len());
    bind_slots(&component.context.slots, &values, reads)
}

/// Where binding a component's slots from a level stands, after these secrets were read.
pub open spec fn resolved(
    desired: DesiredView,
    component: PinView,
    reads: Seq<Result<Seq<char>, Seq<char>>>,
) -> BindStepView {
    bind_step(component.context.slots, slot_values(desired, component.context.slots), reads)
}

// ---------------------------------------------------------------------------
// Laws
// ---------------------------------------------------------------------------
/// How many of the first `n` slots take a secret.
pub open spec fn secrets_before(slots: Seq<SlotView>, n: int) -> int
    decreases n,
{
    if n <= 0 {
        0
    } else {
        secrets_before(slots, n - 1) + if takes_secret(slots[n - 1]) {
            1int
        } else {
            0
        }
    }
}

/// The slot can have a value: its producer has published the output, and where it takes a secret,
/// the output refers to one and the secret was read.
pub open spec fn slot_is_bindable(
    slots: Seq<SlotView>,
    values: Seq<SlotValueView>,
    reads: Seq<Result<Seq<char>, Seq<char>>>,
    at: int,
) -> bool {
    &&& values[at] is Found
    &&& takes_secret(slots[at]) ==> {
        &&& secret_name(values[at]->Found_0) is Some
        &&& 0 <= secrets_before(slots, at) < reads.len()
        &&& reads[secrets_before(slots, at)] is Ok
    }
}

/// The value that a slot binds: the published text, or the secret that was read for it.
pub open spec fn slot_binding(
    slots: Seq<SlotView>,
    values: Seq<SlotValueView>,
    reads: Seq<Result<Seq<char>, Seq<char>>>,
    at: int,
) -> Seq<char> {
    if takes_secret(slots[at]) {
        trim_back(reads[secrets_before(slots, at)]->Ok_0)
    } else {
        values[at]->Found_0
    }
}

/// These bindings are what the slots before `n` bind: sorted by variable, for each variable the
/// value of the last slot with that key, and nothing else.
pub open spec fn binds_slots(
    slots: Seq<SlotView>,
    values: Seq<SlotValueView>,
    reads: Seq<Result<Seq<char>, Seq<char>>>,
    n: int,
    bound: BindingsView,
) -> bool {
    &&& entries_sorted(bound.plain)
    &&& entries_sorted(bound.secrets)
    &&& forall|key: Seq<char>| #[trigger]
        entry_value(bound.plain, key) == last_binding(slots, values, reads, n, key, false)
    &&& forall|key: Seq<char>| #[trigger]
        entry_value(bound.secrets, key) == last_binding(slots, values, reads, n, key, true)
}

/// What the last of the first `n` slots with this key binds, among those that take a secret or
/// those that do not.
pub open spec fn last_binding(
    slots: Seq<SlotView>,
    values: Seq<SlotValueView>,
    reads: Seq<Result<Seq<char>, Seq<char>>>,
    n: int,
    key: Seq<char>,
    secret: bool,
) -> Option<Seq<char>>
    decreases n,
{
    if n <= 0 {
        None
    } else if slots[n - 1].key == key && takes_secret(slots[n - 1]) == secret {
        Some(slot_binding(slots, values, reads, n - 1))
    } else {
        last_binding(slots, values, reads, n - 1, key, secret)
    }
}

/// The outcome of binding from `at` on.
proof fn lemma_binding(
    slots: Seq<SlotView>,
    values: Seq<SlotValueView>,
    reads: Seq<Result<Seq<char>, Seq<char>>>,
    at: int,
    bound: BindingsView,
)
    requires
        values.len() == slots.len(),
        0 <= at <= slots.len(),
        0 <= secrets_before(slots, at) <= reads.len(),
        binds_slots(slots, values, reads, at, bound),
    ensures
        ({
            let step = binding(slots, values, reads, at, secrets_before(slots, at), bound);
            &&& step is Bound <==> forall|i: int|
                at <= i < slots.len() ==> #[trigger] slot_is_bindable(slots, values, reads, i)
            &&& step matches BindStepView::Bound(bindings) ==> binds_slots(
                slots,
                values,
                reads,
                slots.len() as int,
                bindings,
            )
        }),
    decreases slots.len() - at,
{
    if at < slots.len() {
        if slot_is_bindable(slots, values, reads, at) {
            let value = slot_binding(slots, values, reads, at);
            let key = slots[at].key;
            let next = if takes_secret(slots[at]) {
                bound.with_secret(key, value)
            } else {
                bound.with_plain(key, value)
            };
            assert(binds_slots(slots, values, reads, at + 1, next)) by {
                if takes_secret(slots[at]) {
                    entries_stay_sorted(bound.secrets, key, value);
                } else {
                    entries_stay_sorted(bound.plain, key, value);
                }
                assert forall|other: Seq<char>| #[trigger]
                    entry_value(next.plain, other) == last_binding(
                    slots,
                    values,
                    reads,
                    at + 1,
                    other,
                    false,
                ) by {
                    if !takes_secret(slots[at]) {
                        added_entry_is_found(bound.plain, key, value, other);
                    }
                    assert(entry_value(bound.plain, other) == last_binding(
                        slots,
                        values,
                        reads,
                        at,
                        other,
                        false,
                    ));
                }
                assert forall|other: Seq<char>| #[trigger]
                    entry_value(next.secrets, other) == last_binding(
                    slots,
                    values,
                    reads,
                    at + 1,
                    other,
                    true,
                ) by {
                    if takes_secret(slots[at]) {
                        added_entry_is_found(bound.secrets, key, value, other);
                    }
                    assert(entry_value(bound.secrets, other) == last_binding(
                        slots,
                        values,
                        reads,
                        at,
                        other,
                        true,
                    ));
                }
            }
            lemma_binding(slots, values, reads, at + 1, next);
            let step = binding(slots, values, reads, at, secrets_before(slots, at), bound);
            if step is Bound {
                assert forall|i: int| at <= i < slots.len() implies #[trigger] slot_is_bindable(
                    slots,
                    values,
                    reads,
                    i,
                ) by {
                    if i > at {
                        assert(slot_is_bindable(slots, values, reads, i));
                    }
                }
            }
        }
    }
}

/// A component's slots are bound exactly when each of them can have a value. The bindings are then
/// sorted by variable; a variable has the value of its last slot; and a secret that was read is
/// bound as a secret and never as a plain value.
pub proof fn slots_are_bound_together(
    slots: Seq<SlotView>,
    values: Seq<SlotValueView>,
    reads: Seq<Result<Seq<char>, Seq<char>>>,
)
    requires
        values.len() == slots.len(),
    ensures
        bind_step(slots, values, reads) is Bound <==> forall|i: int|
            0 <= i < slots.len() ==> #[trigger] slot_is_bindable(slots, values, reads, i),
        bind_step(slots, values, reads) matches BindStepView::Bound(bindings) ==> binds_slots(
            slots,
            values,
            reads,
            slots.len() as int,
            bindings,
        ),
{
    lemma_binding(slots, values, reads, 0, BindingsView::none());
}

/// What stands under a key came from a slot with that key.
proof fn lemma_last_binding(
    slots: Seq<SlotView>,
    values: Seq<SlotValueView>,
    reads: Seq<Result<Seq<char>, Seq<char>>>,
    n: int,
    key: Seq<char>,
    secret: bool,
)
    requires
        last_binding(slots, values, reads, n, key, secret) is Some,
    ensures
        exists|i: int|
            {
                &&& 0 <= i < n
                &&& (#[trigger] slots[i]).key == key
                &&& takes_secret(slots[i]) == secret
                &&& last_binding(slots, values, reads, n, key, secret) == Some(
                    slot_binding(slots, values, reads, i),
                )
            },
    decreases n,
{
    if n > 0 {
        if slots[n - 1].key == key && takes_secret(slots[n - 1]) == secret {
            assert(slots[n - 1].key == key);
        } else {
            lemma_last_binding(slots, values, reads, n - 1, key, secret);
        }
    }
}

/// A plain value is the published value of a slot that takes no secret.
pub proof fn plain_values_are_published(
    slots: Seq<SlotView>,
    values: Seq<SlotValueView>,
    reads: Seq<Result<Seq<char>, Seq<char>>>,
    key: Seq<char>,
)
    requires
        values.len() == slots.len(),
        bind_step(slots, values, reads) is Bound,
        entry_value(bind_step(slots, values, reads)->Bound_0.plain, key) is Some,
    ensures
        exists|i: int|
            {
                &&& 0 <= i < slots.len()
                &&& (#[trigger] slots[i]).key == key
                &&& !takes_secret(slots[i])
                &&& values[i] == SlotValueView::Found(
                    entry_value(bind_step(slots, values, reads)->Bound_0.plain, key)->Some_0,
                )
            },
{
    slots_are_bound_together(slots, values, reads);
    let n = slots.len() as int;
    lemma_last_binding(slots, values, reads, n, key, false);
    let i = choose|i: int|
        {
            &&& 0 <= i < n
            &&& (#[trigger] slots[i]).key == key
            &&& takes_secret(slots[i]) == false
            &&& last_binding(slots, values, reads, n, key, false) == Some(
                slot_binding(slots, values, reads, i),
            )
        };
    assert(slot_is_bindable(slots, values, reads, i));
    assert(slots[i].key == key);
}

/// A walk along parts none of which is `..` does not lead up.
proof fn lemma_depth(parts: Seq<Seq<char>>, n: int)
    requires
        0 <= n <= parts.len(),
        forall|k: int| 0 <= k < parts.len() ==> #[trigger] parts[k] != ".."@,
    ensures
        0 <= depth_after(parts, n),
    decreases n,
{
    if n > 0 {
        lemma_depth(parts, n - 1);
        assert(parts[n - 1] != ".."@);
    }
}

/// From `at` on a secret is asked for only where the name stays under the secret root.
proof fn lemma_asks_confined(
    slots: Seq<SlotView>,
    values: Seq<SlotValueView>,
    reads: Seq<Result<Seq<char>, Seq<char>>>,
    at: int,
    used: int,
    bound: BindingsView,
)
    ensures
        binding(slots, values, reads, at, used, bound) matches BindStepView::ReadSecret(name)
            ==> is_confined(name),
    decreases slots.len() - at,
{
    if at < slots.len() {
        if let SlotValueView::Found(text) = values[at] {
            if takes_secret(slots[at]) {
                if used < reads.len() && reads[used] is Ok {
                    let content = trim_back(reads[used]->Ok_0);
                    let next = bound.with_secret(slots[at].key, content);
                    lemma_asks_confined(slots, values, reads, at + 1, used + 1, next);
                }
            } else {
                let next = bound.with_plain(slots[at].key, text);
                lemma_asks_confined(slots, values, reads, at + 1, used, next);
            }
        }
    }
}

/// Every secret that is asked for stays under the secret root: its name is not absolute, and no
/// walk along its parts leads above the root.
pub proof fn secrets_stay_under_their_root(
    slots: Seq<SlotView>,
    values: Seq<SlotValueView>,
    reads: Seq<Result<Seq<char>, Seq<char>>>,
)
    ensures
        bind_step(slots, values, reads) matches BindStepView::ReadSecret(name) ==> is_confined(
            name,
        ),
{
    lemma_asks_confined(slots, values, reads, 0, 0, BindingsView::none());
}

/// A reference names what stands behind its prefix, whatever that is, unless it would leave the
/// secret root; such a reference is refused, and no secret is read for it.
pub proof fn only_escaping_references_are_refused(name: Seq<char>)
    ensures
        ({
            let reference = "docker-secret://"@ + name;
            &&& is_confined(name) ==> secret_name(reference) == Some(name)
            &&& !is_confined(name) ==> {
                &&& secret_name(reference) is None
                &&& refused_reference(reference) == escaping_reference(reference)
            }
        }),
{
    let prefix = "docker-secret://"@;
    let reference = prefix + name;
    assert(reference.skip(prefix.len() as int) =~= name);
    assert(reference.subrange(0, prefix.len() as int) =~= prefix);
}

/// A name that is not absolute and has no part that leads up stays under the secret root.
pub proof fn plain_names_are_confined(name: Seq<char>)
    requires
        !"/"@.is_prefix_of(name),
        forall|k: int| 0 <= k < path_parts(name).len() ==> #[trigger] path_parts(name)[k] != ".."@,
    ensures
        is_confined(name),
{
    let parts = path_parts(name);
    assert forall|n: int| 0 <= n <= parts.len() implies 0 <= #[trigger] depth_after(parts, n) by {
        lemma_depth(parts, n);
    }
}

/// Slots that differ at most in the names of their producers.
pub open spec fn same_but_producer_names(a: Seq<SlotView>, b: Seq<SlotView>) -> bool {
    a.len() == b.len() && forall|i: int|
        0 <= i < a.len() ==> #[trigger] a[i] == (SlotView { producer: a[i].producer, ..b[i] })
}

/// What the level says about slots does not follow the names of their producers.
proof fn lemma_values_ignore_names(desired: DesiredView, a: Seq<SlotView>, b: Seq<SlotView>)
    requires
        same_but_producer_names(a, b),
    ensures
        slot_values(desired, a) == slot_values(desired, b),
{
    assert forall|i: int| 0 <= i < a.len() implies slot_values(desired, a)[i] == slot_values(
        desired,
        b,
    )[i] by {
        assert(a[i] == (SlotView { producer: a[i].producer, ..b[i] }));
    }
    assert(slot_values(desired, a) =~= slot_values(desired, b));
}

/// Binding from `at` on does not follow the names of producers.
proof fn lemma_binding_ignores_names(
    a: Seq<SlotView>,
    b: Seq<SlotView>,
    values: Seq<SlotValueView>,
    reads: Seq<Result<Seq<char>, Seq<char>>>,
    at: int,
    used: int,
    bound: BindingsView,
)
    requires
        same_but_producer_names(a, b),
        0 <= at,
    ensures
        ({
            let first = binding(a, values, reads, at, used, bound);
            let second = binding(b, values, reads, at, used, bound);
            first == second || first is Failed && second is Failed
        }),
    decreases a.len() - at,
{
    if at < a.len() {
        assert(a[at] == (SlotView { producer: a[at].producer, ..b[at] }));
        if let SlotValueView::Found(text) = values[at] {
            if takes_secret(a[at]) {
                if used < reads.len() && reads[used] is Ok {
                    let content = trim_back(reads[used]->Ok_0);
                    let next = bound.with_secret(a[at].key, content);
                    lemma_binding_ignores_names(a, b, values, reads, at + 1, used + 1, next);
                }
            } else {
                let next = bound.with_plain(a[at].key, text);
                lemma_binding_ignores_names(a, b, values, reads, at + 1, used, next);
            }
        }
    }
}

/// The names of producers are for diagnostics only: components whose slots differ in nothing else
/// have the same bindings and ask for the same secrets, or both fail.
pub proof fn bindings_ignore_producer_names(
    desired: DesiredView,
    first: PinView,
    second: PinView,
    reads: Seq<Result<Seq<char>, Seq<char>>>,
)
    requires
        same_but_producer_names(first.context.slots, second.context.slots),
    ensures
        ({
            let one = resolved(desired, first, reads);
            let other = resolved(desired, second, reads);
            one == other || one is Failed && other is Failed
        }),
{
    let a = first.context.slots;
    let b = second.context.slots;
    lemma_values_ignore_names(desired, a, b);
    lemma_binding_ignores_names(
        a,
        b,
        slot_values(desired, a),
        reads,
        0,
        0,
        BindingsView::none(),
    );
}

/// A failure that tells of a slot without a value.
pub open spec fn tells_unbound(error: TargetErrorView) -> bool {
    exists|slot: SlotView| error == TargetErrorView::Config(#[trigger] unbound_message(slot))
}

/// What is said of a reference or of a secret is not what is said of a slot without a value.
proof fn lemma_messages_differ(slot: SlotView, reference: Seq<char>, reason: Seq<char>)
    ensures
        refused_reference(reference) != unbound_message(slot),
        unreadable_secret(reference, reason) != unbound_message(slot),
{
    reveal_strlit("cloudflare.input.unbound: ");
    reveal_strlit("unsupported secret reference ");
    reveal_strlit("secret reference ");
    reveal_strlit("cannot resolve secret ref ");
    assert(unbound_message(slot)[0] == 'c' && unbound_message(slot)[1] == 'l');
    assert(unreadable_secret(reference, reason)[1] == 'a');
    assert(unsupported_reference(reference)[0] == 'u');
    assert(escaping_reference(reference)[0] == 's');
}

/// How binding from `at` on fails.
proof fn lemma_binding_failures(
    slots: Seq<SlotView>,
    values: Seq<SlotValueView>,
    reads: Seq<Result<Seq<char>, Seq<char>>>,
    at: int,
    used: int,
    bound: BindingsView,
)
    requires
        0 <= at <= slots.len(),
        used <= secrets_before(slots, at),
    ensures
        (forall|i: int| at <= i < slots.len() ==> #[trigger] values[i] is Found) ==> (binding(
            slots,
            values,
            reads,
            at,
            used,
            bound,
        ) matches BindStepView::Failed(error) ==> !tells_unbound(error)),
        binding(slots, values, reads, at, used, bound) is ReadSecret ==> reads.len()
            < secrets_before(slots, slots.len() as int),
    decreases slots.len() - at,
{
    if at < slots.len() {
        lemma_secrets_grow(slots, at + 1, slots.len() as int);
        if let SlotValueView::Found(text) = values[at] {
            assert forall|slot: SlotView, reason: Seq<char>|
                #![trigger unbound_message(slot), unreadable_secret(text, reason)]
                refused_reference(text) != unbound_message(slot) && unreadable_secret(text, reason)
                    != unbound_message(slot) by {
                lemma_messages_differ(slot, text, reason);
            }
            assert forall|slot: SlotView| refused_reference(text) != #[trigger] unbound_message(
                slot,
            ) by {
                lemma_messages_differ(slot, text, text);
            }
            if takes_secret(slots[at]) {
                if used < reads.len() && reads[used] is Ok {
                    let content = trim_back(reads[used]->Ok_0);
                    let next = bound.with_secret(slots[at].key, content);
                    lemma_binding_failures(slots, values, reads, at + 1, used + 1, next);
                } else if used < reads.len() {
                    let reason = reads[used]->Err_0;
                    assert forall|slot: SlotView| unreadable_secret(text, reason)
                        != #[trigger] unbound_message(slot) by {
                        lemma_messages_differ(slot, text, reason);
                    }
                }
            } else {
                let next = bound.with_plain(slots[at].key, text);
                lemma_binding_failures(slots, values, reads, at + 1, used, next);
            }
        }
    }
}

/// More slots take no fewer secrets.
proof fn lemma_secrets_grow(slots: Seq<SlotView>, n: int, m: int)
    requires
        n <= m,
    ensures
        secrets_before(slots, n) <= secrets_before(slots, m),
    decreases m - n,
{
    if n < m {
        lemma_secrets_grow(slots, n, m - 1);
    }
}

/// Slots that all have values never fail as unbound; with a slot that has none they are never
/// bound, and fail once each secret that they may take was read.
pub proof fn only_missing_values_fail_as_unbound(
    slots: Seq<SlotView>,
    values: Seq<SlotValueView>,
    reads: Seq<Result<Seq<char>, Seq<char>>>,
)
    requires
        values.len() == slots.len(),
    ensures
        (forall|i: int| 0 <= i < slots.len() ==> #[trigger] values[i] is Found) ==> (bind_step(
            slots,
            values,
            reads,
        ) matches BindStepView::Failed(error) ==> !tells_unbound(error)),
        (exists|i: int| 0 <= i < slots.len() && !(#[trigger] values[i] is Found)) ==> {
            &&& !(bind_step(slots, values, reads) is Bound)
            &&& reads.len() >= secrets_before(slots, slots.len() as int) ==> bind_step(
                slots,
                values,
                reads,
            ) is Failed
        },
{
    lemma_binding_failures(slots, values, reads, 0, 0, BindingsView::none());
    slots_are_bound_together(slots, values, reads);
    if exists|i: int| 0 <= i < slots.len() && !(#[trigger] values[i] is Found) {
        let i = choose|i: int| 0 <= i < slots.len() && !(#[trigger] values[i] is Found);
        assert(!slot_is_bindable(slots, values, reads, i));
    }
}

/// A text whose last three characters are `R`, `e` and `f`.
pub open spec fn ends_in_ref(output: Seq<char>) -> bool {
    let n = output.len() as int;
    n >= 3 && output[n - 3] == 'R' && output[n - 2] == 'e' && output[n - 1] == 'f'
}

/// How many of the first `n` slots consume an output whose name ends in `Ref`.
pub open spec fn refs_before(slots: Seq<SlotView>, n: int) -> nat {
    count_of(slots.take(n), |slot: SlotView| ends_in_ref(slot.output))
}

/// The slot has its value: its output is published and, where its name ends in `Ref`, refers to a
/// secret under the secret root that was read.
pub open spec fn has_value(
    slots: Seq<SlotView>,
    values: Seq<SlotValueView>,
    reads: Seq<Result<Seq<char>, Seq<char>>>,
    at: int,
) -> bool {
    values[at] matches SlotValueView::Found(text) && (ends_in_ref(slots[at].output) ==> {
        &&& "docker-secret://"@.is_prefix_of(text)
        &&& is_confined(text.skip(16))
        &&& refs_before(slots, at) < reads.len()
        &&& reads[refs_before(slots, at) as int] is Ok
    })
}

/// No later slot of the same kind, secret or plain, has the key of the slot at `at`.
pub open spec fn is_last_of_its_kind(slots: Seq<SlotView>, at: int) -> bool {
    forall|j: int|
        at < j < slots.len() && (#[trigger] slots[j]).key == slots[at].key ==> ends_in_ref(
            slots[j].output,
        ) != ends_in_ref(slots[at].output)
}

/// A slot takes a secret where its output's name ends in `Ref`.
proof fn lemma_takes_secret(slot: SlotView)
    ensures
        takes_secret(slot) == ends_in_ref(slot.output),
{
    reveal_strlit("Ref");
    let output = slot.output;
    let n = output.len() as int;
    if takes_secret(slot) {
        assert(output.subrange(n - 3, n)[0] == 'R');
        assert(output.subrange(n - 3, n)[1] == 'e');
        assert(output.subrange(n - 3, n)[2] == 'f');
    }
    if ends_in_ref(output) {
        assert(output.subrange(n - 3, n) =~= "Ref"@);
    }
}

/// Counting secrets is counting outputs whose names end in `Ref`.
proof fn lemma_refs_before(slots: Seq<SlotView>, n: int)
    requires
        0 <= n <= slots.len(),
    ensures
        secrets_before(slots, n) == refs_before(slots, n),
    decreases n,
{
    if n > 0 {
        lemma_refs_before(slots, n - 1);
        lemma_takes_secret(slots[n - 1]);
        lemma_count_next(slots, |slot: SlotView| ends_in_ref(slot.output), n - 1);
    }
}

/// A reference names a secret under the root where it has the prefix and its name is confined.
proof fn lemma_secret_name(text: Seq<char>)
    ensures
        secret_name(text) is Some <==> "docker-secret://"@.is_prefix_of(text) && is_confined(
            text.skip(16),
        ),
        secret_name(text) is Some ==> secret_name(text) == Some(text.skip(16)),
        "docker-secret://"@.len() == 16,
{
    reveal_strlit("docker-secret://");
}

/// A slot has its value exactly when it can be bound.
proof fn lemma_has_value(
    slots: Seq<SlotView>,
    values: Seq<SlotValueView>,
    reads: Seq<Result<Seq<char>, Seq<char>>>,
    at: int,
)
    requires
        0 <= at < slots.len(),
    ensures
        has_value(slots, values, reads, at) == slot_is_bindable(slots, values, reads, at),
        takes_secret(slots[at]) == ends_in_ref(slots[at].output),
        secrets_before(slots, at) == refs_before(slots, at),
{
    lemma_takes_secret(slots[at]);
    lemma_refs_before(slots, at);
    if let SlotValueView::Found(text) = values[at] {
        lemma_secret_name(text);
    }
}

/// What the last slot of its kind with a key binds stands under that key.
proof fn lemma_last_binding_found(
    slots: Seq<SlotView>,
    values: Seq<SlotValueView>,
    reads: Seq<Result<Seq<char>, Seq<char>>>,
    n: int,
    at: int,
)
    requires
        0 <= at < n <= slots.len(),
        is_last_of_its_kind(slots, at),
    ensures
        last_binding(slots, values, reads, n, slots[at].key, takes_secret(slots[at])) == Some(
            slot_binding(slots, values, reads, at),
        ),
    decreases n,
{
    lemma_takes_secret(slots[at]);
    lemma_takes_secret(slots[n - 1]);
    if at < n - 1 {
        assert(slots[n - 1].key == slots[at].key ==> ends_in_ref(slots[n - 1].output)
            != ends_in_ref(slots[at].output));
        lemma_last_binding_found(slots, values, reads, n - 1, at);
    }
}

/// What stands under a key is bound by the last slot of its kind with that key.
proof fn lemma_last_binding_is_last(
    slots: Seq<SlotView>,
    values: Seq<SlotValueView>,
    reads: Seq<Result<Seq<char>, Seq<char>>>,
    n: int,
    key: Seq<char>,
    secret: bool,
) -> (at: int)
    requires
        0 <= n <= slots.len(),
        last_binding(slots, values, reads, n, key, secret) is Some,
        forall|j: int|
            n <= j < slots.len() && (#[trigger] slots[j]).key == key ==> takes_secret(slots[j])
                != secret,
    ensures
        0 <= at < slots.len(),
        slots[at].key == key,
        takes_secret(slots[at]) == secret,
        is_last_of_its_kind(slots, at),
        last_binding(slots, values, reads, n, key, secret) == Some(
            slot_binding(slots, values, reads, at),
        ),
    decreases n,
{
    if slots[n - 1].key == key && takes_secret(slots[n - 1]) == secret {
        assert forall|j: int|
            n - 1 < j < slots.len() && (#[trigger] slots[j]).key == key implies ends_in_ref(
            slots[j].output,
        ) != ends_in_ref(slots[n - 1].output) by {
            lemma_takes_secret(slots[j]);
            lemma_takes_secret(slots[n - 1]);
        }
        n - 1
    } else {
        lemma_last_binding_is_last(slots, values, reads, n - 1, key, secret)
    }
}

/// Slots are bound exactly when each has its value. An output whose name ends in `Ref` is bound as
/// a secret, with what was read for it up to its trailing white space, and any other output as a
/// plain value, as it was published. Of the slots of one kind with the same key the last counts,
/// and nothing else is bound.
pub proof fn outputs_ending_in_ref_are_secrets(
    slots: Seq<SlotView>,
    values: Seq<SlotValueView>,
    reads: Seq<Result<Seq<char>, Seq<char>>>,
)
    requires
        values.len() == slots.len(),
    ensures
        bind_step(slots, values, reads) is Bound <==> forall|i: int|
            0 <= i < slots.len() ==> #[trigger] has_value(slots, values, reads, i),
        bind_step(slots, values, reads) matches BindStepView::Bound(bindings) ==> {
            &&& entries_sorted(bindings.plain)
            &&& entries_sorted(bindings.secrets)
            &&& forall|i: int|
                0 <= i < slots.len() && #[trigger] is_last_of_its_kind(slots, i) ==> if ends_in_ref(
                    slots[i].output,
                ) {
                    bindings.secrets.contains(
                        (
                            slots[i].key,
                            trim_back(reads[refs_before(slots, i) as int]->Ok_0),
                        ),
                    )
                } else {
                    bindings.plain.contains((slots[i].key, values[i]->Found_0))
                }
            &&& forall|k: int|
                0 <= k < bindings.plain.len() ==> exists|i: int|
                    {
                        &&& 0 <= i < slots.len()
                        &&& #[trigger] is_last_of_its_kind(slots, i)
                        &&& !ends_in_ref(slots[i].output)
                        &&& (#[trigger] bindings.plain[k]) == (slots[i].key, values[i]->Found_0)
                    }
            &&& forall|k: int|
                0 <= k < bindings.secrets.len() ==> exists|i: int|
                    {
                        &&& 0 <= i < slots.len()
                        &&& #[trigger] is_last_of_its_kind(slots, i)
                        &&& ends_in_ref(slots[i].output)
                        &&& (#[trigger] bindings.secrets[k]) == (
                            slots[i].key,
                            trim_back(reads[refs_before(slots, i) as int]->Ok_0),
                        )
                    }
        },
{
    slots_are_bound_together(slots, values, reads);
    let n = slots.len() as int;
    if bind_step(slots, values, reads) is Bound {
        assert forall|i: int| 0 <= i < n implies #[trigger] has_value(slots, values, reads, i) by {
            assert(slot_is_bindable(slots, values, reads, i));
            lemma_has_value(slots, values, reads, i);
        }
    }
    if forall|i: int| 0 <= i < slots.len() ==> #[trigger] has_value(slots, values, reads, i) {
        assert forall|i: int| 0 <= i < n implies #[trigger] slot_is_bindable(
            slots,
            values,
            reads,
            i,
        ) by {
            assert(has_value(slots, values, reads, i));
            lemma_has_value(slots, values, reads, i);
        }
    }
    if let BindStepView::Bound(bindings) = bind_step(slots, values, reads) {
        assert forall|i: int| 0 <= i < slots.len() && #[trigger] is_last_of_its_kind(
            slots,
            i,
        ) implies if ends_in_ref(slots[i].output) {
            bindings.secrets.contains(
                (slots[i].key, trim_back(reads[refs_before(slots, i) as int]->Ok_0)),
            )
        } else {
            bindings.plain.contains((slots[i].key, values[i]->Found_0))
        } by {
            lemma_has_value(slots, values, reads, i);
            lemma_last_binding_found(slots, values, reads, n, i);
            let key = slots[i].key;
            let value = slot_binding(slots, values, reads, i);
            if takes_secret(slots[i]) {
                assert(entry_value(bindings.secrets, key) == Some(value));
                entries_are_found_by_name(bindings.secrets, key, value);
            } else {
                assert(entry_value(bindings.plain, key) == Some(value));
                entries_are_found_by_name(bindings.plain, key, value);
            }
        }
        assert forall|k: int| 0 <= k < bindings.plain.len() implies exists|i: int|
            {
                &&& 0 <= i < slots.len()
                &&& #[trigger] is_last_of_its_kind(slots, i)
                &&& !ends_in_ref(slots[i].output)
                &&& (#[trigger] bindings.plain[k]) == (slots[i].key, values[i]->Found_0)
            } by {
            let (key, value) = bindings.plain[k];
            assert(bindings.plain.contains(bindings.plain[k]));
            entries_are_found_by_name(bindings.plain, key, value);
            assert(entry_value(bindings.plain, key) == Some(value));
            let i = lemma_last_binding_is_last(slots, values, reads, n, key, false);
            lemma_has_value(slots, values, reads, i);
            assert(is_last_of_its_kind(slots, i));
        }
        assert forall|k: int| 0 <= k < bindings.secrets.len() implies exists|i: int|
            {
                &&& 0 <= i < slots.len()
                &&& #[trigger] is_last_of_its_kind(slots, i)
                &&& ends_in_ref(slots[i].output)
                &&& (#[trigger] bindings.secrets[k]) == (
                    slots[i].key,
                    trim_back(reads[refs_before(slots, i) as int]->Ok_0),
                )
            } by {
            let (key, value) = bindings.secrets[k];
            assert(bindings.secrets.contains(bindings.secrets[k]));
            entries_are_found_by_name(bindings.secrets, key, value);
            assert(entry_value(bindings.secrets, key) == Some(value));
            let i = lemma_last_binding_is_last(slots, values, reads, n, key, true);
            lemma_has_value(slots, values, reads, i);
            assert(is_last_of_its_kind(slots, i));
        }
    }
}

/// Binding from `from` on ends at the first slot that cannot be bound.
proof fn lemma_binding_ends(
    slots: Seq<SlotView>,
    values: Seq<SlotValueView>,
    reads: Seq<Result<Seq<char>, Seq<char>>>,
    from: int,
    bound: BindingsView,
    at: int,
) -> (rest: BindingsView)
    requires
        values.len() == slots.len(),
        0 <= from <= at < slots.len(),
        forall|i: int| 0 <= i < at ==> #[trigger] has_value(slots, values, reads, i),
    ensures
        binding(slots, values, reads, from, refs_before(slots, from) as int, bound) == binding(
            slots,
            values,
            reads,
            at,
            refs_before(slots, at) as int,
            rest,
        ),
    decreases at - from,
{
    if from < at {
        assert(has_value(slots, values, reads, from));
        lemma_has_value(slots, values, reads, from);
        lemma_refs_before(slots, from + 1);
        let value = slot_binding(slots, values, reads, from);
        let next = if takes_secret(slots[from]) {
            bound.with_secret(slots[from].key, value)
        } else {
            bound.with_plain(slots[from].key, value)
        };
        lemma_binding_ends(slots, values, reads, from + 1, next, at)
    } else {
        bound
    }
}

/// The first slot without its value decides: a secret that it refers to is asked for, and anything
/// else that it lacks is told. Where no output's name ends in `Ref`, no secret is asked for.
pub proof fn the_first_slot_without_its_value_decides(
    slots: Seq<SlotView>,
    values: Seq<SlotValueView>,
    reads: Seq<Result<Seq<char>, Seq<char>>>,
    at: int,
)
    requires
        values.len() == slots.len(),
        0 <= at < slots.len(),
        forall|i: int| 0 <= i < at ==> #[trigger] has_value(slots, values, reads, i),
        !has_value(slots, values, reads, at),
    ensures
        bind_step(slots, values, reads) == match values[at] {
            SlotValueView::Unpublished | SlotValueView::Missing => BindStepView::Failed(
                TargetErrorView::Config(
                    "cloudflare.input.unbound: "@ + slots[at].key + " requires "@
                        + slots[at].producer + "."@ + slots[at].output,
                ),
            ),
            SlotValueView::Unreadable(reason) => BindStepView::Failed(
                TargetErrorView::Config(reason),
            ),
            SlotValueView::Found(text) => if !"docker-secret://"@.is_prefix_of(text) {
                BindStepView::Failed(
                    TargetErrorView::Config(
                        "unsupported secret reference "@ + debug_quoted(text)
                            + "; plaintext values never cross core"@,
                    ),
                )
            } else if !is_confined(text.skip(16)) {
                BindStepView::Failed(
                    TargetErrorView::Config(
                        "secret reference "@ + debug_quoted(text)
                            + " must name a file under the secret root"@,
                    ),
                )
            } else if refs_before(slots, at) >= reads.len() {
                BindStepView::ReadSecret(text.skip(16))
            } else {
                BindStepView::Failed(
                    TargetErrorView::Config(
                        "cannot resolve secret ref "@ + debug_quoted(text) + ": "@
                            + reads[refs_before(slots, at) as int]->Err_0,
                    ),
                )
            },
        },
        bind_step(slots, values, reads) is ReadSecret ==> ends_in_ref(slots[at].output),
{
    let rest = lemma_binding_ends(slots, values, reads, 0, BindingsView::none(), at);
    lemma_has_value(slots, values, reads, at);
    lemma_refs_before(slots, 0);
    if let SlotValueView::Found(text) = values[at] {
        lemma_secret_name(text);
    }
    assert(unbound_message(slots[at]) =~= "cloudflare.input.unbound: "@ + slots[at].key
        + " requires "@ + slots[at].producer + "."@ + slots[at].output);
}

/// The producer's item is found wherever it stands among the outputs.
proof fn lemma_published(items: Seq<UpstreamView>, producer: Seq<u8>, from: int, at: int)
    requires
        0 <= from <= at < items.len(),
        items[at].component_spec_hash == producer,
        forall|j: int|
            from <= j < at ==> (#[trigger] items[j]).component_spec_hash != producer,
    ensures
        output_from(items, producer, from) == Some(items[at].values_json),
    decreases at - from,
{
    if from < at {
        assert(items[from].component_spec_hash != producer);
        lemma_published(items, producer, from + 1, at);
    }
}

/// Nothing is found of a producer that no item is of.
proof fn lemma_unpublished(items: Seq<UpstreamView>, producer: Seq<u8>, from: int)
    requires
        0 <= from,
        forall|j: int|
            0 <= j < items.len() ==> (#[trigger] items[j]).component_spec_hash != producer,
    ensures
        output_from(items, producer, from) is None,
    decreases items.len() - from,
{
    if from < items.len() {
        lemma_unpublished(items, producer, from + 1);
    }
}

/// A slot takes its value from what the producer with its hash has published in this level, under
/// its output's name: the text of a string, any other value as it is written in JSON.
pub proof fn slots_take_their_producers_values(desired: DesiredView, slot: SlotView, at: int)
    requires
        0 <= at < desired.upstream_outputs.len(),
        desired.upstream_outputs[at].component_spec_hash == slot.producer_spec_hash,
        forall|j: int|
            0 <= j < at ==> (#[trigger] desired.upstream_outputs[j]).component_spec_hash
                != slot.producer_spec_hash,
    ensures
        desired.published(slot.producer_spec_hash) == Some(
            desired.upstream_outputs[at].values_json,
        ),
        match json_parsed(desired.upstream_outputs[at].values_json) {
            Err(error) => slot_value(desired, slot) == SlotValueView::Unreadable(
                json_error_message(error),
            ),
            Ok(value) => {
                &&& !json_members(value).contains_key(slot.output) ==> slot_value(desired, slot)
                    == SlotValueView::Missing
                &&& json_members(value).contains_key(slot.output) ==> {
                    let member = json_members(value)[slot.output];
                    &&& json_string(member) matches Some(text) ==> slot_value(desired, slot)
                        == SlotValueView::Found(text)
                    &&& json_string(member) is None ==> slot_value(desired, slot)
                        == SlotValueView::Found(json_compact(member))
                }
            },
        },
{
    lemma_published(desired.upstream_outputs, slot.producer_spec_hash, 0, at);
}

/// A slot whose producer has published nothing in this level has no value.
pub proof fn slots_of_silent_producers_have_no_value(desired: DesiredView, slot: SlotView)
    requires
        forall|j: int|
            0 <= j < desired.upstream_outputs.len() ==> (
            #[trigger] desired.upstream_outputs[j]).component_spec_hash != slot.producer_spec_hash,
    ensures
        desired.published(slot.producer_spec_hash) is None,
        slot_value(desired, slot) == SlotValueView::Unpublished,
{
    lemma_unpublished(desired.upstream_outputs, slot.producer_spec_hash, 0);
}

/// Each slot of a component is bound to its own value in the level.
pub proof fn components_bind_each_slot_to_its_value(
    desired: DesiredView,
    component: PinView,
    values: Seq<SlotValueView>,
    reads: Seq<Result<Seq<char>, Seq<char>>>,
)
    requires
        values.len() == component.context.slots.len(),
        forall|i: int|
            0 <= i < values.len() ==> #[trigger] values[i] == slot_value(
                desired,
                component.context.slots[i],
            ),
    ensures
        resolved(desired, component, reads) == bind_step(component.context.slots, values, reads),
{
    assert(values =~= slot_values(desired, component.context.slots));
}

/// The part of a path leads up.
pub open spec fn leads_up(part: Seq<char>) -> bool {
    part =~= seq!['.', '.']
}

/// The part of a path leads down: it is neither empty nor made of one or two periods only.
pub open spec fn leads_down(part: Seq<char>) -> bool {
    part.len() > 0 && !(part =~= seq!['.']) && !(part =~= seq!['.', '.'])
}

/// How deep a walk leads is how many of its parts lead down less how many lead up.
proof fn lemma_depth_counts(parts: Seq<Seq<char>>, n: int)
    requires
        0 <= n <= parts.len(),
    ensures
        depth_after(parts, n) == count_of(parts.take(n), |part: Seq<char>| leads_down(part))
            - count_of(parts.take(n), |part: Seq<char>| leads_up(part)),
    decreases n,
{
    if n > 0 {
        reveal_strlit(".");
        reveal_strlit("..");
        lemma_depth_counts(parts, n - 1);
        lemma_count_next(parts, |part: Seq<char>| leads_down(part), n - 1);
        lemma_count_next(parts, |part: Seq<char>| leads_up(part), n - 1);
        let part = parts[n - 1];
        assert(part == "."@ <==> part =~= seq!['.']) by {
            assert("."@ =~= seq!['.']);
        }
        assert(part == ".."@ <==> part =~= seq!['.', '.']) by {
            assert(".."@ =~= seq!['.', '.']);
        }
    }
}

/// A name stays under the secret root exactly when it does not begin with a slash and among its
/// first parts, however many are taken, no more lead up than down.
pub proof fn confined_names_never_climb_out(name: Seq<char>)
    ensures
        is_confined(name) <==> {
            let parts = path_parts(name);
            &&& name.len() == 0 || name[0] != '/'
            &&& forall|n: int|
                0 <= n <= parts.len() ==> count_of(
                    #[trigger] parts.take(n),
                    |part: Seq<char>| leads_up(part),
                ) <= count_of(parts.take(n), |part: Seq<char>| leads_down(part))
        },
{
    reveal_strlit("/");
    let parts = path_parts(name);
    assert("/"@.is_prefix_of(name) <==> name.len() > 0 && name[0] == '/') by {
        if name.len() > 0 && name[0] == '/' {
            assert(name.subrange(0, 1) =~= "/"@);
        }
        if "/"@.is_prefix_of(name) {
            assert(name.subrange(0, 1)[0] == '/');
        }
    }
    if is_confined(name) {
        assert forall|n: int| 0 <= n <= parts.len() implies count_of(
            #[trigger] parts.take(n),
            |part: Seq<char>| leads_up(part),
        ) <= count_of(parts.take(n), |part: Seq<char>| leads_down(part)) by {
            lemma_depth_counts(parts, n);
            assert(0 <= depth_after(parts, n));
        }
    }
    if forall|n: int|
        0 <= n <= parts.len() ==> count_of(
            #[trigger] parts.take(n),
            |part: Seq<char>| leads_up(part),
        ) <= count_of(parts.take(n), |part: Seq<char>| leads_down(part)) {
        assert forall|n: int| 0 <= n <= parts.len() implies 0 <= #[trigger] depth_after(
            parts,
            n,
        ) by {
            lemma_depth_counts(parts, n);
            assert(parts.take(n) == parts.take(n));
        }
    }
}

} // verus!
