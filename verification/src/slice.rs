//! Complete Cloudflare desired levels.

use iddqd::IdOrdMap;
use vstd::prelude::*;
use vstd::string::*;
use vstd::utf8::*;

use crate::bindings::same_but_producer_names;
use crate::context::{accepted_context, ComponentContext, ContextView, SlotView};
use crate::hexadecimal::lower_hex;
use crate::json::json_text;
use crate::model::{copy_bytes, result_view, views};
use crate::outside::{
    blake3_digest, blake3_hash, debug_quoted, debug_text, hasher_finish, hasher_input, hasher_new,
    hasher_update, outputs, outputs_copy, outputs_from, outputs_list, pins, pins_copy, pins_insert,
    pins_new,
};
use crate::wire::desired_json;

verus! {

/// Complete validated desired level plus transition-owned removals.
#[derive(Debug, PartialEq, Eq)]
pub struct DesiredSlice {
    pub graph_id: [u8; 16],
    pub generation: u64,
    pub sequence: u64,
    pub components: IdOrdMap<ComponentPin>,
    pub upstream_outputs: IdOrdMap<UpstreamOutput>,
    pub removed_components: Vec<ComponentPin>,
}

/// One immutable component.
#[derive(Debug, PartialEq, Eq)]
pub struct ComponentPin {
    pub spec_hash: [u8; 32],
    pub name: String,
    pub context: ComponentContext,
}

/// Canonical upstream values keyed by producer spec hash.
#[derive(Debug, PartialEq, Eq)]
pub struct UpstreamOutput {
    pub component_spec_hash: [u8; 32],
    pub values_json: Vec<u8>,
}

/// One component of a level as core sends it.
#[derive(Debug, PartialEq, Eq)]
pub struct SliceComponent {
    pub spec_hash: [u8; 32],
    pub name: String,
    /// The outcome of parsing the connector's opaque context.
    pub connector_context: Result<ComponentContext, String>,
}

/// A level as core sends it.
#[derive(Debug, PartialEq, Eq)]
pub struct TargetSlice {
    pub graph_id: [u8; 16],
    pub generation: u64,
    pub sequence: u64,
    pub components: Vec<SliceComponent>,
    pub upstream_outputs: Vec<UpstreamOutput>,
}

/// A level that the connector cannot take.
#[derive(Debug, PartialEq, Eq)]
pub struct ContractError {
    pub message: String,
}

// ---------------------------------------------------------------------------
// Keys
// ---------------------------------------------------------------------------
/// The order of spec hashes: by the first byte in which they differ.
pub open spec fn hash_less(a: Seq<u8>, b: Seq<u8>) -> bool {
    exists|k: int|
        0 <= k < a.len() && k < b.len() && #[trigger] a[k] < b[k] && forall|j: int|
            0 <= j < k ==> #[trigger] a[j] == b[j]
}

impl iddqd::IdOrdItem for ComponentPin {
    type Key<'a> = [u8; 32];

    fn key(&self) -> (key: [u8; 32])
        ensures
            key == self.spec_hash,
    {
        self.spec_hash
    }

    fn upcast_key<'short, 'long: 'short>(long: [u8; 32]) -> (key: [u8; 32])
        ensures
            key == long,
    {
        long
    }
}

impl iddqd::IdOrdItem for UpstreamOutput {
    type Key<'a> = [u8; 32];

    fn key(&self) -> (key: [u8; 32])
        ensures
            key == self.component_spec_hash,
    {
        self.component_spec_hash
    }

    fn upcast_key<'short, 'long: 'short>(long: [u8; 32]) -> (key: [u8; 32])
        ensures
            key == long,
    {
        long
    }
}

/// Whether two spec hashes are equal.
pub fn same_hash(a: &[u8; 32], b: &[u8; 32]) -> (same: bool)
    ensures
        same == (a@ == b@),
{
    for i in 0..32
        invariant
            forall|j: int| 0 <= j < i ==> a@[j] == b@[j],
    {
        if a[i] != b[i] {
            return false;
        }
    }
    assert(a@ =~= b@);
    true
}

// ---------------------------------------------------------------------------
// Views
// ---------------------------------------------------------------------------
/// What a `DesiredSlice` says.
pub struct DesiredView {
    pub graph_id: Seq<u8>,
    pub generation: nat,
    pub sequence: nat,
    pub components: Seq<PinView>,
    pub upstream_outputs: Seq<UpstreamView>,
    pub removed_components: Seq<PinView>,
}

/// What a `ComponentPin` says.
pub struct PinView {
    pub spec_hash: Seq<u8>,
    pub name: Seq<char>,
    pub context: ContextView,
}

/// What an `UpstreamOutput` says.
pub struct UpstreamView {
    pub component_spec_hash: Seq<u8>,
    pub values_json: Seq<u8>,
}

/// What a `SliceComponent` says.
pub struct SliceComponentView {
    pub spec_hash: Seq<u8>,
    pub name: Seq<char>,
    pub connector_context: Result<ContextView, Seq<char>>,
}

/// What a `TargetSlice` says.
pub struct TargetSliceView {
    pub graph_id: Seq<u8>,
    pub generation: nat,
    pub sequence: nat,
    pub components: Seq<SliceComponentView>,
    pub upstream_outputs: Seq<UpstreamView>,
}

impl View for DesiredSlice {
    type V = DesiredView;

    open spec fn view(&self) -> DesiredView {
        DesiredView {
            graph_id: self.graph_id@,
            generation: self.generation as nat,
            sequence: self.sequence as nat,
            components: views(pins(self.components)),
            upstream_outputs: views(outputs(self.upstream_outputs)),
            removed_components: views(self.removed_components@),
        }
    }
}

impl View for ComponentPin {
    type V = PinView;

    open spec fn view(&self) -> PinView {
        PinView { spec_hash: self.spec_hash@, name: self.name@, context: self.context@ }
    }
}

impl View for UpstreamOutput {
    type V = UpstreamView;

    open spec fn view(&self) -> UpstreamView {
        UpstreamView {
            component_spec_hash: self.component_spec_hash@,
            values_json: self.values_json@,
        }
    }
}

impl View for SliceComponent {
    type V = SliceComponentView;

    open spec fn view(&self) -> SliceComponentView {
        SliceComponentView {
            spec_hash: self.spec_hash@,
            name: self.name@,
            connector_context: result_view(self.connector_context),
        }
    }
}

impl View for TargetSlice {
    type V = TargetSliceView;

    open spec fn view(&self) -> TargetSliceView {
        TargetSliceView {
            graph_id: self.graph_id@,
            generation: self.generation as nat,
            sequence: self.sequence as nat,
            components: views(self.components@),
            upstream_outputs: views(self.upstream_outputs@),
        }
    }
}

impl View for ContractError {
    type V = Seq<char>;

    open spec fn view(&self) -> Seq<char> {
        self.message@
    }
}

impl DesiredView {
    /// Components and upstream outputs stand in the order of their keys, and no key occurs twice.
    pub open spec fn ordered(self) -> bool {
        &&& pins_ascending(self.components)
        &&& outputs_ascending(self.upstream_outputs)
    }
}

/// Components in the order of their spec hashes, no two with the same.
pub open spec fn pins_ascending(items: Seq<PinView>) -> bool {
    forall|i: int, j: int|
        0 <= i < j < items.len() ==> hash_less(
            (#[trigger] items[i]).spec_hash,
            (#[trigger] items[j]).spec_hash,
        )
}

/// Upstream outputs in the order of their producers' spec hashes, no two with the same.
pub open spec fn outputs_ascending(items: Seq<UpstreamView>) -> bool {
    forall|i: int, j: int|
        0 <= i < j < items.len() ==> hash_less(
            (#[trigger] items[i]).component_spec_hash,
            (#[trigger] items[j]).component_spec_hash,
        )
}

impl Clone for ComponentPin {
    fn clone(&self) -> (copy: Self)
        ensures
            copy@ == self@,
    {
        ComponentPin {
            spec_hash: self.spec_hash,
            name: self.name.clone(),
            context: self.context.clone(),
        }
    }
}

impl Clone for UpstreamOutput {
    fn clone(&self) -> (copy: Self)
        ensures
            copy@ == self@,
    {
        UpstreamOutput {
            component_spec_hash: self.component_spec_hash,
            values_json: copy_bytes(self.values_json.as_slice()),
        }
    }
}

impl Clone for DesiredSlice {
    fn clone(&self) -> (copy: Self)
        ensures
            copy@ == self@,
    {
        let removed_components = self.removed_components.clone();
        assert(views(removed_components@) =~= views(self.removed_components@));
        DesiredSlice {
            graph_id: self.graph_id,
            generation: self.generation,
            sequence: self.sequence,
            components: pins_copy(&self.components),
            upstream_outputs: outputs_copy(&self.upstream_outputs),
            removed_components,
        }
    }
}

impl ContractError {
    /// A violation that the target boundary found.
    pub fn target(message: String) -> (error: ContractError)
        ensures
            error@ == message@,
    {
        ContractError { message }
    }
}

// ---------------------------------------------------------------------------
// Decoding
// ---------------------------------------------------------------------------
/// An earlier component has the spec hash of the one at `at`.
pub open spec fn repeats_component(items: Seq<SliceComponentView>, at: int) -> bool {
    exists|j: int| 0 <= j < at && #[trigger] items[j].spec_hash == items[at].spec_hash
}

/// What is wrong with the component at `at`, if anything.
pub open spec fn component_problem(items: Seq<SliceComponentView>, at: int) -> Option<Seq<char>> {
    match accepted_context(items[at].connector_context) {
        Err(error) => Some(
            "component "@ + debug_quoted(items[at].name) + ": "@ + error.message(),
        ),
        Ok(_) => if repeats_component(items, at) {
            Some("duplicate component hash"@)
        } else {
            None
        },
    }
}

/// What is wrong with the first faulty component from `from` on.
pub open spec fn components_problem(items: Seq<SliceComponentView>, from: int) -> Option<Seq<char>>
    decreases items.len() - from,
{
    if from >= items.len() {
        None
    } else {
        match component_problem(items, from) {
            Some(problem) => Some(problem),
            None => components_problem(items, from + 1),
        }
    }
}

/// Two upstream outputs come from the same producer.
pub open spec fn repeats_output(items: Seq<UpstreamView>) -> bool {
    exists|i: int, j: int|
        0 <= i < j < items.len() && (#[trigger] items[i]).component_spec_hash == (
        #[trigger] items[j]).component_spec_hash
}

/// What is wrong with a level, if anything.
pub open spec fn slice_problem(slice: TargetSliceView) -> Option<Seq<char>> {
    match components_problem(slice.components, 0) {
        Some(problem) => Some(problem),
        None => if repeats_output(slice.upstream_outputs) {
            Some("duplicate upstream output"@)
        } else {
            None
        },
    }
}

/// The component that an item of a level stands for.
pub open spec fn pinned(item: SliceComponentView) -> PinView {
    PinView {
        spec_hash: item.spec_hash,
        name: item.name,
        context: item.connector_context->Ok_0,
    }
}

/// `desired` holds what `slice` asks for: every component and every upstream output, ordered by
/// key, and no removals.
pub open spec fn decodes_to(slice: TargetSliceView, desired: DesiredView) -> bool {
    &&& desired.graph_id == slice.graph_id
    &&& desired.generation == slice.generation
    &&& desired.sequence == slice.sequence
    &&& desired.ordered()
    &&& desired.components.to_multiset() == slice.components.map_values(
        |item: SliceComponentView| pinned(item),
    ).to_multiset()
    &&& desired.upstream_outputs.to_multiset() == slice.upstream_outputs.to_multiset()
    &&& desired.removed_components == Seq::<PinView>::empty()
}

/// Copies the outcome of parsing a context.
fn copy_parsed(parsed: &Result<ComponentContext, String>) -> (copy: Result<
    ComponentContext,
    String,
>)
    ensures
        result_view(copy) == result_view(*parsed),
{
    match parsed {
        Ok(context) => Ok(context.clone()),
        Err(message) => Err(message.clone()),
    }
}

impl DesiredSlice {
    /// Decode a level: check each context and that no key occurs twice.
    pub fn decode(slice: &TargetSlice) -> (decoded: Result<DesiredSlice, ContractError>)
        requires
            slice.components@.len() <= u32::MAX,
            slice.upstream_outputs@.len() <= u32::MAX,
        ensures
            match decoded {
                Ok(desired) => slice_problem(slice@) is None && decodes_to(slice@, desired@),
                Err(error) => slice_problem(slice@) == Some(error@),
            },
    {
        let mut components = pins_new();
        let ghost items = slice@.components;
        let ghost wanted = items.map_values(|item: SliceComponentView| pinned(item));
        assert(views(pins(components)) =~= wanted.take(0));
        for i in 0..slice.components.len()
            invariant
                slice.components@.len() <= u32::MAX,
                items == slice@.components,
                wanted == items.map_values(|item: SliceComponentView| pinned(item)),
                components_problem(items, 0) == components_problem(items, i as int),
                pins(components).len() == i,
                views(pins(components)).to_multiset() == wanted.take(i as int).to_multiset(),
                pins_ascending(views(pins(components))),
        {
            let item = &slice.components[i];
            assert(items[i as int] == item@);
            match ComponentContext::from_parsed(copy_parsed(&item.connector_context)) {
                Err(error) => {
                    return Err(
                        ContractError::target(
                            "component ".to_owned().concat(
                                debug_text(item.name.as_str()).as_str(),
                            ).concat(": ").concat(error.message().as_str()),
                        ),
                    );
                },
                Ok(context) => {
                    let pin = ComponentPin {
                        spec_hash: item.spec_hash,
                        name: item.name.clone(),
                        context,
                    };
                    let ghost before = pins(components);
                    assert(pin@ == wanted[i as int]);
                    let inserted = pins_insert(&mut components, pin);
                    assert(inserted == !repeats_component(items, i as int)) by {
                        lemma_has_hash(before, pin.spec_hash@);
                        lemma_same_hashes(views(before), wanted.take(i as int), pin.spec_hash@);
                        lemma_repeats_component(items, i as int);
                    }
                    if !inserted {
                        return Err(ContractError::target("duplicate component hash".to_owned()));
                    }
                    proof {
                        let at = choose|at: int|
                            0 <= at <= before.len() && pins(components) == #[trigger] before.insert(
                                at,
                                pin,
                            );
                        lemma_inserted(before, at, pin);
                        assert(wanted.take(i + 1) =~= wanted.take(i as int).push(wanted[i as int]));
                        wanted.take(i as int).to_multiset_ensures();
                    }
                },
            }
        }
        assert(wanted.take(items.len() as int) =~= wanted);
        let sent = slice.upstream_outputs.clone();
        assert(views(sent@) =~= slice@.upstream_outputs);
        match outputs_from(sent) {
            None => Err(ContractError::target("duplicate upstream output".to_owned())),
            Some(upstream_outputs) => {
                let removed_components: Vec<ComponentPin> = Vec::new();
                let desired = DesiredSlice {
                    graph_id: slice.graph_id,
                    generation: slice.generation,
                    sequence: slice.sequence,
                    components,
                    upstream_outputs,
                    removed_components,
                };
                assert(desired@.removed_components =~= Seq::<PinView>::empty());
                Ok(desired)
            },
        }
    }
}

// ---------------------------------------------------------------------------
// Identity of a level and of a deployment
// ---------------------------------------------------------------------------
/// The values of the first of these outputs, from `from` on, that this producer published.
pub open spec fn output_from(items: Seq<UpstreamView>, producer: Seq<u8>, from: int) -> Option<
    Seq<u8>,
>
    decreases items.len() - from,
{
    if from >= items.len() {
        None
    } else if items[from].component_spec_hash == producer {
        Some(items[from].values_json)
    } else {
        output_from(items, producer, from + 1)
    }
}

/// What the slots of a component add to its deployment's identity: for each slot the producer,
/// the output and, where the producer has published, all of its values.
pub open spec fn slots_identity(desired: DesiredView, slots: Seq<SlotView>) -> Seq<u8>
    decreases slots.len(),
{
    if slots.len() == 0 {
        Seq::empty()
    } else {
        let slot = slots.last();
        let named = slots_identity(desired, slots.drop_last()) + slot.producer_spec_hash
            + encode_utf8(slot.output);
        match desired.published(slot.producer_spec_hash) {
            Some(values) => named + values,
            None => named,
        }
    }
}

/// The bytes whose hash identifies the deployment of a component.
pub open spec fn deployment_identity(desired: DesiredView, component: PinView) -> Seq<u8> {
    encode_utf8("henosis.dev/cloudflare-deployment/v1\0"@) + component.spec_hash + slots_identity(
        desired,
        component.context.slots,
    )
}

impl DesiredView {
    /// The values that a producer has published in this level.
    pub open spec fn published(self, producer: Seq<u8>) -> Option<Seq<u8>> {
        output_from(self.upstream_outputs, producer, 0)
    }
}

impl DesiredSlice {
    /// The BLAKE3 hash of the whole level, written as JSON.
    #[must_use]
    pub fn digest(&self) -> (digest: [u8; 32])
        ensures
            digest@ == blake3_digest(encode_utf8(json_text(desired_json(self@)))),
    {
        let text = self.to_json().to_text();
        blake3_hash(text.as_str().as_bytes())
    }

    /// The identity of a component's deployment: it follows from the component and the outputs
    /// that its slots consume.
    #[must_use]
    pub fn deployment_key(&self, component: &ComponentPin) -> (key: String)
        ensures
            key@ == lower_hex(blake3_digest(deployment_identity(self@, component@))),
            key@.len() == 64,
    {
        let mut hasher = hasher_new();
        hasher_update(&mut hasher, "henosis.dev/cloudflare-deployment/v1\0".as_bytes());
        hasher_update(&mut hasher, component.spec_hash.as_slice());
        let ghost slots = component@.context.slots;
        let ghost head = encode_utf8("henosis.dev/cloudflare-deployment/v1\0"@)
            + component@.spec_hash;
        assert(hasher_input(hasher) =~= head + slots_identity(self@, slots.take(0)));
        for i in 0..component.context.slots.len()
            invariant
                slots == component@.context.slots,
                hasher_input(hasher) == head + slots_identity(self@, slots.take(i as int)),
        {
            let slot = &component.context.slots[i];
            assert(slots[i as int] == slot@);
            assert(slots.take(i + 1).drop_last() =~= slots.take(i as int));
            let ghost earlier = slots_identity(self@, slots.take(i as int));
            hasher_update(&mut hasher, slot.producer_spec_hash.as_slice());
            hasher_update(&mut hasher, slot.output.as_str().as_bytes());
            match self.find_output(&slot.producer_spec_hash) {
                Some(output) => {
                    hasher_update(&mut hasher, output.values_json.as_slice());
                    assert(hasher_input(hasher) =~= head + (earlier + slot@.producer_spec_hash
                        + encode_utf8(slot@.output) + output.values_json@));
                },
                None => {
                    assert(hasher_input(hasher) =~= head + (earlier + slot@.producer_spec_hash
                        + encode_utf8(slot@.output)));
                },
            }
        }
        assert(slots.take(slots.len() as int) =~= slots);
        hasher_finish(&hasher)
    }

    /// What a producer has published in this level.
    pub fn find_output(&self, producer: &[u8; 32]) -> (output: Option<&UpstreamOutput>)
        ensures
            match output {
                Some(output) => self@.published(producer@) == Some(output.values_json@),
                None => self@.published(producer@) is None,
            },
    {
        let list = outputs_list(&self.upstream_outputs);
        let ghost items = self@.upstream_outputs;
        for i in 0..list.len()
            invariant
                items == self@.upstream_outputs,
                list@.len() == items.len(),
                forall|j: int| 0 <= j < list@.len() ==> (#[trigger] list@[j])@ == items[j],
                output_from(items, producer@, 0) == output_from(items, producer@, i as int),
        {
            let output = list[i];
            assert(output@ == items[i as int]);
            if same_hash(&output.component_spec_hash, producer) {
                return Some(output);
            }
        }
        None
    }
}

/// A component of the list has this spec hash.
spec fn has_hash(items: Seq<PinView>, hash: Seq<u8>) -> bool {
    exists|k: int| 0 <= k < items.len() && (#[trigger] items[k]).spec_hash == hash
}

/// A component has a spec hash where its view has.
proof fn lemma_has_hash(items: Seq<ComponentPin>, hash: Seq<u8>)
    ensures
        has_hash(views(items), hash) == exists|k: int|
            0 <= k < items.len() && #[trigger] items[k].spec_hash@ == hash,
{
    if exists|k: int| 0 <= k < items.len() && #[trigger] items[k].spec_hash@ == hash {
        let k = choose|k: int| 0 <= k < items.len() && #[trigger] items[k].spec_hash@ == hash;
        assert(views(items)[k].spec_hash == hash);
    }
    if has_hash(views(items), hash) {
        let k = choose|k: int|
            0 <= k < views(items).len() && (#[trigger] views(items)[k]).spec_hash == hash;
        assert(items[k].spec_hash@ == hash);
    }
}

/// Lists of the same components have the same spec hashes.
proof fn lemma_same_hashes(a: Seq<PinView>, b: Seq<PinView>, hash: Seq<u8>)
    requires
        a.to_multiset() == b.to_multiset(),
    ensures
        has_hash(a, hash) == has_hash(b, hash),
{
    if has_hash(a, hash) {
        let k = choose|k: int| 0 <= k < a.len() && (#[trigger] a[k]).spec_hash == hash;
        assert(a.contains(a[k]));
        vstd::seq_lib::to_multiset_contains(a, a[k]);
        vstd::seq_lib::to_multiset_contains(b, a[k]);
        assert(b.contains(a[k]));
    }
    if has_hash(b, hash) {
        let k = choose|k: int| 0 <= k < b.len() && (#[trigger] b[k]).spec_hash == hash;
        assert(b.contains(b[k]));
        vstd::seq_lib::to_multiset_contains(b, b[k]);
        vstd::seq_lib::to_multiset_contains(a, b[k]);
        assert(a.contains(b[k]));
    }
}

/// An item repeats where the earlier components have its spec hash.
proof fn lemma_repeats_component(items: Seq<SliceComponentView>, at: int)
    requires
        0 <= at < items.len(),
    ensures
        repeats_component(items, at) == has_hash(
            items.map_values(|item: SliceComponentView| pinned(item)).take(at),
            items[at].spec_hash,
        ),
{
    let earlier = items.map_values(|item: SliceComponentView| pinned(item)).take(at);
    if repeats_component(items, at) {
        let j = choose|j: int| 0 <= j < at && #[trigger] items[j].spec_hash == items[at].spec_hash;
        assert(earlier[j].spec_hash == items[at].spec_hash);
    }
    if has_hash(earlier, items[at].spec_hash) {
        let j = choose|j: int|
            0 <= j < earlier.len() && (#[trigger] earlier[j]).spec_hash == items[at].spec_hash;
        assert(items[j].spec_hash == items[at].spec_hash);
    }
}

/// The views of a list with one item put in, and their order-free content.
proof fn lemma_inserted(before: Seq<ComponentPin>, at: int, pin: ComponentPin)
    requires
        0 <= at <= before.len(),
    ensures
        before.insert(at, pin).len() == before.len() + 1,
        views(before.insert(at, pin)).to_multiset() == views(before).to_multiset().insert(pin@),
{
    assert(views(before.insert(at, pin)) =~= views(before).insert(at, pin@));
    vstd::seq_lib::to_multiset_insert(views(before), at, pin@);
}

// ---------------------------------------------------------------------------
// Laws
// ---------------------------------------------------------------------------
/// Two levels agree on what the producers of these slots have published.
pub open spec fn same_consumed(a: DesiredView, b: DesiredView, slots: Seq<SlotView>) -> bool {
    forall|i: int|
        0 <= i < slots.len() ==> a.published((#[trigger] slots[i]).producer_spec_hash)
            == b.published(slots[i].producer_spec_hash)
}

/// Slots add the same to a deployment's identity in levels that agree on their producers.
proof fn lemma_same_consumed(a: DesiredView, b: DesiredView, slots: Seq<SlotView>)
    requires
        same_consumed(a, b, slots),
    ensures
        slots_identity(a, slots) == slots_identity(b, slots),
    decreases slots.len(),
{
    if slots.len() > 0 {
        assert(same_consumed(a, b, slots.drop_last())) by {
            assert forall|i: int| 0 <= i < slots.drop_last().len() implies a.published(
                (#[trigger] slots.drop_last()[i]).producer_spec_hash,
            ) == b.published(slots.drop_last()[i].producer_spec_hash) by {
                assert(slots.drop_last()[i] == slots[i]);
            }
        }
        lemma_same_consumed(a, b, slots.drop_last());
        assert(slots[slots.len() - 1] == slots.last());
    }
}

/// A deployment's identity does not follow the level's: whatever else two levels differ in, their
/// graph, generation and sequence included, a component has the same deployment in both as long as
/// they agree on what its producers have published.
pub proof fn deployments_ignore_the_level(a: DesiredView, b: DesiredView, component: PinView)
    requires
        same_consumed(a, b, component.context.slots),
    ensures
        deployment_identity(a, component) == deployment_identity(b, component),
{
    lemma_same_consumed(a, b, component.context.slots);
}

/// Slots that differ at most in the names of their producers add the same to a deployment's
/// identity.
proof fn lemma_identity_ignores_names(desired: DesiredView, a: Seq<SlotView>, b: Seq<SlotView>)
    requires
        same_but_producer_names(a, b),
    ensures
        slots_identity(desired, a) == slots_identity(desired, b),
    decreases a.len(),
{
    if a.len() > 0 {
        let n = a.len() - 1;
        assert(a[n] == (SlotView { producer: a[n].producer, ..b[n] }));
        assert forall|i: int| 0 <= i < n implies #[trigger] a.drop_last()[i] == (SlotView {
            producer: a.drop_last()[i].producer,
            ..b.drop_last()[i]
        }) by {
            assert(a[i] == (SlotView { producer: a[i].producer, ..b[i] }));
        }
        lemma_identity_ignores_names(desired, a.drop_last(), b.drop_last());
    }
}

/// The names of producers are for diagnostics only: components of the same spec hash whose slots
/// differ in nothing else have the same deployment.
pub proof fn deployments_ignore_producer_names(
    desired: DesiredView,
    first: PinView,
    second: PinView,
)
    requires
        first.spec_hash == second.spec_hash,
        same_but_producer_names(first.context.slots, second.context.slots),
    ensures
        deployment_identity(desired, first) == deployment_identity(desired, second),
{
    lemma_identity_ignores_names(desired, first.context.slots, second.context.slots);
}

impl DesiredView {
    /// The bytes that a slot of this producer takes from the level; none where the producer has
    /// published nothing.
    pub open spec fn consumed(self, producer: Seq<u8>) -> Seq<u8> {
        match self.published(producer) {
            Some(values) => values,
            None => Seq::empty(),
        }
    }
}

/// What slots add to a deployment's identity where one producer publishes other values.
proof fn lemma_changed_producer(
    a: DesiredView,
    b: DesiredView,
    slots: Seq<SlotView>,
    producer: Seq<u8>,
)
    requires
        a.consumed(producer) != b.consumed(producer),
        a.consumed(producer).len() <= b.consumed(producer).len(),
        forall|i: int|
            0 <= i < slots.len() && (#[trigger] slots[i]).producer_spec_hash != producer
                ==> a.consumed(slots[i].producer_spec_hash) == b.consumed(
                slots[i].producer_spec_hash,
            ),
    ensures
        ({
            let x = slots_identity(a, slots);
            let y = slots_identity(b, slots);
            let consumed = exists|i: int|
                0 <= i < slots.len() && (#[trigger] slots[i]).producer_spec_hash == producer;
            &&& x.len() <= y.len()
            &&& a.consumed(producer).len() == b.consumed(producer).len()
                ==> x.len() == y.len()
            &&& a.consumed(producer).len() < b.consumed(producer).len()
                && consumed ==> x.len() < y.len()
            &&& consumed ==> x != y
            &&& !consumed ==> x == y
        }),
    decreases slots.len(),
{
    if slots.len() > 0 {
        let front = slots.drop_last();
        let slot = slots.last();
        assert forall|i: int|
            0 <= i < front.len() && (#[trigger] front[i]).producer_spec_hash
                != producer implies a.consumed(front[i].producer_spec_hash) == b.consumed(
            front[i].producer_spec_hash,
        ) by {
            assert(front[i] == slots[i]);
        }
        lemma_changed_producer(a, b, front, producer);
        let x = slots_identity(a, front);
        let y = slots_identity(b, front);
        let named = slot.producer_spec_hash + encode_utf8(slot.output);
        let p = named + a.consumed(slot.producer_spec_hash);
        let q = named + b.consumed(slot.producer_spec_hash);
        assert(slots_identity(a, slots) =~= x + p);
        assert(slots_identity(b, slots) =~= y + q);
        assert(slots[slots.len() - 1] == slot);
        let before = exists|i: int|
            0 <= i < front.len() && (#[trigger] front[i]).producer_spec_hash == producer;
        if before {
            let i = choose|i: int|
                0 <= i < front.len() && (#[trigger] front[i]).producer_spec_hash == producer;
            assert(slots[i].producer_spec_hash == producer);
        }
        if exists|i: int|
            0 <= i < slots.len() && (#[trigger] slots[i]).producer_spec_hash == producer {
            let i = choose|i: int|
                0 <= i < slots.len() && (#[trigger] slots[i]).producer_spec_hash == producer;
            if i < front.len() {
                assert(front[i].producer_spec_hash == producer);
            }
        }
        if slot.producer_spec_hash == producer {
            let v = a.consumed(producer);
            let w = b.consumed(producer);
            if v.len() == w.len() {
                let k = choose|k: int| 0 <= k < v.len() && v[k] != w[k];
                assert(exists|k: int| 0 <= k < v.len() && v[k] != w[k]) by {
                    if forall|k: int| 0 <= k < v.len() ==> v[k] == w[k] {
                        assert(v =~= w);
                    }
                }
                let at = x.len() + named.len() + k;
                assert((x + p)[at] == v[k]);
                assert((y + q)[at] == w[k]);
            }
        } else {
            assert(p == q);
            if before {
                if x.len() == y.len() {
                    let k = choose|k: int| 0 <= k < x.len() && x[k] != y[k];
                    assert(exists|k: int| 0 <= k < x.len() && x[k] != y[k]) by {
                        if forall|k: int| 0 <= k < x.len() ==> x[k] == y[k] {
                            assert(x =~= y);
                        }
                    }
                    assert((x + p)[k] == x[k]);
                    assert((y + q)[k] == y[k]);
                }
            }
        }
    }
}

/// A deployment's identity follows the outputs that the component consumes: where one of its
/// producers publishes other values, or publishes at all, and the others the same, what is hashed
/// is not the same.
pub proof fn deployments_track_consumed_outputs(
    a: DesiredView,
    b: DesiredView,
    component: PinView,
    producer: Seq<u8>,
)
    requires
        exists|i: int|
            0 <= i < component.context.slots.len() && (
            #[trigger] component.context.slots[i]).producer_spec_hash == producer,
        a.consumed(producer) != b.consumed(producer),
        forall|i: int|
            0 <= i < component.context.slots.len() && (
            #[trigger] component.context.slots[i]).producer_spec_hash != producer ==> a.consumed(
                component.context.slots[i].producer_spec_hash,
            ) == b.consumed(component.context.slots[i].producer_spec_hash),
    ensures
        deployment_identity(a, component) != deployment_identity(b, component),
{
    let slots = component.context.slots;
    if a.consumed(producer).len() <= b.consumed(producer).len() {
        lemma_changed_producer(a, b, slots, producer);
    } else {
        lemma_changed_producer(b, a, slots, producer);
    }
    let head = encode_utf8("henosis.dev/cloudflare-deployment/v1\0"@) + component.spec_hash;
    let x = slots_identity(a, slots);
    let y = slots_identity(b, slots);
    if head + x == head + y {
        assert((head + x).skip(head.len() as int) =~= x);
        assert((head + y).skip(head.len() as int) =~= y);
    }
}

/// No spec hash comes before itself, and of two at most one before the other.
proof fn lemma_hash_less_asymmetric(a: Seq<u8>, b: Seq<u8>)
    requires
        hash_less(a, b),
    ensures
        !hash_less(b, a),
        a != b,
{
    let k = choose|k: int|
        0 <= k < a.len() && k < b.len() && #[trigger] a[k] < b[k] && forall|j: int|
            0 <= j < k ==> #[trigger] a[j] == b[j];
    if hash_less(b, a) {
        let m = choose|m: int|
            0 <= m < b.len() && m < a.len() && #[trigger] b[m] < a[m] && forall|j: int|
                0 <= j < m ==> #[trigger] b[j] == a[j];
        if m < k {
            assert(a[m] == b[m]);
        } else if k < m {
            assert(b[k] == a[k]);
        }
    }
}

/// Items in ascending order of their keys, no two with the same.
spec fn ascending_by<A>(items: Seq<A>, key: spec_fn(A) -> Seq<u8>) -> bool {
    forall|i: int, j: int|
        0 <= i < j < items.len() ==> hash_less(key(#[trigger] items[i]), key(#[trigger] items[j]))
}

/// Ascending lists of the same items are the same list.
proof fn lemma_ascending_unique<A>(a: Seq<A>, b: Seq<A>, key: spec_fn(A) -> Seq<u8>)
    requires
        ascending_by(a, key),
        ascending_by(b, key),
        a.to_multiset() == b.to_multiset(),
    ensures
        a == b,
    decreases a.len(),
{
    vstd::seq_lib::to_multiset_len(a);
    vstd::seq_lib::to_multiset_len(b);
    if a.len() > 0 {
        vstd::seq_lib::to_multiset_contains(a, a[0]);
        vstd::seq_lib::to_multiset_contains(b, a[0]);
        vstd::seq_lib::to_multiset_contains(a, b[0]);
        vstd::seq_lib::to_multiset_contains(b, b[0]);
        assert(a.contains(a[0]) && b.contains(b[0]));
        let k = choose|k: int| 0 <= k < b.len() && b[k] == a[0];
        let m = choose|m: int| 0 <= m < a.len() && a[m] == b[0];
        if k > 0 {
            assert(hash_less(key(b[0]), key(b[k])));
            lemma_hash_less_asymmetric(key(b[0]), key(b[k]));
            if m > 0 {
                assert(hash_less(key(a[0]), key(a[m])));
            }
        }
        assert(a[0] == b[0]);
        vstd::seq_lib::to_multiset_remove(a, 0);
        vstd::seq_lib::to_multiset_remove(b, 0);
        let x = a.remove(0);
        let y = b.remove(0);
        assert(ascending_by(x, key)) by {
            assert forall|i: int, j: int| 0 <= i < j < x.len() implies hash_less(
                key(#[trigger] x[i]),
                key(#[trigger] x[j]),
            ) by {
                assert(x[i] == a[i + 1] && x[j] == a[j + 1]);
            }
        }
        assert(ascending_by(y, key)) by {
            assert forall|i: int, j: int| 0 <= i < j < y.len() implies hash_less(
                key(#[trigger] y[i]),
                key(#[trigger] y[j]),
            ) by {
                assert(y[i] == b[i + 1] && y[j] == b[j + 1]);
            }
        }
        lemma_ascending_unique(x, y, key);
        assert(a =~= seq![a[0]] + x);
        assert(b =~= seq![b[0]] + y);
    } else {
        assert(a =~= b);
    }
}

/// A level decodes to one desired level, whatever order its components and upstream outputs come
/// in.
pub proof fn decoding_ignores_order(
    first: TargetSliceView,
    second: TargetSliceView,
    a: DesiredView,
    b: DesiredView,
)
    requires
        decodes_to(first, a),
        decodes_to(second, b),
        first.graph_id == second.graph_id,
        first.generation == second.generation,
        first.sequence == second.sequence,
        first.components.map_values(|item: SliceComponentView| pinned(item)).to_multiset()
            == second.components.map_values(|item: SliceComponentView| pinned(item)).to_multiset(),
        first.upstream_outputs.to_multiset() == second.upstream_outputs.to_multiset(),
    ensures
        a == b,
{
    lemma_ascending_unique(a.components, b.components, |pin: PinView| pin.spec_hash);
    lemma_ascending_unique(
        a.upstream_outputs,
        b.upstream_outputs,
        |output: UpstreamView| output.component_spec_hash,
    );
}

/// A level is refused exactly when a component's context is not accepted, two components have the
/// same spec hash, or two upstream outputs come from the same producer.
pub proof fn levels_are_refused_for_bad_contexts_and_repeats(slice: TargetSliceView)
    ensures
        slice_problem(slice) is None <==> {
            &&& forall|i: int|
                0 <= i < slice.components.len() ==> accepted_context(
                    (#[trigger] slice.components[i]).connector_context,
                ) is Ok
            &&& forall|i: int, j: int|
                0 <= i < j < slice.components.len() ==> (#[trigger] slice.components[i]).spec_hash
                    != (#[trigger] slice.components[j]).spec_hash
            &&& forall|i: int, j: int|
                0 <= i < j < slice.upstream_outputs.len() ==> (
                #[trigger] slice.upstream_outputs[i]).component_spec_hash != (
                #[trigger] slice.upstream_outputs[j]).component_spec_hash
        },
{
    let items = slice.components;
    if components_problem(items, 0) is None {
        lemma_components_problem(items, 0);
        assert forall|i: int, j: int| 0 <= i < j < items.len() implies (
        #[trigger] items[i]).spec_hash != (#[trigger] items[j]).spec_hash by {
            assert(component_problem(items, j) is None);
        }
        assert forall|i: int| 0 <= i < items.len() implies accepted_context(
            (#[trigger] items[i]).connector_context,
        ) is Ok by {
            assert(component_problem(items, i) is None);
        }
    }
    if (forall|i: int|
        0 <= i < items.len() ==> accepted_context((#[trigger] items[i]).connector_context) is Ok)
        && (forall|i: int, j: int|
        0 <= i < j < items.len() ==> (#[trigger] items[i]).spec_hash != (
        #[trigger] items[j]).spec_hash) {
        assert forall|i: int| 0 <= i < items.len() implies #[trigger] component_problem(
            items,
            i,
        ) is None by {
            assert(accepted_context(items[i].connector_context) is Ok);
            if repeats_component(items, i) {
                let j = choose|j: int|
                    0 <= j < i && #[trigger] items[j].spec_hash == items[i].spec_hash;
                assert(items[j].spec_hash != items[i].spec_hash);
            }
        }
        lemma_no_components_problem(items, 0);
    }
}

/// Where nothing is wrong with components, nothing is wrong with each.
proof fn lemma_components_problem(items: Seq<SliceComponentView>, from: int)
    requires
        0 <= from <= items.len(),
        components_problem(items, from) is None,
    ensures
        forall|i: int| from <= i < items.len() ==> #[trigger] component_problem(items, i) is None,
    decreases items.len() - from,
{
    if from < items.len() {
        lemma_components_problem(items, from + 1);
    }
}

/// Where nothing is wrong with each component, nothing is wrong with all.
proof fn lemma_no_components_problem(items: Seq<SliceComponentView>, from: int)
    requires
        0 <= from <= items.len(),
        forall|i: int| from <= i < items.len() ==> #[trigger] component_problem(items, i) is None,
    ensures
        components_problem(items, from) is None,
    decreases items.len() - from,
{
    if from < items.len() {
        assert(component_problem(items, from) is None);
        lemma_no_components_problem(items, from + 1);
    }
}

/// The first faulty component decides.
proof fn lemma_first_faulty(items: Seq<SliceComponentView>, from: int, at: int)
    requires
        0 <= from <= at < items.len(),
        component_problem(items, at) is Some,
        forall|i: int| from <= i < at ==> #[trigger] component_problem(items, i) is None,
    ensures
        components_problem(items, from) == component_problem(items, at),
    decreases at - from,
{
    if from < at {
        assert(component_problem(items, from) is None);
        lemma_first_faulty(items, from + 1, at);
    }
}

/// The first faulty component is told of, by its name where its context is not accepted; repeated
/// upstream outputs are told of only where no component is faulty.
pub proof fn refused_levels_tell_why(slice: TargetSliceView, at: int)
    requires
        0 <= at < slice.components.len(),
        forall|i: int|
            0 <= i < at ==> accepted_context(
                (#[trigger] slice.components[i]).connector_context,
            ) is Ok,
        forall|i: int, j: int|
            0 <= i < j < at ==> (#[trigger] slice.components[i]).spec_hash != (
            #[trigger] slice.components[j]).spec_hash,
    ensures
        accepted_context(slice.components[at].connector_context) matches Err(error)
            ==> slice_problem(slice) == Some(
            "component "@ + debug_quoted(slice.components[at].name) + ": "@ + error.message(),
        ),
        accepted_context(slice.components[at].connector_context) is Ok && (exists|j: int|
            0 <= j < at && (#[trigger] slice.components[j]).spec_hash
                == slice.components[at].spec_hash) ==> slice_problem(slice) == Some(
            "duplicate component hash"@,
        ),
{
    let items = slice.components;
    assert forall|i: int| 0 <= i < at implies #[trigger] component_problem(items, i) is None by {
        assert(accepted_context(items[i].connector_context) is Ok);
        if repeats_component(items, i) {
            let j = choose|j: int| 0 <= j < i && #[trigger] items[j].spec_hash == items[i].spec_hash;
            assert(items[j].spec_hash != items[i].spec_hash);
        }
    }
    if exists|j: int| 0 <= j < at && (#[trigger] items[j]).spec_hash == items[at].spec_hash {
        let j = choose|j: int| 0 <= j < at && (#[trigger] items[j]).spec_hash == items[at].spec_hash;
        assert(items[j].spec_hash == items[at].spec_hash);
        assert(repeats_component(items, at));
    }
    if component_problem(items, at) is Some {
        lemma_first_faulty(items, 0, at);
    }
}

/// A level whose components are in order but whose upstream outputs repeat a producer says so.
pub proof fn repeated_outputs_are_told(slice: TargetSliceView, i: int, j: int)
    requires
        components_problem(slice.components, 0) is None,
        0 <= i < j < slice.upstream_outputs.len(),
        slice.upstream_outputs[i].component_spec_hash
            == slice.upstream_outputs[j].component_spec_hash,
    ensures
        slice_problem(slice) == Some("duplicate upstream output"@),
{
    assert(repeats_output(slice.upstream_outputs));
}

/// A decoded level holds each component of the slice with its own hash, name and context, each
/// upstream output as it was sent, and nothing else.
pub proof fn decoded_levels_hold_what_was_sent(slice: TargetSliceView, desired: DesiredView)
    requires
        decodes_to(slice, desired),
    ensures
        desired.graph_id == slice.graph_id,
        desired.generation == slice.generation,
        desired.sequence == slice.sequence,
        desired.removed_components.len() == 0,
        desired.components.len() == slice.components.len(),
        desired.upstream_outputs.len() == slice.upstream_outputs.len(),
        forall|i: int|
            0 <= i < slice.components.len() ==> exists|k: int|
                {
                    &&& 0 <= k < desired.components.len()
                    &&& (#[trigger] desired.components[k]).spec_hash == (
                    #[trigger] slice.components[i]).spec_hash
                    &&& desired.components[k].name == slice.components[i].name
                    &&& desired.components[k].context == slice.components[i].connector_context->Ok_0
                },
        forall|k: int|
            0 <= k < desired.components.len() ==> exists|i: int|
                {
                    &&& 0 <= i < slice.components.len()
                    &&& (#[trigger] desired.components[k]).spec_hash == (
                    #[trigger] slice.components[i]).spec_hash
                    &&& desired.components[k].name == slice.components[i].name
                    &&& desired.components[k].context == slice.components[i].connector_context->Ok_0
                },
        forall|i: int|
            0 <= i < slice.upstream_outputs.len() ==> desired.upstream_outputs.contains(
                #[trigger] slice.upstream_outputs[i],
            ),
        forall|k: int|
            0 <= k < desired.upstream_outputs.len() ==> slice.upstream_outputs.contains(
                #[trigger] desired.upstream_outputs[k],
            ),
        forall|i: int, j: int|
            0 <= i < j < desired.components.len() ==> hash_less(
                (#[trigger] desired.components[i]).spec_hash,
                (#[trigger] desired.components[j]).spec_hash,
            ),
{
    let wanted = slice.components.map_values(|item: SliceComponentView| pinned(item));
    vstd::seq_lib::to_multiset_len(desired.components);
    vstd::seq_lib::to_multiset_len(wanted);
    vstd::seq_lib::to_multiset_len(desired.upstream_outputs);
    vstd::seq_lib::to_multiset_len(slice.upstream_outputs);
    assert forall|i: int| 0 <= i < slice.components.len() implies exists|k: int|
        {
            &&& 0 <= k < desired.components.len()
            &&& (#[trigger] desired.components[k]).spec_hash == (
            #[trigger] slice.components[i]).spec_hash
            &&& desired.components[k].name == slice.components[i].name
            &&& desired.components[k].context == slice.components[i].connector_context->Ok_0
        } by {
        assert(wanted.contains(wanted[i]));
        vstd::seq_lib::to_multiset_contains(wanted, wanted[i]);
        vstd::seq_lib::to_multiset_contains(desired.components, wanted[i]);
        let k = choose|k: int|
            0 <= k < desired.components.len() && desired.components[k] == wanted[i];
        assert(desired.components[k] == pinned(slice.components[i]));
    }
    assert forall|k: int| 0 <= k < desired.components.len() implies exists|i: int|
        {
            &&& 0 <= i < slice.components.len()
            &&& (#[trigger] desired.components[k]).spec_hash == (
            #[trigger] slice.components[i]).spec_hash
            &&& desired.components[k].name == slice.components[i].name
            &&& desired.components[k].context == slice.components[i].connector_context->Ok_0
        } by {
        let pin = desired.components[k];
        assert(desired.components.contains(pin));
        vstd::seq_lib::to_multiset_contains(desired.components, pin);
        vstd::seq_lib::to_multiset_contains(wanted, pin);
        let i = choose|i: int| 0 <= i < wanted.len() && wanted[i] == pin;
        assert(pin == pinned(slice.components[i]));
    }
    assert forall|i: int| 0 <= i < slice.upstream_outputs.len() implies
        desired.upstream_outputs.contains(#[trigger] slice.upstream_outputs[i]) by {
        let output = slice.upstream_outputs[i];
        assert(slice.upstream_outputs.contains(output));
        vstd::seq_lib::to_multiset_contains(slice.upstream_outputs, output);
        vstd::seq_lib::to_multiset_contains(desired.upstream_outputs, output);
    }
    assert forall|k: int| 0 <= k < desired.upstream_outputs.len() implies
        slice.upstream_outputs.contains(#[trigger] desired.upstream_outputs[k]) by {
        let output = desired.upstream_outputs[k];
        assert(desired.upstream_outputs.contains(output));
        vstd::seq_lib::to_multiset_contains(desired.upstream_outputs, output);
        vstd::seq_lib::to_multiset_contains(slice.upstream_outputs, output);
    }
}

/// What is hashed of a deployment begins with the format's name and a zero byte, then the
/// component's own hash; behind that each slot, in order, adds its producer's hash, its output's
/// name and, where the producer has published, all that it has published.
pub proof fn each_slot_adds_to_the_deployment(
    desired: DesiredView,
    component: PinView,
    more: PinView,
    slot: SlotView,
)
    requires
        more.spec_hash == component.spec_hash,
        more.context.slots == component.context.slots.push(slot),
    ensures
        component.context.slots.len() == 0 ==> deployment_identity(desired, component)
            =~= encode_utf8("henosis.dev/cloudflare-deployment/v1\0"@) + component.spec_hash,
        deployment_identity(desired, more) =~= deployment_identity(desired, component)
            + slot.producer_spec_hash + encode_utf8(slot.output) + desired.consumed(
            slot.producer_spec_hash,
        ),
        desired.consumed(slot.producer_spec_hash) == match desired.published(
            slot.producer_spec_hash,
        ) {
            Some(values) => values,
            None => Seq::<u8>::empty(),
        },
{
    assert(more.context.slots.drop_last() =~= component.context.slots);
}

} // verus!
