//! The JSON forms in which contexts and desired levels are hashed and handed on.

use vstd::prelude::*;
use vstd::string::*;
use vstd::utf8::*;

use crate::context::{
    ComponentContext, ContextView, FileView, InputSlot, ProjectFile, SlotView, Tunnel, TunnelView,
};
use crate::json::{add_member, json_text, texts_determine_documents, Json, JsonView};
use crate::model::{option_view, pair_views, views};
use crate::outside::{outputs_list, pins_list};
use crate::slice::{
    ComponentPin, DesiredSlice, DesiredView, PinView, UpstreamOutput, UpstreamView,
};

verus! {

/// An optional text: a string, or null.
pub open spec fn optional_json(value: Option<Seq<char>>) -> JsonView {
    match value {
        Some(text) => JsonView::Text(text),
        None => JsonView::Null,
    }
}

/// Bytes, as an array of numbers.
pub open spec fn bytes_json(bytes: Seq<u8>) -> JsonView {
    JsonView::Array(bytes.map_values(|byte: u8| JsonView::Number(byte as nat)))
}

/// Texts, as an array of strings.
pub open spec fn texts_json(texts: Seq<Seq<char>>) -> JsonView {
    JsonView::Array(texts.map_values(|text: Seq<char>| JsonView::Text(text)))
}

/// A project file.
pub open spec fn file_json(file: FileView) -> JsonView {
    JsonView::Object(seq![("path"@, JsonView::Text(file.path)), ("bytes"@, bytes_json(file.bytes))])
}

/// An input slot.
pub open spec fn slot_json(slot: SlotView) -> JsonView {
    JsonView::Object(
        seq![
            ("key"@, JsonView::Text(slot.key)),
            ("producer"@, JsonView::Text(slot.producer)),
            ("output"@, JsonView::Text(slot.output)),
            ("producerSpecHash"@, bytes_json(slot.producer_spec_hash)),
        ],
    )
}

/// A tunnel's origin.
pub open spec fn tunnel_json(tunnel: TunnelView) -> JsonView {
    JsonView::Object(
        seq![
            ("originHost"@, JsonView::Text(tunnel.origin_host)),
            ("originPort"@, JsonView::Number(tunnel.origin_port)),
        ],
    )
}

/// The members of a Worker's context.
pub open spec fn worker_members(context: ContextView) -> Seq<(Seq<char>, JsonView)> {
    seq![
        ("apiVersion"@, JsonView::Text(context.api_version)),
        ("workerName"@, JsonView::Text(context.worker_name)),
        ("entry"@, JsonView::Text(context.entry)),
        ("assetsDirectory"@, optional_json(context.assets_directory)),
        ("environment"@, JsonView::Text(context.environment)),
        ("files"@, JsonView::Array(context.files.map_values(|file: FileView| file_json(file)))),
        ("slots"@, JsonView::Array(context.slots.map_values(|slot: SlotView| slot_json(slot)))),
    ]
}

/// A component context; only a tunnel's has the member `tunnel`.
pub open spec fn context_json(context: ContextView) -> JsonView {
    match context.tunnel {
        Some(tunnel) => JsonView::Object(
            worker_members(context).push(("tunnel"@, tunnel_json(tunnel))),
        ),
        None => JsonView::Object(worker_members(context)),
    }
}

/// A component of a level.
pub open spec fn pin_json(pin: PinView) -> JsonView {
    JsonView::Object(
        seq![
            ("spec_hash"@, bytes_json(pin.spec_hash)),
            ("name"@, JsonView::Text(pin.name)),
            ("context"@, context_json(pin.context)),
        ],
    )
}

/// What an upstream component has published.
pub open spec fn upstream_json(output: UpstreamView) -> JsonView {
    JsonView::Object(
        seq![
            ("component_spec_hash"@, bytes_json(output.component_spec_hash)),
            ("values_json"@, bytes_json(output.values_json)),
        ],
    )
}

/// Components of a level, in order.
pub open spec fn pins_json(pins: Seq<PinView>) -> JsonView {
    JsonView::Array(pins.map_values(|pin: PinView| pin_json(pin)))
}

/// A desired level.
pub open spec fn desired_json(desired: DesiredView) -> JsonView {
    JsonView::Object(
        seq![
            ("graph_id"@, bytes_json(desired.graph_id)),
            ("generation"@, JsonView::Number(desired.generation)),
            ("sequence"@, JsonView::Number(desired.sequence)),
            ("components"@, pins_json(desired.components)),
            (
                "upstream_outputs"@,
                JsonView::Array(
                    desired.upstream_outputs.map_values(
                        |output: UpstreamView| upstream_json(output),
                    ),
                ),
            ),
            ("removed_components"@, pins_json(desired.removed_components)),
        ],
    )
}

/// An optional text: a string, or null.
pub fn optional_to_json(value: &Option<String>) -> (json: Json)
    ensures
        json@ == optional_json(option_view(*value)),
{
    match value {
        Some(text) => Json::text(text.as_str()),
        None => Json::Null,
    }
}

/// Bytes, as an array of numbers.
pub fn bytes_to_json(bytes: &[u8]) -> (json: Json)
    ensures
        json@ == bytes_json(bytes@),
{
    let mut items: Vec<Json> = Vec::new();
    let ghost all = bytes@.map_values(|byte: u8| JsonView::Number(byte as nat));
    for i in 0..bytes.len()
        invariant
            all == bytes@.map_values(|byte: u8| JsonView::Number(byte as nat)),
            views(items@) == all.take(i as int),
    {
        let ghost before = items@;
        items.push(Json::Number(bytes[i] as u64));
        assert(views(items@) =~= views(before).push(all[i as int]));
        assert(views(items@) =~= all.take(i + 1));
    }
    assert(all.take(bytes@.len() as int) =~= all);
    Json::array(items)
}

/// Texts, as an array of strings.
pub fn texts_to_json(texts: &Vec<String>) -> (json: Json)
    ensures
        json@ == texts_json(views(texts@)),
{
    let mut items: Vec<Json> = Vec::new();
    let ghost all = views(texts@).map_values(|text: Seq<char>| JsonView::Text(text));
    for i in 0..texts.len()
        invariant
            all == views(texts@).map_values(|text: Seq<char>| JsonView::Text(text)),
            views(items@) == all.take(i as int),
    {
        let ghost before = items@;
        items.push(Json::text(texts[i].as_str()));
        assert(views(items@) =~= views(before).push(all[i as int]));
        assert(views(items@) =~= all.take(i + 1));
    }
    assert(all.take(texts@.len() as int) =~= all);
    Json::array(items)
}

/// A project file.
fn file_to_json(file: &ProjectFile) -> (json: Json)
    ensures
        json@ == file_json(file@),
{
    let mut members: Vec<(String, Json)> = Vec::new();
    assert(pair_views(members@) =~= Seq::empty());
    add_member(&mut members, "path", Json::text(file.path.as_str()));
    add_member(&mut members, "bytes", bytes_to_json(file.bytes.as_slice()));
    assert(pair_views(members@) =~= file_json(file@)->Object_0);
    Json::object(members)
}

/// An input slot.
fn slot_to_json(slot: &InputSlot) -> (json: Json)
    ensures
        json@ == slot_json(slot@),
{
    let mut members: Vec<(String, Json)> = Vec::new();
    assert(pair_views(members@) =~= Seq::empty());
    add_member(&mut members, "key", Json::text(slot.key.as_str()));
    add_member(&mut members, "producer", Json::text(slot.producer.as_str()));
    add_member(&mut members, "output", Json::text(slot.output.as_str()));
    add_member(
        &mut members,
        "producerSpecHash",
        bytes_to_json(slot.producer_spec_hash.as_slice()),
    );
    assert(pair_views(members@) =~= slot_json(slot@)->Object_0);
    Json::object(members)
}

/// A tunnel's origin.
fn tunnel_to_json(tunnel: &Tunnel) -> (json: Json)
    ensures
        json@ == tunnel_json(tunnel@),
{
    let mut members: Vec<(String, Json)> = Vec::new();
    assert(pair_views(members@) =~= Seq::empty());
    add_member(&mut members, "originHost", Json::text(tunnel.origin_host.as_str()));
    add_member(&mut members, "originPort", Json::Number(tunnel.origin_port as u64));
    assert(pair_views(members@) =~= tunnel_json(tunnel@)->Object_0);
    Json::object(members)
}

/// Project files, in order.
fn files_to_json(files: &Vec<ProjectFile>) -> (json: Json)
    ensures
        json@ == JsonView::Array(views(files@).map_values(|file: FileView| file_json(file))),
{
    let mut items: Vec<Json> = Vec::new();
    let ghost all = views(files@).map_values(|file: FileView| file_json(file));
    for i in 0..files.len()
        invariant
            all == views(files@).map_values(|file: FileView| file_json(file)),
            views(items@) == all.take(i as int),
    {
        let ghost before = items@;
        items.push(file_to_json(&files[i]));
        assert(views(items@) =~= views(before).push(all[i as int]));
        assert(views(items@) =~= all.take(i + 1));
    }
    assert(all.take(files@.len() as int) =~= all);
    Json::array(items)
}

/// Input slots, in order.
fn slots_to_json(slots: &Vec<InputSlot>) -> (json: Json)
    ensures
        json@ == JsonView::Array(views(slots@).map_values(|slot: SlotView| slot_json(slot))),
{
    let mut items: Vec<Json> = Vec::new();
    let ghost all = views(slots@).map_values(|slot: SlotView| slot_json(slot));
    for i in 0..slots.len()
        invariant
            all == views(slots@).map_values(|slot: SlotView| slot_json(slot)),
            views(items@) == all.take(i as int),
    {
        let ghost before = items@;
        items.push(slot_to_json(&slots[i]));
        assert(views(items@) =~= views(before).push(all[i as int]));
        assert(views(items@) =~= all.take(i + 1));
    }
    assert(all.take(slots@.len() as int) =~= all);
    Json::array(items)
}

impl ComponentContext {
    /// The context as a JSON document.
    pub fn to_json(&self) -> (json: Json)
        ensures
            json@ == context_json(self@),
    {
        let mut members: Vec<(String, Json)> = Vec::new();
        assert(pair_views(members@) =~= Seq::empty());
        add_member(&mut members, "apiVersion", Json::text(self.api_version.as_str()));
        add_member(&mut members, "workerName", Json::text(self.worker_name.as_str()));
        add_member(&mut members, "entry", Json::text(self.entry.as_str()));
        add_member(&mut members, "assetsDirectory", optional_to_json(&self.assets_directory));
        add_member(&mut members, "environment", Json::text(self.environment.as_str()));
        add_member(&mut members, "files", files_to_json(&self.files));
        add_member(&mut members, "slots", slots_to_json(&self.slots));
        match &self.tunnel {
            Some(tunnel) => {
                add_member(&mut members, "tunnel", tunnel_to_json(tunnel));
            },
            None => {},
        }
        assert(pair_views(members@) =~= context_json(self@)->Object_0);
        Json::object(members)
    }
}

impl ComponentPin {
    /// The component as a JSON document.
    pub fn to_json(&self) -> (json: Json)
        ensures
            json@ == pin_json(self@),
    {
        let mut members: Vec<(String, Json)> = Vec::new();
        assert(pair_views(members@) =~= Seq::empty());
        add_member(&mut members, "spec_hash", bytes_to_json(self.spec_hash.as_slice()));
        add_member(&mut members, "name", Json::text(self.name.as_str()));
        add_member(&mut members, "context", self.context.to_json());
        assert(pair_views(members@) =~= pin_json(self@)->Object_0);
        Json::object(members)
    }
}

/// What an upstream component has published.
fn upstream_to_json(output: &UpstreamOutput) -> (json: Json)
    ensures
        json@ == upstream_json(output@),
{
    let mut members: Vec<(String, Json)> = Vec::new();
    assert(pair_views(members@) =~= Seq::empty());
    add_member(
        &mut members,
        "component_spec_hash",
        bytes_to_json(output.component_spec_hash.as_slice()),
    );
    add_member(&mut members, "values_json", bytes_to_json(output.values_json.as_slice()));
    assert(pair_views(members@) =~= upstream_json(output@)->Object_0);
    Json::object(members)
}

impl DesiredSlice {
    /// The level as a JSON document.
    pub fn to_json(&self) -> (json: Json)
        ensures
            json@ == desired_json(self@),
    {
        let ghost said = self@;
        let listed = pins_list(&self.components);
        let mut components: Vec<Json> = Vec::new();
        let ghost pinned = said.components.map_values(|pin: PinView| pin_json(pin));
        for i in 0..listed.len()
            invariant
                listed@.len() == said.components.len(),
                forall|j: int| 0 <= j < listed@.len() ==> (#[trigger] listed@[j])@ == said.components[j],
                pinned == said.components.map_values(|pin: PinView| pin_json(pin)),
                views(components@) == pinned.take(i as int),
        {
            let ghost before = components@;
            components.push(listed[i].to_json());
            assert(listed@[i as int]@ == said.components[i as int]);
            assert(views(components@) =~= views(before).push(pinned[i as int]));
            assert(views(components@) =~= pinned.take(i + 1));
        }
        assert(pinned.take(listed@.len() as int) =~= pinned);
        let published = outputs_list(&self.upstream_outputs);
        let mut outputs: Vec<Json> = Vec::new();
        let ghost written = said.upstream_outputs.map_values(
            |output: UpstreamView| upstream_json(output),
        );
        for i in 0..published.len()
            invariant
                published@.len() == said.upstream_outputs.len(),
                forall|j: int|
                    0 <= j < published@.len() ==> (#[trigger] published@[j])@
                        == said.upstream_outputs[j],
                written == said.upstream_outputs.map_values(
                    |output: UpstreamView| upstream_json(output),
                ),
                views(outputs@) == written.take(i as int),
        {
            let ghost before = outputs@;
            outputs.push(upstream_to_json(published[i]));
            assert(published@[i as int]@ == said.upstream_outputs[i as int]);
            assert(views(outputs@) =~= views(before).push(written[i as int]));
            assert(views(outputs@) =~= written.take(i + 1));
        }
        assert(written.take(published@.len() as int) =~= written);
        let mut removed: Vec<Json> = Vec::new();
        let ghost gone = said.removed_components.map_values(|pin: PinView| pin_json(pin));
        for i in 0..self.removed_components.len()
            invariant
                said == self@,
                gone == said.removed_components.map_values(|pin: PinView| pin_json(pin)),
                views(removed@) == gone.take(i as int),
        {
            let ghost before = removed@;
            removed.push(self.removed_components[i].to_json());
            assert(views(removed@) =~= views(before).push(gone[i as int]));
            assert(views(removed@) =~= gone.take(i + 1));
        }
        assert(gone.take(self.removed_components@.len() as int) =~= gone);
        let mut members: Vec<(String, Json)> = Vec::new();
        assert(pair_views(members@) =~= Seq::empty());
        add_member(&mut members, "graph_id", bytes_to_json(self.graph_id.as_slice()));
        add_member(&mut members, "generation", Json::Number(self.generation));
        add_member(&mut members, "sequence", Json::Number(self.sequence));
        add_member(&mut members, "components", Json::array(components));
        add_member(&mut members, "upstream_outputs", Json::array(outputs));
        add_member(&mut members, "removed_components", Json::array(removed));
        assert(pair_views(members@) =~= desired_json(self@)->Object_0);
        Json::object(members)
    }
}

// ---------------------------------------------------------------------------
// Laws
// ---------------------------------------------------------------------------
/// Bytes are determined by their JSON form.
proof fn lemma_bytes_json(a: Seq<u8>, b: Seq<u8>)
    requires
        bytes_json(a) == bytes_json(b),
    ensures
        a == b,
{
    let x = bytes_json(a)->Array_0;
    let y = bytes_json(b)->Array_0;
    assert(x.len() == y.len());
    assert forall|i: int| 0 <= i < a.len() implies a[i] == b[i] by {
        assert(x[i] == JsonView::Number(a[i] as nat));
        assert(y[i] == JsonView::Number(b[i] as nat));
    }
    assert(a =~= b);
}

/// A project file is determined by its JSON form.
proof fn lemma_file_json(a: FileView, b: FileView)
    requires
        file_json(a) == file_json(b),
    ensures
        a == b,
{
    let x = file_json(a)->Object_0;
    let y = file_json(b)->Object_0;
    assert(x[0].1 == y[0].1 && x[1].1 == y[1].1);
    lemma_bytes_json(a.bytes, b.bytes);
}

/// An input slot is determined by its JSON form.
proof fn lemma_slot_json(a: SlotView, b: SlotView)
    requires
        slot_json(a) == slot_json(b),
    ensures
        a == b,
{
    let x = slot_json(a)->Object_0;
    let y = slot_json(b)->Object_0;
    assert(x[0].1 == y[0].1 && x[1].1 == y[1].1 && x[2].1 == y[2].1 && x[3].1 == y[3].1);
    lemma_bytes_json(a.producer_spec_hash, b.producer_spec_hash);
}

/// A tunnel's origin is determined by its JSON form.
proof fn lemma_tunnel_json(a: TunnelView, b: TunnelView)
    requires
        tunnel_json(a) == tunnel_json(b),
    ensures
        a == b,
{
    let x = tunnel_json(a)->Object_0;
    let y = tunnel_json(b)->Object_0;
    assert(x[0].1 == y[0].1 && x[1].1 == y[1].1);
}

/// A context is determined by its JSON form.
proof fn lemma_context_json(a: ContextView, b: ContextView)
    requires
        context_json(a) == context_json(b),
    ensures
        a == b,
{
    let x = context_json(a)->Object_0;
    let y = context_json(b)->Object_0;
    assert(x.len() == y.len());
    assert(a.tunnel is Some <==> b.tunnel is Some);
    assert(x[0] == worker_members(a)[0] && y[0] == worker_members(b)[0]);
    assert(x[1] == worker_members(a)[1] && y[1] == worker_members(b)[1]);
    assert(x[2] == worker_members(a)[2] && y[2] == worker_members(b)[2]);
    assert(x[3] == worker_members(a)[3] && y[3] == worker_members(b)[3]);
    assert(x[4] == worker_members(a)[4] && y[4] == worker_members(b)[4]);
    assert(x[5] == worker_members(a)[5] && y[5] == worker_members(b)[5]);
    assert(x[6] == worker_members(a)[6] && y[6] == worker_members(b)[6]);
    let files = x[5].1->Array_0;
    let others = y[5].1->Array_0;
    assert(files.len() == others.len());
    assert forall|i: int| 0 <= i < a.files.len() implies a.files[i] == b.files[i] by {
        assert(files[i] == file_json(a.files[i]));
        assert(others[i] == file_json(b.files[i]));
        lemma_file_json(a.files[i], b.files[i]);
    }
    assert(a.files =~= b.files);
    let slots = x[6].1->Array_0;
    let rest = y[6].1->Array_0;
    assert(slots.len() == rest.len());
    assert forall|i: int| 0 <= i < a.slots.len() implies a.slots[i] == b.slots[i] by {
        assert(slots[i] == slot_json(a.slots[i]));
        assert(rest[i] == slot_json(b.slots[i]));
        lemma_slot_json(a.slots[i], b.slots[i]);
    }
    assert(a.slots =~= b.slots);
    if let (Some(origin), Some(other)) = (a.tunnel, b.tunnel) {
        assert(x[7].1 == tunnel_json(origin));
        assert(y[7].1 == tunnel_json(other));
        lemma_tunnel_json(origin, other);
    }
}

/// Components are determined by their JSON form.
proof fn lemma_pins_json(a: Seq<PinView>, b: Seq<PinView>)
    requires
        pins_json(a) == pins_json(b),
    ensures
        a == b,
{
    let x = pins_json(a)->Array_0;
    let y = pins_json(b)->Array_0;
    assert(x.len() == y.len());
    assert forall|i: int| 0 <= i < a.len() implies a[i] == b[i] by {
        assert(x[i] == pin_json(a[i]));
        assert(y[i] == pin_json(b[i]));
        let p = pin_json(a[i])->Object_0;
        let q = pin_json(b[i])->Object_0;
        assert(p[0].1 == q[0].1 && p[1].1 == q[1].1 && p[2].1 == q[2].1);
        lemma_bytes_json(a[i].spec_hash, b[i].spec_hash);
        lemma_context_json(a[i].context, b[i].context);
    }
    assert(a =~= b);
}

/// A level is determined by the bytes that its digest hashes, so the digest of a plan stands for
/// everything in the level: its identity, its components, what their producers have published, and
/// what is removed.
pub proof fn hashed_bytes_determine_the_level(a: DesiredView, b: DesiredView)
    requires
        encode_utf8(json_text(desired_json(a))) == encode_utf8(json_text(desired_json(b))),
    ensures
        a == b,
{
    encode_utf8_decode_utf8(json_text(desired_json(a)));
    encode_utf8_decode_utf8(json_text(desired_json(b)));
    texts_determine_documents(desired_json(a), desired_json(b));
    let x = desired_json(a)->Object_0;
    let y = desired_json(b)->Object_0;
    assert(x[0].1 == y[0].1 && x[1].1 == y[1].1 && x[2].1 == y[2].1 && x[3].1 == y[3].1);
    assert(x[4].1 == y[4].1 && x[5].1 == y[5].1);
    lemma_bytes_json(a.graph_id, b.graph_id);
    lemma_pins_json(a.components, b.components);
    lemma_pins_json(a.removed_components, b.removed_components);
    let published = x[4].1->Array_0;
    let others = y[4].1->Array_0;
    assert(published.len() == others.len());
    assert forall|i: int| 0 <= i < a.upstream_outputs.len() implies a.upstream_outputs[i]
        == b.upstream_outputs[i] by {
        assert(published[i] == upstream_json(a.upstream_outputs[i]));
        assert(others[i] == upstream_json(b.upstream_outputs[i]));
        let p = upstream_json(a.upstream_outputs[i])->Object_0;
        let q = upstream_json(b.upstream_outputs[i])->Object_0;
        assert(p[0].1 == q[0].1 && p[1].1 == q[1].1);
        lemma_bytes_json(
            a.upstream_outputs[i].component_spec_hash,
            b.upstream_outputs[i].component_spec_hash,
        );
        lemma_bytes_json(a.upstream_outputs[i].values_json, b.upstream_outputs[i].values_json);
    }
    assert(a.upstream_outputs =~= b.upstream_outputs);
}

/// A context is determined by the bytes that register it.
pub proof fn encoded_bytes_determine_the_context(a: ContextView, b: ContextView)
    requires
        encode_utf8(json_text(context_json(a))) == encode_utf8(json_text(context_json(b))),
    ensures
        a == b,
{
    encode_utf8_decode_utf8(json_text(context_json(a)));
    encode_utf8_decode_utf8(json_text(context_json(b)));
    texts_determine_documents(context_json(a), context_json(b));
    lemma_context_json(a, b);
}

/// The document is an array with one number for each byte, in order.
pub open spec fn lists_bytes(json: JsonView, bytes: Seq<u8>) -> bool {
    json matches JsonView::Array(items) && items.len() == bytes.len() && forall|i: int|
        0 <= i < items.len() ==> #[trigger] items[i] == JsonView::Number(bytes[i] as nat)
}

/// The document is an array with one string for each text, in order.
pub open spec fn lists_texts(json: JsonView, texts: Seq<Seq<char>>) -> bool {
    json matches JsonView::Array(items) && items.len() == texts.len() && forall|i: int|
        0 <= i < items.len() ==> #[trigger] items[i] == JsonView::Text(texts[i])
}

/// The document is the text, or null where there is none.
pub open spec fn tells_optional(json: JsonView, text: Option<Seq<char>>) -> bool {
    match text {
        Some(text) => json == JsonView::Text(text),
        None => json is Null,
    }
}

/// Bytes, texts and optional texts are written down one for one.
pub proof fn values_are_written_one_for_one(
    bytes: Seq<u8>,
    texts: Seq<Seq<char>>,
    text: Option<Seq<char>>,
)
    ensures
        lists_bytes(bytes_json(bytes), bytes),
        lists_texts(texts_json(texts), texts),
        tells_optional(optional_json(text), text),
{
}

/// The document tells everything of a project file.
pub open spec fn tells_file(json: JsonView, file: FileView) -> bool {
    json matches JsonView::Object(members) && {
        &&& members.len() == 2
        &&& members[0] == ("path"@, JsonView::Text(file.path))
        &&& members[1].0 == "bytes"@
        &&& lists_bytes(members[1].1, file.bytes)
    }
}

/// The document tells everything of an input slot.
pub open spec fn tells_slot(json: JsonView, slot: SlotView) -> bool {
    json matches JsonView::Object(members) && {
        &&& members.len() == 4
        &&& members[0] == ("key"@, JsonView::Text(slot.key))
        &&& members[1] == ("producer"@, JsonView::Text(slot.producer))
        &&& members[2] == ("output"@, JsonView::Text(slot.output))
        &&& members[3].0 == "producerSpecHash"@
        &&& lists_bytes(members[3].1, slot.producer_spec_hash)
    }
}

/// The document tells everything of a context: its fields under their names, in their order, every
/// file and every slot.
pub open spec fn tells_context(json: JsonView, context: ContextView) -> bool {
    json matches JsonView::Object(members) && {
        &&& members.len() == if context.tunnel is Some {
            8int
        } else {
            7
        }
        &&& members[0] == ("apiVersion"@, JsonView::Text(context.api_version))
        &&& members[1] == ("workerName"@, JsonView::Text(context.worker_name))
        &&& members[2] == ("entry"@, JsonView::Text(context.entry))
        &&& members[3].0 == "assetsDirectory"@
        &&& tells_optional(members[3].1, context.assets_directory)
        &&& members[4] == ("environment"@, JsonView::Text(context.environment))
        &&& members[5].0 == "files"@
        &&& members[5].1 matches JsonView::Array(files)
        &&& files.len() == context.files.len()
        &&& forall|i: int|
            0 <= i < files.len() ==> tells_file(#[trigger] files[i], context.files[i])
        &&& members[6].0 == "slots"@
        &&& members[6].1 matches JsonView::Array(slots)
        &&& slots.len() == context.slots.len()
        &&& forall|i: int|
            0 <= i < slots.len() ==> tells_slot(#[trigger] slots[i], context.slots[i])
        &&& context.tunnel matches Some(tunnel) ==> {
            &&& members[7].0 == "tunnel"@
            &&& members[7].1 matches JsonView::Object(origin)
            &&& origin.len() == 2
            &&& origin[0] == ("originHost"@, JsonView::Text(tunnel.origin_host))
            &&& origin[1] == ("originPort"@, JsonView::Number(tunnel.origin_port))
        }
    }
}

/// The JSON form of a context tells everything of it.
pub proof fn contexts_are_written_in_full(context: ContextView)
    ensures
        tells_context(context_json(context), context),
{
    let members = context_json(context)->Object_0;
    assert forall|i: int| 0 <= i < 7 implies #[trigger] members[i] == worker_members(
        context,
    )[i] by {}
    assert(members[3] == worker_members(context)[3]);
    assert(members[5] == worker_members(context)[5]);
    assert(members[6] == worker_members(context)[6]);
    let files = members[5].1->Array_0;
    assert forall|i: int| 0 <= i < files.len() implies tells_file(
        #[trigger] files[i],
        context.files[i],
    ) by {
        assert(files[i] == file_json(context.files[i]));
    }
    let slots = members[6].1->Array_0;
    assert forall|i: int| 0 <= i < slots.len() implies tells_slot(
        #[trigger] slots[i],
        context.slots[i],
    ) by {
        assert(slots[i] == slot_json(context.slots[i]));
    }
}

/// The document tells everything of components, in order.
pub open spec fn tells_pins(json: JsonView, pins: Seq<PinView>) -> bool {
    json matches JsonView::Array(items) && items.len() == pins.len() && forall|i: int|
        0 <= i < items.len() ==> tells_pin(#[trigger] items[i], pins[i])
}

/// The document tells everything of a component.
pub open spec fn tells_pin(json: JsonView, pin: PinView) -> bool {
    json matches JsonView::Object(members) && {
        &&& members.len() == 3
        &&& members[0].0 == "spec_hash"@
        &&& lists_bytes(members[0].1, pin.spec_hash)
        &&& members[1] == ("name"@, JsonView::Text(pin.name))
        &&& members[2].0 == "context"@
        &&& tells_context(members[2].1, pin.context)
    }
}

/// The document tells everything of what a producer has published.
pub open spec fn tells_output(json: JsonView, output: UpstreamView) -> bool {
    json matches JsonView::Object(members) && {
        &&& members.len() == 2
        &&& members[0].0 == "component_spec_hash"@
        &&& lists_bytes(members[0].1, output.component_spec_hash)
        &&& members[1].0 == "values_json"@
        &&& lists_bytes(members[1].1, output.values_json)
    }
}

/// Components are written in full, in order.
proof fn lemma_pins_written(pins: Seq<PinView>)
    ensures
        tells_pins(pins_json(pins), pins),
{
    let items = pins_json(pins)->Array_0;
    assert forall|i: int| 0 <= i < items.len() implies tells_pin(#[trigger] items[i], pins[i]) by {
        assert(items[i] == pin_json(pins[i]));
        contexts_are_written_in_full(pins[i].context);
    }
}

/// The JSON form of a level, which its digest hashes, tells everything of it: its fields under
/// their names, in their order, every component, every upstream output and every removal.
pub proof fn levels_are_written_in_full(desired: DesiredView)
    ensures
        desired_json(desired) matches JsonView::Object(members) && {
            &&& members.len() == 6
            &&& members[0].0 == "graph_id"@
            &&& lists_bytes(members[0].1, desired.graph_id)
            &&& members[1] == ("generation"@, JsonView::Number(desired.generation))
            &&& members[2] == ("sequence"@, JsonView::Number(desired.sequence))
            &&& members[3].0 == "components"@
            &&& tells_pins(members[3].1, desired.components)
            &&& members[4].0 == "upstream_outputs"@
            &&& members[4].1 matches JsonView::Array(outputs)
            &&& outputs.len() == desired.upstream_outputs.len()
            &&& forall|i: int|
                0 <= i < outputs.len() ==> tells_output(
                    #[trigger] outputs[i],
                    desired.upstream_outputs[i],
                )
            &&& members[5].0 == "removed_components"@
            &&& tells_pins(members[5].1, desired.removed_components)
        },
{
    lemma_pins_written(desired.components);
    lemma_pins_written(desired.removed_components);
    let outputs = desired_json(desired)->Object_0[4].1->Array_0;
    assert forall|i: int| 0 <= i < outputs.len() implies tells_output(
        #[trigger] outputs[i],
        desired.upstream_outputs[i],
    ) by {
        assert(outputs[i] == upstream_json(desired.upstream_outputs[i]));
    }
}

} // verus!
