//! The redacted forms in which plans are recorded for review: values bound to variables and secrets
//! never stand in them.

use vstd::prelude::*;
use vstd::string::*;

use crate::context::{InputSlot, SlotView};
use crate::hexadecimal::lower_hex;
use crate::json::{add_member, Json, JsonView};
use crate::lifecycle::{
    BlockedInput, BlockedView, CloudflarePlan, OperationView, PlanAction, PlanView,
    PlannedOperation, ReviewProjection, ReviewView,
};
use crate::model::{option_view, pair_views, views};
use crate::outside::{hex_encode, pins_list};
use crate::slice::{ComponentPin, DesiredSlice, PinView};
use crate::target::AccountFacts;
use crate::text::{join, joined};
use crate::wire::{optional_json, optional_to_json, texts_json, texts_to_json};
use crate::wrangler::{to_url, worker_url};

verus! {

// ---------------------------------------------------------------------------
// What a review says
// ---------------------------------------------------------------------------
/// An action in a plan's JSON form.
pub open spec fn action_word(action: PlanAction) -> Seq<char> {
    match action {
        PlanAction::Create => "create"@,
        PlanAction::Update => "update"@,
        PlanAction::Delete => "delete"@,
    }
}

/// An action in a plan's Markdown form.
pub open spec fn action_title(action: PlanAction) -> Seq<char> {
    match action {
        PlanAction::Create => "Create"@,
        PlanAction::Update => "Update"@,
        PlanAction::Delete => "Delete"@,
    }
}

/// The variables that slots bind.
pub open spec fn slot_keys(slots: Seq<SlotView>) -> Seq<Seq<char>> {
    slots.map_values(|slot: SlotView| slot.key)
}

/// One operation of a plan.
pub open spec fn operation_json(operation: OperationView) -> JsonView {
    JsonView::Object(
        seq![
            ("action"@, JsonView::Text(action_word(operation.action))),
            ("componentSpecHash"@, JsonView::Text(lower_hex(operation.component.spec_hash))),
            ("vars"@, texts_json(slot_keys(operation.component.context.slots))),
            ("workerName"@, JsonView::Text(operation.worker_name)),
        ],
    )
}

/// One operation of a plan, as an item of a Markdown list.
pub open spec fn operation_line(operation: OperationView) -> Seq<char> {
    "- **"@ + action_title(operation.action) + "** `"@ + operation.worker_name + "` (vars: "@
        + joined(slot_keys(operation.component.context.slots), ", "@) + ")"@
}

/// The name under which a component will be deployed, empty where it has none.
pub open spec fn planned_name(component: PinView) -> Seq<char> {
    match component.context.deployed_name() {
        Ok(name) => name,
        Err(_) => Seq::empty(),
    }
}

/// The URL that a component will have, where that is known.
pub open spec fn planned_url(component: PinView, subdomain: Seq<char>) -> Option<Seq<char>> {
    if subdomain.len() > 0 && !component.context.is_tunnel() {
        Some(worker_url(planned_name(component), subdomain))
    } else {
        None
    }
}

/// What a component will publish, as far as it is known.
pub open spec fn planned_output(component: PinView, subdomain: Seq<char>) -> JsonView {
    JsonView::Object(
        seq![
            ("componentSpecHash"@, JsonView::Text(lower_hex(component.spec_hash))),
            ("url"@, optional_json(planned_url(component, subdomain))),
            ("workerName"@, JsonView::Text(planned_name(component))),
        ],
    )
}

/// The review of a plan for these components.
pub open spec fn plan_review(
    plan: PlanView,
    components: Seq<PinView>,
    subdomain: Seq<char>,
) -> ReviewView {
    ReviewView {
        json: JsonView::Object(
            seq![
                ("desiredDigest"@, JsonView::Text(plan.desired_digest)),
                (
                    "operations"@,
                    JsonView::Array(
                        plan.operations.map_values(
                            |operation: OperationView| operation_json(operation),
                        ),
                    ),
                ),
                (
                    "plannedOutputs"@,
                    JsonView::Array(
                        components.map_values(
                            |component: PinView| planned_output(component, subdomain),
                        ),
                    ),
                ),
            ],
        ),
        markdown: "# Cloudflare plan\n\n"@ + joined(
            plan.operations.map_values(|operation: OperationView| operation_line(operation)),
            "\n"@,
        ),
    }
}

/// The output that a blocked input waits for: its producer's spec hash and its name.
pub open spec fn awaited(input: BlockedView) -> Seq<char> {
    input.producer + "."@ + input.output
}

/// A blocked input, as an item of a Markdown list.
pub open spec fn blocked_line(input: BlockedView) -> Seq<char> {
    "- `"@ + input.path + "` waits on `"@ + input.producer + "."@ + input.output + "`"@
}

/// The review of a plan that waits for these inputs.
pub open spec fn blocked_review(blocked: Seq<BlockedView>) -> ReviewView {
    ReviewView {
        json: JsonView::Object(
            seq![
                (
                    "blockedOnInputs"@,
                    texts_json(blocked.map_values(|input: BlockedView| awaited(input))),
                ),
                ("status"@, JsonView::Text("blocked"@)),
            ],
        ),
        markdown: "# Cloudflare plan\n\nBlocked inputs:\n\n"@ + joined(
            blocked.map_values(|input: BlockedView| blocked_line(input)),
            "\n"@,
        ),
    }
}

/// The review of a plan that came to nothing.
pub open spec fn status_review(
    status: Seq<char>,
    phase: Seq<char>,
    detail: Seq<char>,
) -> ReviewView {
    ReviewView {
        json: JsonView::Object(
            seq![
                ("detail"@, JsonView::Text(detail)),
                ("phase"@, JsonView::Text(phase)),
                ("status"@, JsonView::Text(status)),
            ],
        ),
        markdown: "# Cloudflare plan\n\n**Status:** "@ + status + "\n\n"@ + detail,
    }
}

// ---------------------------------------------------------------------------
// Code
// ---------------------------------------------------------------------------
/// The variables that slots bind.
fn keys_of(slots: &Vec<InputSlot>) -> (keys: Vec<String>)
    ensures
        views(keys@) == slot_keys(views(slots@)),
{
    let mut keys: Vec<String> = Vec::new();
    let ghost all = slot_keys(views(slots@));
    for i in 0..slots.len()
        invariant
            all == slot_keys(views(slots@)),
            views(keys@) == all.take(i as int),
    {
        let ghost before = keys@;
        keys.push(slots[i].key.clone());
        assert(views(keys@) =~= views(before).push(all[i as int]));
        assert(views(keys@) =~= all.take(i + 1));
    }
    assert(all.take(slots@.len() as int) =~= all);
    keys
}

impl PlanAction {
    /// The action in a plan's JSON form.
    pub fn word(&self) -> (word: String)
        ensures
            word@ == action_word(*self),
    {
        match self {
            PlanAction::Create => "create".to_owned(),
            PlanAction::Update => "update".to_owned(),
            PlanAction::Delete => "delete".to_owned(),
        }
    }

    /// The action in a plan's Markdown form.
    pub fn title(&self) -> (title: String)
        ensures
            title@ == action_title(*self),
    {
        match self {
            PlanAction::Create => "Create".to_owned(),
            PlanAction::Update => "Update".to_owned(),
            PlanAction::Delete => "Delete".to_owned(),
        }
    }
}

/// One operation of a plan.
fn operation_to_json(operation: &PlannedOperation) -> (json: Json)
    ensures
        json@ == operation_json(operation@),
{
    let mut members: Vec<(String, Json)> = Vec::new();
    assert(pair_views(members@) =~= Seq::empty());
    add_member(&mut members, "action", Json::Text(operation.action.word()));
    add_member(
        &mut members,
        "componentSpecHash",
        Json::Text(hex_encode(operation.component.spec_hash.as_slice())),
    );
    add_member(&mut members, "vars", texts_to_json(&keys_of(&operation.component.context.slots)));
    add_member(&mut members, "workerName", Json::text(operation.worker_name.as_str()));
    assert(pair_views(members@) =~= operation_json(operation@)->Object_0);
    Json::object(members)
}

/// One operation of a plan, as an item of a Markdown list.
fn operation_to_line(operation: &PlannedOperation) -> (line: String)
    ensures
        line@ == operation_line(operation@),
{
    let keys = keys_of(&operation.component.context.slots);
    "- **".to_owned().concat(operation.action.title().as_str()).concat("** `").concat(
        operation.worker_name.as_str(),
    ).concat("` (vars: ").concat(join(&keys, ", ").as_str()).concat(")")
}

/// What a component will publish, as far as it is known.
fn planned_to_json(component: &ComponentPin, facts: &AccountFacts) -> (json: Json)
    ensures
        json@ == planned_output(component@, facts@.subdomain),
{
    let worker_name = match component.context.deployed_name() {
        Ok(name) => name,
        Err(_) => String::new(),
    };
    assert(worker_name@ =~= planned_name(component@));
    let url = if facts.subdomain.as_str().unicode_len() > 0 && !component.context.is_tunnel() {
        Some(to_url(worker_name.as_str(), facts.subdomain.as_str()))
    } else {
        None
    };
    assert(option_view(url) == planned_url(component@, facts@.subdomain));
    let mut members: Vec<(String, Json)> = Vec::new();
    assert(pair_views(members@) =~= Seq::empty());
    add_member(
        &mut members,
        "componentSpecHash",
        Json::Text(hex_encode(component.spec_hash.as_slice())),
    );
    add_member(&mut members, "url", optional_to_json(&url));
    add_member(&mut members, "workerName", Json::Text(worker_name));
    assert(pair_views(members@) =~= planned_output(component@, facts@.subdomain)->Object_0);
    Json::object(members)
}

/// The review of a plan for a level.
pub fn review_projection(plan: &CloudflarePlan, desired: &DesiredSlice, facts: &AccountFacts) -> (
    review: ReviewProjection)
    ensures
        review@ == plan_review(plan@, desired@.components, facts@.subdomain),
{
    let mut operations: Vec<Json> = Vec::new();
    let mut lines: Vec<String> = Vec::new();
    let ghost steps = plan@.operations;
    let ghost written = steps.map_values(|operation: OperationView| operation_json(operation));
    let ghost listed = steps.map_values(|operation: OperationView| operation_line(operation));
    for i in 0..plan.operations.len()
        invariant
            steps == plan@.operations,
            written == steps.map_values(|operation: OperationView| operation_json(operation)),
            listed == steps.map_values(|operation: OperationView| operation_line(operation)),
            views(operations@) == written.take(i as int),
            views(lines@) == listed.take(i as int),
    {
        let ghost before = operations@;
        let ghost above = lines@;
        assert(steps[i as int] == plan.operations@[i as int]@);
        operations.push(operation_to_json(&plan.operations[i]));
        lines.push(operation_to_line(&plan.operations[i]));
        assert(views(operations@) =~= views(before).push(written[i as int]));
        assert(views(operations@) =~= written.take(i + 1));
        assert(views(lines@) =~= views(above).push(listed[i as int]));
        assert(views(lines@) =~= listed.take(i + 1));
    }
    assert(written.take(plan.operations@.len() as int) =~= written);
    assert(listed.take(plan.operations@.len() as int) =~= listed);
    let pins = pins_list(&desired.components);
    let mut outputs: Vec<Json> = Vec::new();
    let ghost components = desired@.components;
    let ghost subdomain = facts@.subdomain;
    let ghost planned = components.map_values(
        |component: PinView| planned_output(component, subdomain),
    );
    for i in 0..pins.len()
        invariant
            pins@.len() == components.len(),
            subdomain == facts@.subdomain,
            forall|j: int| 0 <= j < pins@.len() ==> (#[trigger] pins@[j])@ == components[j],
            planned == components.map_values(
                |component: PinView| planned_output(component, subdomain),
            ),
            views(outputs@) == planned.take(i as int),
    {
        let ghost before = outputs@;
        outputs.push(planned_to_json(pins[i], facts));
        assert(pins@[i as int]@ == components[i as int]);
        assert(views(outputs@) =~= views(before).push(planned[i as int]));
        assert(views(outputs@) =~= planned.take(i + 1));
    }
    assert(planned.take(pins@.len() as int) =~= planned);
    let mut members: Vec<(String, Json)> = Vec::new();
    assert(pair_views(members@) =~= Seq::empty());
    add_member(&mut members, "desiredDigest", Json::text(plan.desired_digest.as_str()));
    add_member(&mut members, "operations", Json::array(operations));
    add_member(&mut members, "plannedOutputs", Json::array(outputs));
    assert(pair_views(members@) =~= plan_review(plan@, components, subdomain).json->Object_0);
    ReviewProjection {
        json: Json::object(members),
        markdown: "# Cloudflare plan\n\n".to_owned().concat(join(&lines, "\n").as_str()),
    }
}

/// The Markdown form of a plan that waits for these inputs.
pub fn blocked_markdown(blocked: &Vec<BlockedInput>) -> (markdown: String)
    ensures
        markdown@ == blocked_review(views(blocked@)).markdown,
{
    let mut lines: Vec<String> = Vec::new();
    let ghost all = views(blocked@).map_values(|input: BlockedView| blocked_line(input));
    for i in 0..blocked.len()
        invariant
            all == views(blocked@).map_values(|input: BlockedView| blocked_line(input)),
            views(lines@) == all.take(i as int),
    {
        let ghost before = lines@;
        let input = &blocked[i];
        lines.push(
            "- `".to_owned().concat(input.path.as_str()).concat("` waits on `").concat(
                input.producer.as_str(),
            ).concat(".").concat(input.output.as_str()).concat("`"),
        );
        assert(views(lines@) =~= views(before).push(all[i as int]));
        assert(views(lines@) =~= all.take(i + 1));
    }
    assert(all.take(blocked@.len() as int) =~= all);
    "# Cloudflare plan\n\nBlocked inputs:\n\n".to_owned().concat(join(&lines, "\n").as_str())
}

/// The review of a plan that waits for these inputs.
pub fn blocked_projection(blocked: &Vec<BlockedInput>) -> (review: ReviewProjection)
    ensures
        review@ == blocked_review(views(blocked@)),
{
    let mut entries: Vec<String> = Vec::new();
    let ghost all = views(blocked@).map_values(|input: BlockedView| awaited(input));
    for i in 0..blocked.len()
        invariant
            all == views(blocked@).map_values(|input: BlockedView| awaited(input)),
            views(entries@) == all.take(i as int),
    {
        let ghost before = entries@;
        entries.push(blocked[i].producer.clone().concat(".").concat(blocked[i].output.as_str()));
        assert(views(entries@) =~= views(before).push(all[i as int]));
        assert(views(entries@) =~= all.take(i + 1));
    }
    assert(all.take(blocked@.len() as int) =~= all);
    let mut members: Vec<(String, Json)> = Vec::new();
    assert(pair_views(members@) =~= Seq::empty());
    add_member(&mut members, "blockedOnInputs", texts_to_json(&entries));
    add_member(&mut members, "status", Json::text("blocked"));
    assert(pair_views(members@) =~= blocked_review(views(blocked@)).json->Object_0);
    ReviewProjection { json: Json::object(members), markdown: blocked_markdown(blocked) }
}

/// The review of a plan that came to nothing.
pub fn declarative_review(status: &str, phase: &str, detail: &str) -> (review: ReviewProjection)
    ensures
        review@ == status_review(status@, phase@, detail@),
{
    let mut members: Vec<(String, Json)> = Vec::new();
    assert(pair_views(members@) =~= Seq::empty());
    add_member(&mut members, "detail", Json::text(detail));
    add_member(&mut members, "phase", Json::text(phase));
    add_member(&mut members, "status", Json::text(status));
    assert(pair_views(members@) =~= status_review(status@, phase@, detail@).json->Object_0);
    ReviewProjection {
        json: Json::object(members),
        markdown: "# Cloudflare plan\n\n**Status:** ".to_owned().concat(status).concat(
            "\n\n",
        ).concat(detail),
    }
}

// ---------------------------------------------------------------------------
// Laws
// ---------------------------------------------------------------------------
/// The word for an action in JSON.
pub open spec fn is_word_for(word: Seq<char>, action: PlanAction) -> bool {
    match action {
        PlanAction::Create => word == "create"@,
        PlanAction::Update => word == "update"@,
        PlanAction::Delete => word == "delete"@,
    }
}

/// The word for an action in Markdown.
pub open spec fn is_title_for(title: Seq<char>, action: PlanAction) -> bool {
    match action {
        PlanAction::Create => title == "Create"@,
        PlanAction::Update => title == "Update"@,
        PlanAction::Delete => title == "Delete"@,
    }
}

/// The document tells of an operation: what is done to which Worker, for which component, and the
/// names of the variables that it binds, in order. No value stands in it.
pub open spec fn tells_operation(json: JsonView, operation: OperationView) -> bool {
    json matches JsonView::Object(members) && {
        &&& members.len() == 4
        &&& members[0].0 == "action"@
        &&& members[0].1 matches JsonView::Text(word)
        &&& is_word_for(word, operation.action)
        &&& members[1] == (
            "componentSpecHash"@,
            JsonView::Text(lower_hex(operation.component.spec_hash)),
        )
        &&& members[2].0 == "vars"@
        &&& members[2].1 matches JsonView::Array(vars)
        &&& vars.len() == operation.component.context.slots.len()
        &&& forall|i: int|
            0 <= i < vars.len() ==> #[trigger] vars[i] == JsonView::Text(
                operation.component.context.slots[i].key,
            )
        &&& members[3] == ("workerName"@, JsonView::Text(operation.worker_name))
    }
}

/// The document tells what a component will publish: its hash, the name that it will be deployed
/// under, and its URL in the account's subdomain, where that is known and it is no tunnel.
pub open spec fn tells_planned(json: JsonView, component: PinView, subdomain: Seq<char>) -> bool {
    json matches JsonView::Object(members) && {
        let name = match component.context.deployed_name() {
            Ok(name) => name,
            Err(_) => Seq::empty(),
        };
        &&& members.len() == 3
        &&& members[0] == ("componentSpecHash"@, JsonView::Text(lower_hex(component.spec_hash)))
        &&& members[1].0 == "url"@
        &&& subdomain.len() > 0 && component.context.tunnel is None ==> members[1].1
            == JsonView::Text("https://"@ + name + "."@ + subdomain + ".workers.dev"@)
        &&& subdomain.len() == 0 || component.context.tunnel is Some ==> members[1].1 is Null
        &&& members[2] == ("workerName"@, JsonView::Text(name))
    }
}

/// A review tells each operation of its plan and each component of the level, in order.
pub proof fn reviews_tell_each_operation(
    plan: PlanView,
    components: Seq<PinView>,
    subdomain: Seq<char>,
)
    ensures
        plan_review(plan, components, subdomain).json matches JsonView::Object(members) && {
            &&& members.len() == 3
            &&& members[0] == ("desiredDigest"@, JsonView::Text(plan.desired_digest))
            &&& members[1].0 == "operations"@
            &&& members[1].1 matches JsonView::Array(operations)
            &&& operations.len() == plan.operations.len()
            &&& forall|i: int|
                0 <= i < operations.len() ==> tells_operation(
                    #[trigger] operations[i],
                    plan.operations[i],
                )
            &&& members[2].0 == "plannedOutputs"@
            &&& members[2].1 matches JsonView::Array(outputs)
            &&& outputs.len() == components.len()
            &&& forall|i: int|
                0 <= i < outputs.len() ==> tells_planned(
                    #[trigger] outputs[i],
                    components[i],
                    subdomain,
                )
        },
{
    let members = plan_review(plan, components, subdomain).json->Object_0;
    let operations = members[1].1->Array_0;
    assert forall|i: int| 0 <= i < operations.len() implies tells_operation(
        #[trigger] operations[i],
        plan.operations[i],
    ) by {
        assert(operations[i] == operation_json(plan.operations[i]));
    }
    let outputs = members[2].1->Array_0;
    assert forall|i: int| 0 <= i < outputs.len() implies tells_planned(
        #[trigger] outputs[i],
        components[i],
        subdomain,
    ) by {
        assert(outputs[i] == planned_output(components[i], subdomain));
    }
}

/// The Markdown form of a review has a line for each operation, in order: its action, its Worker
/// and the names of its variables.
pub proof fn reviews_list_each_operation(
    plan: PlanView,
    components: Seq<PinView>,
    subdomain: Seq<char>,
    listed: Seq<Seq<char>>,
    keys: Seq<Seq<Seq<char>>>,
    titles: Seq<Seq<char>>,
)
    requires
        listed.len() == plan.operations.len(),
        keys.len() == plan.operations.len(),
        titles.len() == plan.operations.len(),
        forall|i: int|
            0 <= i < keys.len() ==> (#[trigger] keys[i]).len()
                == plan.operations[i].component.context.slots.len(),
        forall|i: int, j: int|
            0 <= i < keys.len() && 0 <= j < keys[i].len() ==> #[trigger] keys[i][j]
                == plan.operations[i].component.context.slots[j].key,
        forall|i: int|
            0 <= i < titles.len() ==> is_title_for(
                #[trigger] titles[i],
                plan.operations[i].action,
            ),
        forall|i: int|
            0 <= i < listed.len() ==> #[trigger] listed[i] == "- **"@ + titles[i] + "** `"@
                + plan.operations[i].worker_name + "` (vars: "@ + joined(keys[i], ", "@) + ")"@,
    ensures
        plan_review(plan, components, subdomain).markdown == "# Cloudflare plan\n\n"@ + joined(
            listed,
            "\n"@,
        ),
{
    let written = plan.operations.map_values(
        |operation: OperationView| operation_line(operation),
    );
    assert forall|i: int| 0 <= i < listed.len() implies listed[i] == written[i] by {
        let slots = plan.operations[i].component.context.slots;
        assert(keys[i] =~= slot_keys(slots)) by {
            assert(keys[i].len() == slots.len());
            assert forall|j: int| 0 <= j < slots.len() implies keys[i][j] == slot_keys(slots)[j] by {
                assert(keys[i][j] == slots[j].key);
            }
        }
        assert(is_title_for(titles[i], plan.operations[i].action));
        assert(titles[i] == action_title(plan.operations[i].action));
    }
    assert(listed =~= written);
}

/// A blocked review names, for each input in order, the producer's hash and the output that it
/// waits for, and where the input stands.
pub proof fn blocked_reviews_name_each_input(
    blocked: Seq<BlockedView>,
    listed: Seq<Seq<char>>,
)
    requires
        listed.len() == blocked.len(),
        forall|i: int|
            0 <= i < listed.len() ==> #[trigger] listed[i] == "- `"@ + blocked[i].path
                + "` waits on `"@ + blocked[i].producer + "."@ + blocked[i].output + "`"@,
    ensures
        blocked_review(blocked).json matches JsonView::Object(members) && {
            &&& members.len() == 2
            &&& members[0].0 == "blockedOnInputs"@
            &&& members[0].1 matches JsonView::Array(inputs)
            &&& inputs.len() == blocked.len()
            &&& forall|i: int|
                0 <= i < inputs.len() ==> #[trigger] inputs[i] == JsonView::Text(
                    blocked[i].producer + "."@ + blocked[i].output,
                )
            &&& members[1] == ("status"@, JsonView::Text("blocked"@))
        },
        blocked_review(blocked).markdown == "# Cloudflare plan\n\nBlocked inputs:\n\n"@ + joined(
            listed,
            "\n"@,
        ),
{
    let inputs = blocked_review(blocked).json->Object_0[0].1->Array_0;
    assert forall|i: int| 0 <= i < inputs.len() implies #[trigger] inputs[i] == JsonView::Text(
        blocked[i].producer + "."@ + blocked[i].output,
    ) by {}
    assert(listed =~= blocked.map_values(|input: BlockedView| blocked_line(input)));
}

/// A review of a plan that came to nothing tells its status, its phase and the detail.
pub proof fn status_reviews_tell_the_detail(
    status: Seq<char>,
    phase: Seq<char>,
    detail: Seq<char>,
)
    ensures
        status_review(status, phase, detail).json matches JsonView::Object(members) && {
            &&& members.len() == 3
            &&& members[0] == ("detail"@, JsonView::Text(detail))
            &&& members[1] == ("phase"@, JsonView::Text(phase))
            &&& members[2] == ("status"@, JsonView::Text(status))
        },
        status_review(status, phase, detail).markdown =~= "# Cloudflare plan\n\n**Status:** "@
            + status + "\n\n"@ + detail,
{
}

} // verus!
