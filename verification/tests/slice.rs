use connector_cloudflare::context::{ComponentContext, InputSlot, ProjectFile, API_VERSION};
use connector_cloudflare::slice::{
    ComponentPin, DesiredSlice, SliceComponent, TargetSlice, UpstreamOutput,
};
use iddqd::IdOrdMap;

fn values_of(upstream: &str) -> Vec<u8> {
    let mut object = serde_json::Map::new();
    object.insert("restUrl".to_string(), serde_json::Value::String(upstream.to_string()));
    serde_json::to_vec(&serde_json::Value::Object(object)).unwrap()
}

fn desired_level(upstream: &str) -> DesiredSlice {
    let component = ComponentPin {
        spec_hash: [2; 32],
        name: "service-e".into(),
        context: ComponentContext {
            api_version: API_VERSION.into(),
            worker_name: "service-e".into(),
            entry: "src/index.js".into(),
            assets_directory: None,
            environment: "preview_01kxcq3c85ey9rz1q3738e8114".into(),
            files: Vec::new(),
            slots: vec![InputSlot {
                key: "SUPABASE_URL".into(),
                producer: "service-d".into(),
                output: "restUrl".into(),
                producer_spec_hash: [1; 32],
            }],
            tunnel: None,
        },
    };
    let output = UpstreamOutput {
        component_spec_hash: [1; 32],
        values_json: values_of(upstream),
    };
    DesiredSlice {
        graph_id: [3; 16],
        generation: 1,
        sequence: 1,
        components: IdOrdMap::from_iter_unique([component]).unwrap(),
        upstream_outputs: IdOrdMap::from_iter_unique([output]).unwrap(),
        removed_components: Vec::new(),
    }
}

fn item(hash: u8, name: &str) -> SliceComponent {
    SliceComponent {
        spec_hash: [hash; 32],
        name: name.to_string(),
        connector_context: Ok(ComponentContext {
            api_version: API_VERSION.into(),
            worker_name: name.to_string(),
            entry: "src/index.js".into(),
            assets_directory: None,
            environment: "dev".into(),
            files: vec![ProjectFile { path: "src/index.js".into(), bytes: vec![1, 2] }],
            slots: Vec::new(),
            tunnel: None,
        }),
    }
}

fn level(components: Vec<SliceComponent>, outputs: &[u8]) -> TargetSlice {
    TargetSlice {
        graph_id: [3; 16],
        generation: 4,
        sequence: 5,
        components,
        upstream_outputs: outputs
            .iter()
            .map(|hash| UpstreamOutput {
                component_spec_hash: [*hash; 32],
                values_json: vec![*hash],
            })
            .collect(),
    }
}

#[test]
fn deployment_key_ignores_level_identity_but_tracks_consumed_outputs() {
    let first = desired_level("https://database.example/rest/v1");
    let second = desired_level("https://database.example/rest/v2");
    let component = first.components.iter().next().unwrap();
    assert_ne!(
        first.deployment_key(component),
        second.deployment_key(second.components.iter().next().unwrap())
    );
    let mut unrelated = first.clone();
    unrelated.generation = 2;
    unrelated.sequence = 9;
    assert_eq!(
        first.deployment_key(component),
        unrelated.deployment_key(unrelated.components.iter().next().unwrap())
    );
}

#[test]
fn deployment_key_hashes_component_slots_and_values() {
    let level = desired_level("x");
    let component = level.components.iter().next().unwrap();
    let mut bytes = b"henosis.dev/cloudflare-deployment/v1\0".to_vec();
    bytes.extend([2; 32]);
    bytes.extend([1; 32]);
    bytes.extend(b"restUrl");
    bytes.extend(values_of("x"));
    assert_eq!(
        level.deployment_key(component),
        blake3::hash(&bytes).to_hex().to_string()
    );
}

#[test]
fn an_unpublished_producer_adds_no_values_to_the_key() {
    let mut level = desired_level("x");
    level.upstream_outputs = IdOrdMap::new();
    let component = level.components.iter().next().unwrap();
    let mut bytes = b"henosis.dev/cloudflare-deployment/v1\0".to_vec();
    bytes.extend([2; 32]);
    bytes.extend([1; 32]);
    bytes.extend(b"restUrl");
    assert_eq!(
        level.deployment_key(component),
        blake3::hash(&bytes).to_hex().to_string()
    );
}

#[test]
fn producer_names_do_not_change_the_key() {
    let level = desired_level("x");
    let component = level.components.iter().next().unwrap();
    let mut renamed = component.clone();
    renamed.context.slots[0].producer = "other".into();
    assert_eq!(level.deployment_key(component), level.deployment_key(&renamed));
}

#[test]
fn decoding_orders_components_and_outputs_by_hash() {
    let decoded =
        DesiredSlice::decode(&level(vec![item(9, "b"), item(1, "a"), item(5, "c")], &[7, 2]))
            .unwrap();
    let names: Vec<&str> = decoded.components.iter().map(|pin| pin.name.as_str()).collect();
    assert_eq!(names, ["a", "c", "b"]);
    let outputs: Vec<u8> =
        decoded.upstream_outputs.iter().map(|output| output.values_json[0]).collect();
    assert_eq!(outputs, [2, 7]);
    assert_eq!(decoded.graph_id, [3; 16]);
    assert_eq!(decoded.generation, 4);
    assert_eq!(decoded.sequence, 5);
    assert!(decoded.removed_components.is_empty());
    let other =
        DesiredSlice::decode(&level(vec![item(5, "c"), item(9, "b"), item(1, "a")], &[2, 7]))
            .unwrap();
    assert_eq!(decoded, other);
}

#[test]
fn decoding_refuses_repeated_hashes() {
    let error = DesiredSlice::decode(&level(vec![item(1, "a"), item(1, "b")], &[])).unwrap_err();
    assert_eq!(error.message, "duplicate component hash");
    let error = DesiredSlice::decode(&level(vec![item(1, "a")], &[2, 2])).unwrap_err();
    assert_eq!(error.message, "duplicate upstream output");
}

#[test]
fn decoding_names_the_component_with_a_bad_context() {
    let mut bad = item(1, "web");
    bad.connector_context = Err("expected value at line 1 column 1".to_string());
    let error = DesiredSlice::decode(&level(vec![bad], &[2, 2])).unwrap_err();
    assert_eq!(
        error.message,
        "component \"web\": connector context is invalid JSON: expected value at line 1 column 1"
    );
    let mut bad = item(1, "web");
    if let Ok(context) = &mut bad.connector_context {
        context.files.clear();
    }
    let error = DesiredSlice::decode(&level(vec![item(1, "x"), bad], &[])).unwrap_err();
    assert_eq!(error.message, "component \"web\": files must not be empty");
}

#[test]
fn outputs_are_found_by_producer() {
    let decoded = DesiredSlice::decode(&level(vec![], &[4, 2, 9])).unwrap();
    assert_eq!(decoded.find_output(&[2; 32]).unwrap().values_json, vec![2]);
    assert!(decoded.find_output(&[3; 32]).is_none());
}

#[test]
fn the_digest_covers_the_whole_level() {
    let decoded = DesiredSlice::decode(&level(vec![item(1, "a")], &[2])).unwrap();
    let hash = |byte: u8| vec![byte.to_string(); 32].join(",");
    let id = vec!["3"; 16].join(",");
    let text = format!(
        "{{\"graph_id\":[{id}],\"generation\":4,\"sequence\":5,\"components\":[{{\"spec_hash\":\
         [{}],\"name\":\"a\",\"context\":{{\"apiVersion\":\"henosis.dev/cloudflare-worker/v1\",\
         \"workerName\":\"a\",\"entry\":\"src/index.js\",\"assetsDirectory\":null,\
         \"environment\":\"dev\",\"files\":[{{\"path\":\"src/index.js\",\"bytes\":[1,2]}}],\
         \"slots\":[]}}}}],\"upstream_outputs\":[{{\"component_spec_hash\":[{}],\
         \"values_json\":[2]}}],\"removed_components\":[]}}",
        hash(1),
        hash(2)
    );
    assert_eq!(decoded.to_json().to_text(), text);
    assert_eq!(&decoded.digest(), blake3::hash(text.as_bytes()).as_bytes());
    let mut later = decoded.clone();
    assert_eq!(later, decoded);
    later.sequence = 6;
    assert_ne!(later.digest(), decoded.digest());
    later.sequence = 5;
    let pin = decoded.components.iter().next().unwrap().clone();
    later.removed_components.push(pin);
    assert_ne!(later.digest(), decoded.digest());
}
