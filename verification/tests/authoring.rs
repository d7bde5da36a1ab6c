use connector_cloudflare::authoring::{
    derive_component, find_slots, parse_slot, AssetsOutcome, ConfigOutcome, DeriveError,
    DeriveStep, DerivedComponent, FoundAsset, Survey, WranglerConfig,
};
use connector_cloudflare::context::ComponentContext;
use connector_cloudflare::paths::{sort_paths, FoundPath, PathPart};

fn path_in(root: &str, relative: &str) -> FoundPath {
    let mut parts = vec![PathPart::Root];
    for name in root.split('/').chain(relative.split('/')) {
        parts.push(PathPart::Normal(name.as_bytes().to_vec()));
    }
    FoundPath {
        parts,
        shown: format!("/{root}/{relative}"),
        relative: Some(relative.to_string()),
    }
}

fn path(relative: &str) -> FoundPath {
    path_in("project", relative)
}

fn file(relative: &str) -> FoundAsset {
    FoundAsset { path: path(relative), is_file: true }
}

fn config(source: &str) -> WranglerConfig {
    let table: toml::Table = source.parse().unwrap();
    WranglerConfig {
        name: table["name"].as_str().unwrap().to_string(),
        main: table.get("main").map(|main| main.as_str().unwrap().to_string()),
        assets_directory: table
            .get("assets")
            .map(|assets| assets["directory"].as_str().unwrap().to_string()),
        vars: match table.get("vars") {
            Some(vars) => vars
                .as_table()
                .unwrap()
                .iter()
                .map(|(key, value)| (key.clone(), value.as_str().map(|text| text.to_string())))
                .collect(),
            None => Vec::new(),
        },
    }
}

fn survey(source: &str) -> Survey {
    Survey {
        config_path: path("wrangler.toml"),
        config: Some(ConfigOutcome::Parsed(config(source))),
        entry: Some(file("src/index.js")),
        assets: None,
        files: vec![Ok(b"export default { fetch() {} }".to_vec()), Ok(source.as_bytes().to_vec())],
    }
}

fn derived(step: DeriveStep) -> DerivedComponent {
    match step {
        DeriveStep::Done(Ok(component)) => component,
        other => panic!("expected a component, not {other:?}"),
    }
}

fn refused(step: DeriveStep) -> String {
    match step {
        DeriveStep::Done(Err(error)) => error.message(),
        other => panic!("expected a failure, not {other:?}"),
    }
}

#[test]
fn derives_worker_and_slots_without_marker_file() {
    let source = "name = \"service-e\"\nmain = \"src/index.js\"\n[vars]\nSUPABASE_URL = \
                  \"${henosis:database.restUrl}\"\n";
    let hash = [7; 32];
    let dependencies = vec![("database".to_string(), hash)];
    let mut found = Survey {
        config_path: path("wrangler.toml"),
        config: None,
        entry: None,
        assets: None,
        files: Vec::new(),
    };
    assert_eq!(derive_component(&found, "dev", &dependencies), DeriveStep::ReadConfig);
    found.config = Some(ConfigOutcome::Parsed(config(source)));
    assert_eq!(
        derive_component(&found, "dev", &dependencies),
        DeriveStep::FindEntry("src/index.js".to_string())
    );
    found.entry = Some(file("src/index.js"));
    let mut read = Vec::new();
    while let DeriveStep::ReadFile(next) = derive_component(&found, "dev", &dependencies) {
        let bytes = match next.shown.as_str() {
            "/project/src/index.js" => b"export default { fetch() {} }".to_vec(),
            _ => source.as_bytes().to_vec(),
        };
        found.files.push(Ok(bytes));
        read.push(next.shown);
    }
    let derived = derived(derive_component(&found, "dev", &dependencies));
    assert_eq!(derived.name, "service-e");
    assert_eq!(derived.depends_on, vec![hash.to_vec()]);
    assert_eq!(derived.connector_context.slots[0].output, "restUrl");
    assert_eq!(read, ["/project/src/index.js", "/project/wrangler.toml"]);
    assert!(!read.iter().any(|path| path.ends_with("henosis.toml")));
}

#[test]
fn derived_components_are_complete() {
    let source = "name = \"web\"\n[vars]\nPORT = 80\nB = \"${henosis:db.url}\"\nA = \
                  \"${henosis:api.v1.url}\"\nPLAIN = \"x\"\n";
    let dependencies =
        vec![("api.v1".to_string(), [1; 32]), ("db".to_string(), [2; 32])];
    let component = derived(derive_component(&survey(source), "prod", &dependencies));
    let context = &component.connector_context;
    assert_eq!(component.connector, "cloudflare");
    assert_eq!(component.depends_on, vec![vec![1; 32], vec![2; 32]]);
    assert_eq!(context.api_version, "henosis.dev/cloudflare-worker/v1");
    assert_eq!(context.worker_name, "web");
    assert_eq!(context.entry, "src/index.js");
    assert_eq!(context.assets_directory, None);
    assert_eq!(context.environment, "prod");
    assert_eq!(context.files[0].path, "src/index.js");
    assert_eq!(context.files[0].bytes, b"export default { fetch() {} }");
    assert_eq!(context.files[1].path, "wrangler.toml");
    assert_eq!(context.slots.len(), 2);
    assert_eq!(context.slots[0].key, "A");
    assert_eq!(context.slots[0].producer, "api.v1");
    assert_eq!(context.slots[0].producer_spec_hash, [1; 32]);
    assert_eq!(context.slots[1].key, "B");
    assert_eq!(context.slots[1].output, "url");
    assert_eq!(
        ComponentContext::from_parsed(Ok(context.clone())).unwrap(),
        *context
    );
    assert_eq!(
        component.connector_context_bytes().unwrap(),
        context.to_json().to_text().into_bytes()
    );
    assert_eq!(
        String::from_utf8(component.outputs_schema_bytes().unwrap()).unwrap(),
        "{\"kind\":\"object\",\"shape\":{\"claimUrl\":{\"kind\":\"url\"},\
         \"deploymentId\":{\"kind\":\"string\"},\"url\":{\"kind\":\"url\",\"role\":\"ui\"},\
         \"versionId\":{\"kind\":\"string\"},\"workerName\":{\"kind\":\"string\"}}}"
    );
}

#[test]
fn assets_are_collected_once_in_order() {
    let source = "name = \"web\"\n[assets]\ndirectory = \"public\"\n";
    let mut found = survey(source);
    assert_eq!(
        derive_component(&found, "dev", &Vec::new()),
        DeriveStep::ListAssets("public".to_string())
    );
    found.assets = Some(AssetsOutcome::Listed(vec![
        FoundAsset { path: path("public"), is_file: false },
        file("public/b.css"),
        file("public/a.js"),
        file("src/index.js"),
    ]));
    found.files = (0u8..4).map(|byte| Ok(vec![byte])).collect();
    let component = derived(derive_component(&found, "dev", &Vec::new()));
    let names: Vec<&str> =
        component.connector_context.files.iter().map(|file| file.path.as_str()).collect();
    assert_eq!(names, ["public/a.js", "public/b.css", "src/index.js", "wrangler.toml"]);
    assert_eq!(component.connector_context.files[3].bytes, vec![3]);
    assert_eq!(component.connector_context.assets_directory.as_deref(), Some("public"));
}

#[test]
fn backslashes_become_slashes() {
    let mut found = survey("name = \"web\"\n");
    let mut entry = file("src/index.js");
    entry.path.relative = Some("src\\index.js".to_string());
    found.entry = Some(entry);
    let component = derived(derive_component(&found, "dev", &Vec::new()));
    assert_eq!(component.connector_context.files[0].path, "src/index.js");
}

#[test]
fn failures_are_told_in_order() {
    let none = Vec::new();
    let mut found = survey("name = \"web\"\n[vars]\nA = \"${henosis:db.url}\"\n");
    found.config = Some(ConfigOutcome::Unreadable("denied".to_string()));
    assert_eq!(
        refused(derive_component(&found, "dev", &none)),
        "cannot read /project/wrangler.toml: denied"
    );
    found.config = Some(ConfigOutcome::Malformed("expected `=`".to_string()));
    assert_eq!(
        refused(derive_component(&found, "dev", &none)),
        "invalid TOML in /project/wrangler.toml: expected `=`"
    );
    found.config = Some(ConfigOutcome::Parsed(config("name = \"\"\n")));
    assert_eq!(
        refused(derive_component(&found, "dev", &none)),
        "invalid Wrangler project at /project/wrangler.toml: name must not be empty"
    );
    let mut found = survey("name = \"web\"\nmain = \"x.js\"\n[vars]\nA = \"${henosis:db.url}\"\n");
    found.entry = Some(FoundAsset { path: path("x.js"), is_file: false });
    assert_eq!(
        refused(derive_component(&found, "dev", &none)),
        "invalid Wrangler project at /project/wrangler.toml: main entry \"x.js\" does not exist"
    );
    found.entry = Some(file("x.js"));
    assert_eq!(
        refused(derive_component(&found, "dev", &none)),
        "invalid Wrangler project at /project/wrangler.toml: [vars].A names producer \"db\", but \
         authoring did not receive its immutable spec hash"
    );
    let mut found = survey("name = \"web\"\n[assets]\ndirectory = \"public\"\n");
    found.assets = Some(AssetsOutcome::Missing);
    assert_eq!(
        refused(derive_component(&found, "dev", &none)),
        "invalid Wrangler project at /project/wrangler.toml: assets directory \"public\" does not \
         exist"
    );
    found.assets = Some(AssetsOutcome::Failed("loop".to_string()));
    assert_eq!(
        refused(derive_component(&found, "dev", &none)),
        "invalid Wrangler project at /project/wrangler.toml: loop"
    );
}

#[test]
fn files_have_to_stand_in_the_project() {
    let mut found = survey("name = \"web\"\nmain = \"/etc/x\"\n");
    found.entry = Some(FoundAsset {
        path: FoundPath {
            parts: vec![PathPart::Root, PathPart::Normal(b"etc".to_vec())],
            shown: "/etc/x".to_string(),
            relative: None,
        },
        is_file: true,
    });
    found.files = Vec::new();
    assert_eq!(
        derive_component(&found, "dev", &Vec::new()),
        DeriveStep::Done(Err(DeriveError::Invalid {
            path: "/etc/x".to_string(),
            message: "file escapes project root".to_string(),
        }))
    );
    let mut found = survey("name = \"web\"\n");
    found.files = vec![Err("denied".to_string())];
    assert_eq!(
        refused(derive_component(&found, "dev", &Vec::new())),
        "cannot read /project/src/index.js: denied"
    );
    let found = survey("name = \"Web\"\n");
    assert_eq!(
        refused(derive_component(&found, "dev", &Vec::new())),
        "invalid Wrangler project at /project/wrangler.toml: Worker name \"Web\" must be a \
         lowercase DNS label no longer than 63 characters"
    );
    assert_eq!(
        DeriveError::Serialize("x".to_string()).message(),
        "cannot serialize connector context: x"
    );
}

#[test]
fn components_are_the_same_below_another_root() {
    let source = "name = \"web\"\n[assets]\ndirectory = \"public\"\n";
    let surveyed = |root: &str| {
        let found = |relative: &str| FoundAsset { path: path_in(root, relative), is_file: true };
        Survey {
            config_path: path_in(root, "wrangler.toml"),
            config: Some(ConfigOutcome::Parsed(config(source))),
            entry: Some(found("src/index.js")),
            assets: Some(AssetsOutcome::Listed(vec![found("public/z"), found("public/a")])),
            files: (0u8..4).map(|byte| Ok(vec![byte])).collect(),
        }
    };
    let here = surveyed("project");
    let mut there = surveyed("srv/work/other");
    assert_eq!(
        derived(derive_component(&here, "dev", &Vec::new())),
        derived(derive_component(&there, "dev", &Vec::new()))
    );
    there.files.pop();
    assert_eq!(
        derive_component(&there, "dev", &Vec::new()),
        DeriveStep::ReadFile(path_in("srv/work/other", "wrangler.toml"))
    );
    let outside = |mut survey: Survey| {
        survey.entry = Some(FoundAsset {
            path: FoundPath {
                parts: vec![PathPart::Root, PathPart::Normal(b"r".to_vec())],
                shown: "/r".to_string(),
                relative: None,
            },
            is_file: true,
        });
        refused(derive_component(&survey, "dev", &Vec::new()))
    };
    let told = "invalid Wrangler project at /r: file escapes project root";
    assert_eq!(outside(here), told);
    assert_eq!(outside(there), told);
}

#[test]
fn dependencies_are_found_by_name() {
    let var = |key: &str, value: &str| (key.to_string(), Some(value.to_string()));
    let dependencies = vec![
        ("api".to_string(), [1; 32]),
        ("db".to_string(), [2; 32]),
        ("web".to_string(), [3; 32]),
    ];
    let slots = find_slots(
        &vec![var("A", "${henosis:web.url}"), var("B", "${henosis:api.url}")],
        &dependencies,
    )
    .unwrap();
    assert_eq!(slots[0].producer_spec_hash, [3; 32]);
    assert_eq!(slots[1].producer_spec_hash, [1; 32]);
    assert!(find_slots(&vec![var("A", "${henosis:cache.url}")], &dependencies).is_err());
}

#[test]
fn slot_values_have_one_form() {
    let pair = |producer: &str, output: &str| Some((producer.to_string(), output.to_string()));
    assert_eq!(parse_slot("${henosis:service-e.url}"), pair("service-e", "url"));
    assert_eq!(parse_slot("${henosis:a.b.c}"), pair("a.b", "c"));
    for bad in [
        "",
        "url",
        "${henosis:}",
        "${henosis:",
        "${henosis:a}",
        "${henosis:.b}",
        "${henosis:a.}",
        " ${henosis:a.b}",
        "${henosis:a.b} ",
        "${other:a.b}",
    ] {
        assert_eq!(parse_slot(bad), None);
    }
}

#[test]
fn slots_are_sorted_by_key() {
    let var = |key: &str, value: &str| (key.to_string(), Some(value.to_string()));
    let vars = vec![
        var("B", "${henosis:db.b}"),
        var("A", "${henosis:db.a}"),
        var("B", "${henosis:db.c}"),
        ("C".to_string(), None),
    ];
    let slots = find_slots(&vars, &vec![("db".to_string(), [2; 32])]).unwrap();
    let found: Vec<&str> = slots.iter().map(|slot| slot.output.as_str()).collect();
    assert_eq!(found, ["a", "b", "c"]);
}

#[test]
fn paths_are_sorted_part_by_part() {
    let shown = |paths: Vec<FoundPath>| -> Vec<String> {
        sort_paths(paths).into_iter().map(|path| path.shown).collect()
    };
    let mut twin = path("a/b");
    twin.shown = "/project//a/b".to_string();
    assert_eq!(
        shown(vec![path("a.b"), path("a/c"), path("a/b"), twin, path("a")]),
        ["/project/a", "/project/a/b", "/project/a/c", "/project/a.b"]
    );
    let special = |part: PathPart, shown: &str| FoundPath {
        parts: vec![part],
        shown: shown.to_string(),
        relative: None,
    };
    assert_eq!(
        shown(vec![
            special(PathPart::Normal(Vec::new()), "name"),
            special(PathPart::Parent, "parent"),
            special(PathPart::Current, "current"),
            special(PathPart::Root, "root"),
        ]),
        ["root", "current", "parent", "name"]
    );
}
