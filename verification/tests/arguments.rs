use connector_cloudflare::arguments::{parse_arguments, parse_dependency, Invocation};

fn list(arguments: &[&str]) -> Vec<String> {
    arguments.iter().map(|argument| argument.to_string()).collect()
}

fn refusal(arguments: &[&str]) -> String {
    parse_arguments(&list(arguments)).unwrap_err()
}

#[test]
fn components_are_asked_for_with_their_dependencies() {
    let a = format!("web={}", "0A".repeat(32));
    let b = format!("api={}", "11".repeat(32));
    let c = format!("web={}", "22".repeat(32));
    assert_eq!(
        parse_arguments(&list(&["root", "dev", &a, &b, &c])).unwrap(),
        Invocation::Component {
            root: "root".to_string(),
            environment: "dev".to_string(),
            dependencies: vec![
                ("api".to_string(), [0x11; 32]),
                ("web".to_string(), [0x22; 32]),
            ],
        }
    );
}

#[test]
fn hashes_are_decoded() {
    let mut hash = [0; 32];
    hash[0] = 0x0f;
    hash[31] = 0xa1;
    let text = format!("db={}", hex::encode(hash));
    assert_eq!(parse_dependency(&text).unwrap(), ("db".to_string(), hash));
    assert_eq!(
        parse_dependency(&text.to_uppercase()).unwrap(),
        ("DB".to_string(), hash)
    );
}

#[test]
fn bad_dependencies_are_refused() {
    assert_eq!(refusal(&["r", "dev", "db"]), "dependency must be producer=64hex");
    assert_eq!(refusal(&["r", "dev", "db=00"]), "dependency hash must contain 32 bytes");
    assert_eq!(
        refusal(&["r", "dev", "db=0"]),
        hex::decode("0").unwrap_err().to_string()
    );
    assert_eq!(
        refusal(&["r", "dev", "db=0=00"]),
        hex::decode("0=00").unwrap_err().to_string()
    );
}

#[test]
fn missing_arguments_are_told() {
    assert_eq!(
        refusal(&[]),
        "usage: derive-component <root> <environment> [producer=64hex ...] | --tunnel <name> \
         <environment> <origin-host> <origin-port>"
    );
    assert_eq!(refusal(&["root"]), "environment is required");
    assert_eq!(refusal(&["--tunnel"]), "tunnel name is required");
    assert_eq!(refusal(&["--tunnel", "n"]), "environment is required");
    assert_eq!(refusal(&["--tunnel", "n", "dev"]), "origin host is required");
    assert_eq!(refusal(&["--tunnel", "n", "dev", "h"]), "origin port is required");
}

#[test]
fn tunnels_are_asked_for_with_their_origin() {
    assert_eq!(
        parse_arguments(&list(&["--tunnel", "n", "dev", "h", "+5432", "more"])).unwrap(),
        Invocation::Tunnel {
            name: "n".to_string(),
            environment: "dev".to_string(),
            origin_host: "h".to_string(),
            origin_port: 5432,
        }
    );
    for bad in ["65536", "", "-1", "+", "1x"] {
        assert_eq!(
            refusal(&["--tunnel", "n", "dev", "h", bad]),
            bad.parse::<u16>().unwrap_err().to_string()
        );
    }
}
