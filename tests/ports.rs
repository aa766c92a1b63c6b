use litterbox::config::ForwardedPort;
use litterbox::ports::{
    env_var_for_slug, forwarded_ports_from_inspection, parse_port, port_env_keys, port_setup,
    probe_candidates, ContainerInspection, PortBindingEntry, PortBindingSpec,
};

#[test]
fn forwarded_ports_from_inspection_builds_mapping() {
    let inspection = ContainerInspection {
        env: vec!["LITTERBOX_FWD_PORT_WEB=3001".to_string()],
        port_bindings: vec![PortBindingEntry {
            container_port: "8080/tcp".to_string(),
            bindings: vec![PortBindingSpec {
                host_ip: Some("0.0.0.0".to_string()),
                host_port: Some("3001".to_string()),
            }],
        }],
    };

    let mappings = forwarded_ports_from_inspection(&inspection);

    assert_eq!(mappings.len(), 1);
    assert_eq!(mappings[0].name, "web");
    assert_eq!(mappings[0].target, 8080);
    assert_eq!(mappings[0].host_port, 3001);
    assert_eq!(mappings[0].env_var, "LITTERBOX_FWD_PORT_WEB");
}

#[test]
fn inspection_skips_unannounced_and_malformed() {
    let inspection = ContainerInspection {
        env: vec![
            "PATH=/bin".to_string(),
            "LITTERBOX_FWD_PORT_MY_API=4000".to_string(),
            "LITTERBOX_FWD_PORT_BAD=x".to_string(),
        ],
        port_bindings: vec![
            PortBindingEntry {
                container_port: "9000/tcp".to_string(),
                bindings: vec![
                    PortBindingSpec { host_ip: None, host_port: Some("4000".to_string()) },
                    PortBindingSpec { host_ip: None, host_port: Some("5000".to_string()) },
                    PortBindingSpec { host_ip: None, host_port: None },
                ],
            },
            PortBindingEntry {
                container_port: "abc/tcp".to_string(),
                bindings: vec![PortBindingSpec { host_ip: None, host_port: Some("4000".to_string()) }],
            },
        ],
    };
    let mappings = forwarded_ports_from_inspection(&inspection);
    assert_eq!(mappings.len(), 1);
    assert_eq!(mappings[0].name, "my-api");
    assert_eq!(mappings[0].target, 9000);
}

#[test]
fn env_var_for_slug_formats_name() {
    let env = env_var_for_slug("my-service");

    assert_eq!(env, "LITTERBOX_FWD_PORT_MY_SERVICE");
}

#[test]
fn parse_port_follows_u16_parsing() {
    assert_eq!(parse_port("8080"), Some(8080));
    assert_eq!(parse_port("+80"), Some(80));
    assert_eq!(parse_port("65535"), Some(65535));
    assert_eq!(parse_port("65536"), None);
    assert_eq!(parse_port(""), None);
    assert_eq!(parse_port("+"), None);
    assert_eq!(parse_port("-1"), None);
    assert_eq!(parse_port("007"), Some(7));
}

#[test]
fn allocate_host_port_rejects_invalid_range() {
    let err = probe_candidates(9000, 8000, 1, &vec![]).unwrap_err();
    assert!(err.message().contains("Invalid port range"));
}

#[test]
fn probe_candidates_stay_in_range() {
    let plan = probe_candidates(45000, 45010, 123456789, &vec![]).unwrap();
    assert_eq!(plan.len(), 11);
    assert!(plan.iter().all(|p| (45000..=45010).contains(p)));
    assert_eq!(plan[0], 45000 + (123456789 % 11) as u16);
    let wide = probe_candidates(3000, 8000, 7, &vec![3008]).unwrap();
    assert_eq!(wide.len(), 31);
    assert_eq!(wide[0], 3007);
    assert!(!wide.contains(&3008));
}

#[test]
fn build_forwarded_ports_returns_env_and_mappings() {
    let ports = vec![ForwardedPort { name: "web".to_string(), target: 8080 }];
    let keys = port_env_keys(&ports).expect("build ports");
    let setup = port_setup(&ports, &keys, &vec![3005]);
    assert_eq!(setup.env, vec!["LITTERBOX_FWD_PORT_WEB=3005".to_string()]);
    assert_eq!(setup.port_bindings.len(), 1);
    assert_eq!(setup.port_bindings[0].container_port, "8080/tcp");
    assert_eq!(setup.port_bindings[0].bindings[0].host_ip.as_deref(), Some("0.0.0.0"));
    assert_eq!(setup.port_bindings[0].bindings[0].host_port.as_deref(), Some("3005"));
    assert_eq!(setup.mappings[0].env_var, "LITTERBOX_FWD_PORT_WEB");
    assert_eq!(setup.mappings[0].host_port, 3005);
}

#[test]
fn build_forwarded_ports_allows_empty_config() {
    let keys = port_env_keys(&vec![]).expect("build ports");
    let setup = port_setup(&vec![], &keys, &vec![]);
    assert!(setup.env.is_empty());
    assert!(setup.port_bindings.is_empty());
    assert!(setup.mappings.is_empty());
}

#[test]
fn build_forwarded_ports_rejects_invalid_name() {
    let ports = vec![ForwardedPort { name: "----".to_string(), target: 8080 }];
    let err = port_env_keys(&ports).expect_err("invalid name rejected");
    assert!(err.message().contains("Invalid sandbox name"));
}

#[test]
fn forwarded_ports_get_distinct_variables_and_ports() {
    let ports = vec![
        ForwardedPort { name: "web".to_string(), target: 80 },
        ForwardedPort { name: "api".to_string(), target: 81 },
    ];
    let keys = port_env_keys(&ports).unwrap();
    assert_ne!(keys[0], keys[1]);
    let first = probe_candidates(3000, 3001, 0, &vec![]).unwrap()[0];
    let second = probe_candidates(3000, 3001, 0, &vec![first]).unwrap()[0];
    assert_ne!(first, second);
    assert!((3000..=3001).contains(&second));
}
