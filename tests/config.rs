use litterbox::config::{
    default_config, load_final, merge, validate_ports, Config, ConfigError, DockerConfig,
    ForwardedPort, PortsConfig, ProjectConfig,
};

fn base_config(ports: Vec<ForwardedPort>) -> Config {
    Config {
        project: ProjectConfig { slug: None },
        docker: DockerConfig {
            image: Some("image".to_string()),
            setup_command: Some("setup".to_string()),
        },
        ports: PortsConfig { ports },
    }
}

fn empty_config() -> Config {
    Config {
        project: ProjectConfig { slug: None },
        docker: DockerConfig { image: None, setup_command: None },
        ports: PortsConfig::default(),
    }
}

#[test]
fn forwarded_port_instantiates() {
    let port = ForwardedPort {
        name: "backend".to_string(),
        target: 8080,
    };

    assert_eq!(port.name, "backend");
    assert_eq!(port.target, 8080);
}

#[test]
fn ports_config_instantiates() {
    let ports = PortsConfig {
        ports: vec![ForwardedPort {
            name: "frontend".to_string(),
            target: 8081,
        }],
    };

    assert_eq!(ports.ports.len(), 1);
    assert_eq!(ports.ports[0].name, "frontend");
    assert_eq!(ports.ports[0].target, 8081);
}

#[test]
fn ports_config_defaults_to_empty() {
    let ports = PortsConfig::default();

    assert!(ports.ports.is_empty());
}

#[test]
fn validate_ports_allows_unique_slugs() {
    let config = base_config(vec![
        ForwardedPort {
            name: "Backend".to_string(),
            target: 8080,
        },
        ForwardedPort {
            name: "Frontend".to_string(),
            target: 8081,
        },
    ]);

    validate_ports(&config).expect("ports validate");
}

#[test]
fn validate_ports_rejects_duplicate_slugs() {
    let config = base_config(vec![
        ForwardedPort {
            name: "My Service".to_string(),
            target: 8080,
        },
        ForwardedPort {
            name: "my-service".to_string(),
            target: 8081,
        },
    ]);

    let err = validate_ports(&config).expect_err("duplicate slug rejected");
    assert!(err.message().contains("Duplicate forwarded port name"));
}

#[test]
fn validate_ports_rejects_invalid_names() {
    let config = base_config(vec![ForwardedPort {
        name: "----".to_string(),
        target: 8080,
    }]);

    let err = validate_ports(&config).expect_err("invalid slug rejected");
    assert!(err.message().contains("Invalid sandbox name"));
}

#[test]
fn validate_ports_rejects_invalid_targets() {
    let config = base_config(vec![ForwardedPort {
        name: "backend".to_string(),
        target: 0,
    }]);

    let err = validate_ports(&config).expect_err("invalid target rejected");
    assert!(err.message().contains("Invalid forwarded port target"));
}

#[test]
fn validate_ports_first_fault_wins() {
    let config = base_config(vec![
        ForwardedPort { name: "a".to_string(), target: 1 },
        ForwardedPort { name: "A".to_string(), target: 2 },
        ForwardedPort { name: "b".to_string(), target: 0 },
    ]);
    let err = validate_ports(&config).unwrap_err();
    assert_eq!(err, ConfigError::ParseError("Duplicate forwarded port name after slugify: 'a'".to_string()));
}

#[test]
fn merge_prefers_local_values() {
    let mut base = base_config(vec![ForwardedPort { name: "web".to_string(), target: 80 }]);
    base.project.slug = Some("base".to_string());
    let mut local = empty_config();
    local.docker.image = Some("local-image".to_string());
    let merged = merge(base, local);
    assert_eq!(merged.project.slug.as_deref(), Some("base"));
    assert_eq!(merged.docker.image.as_deref(), Some("local-image"));
    assert_eq!(merged.docker.setup_command.as_deref(), Some("setup"));
    assert_eq!(merged.ports.ports.len(), 1);
}

#[test]
fn finalize_requires_image_and_setup() {
    let defaults = default_config(Some("My Repo"));
    assert_eq!(defaults.project.slug.as_deref(), Some("my-repo"));
    let err = load_final(defaults.clone(), empty_config(), None).unwrap_err();
    assert_eq!(err, ConfigError::MissingRequiredKey("docker.image".to_string()));
    assert_eq!(err.message(), "Missing required key: docker.image");
    let mut only_image = empty_config();
    only_image.docker.image = Some("img".to_string());
    let err = load_final(defaults.clone(), only_image, None).unwrap_err();
    assert_eq!(err, ConfigError::MissingRequiredKey("docker.setup-command".to_string()));
    let ok = load_final(defaults, base_config(vec![]), Some(empty_config())).unwrap();
    assert_eq!(ok.project.slug.as_deref(), Some("my-repo"));
    assert_eq!(ok.docker.image.as_deref(), Some("image"));
}

#[test]
fn default_config_without_usable_name() {
    assert_eq!(default_config(Some("!!!")).project.slug, None);
    assert_eq!(default_config(None).project.slug, None);
}
