use prism_lb::backend::{Backend, BackendConfig};
use prism_lb::config::{Config, HealthCheck};
use prism_lb::decimal::PortError;
use prism_lb::server::{handle_request_uri, ConfigError, Server};

fn entry(pairs: &[(&str, &str)]) -> Vec<(String, String)> {
    pairs.iter().map(|(k, v)| (k.to_string(), v.to_string())).collect()
}

fn three_backend_config(threshold: usize) -> Config {
    let backends = vec![
        entry(&[("host", "127.0.0.1"), ("port", "5001"), ("healthPath", "/")]),
        entry(&[("healthPath", "/h"), ("port", "5002"), ("host", "127.0.0.2")]),
        entry(&[("host", "127.0.0.3"), ("port", "+5003"), ("healthPath", "/ready")]),
    ];
    Config::new("127.0.0.1".to_string(), 5000, backends, HealthCheck::new(10, threshold))
}

fn names(server: &Server) -> Vec<String> {
    server.backends().iter().map(|b| b.to_string()).collect()
}

fn server_error(config: Config) -> ConfigError {
    match Server::new(config) {
        Ok(_) => panic!("configuration accepted"),
        Err(e) => e,
    }
}

#[test]
fn server_from_config_keeps_entry_order() {
    let server = match Server::new(three_backend_config(3)) {
        Ok(s) => s,
        Err(e) => panic!("{}", e.message()),
    };
    assert_eq!(names(&server), vec!["127.0.0.1:5001", "127.0.0.2:5002", "127.0.0.3:5003"]);
    assert_eq!(server.backends()[1].config().health_path(), "/h");
    assert_eq!(server.count(), 0);
    assert_eq!(*server.health_check().failure_threshold(), 3);
    assert_eq!(*server.health_check().interval(), 10);
    assert!(server.backends().iter().all(|b| b.health_failures() == 0));
}

#[test]
fn missing_host_is_reported_by_position() {
    let backends = vec![
        entry(&[("host", "a"), ("port", "1"), ("healthPath", "/")]),
        entry(&[("port", "2"), ("healthPath", "/")]),
    ];
    let e = server_error(Config::new("0.0.0.0".to_string(), 1, backends, HealthCheck::new(1, 1)));
    assert!(matches!(e, ConfigError::MissingHost(1)));
    assert_eq!(e.message(), "backend 1 missing 'host'");
}

#[test]
fn missing_port_is_reported_by_host() {
    let backends = vec![entry(&[("host", "a"), ("healthPath", "/")])];
    let e = server_error(Config::new("0.0.0.0".to_string(), 1, backends, HealthCheck::new(1, 1)));
    assert_eq!(e.message(), "backend 'a' missing 'port'");
    assert_eq!(e.cause(), None);
}

#[test]
fn invalid_port_is_reported_with_its_text() {
    let backends = vec![entry(&[("host", "a"), ("port", "70000"), ("healthPath", "/")])];
    let e = server_error(Config::new("0.0.0.0".to_string(), 1, backends, HealthCheck::new(1, 1)));
    assert_eq!(e.message(), "backend 'a' has invalid port '70000'");
    assert_eq!(e.cause(), Some("number too large to fit in target type".to_string()));
    let backends = vec![entry(&[("host", "b"), ("port", "eighty"), ("healthPath", "/")])];
    let e = server_error(Config::new("0.0.0.0".to_string(), 1, backends, HealthCheck::new(1, 1)));
    assert!(matches!(e, ConfigError::InvalidPort(_, _, PortError::InvalidDigit)));
    assert_eq!(e.message(), "backend 'b' has invalid port 'eighty'");
    assert_eq!(e.cause(), Some("invalid digit found in string".to_string()));
}

#[test]
fn missing_health_path_is_reported_by_host() {
    let backends = vec![entry(&[("host", "a"), ("port", "80")])];
    let e = server_error(Config::new("0.0.0.0".to_string(), 1, backends, HealthCheck::new(1, 1)));
    assert_eq!(e.message(), "Backend 'a' missing healthPath");
}

#[test]
fn first_bad_entry_decides_the_error() {
    let backends = vec![
        entry(&[("host", "a"), ("port", "x"), ("healthPath", "/")]),
        entry(&[("port", "2")]),
    ];
    let e = server_error(Config::new("0.0.0.0".to_string(), 1, backends, HealthCheck::new(1, 1)));
    assert_eq!(e.message(), "backend 'a' has invalid port 'x'");
}

#[test]
fn empty_backend_list_gives_empty_pool() {
    let server = match Server::new(Config::new("::1".to_string(), 1, vec![], HealthCheck::new(1, 1))) {
        Ok(s) => s,
        Err(e) => panic!("{}", e.message()),
    };
    assert!(server.backends().is_empty());
}

#[test]
fn round_robin_cycles_through_the_pool() {
    let mut server = match Server::new(three_backend_config(3)) {
        Ok(s) => s,
        Err(e) => panic!("{}", e.message()),
    };
    let mut picked = Vec::new();
    let mut counts = Vec::new();
    for _ in 0..7 {
        picked.push(server.next_server_address().to_string());
        counts.push(server.count());
    }
    assert_eq!(
        picked,
        vec![
            "127.0.0.1:5001", "127.0.0.2:5002", "127.0.0.3:5003", "127.0.0.1:5001",
            "127.0.0.2:5002", "127.0.0.3:5003", "127.0.0.1:5001",
        ]
    );
    assert_eq!(counts, vec![1, 2, 3, 1, 2, 3, 1]);
}

#[test]
fn failing_backend_leaves_pool_at_threshold() {
    let mut server = match Server::new(three_backend_config(2)) {
        Ok(s) => s,
        Err(e) => panic!("{}", e.message()),
    };
    server.health_worker_step(&vec![true, false, true]);
    assert_eq!(names(&server), vec!["127.0.0.1:5001", "127.0.0.2:5002", "127.0.0.3:5003"]);
    assert_eq!(server.backends()[1].health_failures(), 1);
    server.health_worker_step(&vec![true, false, false]);
    assert_eq!(names(&server), vec!["127.0.0.1:5001", "127.0.0.3:5003"]);
    assert_eq!(server.backends()[1].health_failures(), 1);
    server.health_worker_step(&vec![true, true]);
    assert_eq!(names(&server), vec!["127.0.0.1:5001", "127.0.0.3:5003"]);
    assert_eq!(server.backends()[1].health_failures(), 1);
}

#[test]
fn health_check_counts_and_filters() {
    let mut server = match Server::new(three_backend_config(1)) {
        Ok(s) => s,
        Err(e) => panic!("{}", e.message()),
    };
    let kept = server.backend_health_check(&vec![false, true, false]);
    let kept_names: Vec<String> = kept.iter().map(|b| b.to_string()).collect();
    assert_eq!(kept_names, vec!["127.0.0.2:5002"]);
    let failures: Vec<usize> = server.backends().iter().map(|b| b.health_failures()).collect();
    assert_eq!(failures, vec![1, 0, 1]);
}

#[test]
fn round_robin_restarts_after_pool_shrinks() {
    let mut server = match Server::new(three_backend_config(1)) {
        Ok(s) => s,
        Err(e) => panic!("{}", e.message()),
    };
    server.next_server_address();
    server.next_server_address();
    server.next_server_address();
    assert_eq!(server.count(), 3);
    server.health_worker_step(&vec![true, false, true]);
    assert_eq!(server.count(), 3);
    assert_eq!(server.next_server_address().to_string(), "127.0.0.1:5001");
    assert_eq!(server.count(), 1);
    assert_eq!(server.next_server_address().to_string(), "127.0.0.3:5003");
}

#[test]
fn forwarded_uri_keeps_path_or_uses_root() {
    let backend = Backend::new(BackendConfig::new("127.0.0.1".to_string(), 5001, "/".to_string()));
    let uri = match handle_request_uri(&backend, Some("/a/b?c=d".to_string())) {
        Ok(u) => u,
        Err(_) => panic!("uri refused"),
    };
    assert_eq!(uri.to_string(), "http://127.0.0.1:5001/a/b?c=d");
    let uri = match handle_request_uri(&backend, None) {
        Ok(u) => u,
        Err(_) => panic!("uri refused"),
    };
    assert_eq!(uri.to_string(), "http://127.0.0.1:5001/");
}

#[test]
fn offline_backend_leaves_after_threshold_rounds_and_stays_out() {
    let mut server = match Server::new(three_backend_config(3)) {
        Ok(s) => s,
        Err(e) => panic!("{}", e.message()),
    };
    server.health_worker_step(&vec![true, true, false]);
    server.health_worker_step(&vec![true, true, false]);
    assert_eq!(names(&server), vec!["127.0.0.1:5001", "127.0.0.2:5002", "127.0.0.3:5003"]);
    server.health_worker_step(&vec![true, true, false]);
    assert_eq!(names(&server), vec!["127.0.0.1:5001", "127.0.0.2:5002"]);
    for _ in 0..3 {
        server.health_worker_step(&vec![true, true]);
        assert_eq!(names(&server), vec!["127.0.0.1:5001", "127.0.0.2:5002"]);
    }
    for _ in 0..4 {
        assert_ne!(server.next_server_address().to_string(), "127.0.0.3:5003");
    }
}

#[test]
fn replace_backends_keeps_position_and_settings() {
    let mut server = match Server::new(three_backend_config(2)) {
        Ok(s) => s,
        Err(e) => panic!("{}", e.message()),
    };
    server.next_server_address();
    let kept = server.backend_health_check(&vec![false, true, true]);
    assert_eq!(server.backends().len(), 3);
    server.replace_backends(kept);
    assert_eq!(names(&server), vec!["127.0.0.1:5001", "127.0.0.2:5002", "127.0.0.3:5003"]);
    assert_eq!(server.count(), 1);
    assert_eq!(*server.health_check().failure_threshold(), 2);
}
