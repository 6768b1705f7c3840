use prism_lb::backend::{health_from_status, Backend, BackendConfig};
use std::sync::atomic::{AtomicUsize, Ordering};

fn example_backend() -> Backend {
    let backend_config = BackendConfig::new("example.com".to_string(), 80, "/".to_string());
    Backend::new(backend_config)
}

#[test]
fn test_backend_constructor_with_domain() {
    let backend_config = BackendConfig::new("example.com".to_string(), 80, "/".to_string());
    let backend = Backend::new(backend_config);

    assert_eq!(backend.config().address(), "example.com");
    assert_eq!(backend.config().port(), &80);
    assert_eq!(backend.config().health_path(), "/");
}

#[test]
fn test_backend_display() {
    let backend_config = BackendConfig::new("example.com".to_string(), 80, "/".to_string());
    let backend = Backend::new(backend_config);

    // the text is the authority of the URIs by which the backend is reached
    assert_eq!(backend.to_string(), "example.com:80");
}

#[test]
fn test_backend_increment_health_failure() {
    let backend_config = BackendConfig::new("example.com".to_string(), 80, "/".to_string());
    let mut backend = Backend::new(backend_config);

    backend.increment_health_failure();

    let atomic = AtomicUsize::new(1);

    let actual = backend.health_failures();
    let exepected = atomic.load(Ordering::SeqCst);

    assert_eq!(exepected, actual);
}

#[test]
fn test_backend_failure_threshold_true() {
    let backend_config = BackendConfig::new("example.com".to_string(), 80, "/".to_string());
    let mut backend = Backend::new(backend_config);

    backend.increment_health_failure();
    backend.increment_health_failure();

    let expected = backend.is_health_failures_larger_than_threshold(1);

    assert!(expected)
}

#[test]
fn test_backend_failure_threshold_false() {
    let backend_config = BackendConfig::new("example.com".to_string(), 80, "/".to_string());
    let mut backend = Backend::new(backend_config);

    backend.increment_health_failure();
    backend.increment_health_failure();

    let expected = backend.is_health_failures_larger_than_threshold(5);

    assert!(!expected)
}

#[test]
fn fresh_backend_has_no_failures() {
    let backend = example_backend();
    assert_eq!(backend.health_failures(), 0);
    assert!(backend.is_health_failures_larger_than_threshold(0));
    assert!(!backend.is_health_failures_larger_than_threshold(1));
}

#[test]
fn threshold_is_reached_at_equality() {
    let mut backend = example_backend();
    for _ in 0..3 {
        backend.increment_health_failure();
    }
    assert_eq!(backend.health_failures(), 3);
    assert!(backend.is_health_failures_larger_than_threshold(3));
    assert!(!backend.is_health_failures_larger_than_threshold(4));
    backend.increment_health_failure();
    assert!(backend.is_health_failures_larger_than_threshold(3));
}

#[test]
fn display_of_large_port_and_ip() {
    let backend = Backend::new(BackendConfig::new("10.0.0.7".to_string(), 65535, "/health".to_string()));
    assert_eq!(backend.to_string(), "10.0.0.7:65535");
    let backend = Backend::new(BackendConfig::new("h".to_string(), 0, "/".to_string()));
    assert_eq!(backend.to_string(), "h:0");
    let backend = Backend::new(BackendConfig::new("h".to_string(), 5001, "/".to_string()));
    assert_eq!(backend.to_string(), "h:5001");
}

#[test]
fn clone_keeps_config_and_failures() {
    let mut backend = example_backend();
    backend.increment_health_failure();
    let copy = backend.clone();
    assert_eq!(copy.to_string(), "example.com:80");
    assert_eq!(copy.health_failures(), 1);
    assert_eq!(copy.config().health_path(), "/");
}

#[test]
fn only_ok_status_is_healthy() {
    assert!(health_from_status(Some(200)));
    assert!(!health_from_status(Some(500)));
    assert!(!health_from_status(Some(404)));
    assert!(!health_from_status(Some(201)));
    assert!(!health_from_status(None));
}

#[test]
fn health_uri_is_built_from_authority_and_path() {
    let backend = Backend::new(BackendConfig::new("example.com".to_string(), 8080, "/healthz?x=1".to_string()));
    let uri = match backend.health_uri() {
        Ok(u) => u,
        Err(_) => panic!("uri refused"),
    };
    assert_eq!(uri.to_string(), "http://example.com:8080/healthz?x=1");
    assert_eq!(uri.scheme_str(), Some("http"));
    assert_eq!(uri.port_u16(), Some(8080));
}

#[test]
fn health_uri_refuses_bad_authority() {
    let backend = Backend::new(BackendConfig::new("exa mple.com".to_string(), 80, "/".to_string()));
    match backend.health_uri() {
        Ok(_) => panic!("uri accepted"),
        Err(e) => {
            assert_eq!(e.authority, "exa mple.com:80");
            assert_eq!(e.path_and_query, "/");
        }
    }
}
