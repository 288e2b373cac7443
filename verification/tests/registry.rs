use helix_lsp::registry::{
    LanguageConfiguration, LanguageServerConfiguration, Step, DEFAULT_TIMEOUT,
};
use helix_lsp::Registry;

fn language(scope: &str, with_server: bool) -> LanguageConfiguration {
    LanguageConfiguration {
        scope: scope.to_string(),
        language_server: if with_server {
            Some(LanguageServerConfiguration {
                command: "server".to_string(),
                args: Vec::new(),
                environment: Vec::new(),
                timeout: 20,
            })
        } else {
            None
        },
        roots: Vec::new(),
        config: None,
    }
}

#[test]
fn restart_replaces_identifier() {
    let mut registry: Registry<&str> = Registry::new();
    let rust = language("source.rust", true);
    assert_eq!(registry.get(&rust), Step::Start(0));
    assert_eq!(registry.insert("source.rust".to_string(), 0, "first"), Ok(None));
    assert_eq!(registry.get(&rust), Step::Running(0));
    assert_eq!(registry.get_by_id(0), Some(&"first"));

    assert_eq!(registry.restart(&rust), Step::Start(1));
    // the old client goes on until the new one is there
    assert_eq!(registry.get_by_id(0), Some(&"first"));
    // the old client comes out, to be shut down
    assert_eq!(
        registry.insert("source.rust".to_string(), 1, "second"),
        Ok(Some("first"))
    );
    assert_eq!(registry.get_by_id(0), None);
    assert_eq!(registry.get_by_id(1), Some(&"second"));
    assert_eq!(registry.get(&rust), Step::Running(1));
}

#[test]
fn identifiers_go_up_and_are_never_used_again() {
    let mut registry: Registry<u8> = Registry::new();
    let rust = language("source.rust", true);
    let go = language("source.go", true);
    assert_eq!(registry.get(&rust), Step::Start(0));
    // the start failed: nothing is taken in, and the identifier is gone
    assert_eq!(registry.get(&rust), Step::Start(1));
    assert_eq!(registry.insert("source.rust".to_string(), 1, 10), Ok(None));
    assert_eq!(registry.get(&go), Step::Start(2));
    assert_eq!(registry.insert("source.go".to_string(), 2, 20), Ok(None));
    assert_eq!(registry.stop(&rust), Some(10));
    assert_eq!(registry.stop(&rust), None);
    assert_eq!(registry.get(&rust), Step::Start(3));
    assert_eq!(registry.insert("source.rust".to_string(), 3, 30), Ok(None));
    registry.remove_by_id(2);
    assert_eq!(registry.get_by_id(2), None);
    assert_eq!(registry.get(&go), Step::Start(4));
    assert_eq!(registry.iter_clients(), vec![&30]);
}

#[test]
fn languages_without_server_or_client() {
    let mut registry: Registry<u8> = Registry::new();
    let plain = language("text.plain", false);
    let rust = language("source.rust", true);
    assert_eq!(registry.get(&plain), Step::Absent);
    assert_eq!(registry.restart(&plain), Step::Absent);
    assert_eq!(registry.restart(&rust), Step::Absent);
    assert_eq!(registry.stop(&rust), None);
    assert_eq!(registry.get_by_id(0), None);
    assert!(registry.iter_clients().is_empty());
    // no identifier was spent
    assert_eq!(registry.get(&rust), Step::Start(0));
}

#[test]
fn insert_takes_an_identifier_once_and_only_if_it_was_handed_out() {
    let mut registry: Registry<u8> = Registry::new();
    assert_eq!(registry.insert("a".to_string(), 0, 1), Err(1));
    let a = language("a", true);
    let b = language("b", true);
    assert_eq!(registry.get(&a), Step::Start(0));
    assert_eq!(registry.insert("a".to_string(), 1, 1), Err(1));
    assert_eq!(registry.insert("a".to_string(), 0, 1), Ok(None));
    assert_eq!(registry.insert("b".to_string(), 0, 2), Err(2));
    assert_eq!(registry.insert("a".to_string(), 0, 3), Err(3));
    assert_eq!(registry.get(&b), Step::Start(1));
    assert_eq!(registry.insert("b".to_string(), 1, 2), Ok(None));
    let mut clients = registry.iter_clients();
    clients.sort();
    assert_eq!(clients, vec![&1, &2]);
    registry.remove_by_id(7);
    assert_eq!(registry.iter_clients().len(), 2);
    registry.remove_by_id(0);
    assert_eq!(registry.iter_clients(), vec![&2]);
    assert_eq!(registry.get(&a), Step::Start(2));
}

#[test]
fn identifier_of_a_stopped_client_is_not_taken_in_again() {
    let mut registry: Registry<u8> = Registry::new();
    let a = language("a", true);
    assert_eq!(registry.get(&a), Step::Start(0));
    assert_eq!(registry.insert("a".to_string(), 0, 1), Ok(None));
    assert_eq!(registry.stop(&a), Some(1));
    assert_eq!(registry.insert("a".to_string(), 0, 2), Err(2));
    assert_eq!(registry.insert("b".to_string(), 0, 2), Err(2));
    assert_eq!(registry.get_by_id(0), None);
    // an identifier whose start failed is given up
    assert_eq!(registry.get(&a), Step::Start(1));
    assert!(registry.discard(1));
    assert!(!registry.discard(1));
    assert_eq!(registry.insert("a".to_string(), 1, 3), Err(3));
    assert_eq!(registry.get(&a), Step::Start(2));
    assert_eq!(registry.insert("a".to_string(), 2, 4), Ok(None));
    assert_eq!(registry.get_by_id(2), Some(&4));
}

#[test]
fn servers_get_twenty_seconds_by_default() {
    let config = LanguageServerConfiguration::new("rust-analyzer".to_string());
    assert_eq!(DEFAULT_TIMEOUT, 20);
    assert_eq!(
        config,
        LanguageServerConfiguration {
            command: "rust-analyzer".to_string(),
            args: Vec::new(),
            environment: Vec::new(),
            timeout: 20,
        }
    );
    let registry: Registry<u8> = Registry::default();
    assert!(registry.iter_clients().is_empty());
}
