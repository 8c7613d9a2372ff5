//! Integration tests: the complete workflow from manager setup through
//! command dispatch. Persistence is exercised on envelopes in memory; the
//! surrounding program is what reads and writes the vault file.

use passmgr::credentials::Credentials;
use passmgr::manager::{CredentialManager, Manager};
use passmgr::shell::command::{Command, CommandRegistry, CommandResult, ShellContext};
use passmgr::shell::commands::register_all;
use passmgr::trie::Trie;

fn create_registry() -> CommandRegistry {
    let mut registry = CommandRegistry::new();
    register_all(&mut registry);
    registry
}

fn setup_manager() -> Manager {
    let mut manager = Manager::new();
    manager.set_db_path("test_passwords.db".to_string());
    manager
}

// ============================================================================
// Manager
// ============================================================================

#[test]
fn test_manager_new_user_setup() {
    let mut manager = setup_manager();

    assert!(manager.is_new_user(false, 0), "Should be a new user initially");

    let result = manager.setup_new_user("test_master_password".to_string());
    assert!(result.is_ok(), "Setup should succeed");

    assert!(!manager.is_new_user(true, 1), "Should no longer be a new user");
}

#[test]
fn test_manager_password_validation() {
    let mut manager = setup_manager();
    let store = manager.setup_new_user("correct_password".to_string()).expect("Setup failed");

    let mut manager2 = setup_manager();
    let valid = manager2
        .validate_master_password(&store, "correct_password".to_string())
        .expect("Validation failed");
    assert!(valid, "Correct password should validate");

    let mut manager3 = setup_manager();
    let valid = manager3
        .validate_master_password(&store, "wrong_password".to_string())
        .expect("Validation should not error");
    assert!(!valid, "Wrong password should not validate");
}

#[test]
fn test_manager_credential_persistence() {
    let mut manager = setup_manager();
    manager.setup_new_user("test_password".to_string()).expect("Setup failed");

    manager.add_credential("github".to_string(), "gh_secret".to_string()).expect("Add failed");
    manager.add_credential("email".to_string(), "email_secret".to_string()).expect("Add failed");

    let store = manager.save_credentials().expect("Save failed");

    let mut manager2 = setup_manager();
    let valid = manager2
        .validate_master_password(&store, "test_password".to_string())
        .expect("Validation failed");
    assert!(valid, "Password should be valid");

    assert_eq!(manager2.credentials().get("github"), Some(&"gh_secret".to_string()));
    assert_eq!(manager2.credentials().get("email"), Some(&"email_secret".to_string()));
}

#[test]
fn test_manager_wrong_password() {
    let mut manager = setup_manager();
    let store = manager.setup_new_user("correct_password".to_string()).expect("Setup failed");

    let mut manager2 = setup_manager();
    let valid = manager2
        .validate_master_password(&store, "wrong_password".to_string())
        .expect("Validation should not error");
    assert!(!valid, "Wrong password should not validate");
    assert!(manager2.credentials().is_empty(), "Credentials must stay empty on a failed unlock");
}

// ============================================================================
// Trie
// ============================================================================

#[test]
fn test_trie_basic_operations() {
    let mut trie = Trie::new();

    trie.insert("hello");
    trie.insert("help");
    trie.insert("world");

    assert!(trie.contains("hello"));
    assert!(trie.contains("help"));
    assert!(trie.contains("world"));
    assert!(!trie.contains("hel"));
    assert!(!trie.contains("unknown"));
}

#[test]
fn test_trie_completions() {
    let mut trie = Trie::new();

    trie.insert("add");
    trie.insert("admin");
    trie.insert("administrator");
    trie.insert("get");

    let completions = trie.completions("ad");
    assert_eq!(completions.len(), 3);
    assert!(completions.contains(&"add".to_string()));
    assert!(completions.contains(&"admin".to_string()));
    assert!(completions.contains(&"administrator".to_string()));

    let completions = trie.completions("g");
    assert_eq!(completions.len(), 1);
    assert!(completions.contains(&"get".to_string()));

    let completions = trie.completions("xyz");
    assert!(completions.is_empty());
}

#[test]
fn test_trie_remove() {
    let mut trie = Trie::new();

    trie.insert("test");
    trie.insert("testing");
    assert_eq!(trie.len(), 2);

    assert!(trie.remove("test"));
    assert!(!trie.contains("test"));
    assert!(trie.contains("testing"));
    assert_eq!(trie.len(), 1);

    assert!(!trie.remove("nonexistent"));
}

#[test]
fn test_trie_special_characters() {
    let mut trie = Trie::new();

    trie.insert("api-key-123");
    trie.insert("user@email.com");
    trie.insert("my_password");

    assert!(trie.contains("api-key-123"));
    assert!(trie.contains("user@email.com"));
    assert!(trie.contains("my_password"));

    let completions = trie.completions("api");
    assert_eq!(completions, vec!["api-key-123".to_string()]);
}

// ============================================================================
// Commands through the registry
// ============================================================================

#[test]
fn test_add_command() {
    let credentials = Credentials::new();
    let trie = Trie::new();
    let registry = create_registry();

    let mut ctx = ShellContext::new(credentials, trie).with_registry(create_registry());

    let add_cmd = registry.get("add").expect("Add command should exist");
    let result = add_cmd.execute(&vec!["testkey".to_string(), "testsecret".to_string()], &mut ctx);

    assert!(matches!(result, CommandResult::Success(_)));
    assert!(ctx.modified);
    assert_eq!(ctx.credentials.get("testkey"), Some(&"testsecret".to_string()));
}

#[test]
fn integration_tests_test_add_command_duplicate() {
    let mut credentials = Credentials::new();
    credentials.add("existing".to_string(), "value".to_string()).unwrap();
    let trie = Trie::new();
    let registry = create_registry();

    let mut ctx = ShellContext::new(credentials, trie).with_registry(create_registry());

    let add_cmd = registry.get("add").expect("Add command should exist");
    let result = add_cmd.execute(&vec!["existing".to_string(), "new_value".to_string()], &mut ctx);

    assert!(matches!(result, CommandResult::Error(_)));
    assert!(!ctx.modified);
}

#[test]
fn test_get_command() {
    let mut credentials = Credentials::new();
    credentials.add("mykey".to_string(), "mysecret".to_string()).unwrap();
    let trie = Trie::new();
    let registry = create_registry();

    let mut ctx = ShellContext::new(credentials, trie).with_registry(create_registry());

    let get_cmd = registry.get("get").expect("Get command should exist");
    let result = get_cmd.execute(&vec!["mykey".to_string()], &mut ctx);

    match result {
        CommandResult::Success(Some(secret)) => assert_eq!(secret, "mysecret"),
        _ => panic!("Expected success with secret"),
    }
}

#[test]
fn integration_tests_test_get_command_not_found() {
    let credentials = Credentials::new();
    let trie = Trie::new();
    let registry = create_registry();

    let mut ctx = ShellContext::new(credentials, trie).with_registry(create_registry());

    let get_cmd = registry.get("get").expect("Get command should exist");
    let result = get_cmd.execute(&vec!["nonexistent".to_string()], &mut ctx);

    assert!(matches!(result, CommandResult::Error(_)));
}

#[test]
fn test_remove_command() {
    let mut credentials = Credentials::new();
    credentials.add("toremove".to_string(), "value".to_string()).unwrap();
    let mut trie = Trie::new();
    trie.insert("toremove");
    let registry = create_registry();

    let mut ctx = ShellContext::new(credentials, trie).with_registry(create_registry());

    let rm_cmd = registry.get("remove").expect("Remove command should exist");
    let result = rm_cmd.execute(&vec!["toremove".to_string()], &mut ctx);

    assert!(matches!(result, CommandResult::Success(_)));
    assert!(ctx.modified);
    assert!(ctx.credentials.get("toremove").is_none());
}

#[test]
fn test_list_command() {
    let mut credentials = Credentials::new();
    credentials.add("key1".to_string(), "val1".to_string()).unwrap();
    credentials.add("key2".to_string(), "val2".to_string()).unwrap();
    let trie = Trie::new();
    let registry = create_registry();

    let mut ctx = ShellContext::new(credentials, trie).with_registry(create_registry());

    let list_cmd = registry.get("list").expect("List command should exist");
    let result = list_cmd.execute(&vec![], &mut ctx);

    match result {
        CommandResult::Success(Some(output)) => {
            assert!(output.contains("key1"));
            assert!(output.contains("key2"));
        },
        _ => panic!("Expected success with list"),
    }
}

#[test]
fn test_help_command() {
    let credentials = Credentials::new();
    let trie = Trie::new();
    let registry = create_registry();

    let mut ctx = ShellContext::new(credentials, trie).with_registry(create_registry());

    let help_cmd = registry.get("help").expect("Help command should exist");
    let result = help_cmd.execute(&vec![], &mut ctx);

    match result {
        CommandResult::Success(Some(output)) => {
            assert!(output.contains("add"));
            assert!(output.contains("get"));
            assert!(output.contains("list"));
            assert!(output.contains("remove"));
            assert!(output.contains("quit"));
        },
        _ => panic!("Expected success with help text"),
    }
}

#[test]
fn integration_tests_test_quit_command() {
    let credentials = Credentials::new();
    let trie = Trie::new();
    let registry = create_registry();

    let mut ctx = ShellContext::new(credentials, trie).with_registry(create_registry());

    let quit_cmd = registry.get("quit").expect("Quit command should exist");
    let result = quit_cmd.execute(&vec![], &mut ctx);

    assert!(matches!(result, CommandResult::Exit));
}

#[test]
fn test_command_aliases() {
    let registry = create_registry();

    assert!(registry.get("rm").is_some());
    assert!(registry.get("ls").is_some());
    assert!(registry.get("q").is_some());
    assert!(registry.get("exit").is_some());
    assert!(registry.get("h").is_some());
    assert!(registry.get("g").is_some());
    assert!(registry.get("a").is_some());
}

// ============================================================================
// Credentials
// ============================================================================

#[test]
fn test_credentials_basic_operations() {
    let mut creds = Credentials::new();

    assert!(creds.is_empty());

    creds.add("key1".to_string(), "val1".to_string()).unwrap();
    creds.add("key2".to_string(), "val2".to_string()).unwrap();

    assert!(!creds.is_empty());
    assert_eq!(creds.get("key1"), Some(&"val1".to_string()));
    assert_eq!(creds.get("key2"), Some(&"val2".to_string()));
    assert_eq!(creds.get("nonexistent"), None);

    let list = creds.list();
    assert_eq!(list.len(), 2);

    assert!(creds.remove("key1"));
    assert!(creds.get("key1").is_none());
    assert!(!creds.remove("key1"));
}

#[test]
fn test_credentials_duplicate_prevention() {
    let mut creds = Credentials::new();

    creds.add("key".to_string(), "val1".to_string()).unwrap();
    let result = creds.add("key".to_string(), "val2".to_string());

    assert!(result.is_err());
    assert_eq!(creds.get("key"), Some(&"val1".to_string()));
}

// ============================================================================
// Registry completions
// ============================================================================

#[test]
fn integration_tests_test_registry_completions() {
    let registry = create_registry();

    let completions = registry.completions("he");
    assert!(completions.contains(&"help".to_string()));

    let completions = registry.completions("r");
    assert!(completions.contains(&"remove".to_string()));
    assert!(completions.contains(&"rm".to_string()));

    let completions = registry.completions("");
    assert!(completions.len() >= 6);
}
