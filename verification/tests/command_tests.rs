//! Tests for the command system: results, registry, and the six built-ins.
//! Commands are a fixed enum, so the registry tests register built-ins.

use passmgr::credentials::Credentials;
use passmgr::shell::command::{Command, CommandRegistry, CommandResult, ShellContext};
use passmgr::shell::commands::{
    register_all, AddCommand, CommandKind, GetCommand, HelpCommand, ListCommand, QuitCommand,
    RemoveCommand,
};
use passmgr::trie::Trie;

fn setup_registry() -> CommandRegistry {
    let mut registry = CommandRegistry::new();
    register_all(&mut registry);
    registry
}

#[test]
fn test_registry_register_and_get() {
    let mut registry = CommandRegistry::new();
    registry.register(CommandKind::Add);

    assert!(registry.get("add").is_some());
    assert!(registry.get("a").is_some());
    assert!(registry.get("new").is_some());
    assert!(registry.get("set").is_some());
    assert!(registry.get("unknown").is_none());
}

#[test]
fn command_test_registry_completions() {
    let mut registry = CommandRegistry::new();
    registry.register(CommandKind::Get);

    let completions = registry.completions("ge");
    assert!(completions.contains(&"get".to_string()));

    let completions = registry.completions("g");
    assert!(completions.contains(&"get".to_string()));
    assert!(completions.contains(&"g".to_string()));
}

#[test]
fn test_command_result() {
    let success = CommandResult::success("done");
    assert!(matches!(success, CommandResult::Success(Some(_))));

    let ok = CommandResult::ok();
    assert!(matches!(ok, CommandResult::Success(None)));

    let error = CommandResult::error("failed");
    assert!(matches!(error, CommandResult::Error(_)));
}

#[test]
fn test_add_command_success() {
    let credentials = Credentials::new();
    let trie = Trie::new();
    let mut ctx = ShellContext::new(credentials, trie);

    let cmd = AddCommand;
    let result = cmd.execute(&vec!["test_key".to_string(), "test_secret".to_string()], &mut ctx);

    assert!(matches!(result, CommandResult::Success(_)));
    assert!(ctx.modified);
    assert_eq!(ctx.credentials.get("test_key"), Some(&"test_secret".to_string()));
}

#[test]
fn test_add_command_missing_args() {
    let credentials = Credentials::new();
    let trie = Trie::new();
    let mut ctx = ShellContext::new(credentials, trie);

    let cmd = AddCommand;
    let result = cmd.execute(&vec!["only_name".to_string()], &mut ctx);

    assert!(matches!(result, CommandResult::Error(_)));
    assert!(!ctx.modified);
}

#[test]
fn add_test_add_command_duplicate() {
    let mut credentials = Credentials::new();
    credentials.add("existing".to_string(), "value".to_string()).unwrap();
    let trie = Trie::new();
    let mut ctx = ShellContext::new(credentials, trie);

    let cmd = AddCommand;
    let result = cmd.execute(&vec!["existing".to_string(), "new_value".to_string()], &mut ctx);

    assert!(matches!(result, CommandResult::Error(_)));
}

#[test]
fn test_add_command_secret_with_spaces() {
    let credentials = Credentials::new();
    let trie = Trie::new();
    let mut ctx = ShellContext::new(credentials, trie);

    let cmd = AddCommand;
    let result = cmd.execute(
        &vec!["key".to_string(), "secret".to_string(), "with".to_string(), "spaces".to_string()],
        &mut ctx,
    );

    assert!(matches!(result, CommandResult::Success(_)));
    assert_eq!(ctx.credentials.get("key"), Some(&"secret with spaces".to_string()));
}

#[test]
fn test_get_command_success() {
    let mut credentials = Credentials::new();
    credentials.add("test_key".to_string(), "test_secret".to_string()).unwrap();
    let trie = Trie::new();
    let mut ctx = ShellContext::new(credentials, trie);

    let cmd = GetCommand;
    let result = cmd.execute(&vec!["test_key".to_string()], &mut ctx);

    match result {
        CommandResult::Success(Some(msg)) => assert_eq!(msg, "test_secret"),
        _ => panic!("Expected success with secret"),
    }
}

#[test]
fn get_test_get_command_not_found() {
    let credentials = Credentials::new();
    let trie = Trie::new();
    let mut ctx = ShellContext::new(credentials, trie);

    let cmd = GetCommand;
    let result = cmd.execute(&vec!["unknown".to_string()], &mut ctx);

    assert!(matches!(result, CommandResult::Error(_)));
}

#[test]
fn test_get_command_missing_args() {
    let credentials = Credentials::new();
    let trie = Trie::new();
    let mut ctx = ShellContext::new(credentials, trie);

    let cmd = GetCommand;
    let result = cmd.execute(&vec![], &mut ctx);

    assert!(matches!(result, CommandResult::Error(_)));
}

#[test]
fn test_get_command_completions() {
    let credentials = Credentials::new();
    let mut trie = Trie::new();
    trie.insert("github");
    trie.insert("gitlab");
    trie.insert("email");
    let ctx = ShellContext::new(credentials, trie);

    let cmd = GetCommand;
    let completions = cmd.completions(0, "gi", &ctx);

    assert!(completions.contains(&"github".to_string()));
    assert!(completions.contains(&"gitlab".to_string()));
    assert!(!completions.contains(&"email".to_string()));
}

#[test]
fn test_help_command_list_all() {
    let registry = setup_registry();
    let credentials = Credentials::new();
    let trie = Trie::new();
    let mut ctx = ShellContext::new(credentials, trie).with_registry(registry);

    let cmd = HelpCommand;
    let result = cmd.execute(&vec![], &mut ctx);

    match result {
        CommandResult::Success(Some(msg)) => {
            assert!(msg.contains("Available commands"));
            assert!(msg.contains("add"));
            assert!(msg.contains("get"));
            assert!(msg.contains("list"));
            assert!(msg.contains("remove"));
            assert!(msg.contains("help"));
            assert!(msg.contains("quit"));
        },
        _ => panic!("Expected success with help text"),
    }
}

#[test]
fn test_help_command_specific() {
    let registry = setup_registry();
    let credentials = Credentials::new();
    let trie = Trie::new();
    let mut ctx = ShellContext::new(credentials, trie).with_registry(registry);

    let cmd = HelpCommand;
    let result = cmd.execute(&vec!["add".to_string()], &mut ctx);

    match result {
        CommandResult::Success(Some(msg)) => {
            assert!(msg.contains("ADD"));
            assert!(msg.contains("add <name> <secret>"));
        },
        _ => panic!("Expected success with add help"),
    }
}

#[test]
fn test_help_command_unknown() {
    let registry = setup_registry();
    let credentials = Credentials::new();
    let trie = Trie::new();
    let mut ctx = ShellContext::new(credentials, trie).with_registry(registry);

    let cmd = HelpCommand;
    let result = cmd.execute(&vec!["nonexistent".to_string()], &mut ctx);

    assert!(matches!(result, CommandResult::Error(_)));
}

#[test]
fn test_list_command_empty() {
    let credentials = Credentials::new();
    let trie = Trie::new();
    let mut ctx = ShellContext::new(credentials, trie);

    let cmd = ListCommand;
    let result = cmd.execute(&vec![], &mut ctx);

    match result {
        CommandResult::Success(Some(msg)) => {
            assert!(msg.contains("No credentials"));
        },
        _ => panic!("Expected success message"),
    }
}

#[test]
fn test_list_command_with_entries() {
    let mut credentials = Credentials::new();
    credentials.add("github".to_string(), "secret1".to_string()).unwrap();
    credentials.add("email".to_string(), "secret2".to_string()).unwrap();
    credentials.add("aws".to_string(), "secret3".to_string()).unwrap();
    let trie = Trie::new();
    let mut ctx = ShellContext::new(credentials, trie);

    let cmd = ListCommand;
    let result = cmd.execute(&vec![], &mut ctx);

    match result {
        CommandResult::Success(Some(msg)) => {
            let lines: Vec<&str> = msg.lines().collect();
            assert_eq!(lines.len(), 3);
            assert_eq!(lines[0], "aws");
            assert_eq!(lines[1], "email");
            assert_eq!(lines[2], "github");
        },
        _ => panic!("Expected success with list"),
    }
}

#[test]
fn quit_test_quit_command() {
    let credentials = Credentials::new();
    let trie = Trie::new();
    let mut ctx = ShellContext::new(credentials, trie);

    let cmd = QuitCommand;
    let result = cmd.execute(&vec![], &mut ctx);

    assert!(matches!(result, CommandResult::Exit));
}

#[test]
fn test_remove_command_success() {
    let mut credentials = Credentials::new();
    credentials.add("test_key".to_string(), "test_secret".to_string()).unwrap();
    let mut trie = Trie::new();
    trie.insert("test_key");
    let mut ctx = ShellContext::new(credentials, trie);

    let cmd = RemoveCommand;
    let result = cmd.execute(&vec!["test_key".to_string()], &mut ctx);

    assert!(matches!(result, CommandResult::Success(_)));
    assert!(ctx.modified);
    assert!(ctx.credentials.get("test_key").is_none());
    assert!(!ctx.key_trie.contains("test_key"));
}

#[test]
fn test_remove_command_not_found() {
    let credentials = Credentials::new();
    let trie = Trie::new();
    let mut ctx = ShellContext::new(credentials, trie);

    let cmd = RemoveCommand;
    let result = cmd.execute(&vec!["unknown".to_string()], &mut ctx);

    assert!(matches!(result, CommandResult::Error(_)));
    assert!(!ctx.modified);
}

#[test]
fn test_remove_command_missing_args() {
    let credentials = Credentials::new();
    let trie = Trie::new();
    let mut ctx = ShellContext::new(credentials, trie);

    let cmd = RemoveCommand;
    let result = cmd.execute(&vec![], &mut ctx);

    assert!(matches!(result, CommandResult::Error(_)));
}
