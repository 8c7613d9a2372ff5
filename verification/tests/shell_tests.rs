//! Tests for the shell's dispatch cycle and its helpers.

use passmgr::credentials::Credentials;
use passmgr::shell::command::{CommandRegistry, CommandResult};
use passmgr::shell::commands::register_all;
use passmgr::shell::completer::{CompletionContext, PassmgrCompleter};
use passmgr::shell::highlighter::{
    OutputHighlighter, PassmgrHighlighter, BRIGHT_RED, BOLD, CYAN, DIM, GREEN, MAGENTA, RED,
};
use passmgr::shell::hints::PassmgrHinter;
use passmgr::shell::Shell;
use passmgr::trie::Trie;

fn setup_registry() -> CommandRegistry {
    let mut registry = CommandRegistry::new();
    register_all(&mut registry);
    registry
}

fn setup_completer() -> PassmgrCompleter {
    let registry = setup_registry();
    let mut key_trie = Trie::new();
    key_trie.insert("github");
    key_trie.insert("gitlab");
    key_trie.insert("email");
    key_trie.insert("aws");
    PassmgrCompleter::new(registry, key_trie)
}

fn setup_hinter() -> PassmgrHinter {
    PassmgrHinter::new(setup_registry())
}

fn setup_highlighter() -> PassmgrHighlighter {
    PassmgrHighlighter::new(setup_registry())
}

// shell

#[test]
fn test_shell_creation() {
    let shell = Shell::new();
    assert!(!shell.registry().is_empty());
}

#[test]
fn test_execute_line_unknown_command() {
    let mut shell = Shell::new();
    let mut credentials = Credentials::new();

    let (result, modified) = shell.execute_line("unknown_cmd", &mut credentials);
    assert!(matches!(result, CommandResult::Error(_)));
    assert!(!modified);
}

#[test]
fn test_execute_line_help() {
    let mut shell = Shell::new();
    let mut credentials = Credentials::new();

    let (result, _) = shell.execute_line("help", &mut credentials);
    assert!(matches!(result, CommandResult::Success(Some(_))));
}

#[test]
fn test_execute_line_quit() {
    let mut shell = Shell::new();
    let mut credentials = Credentials::new();

    let (result, modified) = shell.execute_line("quit", &mut credentials);
    assert!(matches!(result, CommandResult::Exit));
    assert!(!modified);
}

#[test]
fn test_execute_line_add_and_get() {
    let mut shell = Shell::new();
    let mut credentials = Credentials::new();

    let (result, modified) = shell.execute_line("add testkey testsecret", &mut credentials);
    assert!(matches!(result, CommandResult::Success(_)));
    assert!(modified);

    let (result, _) = shell.execute_line("get testkey", &mut credentials);
    match result {
        CommandResult::Success(Some(secret)) => assert_eq!(secret, "testsecret"),
        _ => panic!("Expected success with secret"),
    }
}

#[test]
fn test_key_trie_initialization() {
    let mut shell = Shell::new();
    let mut credentials = Credentials::new();
    credentials.add("key1".to_string(), "val1".to_string()).unwrap();
    credentials.add("key2".to_string(), "val2".to_string()).unwrap();

    shell.init_key_trie(&credentials);

    let trie = shell.key_trie();
    assert!(trie.contains("key1"));
    assert!(trie.contains("key2"));
    assert_eq!(trie.len(), 2);
}

// completer

#[test]
fn test_complete_command_partial() {
    let completer = setup_completer();
    let completions = completer.complete_command("ge");

    assert_eq!(completions.len(), 1);
    assert_eq!(completions[0], "get");
}

#[test]
fn test_complete_command_empty() {
    let completer = setup_completer();
    let completions = completer.complete_command("");

    assert!(completions.len() >= 6);
}

#[test]
fn test_complete_key_partial() {
    let completer = setup_completer();
    let completions = completer.complete_key("gi");

    assert_eq!(completions.len(), 2);
    assert!(completions.contains(&"github".to_string()));
    assert!(completions.contains(&"gitlab".to_string()));
}

#[test]
fn test_parse_context_command() {
    let completer = setup_completer();

    let ctx = completer.parse_context("ge", 2);
    match ctx {
        CompletionContext::Command { partial } => assert_eq!(partial, "ge"),
        _ => panic!("Expected command context"),
    }

    let ctx = completer.parse_context("", 0);
    match ctx {
        CompletionContext::Command { partial } => assert_eq!(partial, ""),
        _ => panic!("Expected command context"),
    }
}

#[test]
fn test_parse_context_argument() {
    let completer = setup_completer();

    let ctx = completer.parse_context("get gi", 6);
    match ctx {
        CompletionContext::Argument { command, arg_index, partial } => {
            assert_eq!(command, "get");
            assert_eq!(arg_index, 0);
            assert_eq!(partial, "gi");
        },
        _ => panic!("Expected argument context"),
    }

    let ctx = completer.parse_context("get ", 4);
    match ctx {
        CompletionContext::Argument { command, arg_index, partial } => {
            assert_eq!(command, "get");
            assert_eq!(arg_index, 0);
            assert_eq!(partial, "");
        },
        _ => panic!("Expected argument context"),
    }
}

// highlighter

#[test]
fn test_highlight_valid_command() {
    let highlighter = setup_highlighter();
    let result = highlighter.highlight_line("add");

    assert!(result.contains(CYAN));
    assert!(result.contains(BOLD));
    assert!(result.contains("add"));
}

#[test]
fn test_highlight_invalid_command() {
    let highlighter = setup_highlighter();
    let result = highlighter.highlight_line("invalid");

    assert!(result.contains(RED));
    assert!(result.contains("invalid"));
}

#[test]
fn test_highlight_with_arguments() {
    let highlighter = setup_highlighter();
    let result = highlighter.highlight_line("add mykey mysecret");

    assert!(result.contains(CYAN));
    assert!(result.contains(MAGENTA));
    assert!(result.contains(DIM));
}

#[test]
fn test_output_highlighter_success() {
    let result = OutputHighlighter::success("Done!");
    assert!(result.contains(GREEN));
    assert!(result.contains("Done!"));
}

#[test]
fn test_output_highlighter_error() {
    let result = OutputHighlighter::error("Failed!");
    assert!(result.contains(BRIGHT_RED));
    assert!(result.contains("Failed!"));
}

#[test]
fn test_empty_line() {
    let highlighter = setup_highlighter();
    let result = highlighter.highlight_line("");
    assert_eq!(result, "");

    let result = highlighter.highlight_line("   ");
    assert_eq!(result, "   ");
}

// hints

#[test]
fn test_command_completion_hint() {
    let hinter = setup_hinter();

    let hint = hinter.get_hint("hel");
    assert_eq!(hint, Some("p".to_string()));
}

#[test]
fn test_no_hint_for_complete_command() {
    let hinter = setup_hinter();

    let hint = hinter.get_hint("add ");
    assert!(hint.is_some());
    assert!(hint.unwrap().contains("<name>"));
}

#[test]
fn test_no_hint_when_args_complete() {
    let hinter = setup_hinter();

    let hint = hinter.get_hint("add key secret");
    assert!(hint.is_none());
}

#[test]
fn test_empty_line_no_hint() {
    let hinter = setup_hinter();
    assert!(hinter.get_hint("").is_none());
    assert!(hinter.get_hint("   ").is_none());
}

#[test]
fn test_dispatch_keeps_trie_in_lockstep() {
    let mut shell = Shell::new();
    let mut credentials = Credentials::new();

    let _ = shell.execute_line("add github gh_secret", &mut credentials);
    assert!(shell.key_trie().contains("github"));

    let _ = shell.execute_line("add gitlab gl_secret", &mut credentials);
    assert!(shell.key_trie().contains("gitlab"));

    let _ = shell.execute_line("remove github", &mut credentials);
    assert!(!shell.key_trie().contains("github"));
    assert!(shell.key_trie().contains("gitlab"));
    assert!(credentials.get("github").is_none());
    assert!(credentials.get("gitlab").is_some());
}


#[test]
fn test_execute_line_quoted_secret() {
    let mut shell = Shell::new();
    let mut credentials = Credentials::new();

    let (result, modified) = shell.execute_line("add mail \"two words\"", &mut credentials);
    assert!(matches!(result, CommandResult::Success(_)));
    assert!(modified);
    assert_eq!(credentials.get("mail"), Some(&"two words".to_string()));

    let (result, _) = shell.execute_line("add 'my key' secret", &mut credentials);
    assert!(matches!(result, CommandResult::Success(_)));
    assert_eq!(credentials.get("my key"), Some(&"secret".to_string()));

    let (result, _) = shell.execute_line("get 'my key'", &mut credentials);
    match result {
        CommandResult::Success(Some(secret)) => assert_eq!(secret, "secret"),
        _ => panic!("Expected success with secret"),
    }
}

#[test]
fn test_execute_line_unclosed_quote_is_discarded() {
    let mut shell = Shell::new();
    let mut credentials = Credentials::new();

    let (result, modified) = shell.execute_line("add broken \"no closing", &mut credentials);
    assert!(matches!(result, CommandResult::Continue));
    assert!(!modified);
    assert!(credentials.get("broken").is_none());
}

#[test]
fn test_register_same_command_twice_keeps_count() {
    let mut registry = CommandRegistry::new();
    register_all(&mut registry);
    let len_before = registry.len();

    registry.register(passmgr::shell::commands::CommandKind::Add);
    assert_eq!(registry.len(), len_before);
    assert!(registry.get("add").is_some());
    assert!(registry.get("a").is_some());
    assert!(registry.get("new").is_some());
}
