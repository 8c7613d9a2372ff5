//! The parsed form of a line of user input: one of the recognized commands
//! with its arguments, or nothing. `parse_tokens` turns a tokenized line
//! into that form, resolving the command through the registry.

use vstd::prelude::*;

use crate::shell::command::CommandRegistry;
use crate::shell::commands::CommandKind;
use crate::text::join_spec;

verus! {

/// A parsed input line.
pub struct Cli {
    pub command: Option<Commands>,
}

/// The command surface of the vault.
pub enum Commands {
    /// Add a new credential.
    Add { name: String, secret: String },
    /// Get a credential by name.
    Get { name: String },
    /// Remove a credential by name.
    Remove { name: String },
    /// List all stored credentials.
    List,
    /// Quit the password manager.
    Quit,
}

/// What parsing a tokenized line yields: nothing for an empty line or a help
/// request (help is answered at the prompt, not a vault command), a usage
/// error for missing arguments, an unknown-command error for an unresolved
/// first token, and otherwise the command with its arguments; a multi-token
/// secret is rejoined with single spaces.
pub open spec fn parse_tokens_spec(
    reg: CommandRegistry,
    args: Seq<Seq<char>>,
    r: Result<Cli, String>,
) -> bool {
    if args.len() == 0 {
        r matches Ok(cli) && cli.command is None
    } else {
        match reg.resolve_spec(args[0]) {
            Some(CommandKind::Add) => {
                if args.len() < 3 {
                    r matches Err(m) && m@ == "Usage: add <name> <secret>"@
                } else {
                    r matches Ok(cli) && cli.command matches Some(Commands::Add { name, secret })
                        && name@ == args[1] && secret@ == join_spec(args.skip(2), " "@)
                }
            },
            Some(CommandKind::Get) => {
                if args.len() < 2 {
                    r matches Err(m) && m@ == "Usage: get <name>"@
                } else {
                    r matches Ok(cli) && cli.command matches Some(Commands::Get { name })
                        && name@ == args[1]
                }
            },
            Some(CommandKind::Remove) => {
                if args.len() < 2 {
                    r matches Err(m) && m@ == "Usage: remove <name>"@
                } else {
                    r matches Ok(cli) && cli.command matches Some(Commands::Remove { name })
                        && name@ == args[1]
                }
            },
            Some(CommandKind::List) => r matches Ok(cli) && cli.command matches Some(
                Commands::List,
            ),
            Some(CommandKind::Help) => r matches Ok(cli) && cli.command is None,
            Some(CommandKind::Quit) => r matches Ok(cli) && cli.command matches Some(
                Commands::Quit,
            ),
            None => r matches Err(m) && m@ == "Unknown command: '"@ + args[0]
                + "'\nType 'help' to see available commands."@,
        }
    }
}

/// Parses a tokenized line into a command, resolving the first token as a
/// name or alias through the registry.
pub fn parse_tokens(registry: &CommandRegistry, args: &Vec<String>) -> (r: Result<Cli, String>)
    requires
        registry.wf(),
    ensures
        parse_tokens_spec(*registry, args.deep_view(), r),
{
    proof {
        crate::text::lemma_deep_view_strings(*args);
    }
    if args.len() == 0 {
        return Ok(Cli { command: None });
    }
    match registry.get(args[0].as_str()) {
        Some(CommandKind::Add) => {
            if args.len() < 3 {
                let mut msg = String::new();
                msg.append("Usage: add <name> <secret>");
                return Err(msg);
            }
            let name = args[1].clone();
            let mut rest: Vec<String> = Vec::new();
            let n = args.len();
            let mut k: usize = 2;
            while k < n
                invariant
                    2 <= k <= n,
                    n == args@.len(),
                    rest@.len() == k - 2,
                    forall|j: int| 0 <= j < k - 2 ==> (#[trigger] rest@[j])@ == args@[j + 2]@,
                decreases n - k,
            {
                rest.push(args[k].clone());
                k = k + 1;
            }
            proof {
                crate::text::lemma_deep_view_strings(rest);
                crate::text::lemma_deep_view_strings(*args);
                assert(rest.deep_view() =~= args.deep_view().skip(2));
            }
            let secret = crate::text::join_strings(&rest, " ");
            Ok(Cli { command: Some(Commands::Add { name, secret }) })
        },
        Some(CommandKind::Get) => {
            if args.len() < 2 {
                let mut msg = String::new();
                msg.append("Usage: get <name>");
                return Err(msg);
            }
            Ok(Cli { command: Some(Commands::Get { name: args[1].clone() }) })
        },
        Some(CommandKind::Remove) => {
            if args.len() < 2 {
                let mut msg = String::new();
                msg.append("Usage: remove <name>");
                return Err(msg);
            }
            Ok(Cli { command: Some(Commands::Remove { name: args[1].clone() }) })
        },
        Some(CommandKind::List) => Ok(Cli { command: Some(Commands::List) }),
        Some(CommandKind::Help) => Ok(Cli { command: None }),
        Some(CommandKind::Quit) => Ok(Cli { command: Some(Commands::Quit) }),
        None => {
            let mut msg = String::new();
            msg.append("Unknown command: '");
            msg.append(args[0].as_str());
            msg.append("'\nType 'help' to see available commands.");
            proof {
                assert(msg@ =~= "Unknown command: '"@ + args.deep_view()[0]
                    + "'\nType 'help' to see available commands."@);
            }
            Err(msg)
        },
    }
}

} // verus!
