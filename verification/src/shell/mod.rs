//! The interactive shell's verified core: one dispatch cycle takes a line,
//! tokenizes it, resolves the command through the registry, and executes it
//! against the session's context. Reading lines, printing results, and saving
//! after a mutation are the surrounding program's loop.

pub mod command;
pub mod commands;
pub mod completer;
pub mod highlighter;
pub mod hints;
pub mod history;

use vstd::prelude::*;

use crate::credentials::Credentials;
use crate::text::{shell_tokens, split_shell};
use crate::trie::Trie;
use command::{Command, CommandRegistry, CommandResult, ShellContext};
use commands::{builtin_commands, lemma_execute_preserves_registry, register_all};

verus! {

/// Configuration for the shell.
pub struct ShellConfig {
    /// History configuration.
    pub history: crate::shell::history::HistoryConfig,
    /// Whether to show the welcome message.
    pub show_welcome: bool,
}

impl Default for ShellConfig {
    /// Default history settings, welcome message shown.
    fn default() -> (r: ShellConfig)
        ensures
            r.show_welcome,
            r.history.path@ == "history"@,
            r.history.max_entries == crate::shell::history::DEFAULT_HISTORY_MAX_ENTRIES,
            r.history.ignore_dups,
            r.history.ignore_space,
    {
        ShellConfig { history: crate::shell::history::HistoryConfig::default(), show_welcome: true }
    }
}

/// What one dispatch cycle does: the line is split by the shell quoting
/// grammar; a line with an unclosed quote is discarded silently, an empty
/// line is a no-op, an unknown command name reports an error, and a resolved
/// command executes against the context.
pub open spec fn dispatch_spec(
    reg: CommandRegistry,
    line: Seq<char>,
    prev: ShellContext,
    next: ShellContext,
    r: CommandResult,
) -> bool {
    match shell_tokens(line) {
        None => next == prev && r is Continue,
        Some(parts) => {
            if parts.len() == 0 {
                next == prev && r is Continue
            } else {
                match reg.resolve_spec(parts[0]) {
                    Some(cmd) => cmd.execute_spec(parts.skip(1), prev, next, r),
                    None => next == prev && (r matches CommandResult::Error(m) && m@
                        == "Unknown command: '"@ + parts[0]
                        + "'\nType 'help' to see available commands."@),
                }
            }
        },
    }
}

/// The coupling invariant of a session: when the prefix index holds exactly
/// the nonempty stored names, one dispatch cycle — whatever the line says —
/// leaves it holding exactly the nonempty stored names again.
pub proof fn lemma_dispatch_keeps_lockstep(
    reg: CommandRegistry,
    line: Seq<char>,
    prev: ShellContext,
    next: ShellContext,
    r: CommandResult,
)
    requires
        dispatch_spec(reg, line, prev, next, r),
        prev.key_trie@ == prev.credentials@.dom().remove(Seq::<char>::empty()),
    ensures
        next.key_trie@ == next.credentials@.dom().remove(Seq::<char>::empty()),
{
    match shell_tokens(line) {
        None => {},
        Some(parts) => {
            if parts.len() == 0 {
            } else {
                match reg.resolve_spec(parts[0]) {
                    Some(cmd) => {
                        let args = parts.skip(1);
                        match cmd {
                            commands::CommandKind::Add => {
                                if args.len() >= 2 && !prev.credentials@.dom().contains(args[0]) {
                                    if args[0].len() > 0 {
                                        assert(next.key_trie@ =~= next.credentials@.dom().remove(
                                            Seq::<char>::empty(),
                                        ));
                                    } else {
                                        assert(args[0] =~= Seq::<char>::empty());
                                        assert(next.key_trie@ =~= next.credentials@.dom().remove(
                                            Seq::<char>::empty(),
                                        ));
                                    }
                                }
                            },
                            commands::CommandKind::Remove => {
                                if args.len() >= 1 && prev.credentials@.dom().contains(args[0]) {
                                    assert(next.key_trie@ =~= next.credentials@.dom().remove(
                                        Seq::<char>::empty(),
                                    ));
                                }
                            },
                            _ => {},
                        }
                    },
                    None => {},
                }
            }
        },
    }
}

/// The interactive shell: the registry of commands and the prefix index over
/// credential names.
pub struct Shell {
    /// Command registry.
    registry: CommandRegistry,
    /// Prefix index over credential names, for completion.
    key_trie: Trie,
    /// Shell configuration.
    config: ShellConfig,
}

impl Shell {
    pub closed spec fn spec_registry(&self) -> CommandRegistry {
        self.registry
    }

    pub closed spec fn spec_key_trie(&self) -> Trie {
        self.key_trie
    }

    pub closed spec fn spec_config(&self) -> ShellConfig {
        self.config
    }

    pub open spec fn wf(&self) -> bool {
        &&& self.spec_registry().wf()
        &&& self.spec_key_trie().wf()
    }

    /// Creates a new shell with default configuration.
    pub fn new() -> (r: Shell)
        ensures
            r.wf(),
            r.spec_registry().reg_commands() == builtin_commands(),
            r.spec_key_trie()@ == Set::<Seq<char>>::empty(),
            r.spec_config().show_welcome,
    {
        let mut registry = CommandRegistry::new();
        register_all(&mut registry);
        Shell { registry, key_trie: Trie::new(), config: ShellConfig::default() }
    }

    /// Creates a shell with custom configuration.
    pub fn with_config(config: ShellConfig) -> (r: Shell)
        ensures
            r.wf(),
            r.spec_registry().reg_commands() == builtin_commands(),
            r.spec_key_trie()@ == Set::<Seq<char>>::empty(),
            r.spec_config() == config,
    {
        let mut registry = CommandRegistry::new();
        register_all(&mut registry);
        Shell { registry, key_trie: Trie::new(), config }
    }

    /// Read access to the registry.
    pub fn registry(&self) -> (r: &CommandRegistry)
        ensures
            r == self.spec_registry(),
    {
        &self.registry
    }

    /// Read access to the key trie.
    pub fn key_trie(&self) -> (r: &Trie)
        ensures
            r == self.spec_key_trie(),
    {
        &self.key_trie
    }

    /// Rebuilds the prefix index from the stored credential names. Only
    /// nonempty names can stand in the index.
    pub fn init_key_trie(&mut self, credentials: &Credentials)
        requires
            old(self).wf(),
            credentials.wf(),
        ensures
            final(self).wf(),
            final(self).spec_registry() == old(self).spec_registry(),
            final(self).spec_key_trie()@ == credentials@.dom().remove(Seq::<char>::empty()),
    {
        self.key_trie.clear();
        let names = credentials.list();
        let n = names.len();
        let mut i: usize = 0;
        while i < n
            invariant
                i <= n,
                n == names@.len(),
                self.registry == old(self).registry,
                self.key_trie.wf(),
                self.key_trie@.len() <= i,
                forall|w: Seq<char>| #[trigger]
                    self.key_trie@.contains(w) == (crate::text::view_among(
                        w,
                        names@.subrange(0, i as int),
                    ) && w.len() > 0),
            decreases n - i,
        {
            let ghost before = self.key_trie@;
            self.key_trie.insert(names[i].as_str());
            proof {
                let name = names@[i as int]@;
                assert forall|w: Seq<char>| #[trigger]
                    self.key_trie@.contains(w) == (crate::text::view_among(
                        w,
                        names@.subrange(0, i as int + 1),
                    ) && w.len() > 0) by {
                    let pre = names@.subrange(0, i as int);
                    let cur = names@.subrange(0, i as int + 1);
                    assert(cur[i as int] == names@[i as int]);
                    if self.key_trie@.contains(w) {
                        if w == name {
                            assert(cur[i as int]@ == w);
                            assert(crate::text::view_among(w, cur));
                        } else {
                            assert(before.contains(w));
                            let k = choose|k: int|
                                0 <= k < pre.len() && (#[trigger] pre[k])@ == w;
                            assert(cur[k] == pre[k]);
                            assert(crate::text::view_among(w, cur));
                        }
                    }
                    if crate::text::view_among(w, cur) && w.len() > 0 {
                        let k = choose|k: int| 0 <= k < cur.len() && (#[trigger] cur[k])@ == w;
                        if k < i as int {
                            assert(pre[k] == cur[k]);
                            assert(crate::text::view_among(w, pre));
                            assert(before.contains(w));
                        } else {
                            assert(w == name);
                        }
                        assert(self.key_trie@.contains(w));
                    }
                }
            }
            i = i + 1;
        }
        proof {
            assert(names@.subrange(0, n as int) =~= names@);
            assert(final(self).spec_key_trie()@ =~= credentials@.dom().remove(
                Seq::<char>::empty(),
            )) by {
                assert forall|w: Seq<char>|
                    self.key_trie@.contains(w) == (credentials@.dom().contains(w) && w
                        != Seq::<char>::empty()) by {
                    if crate::text::view_among(w, names@) {
                        let k = choose|k: int| 0 <= k < names@.len() && (#[trigger] names@[k])@
                            == w;
                        assert(credentials@.dom().contains(names@[k]@));
                    }
                    if credentials@.dom().contains(w) {
                        let k = choose|k: int|
                            0 <= k < names@.len() && (#[trigger] names@[k])@ == w;
                        assert(crate::text::view_among(w, names@));
                    }
                    if w.len() == 0 {
                        assert(w =~= Seq::<char>::empty());
                    }
                    if w != Seq::<char>::empty() {
                        assert(w.len() > 0);
                    }
                }
            }
        }
    }

    /// Parses a line and executes it against an externally supplied context;
    /// the command name resolves through this shell's registry, while the
    /// help command reads whatever registry the context carries.
    pub fn execute_with_context(&self, line: &str, ctx: &mut ShellContext) -> (r: CommandResult)
        requires
            self.wf(),
            old(ctx).wf(),
            old(ctx).key_trie@.len() < usize::MAX,
        ensures
            final(ctx).wf(),
            dispatch_spec(self.spec_registry(), line@, *old(ctx), *final(ctx), r),
    {
        let mut parts = match split_shell(line) {
            Some(parts) => parts,
            None => {
                return CommandResult::Continue;
            },
        };
        if parts.len() == 0 {
            return CommandResult::Continue;
        }
        let cmd_name = parts.remove(0);
        proof {
            assert(cmd_name@ == shell_tokens(line@)->0[0]);
            assert(parts.deep_view() =~= shell_tokens(line@)->0.skip(1));
        }
        match self.registry.get(cmd_name.as_str()) {
            Some(cmd) => cmd.execute(&parts, ctx),
            None => {
                let mut msg = String::new();
                msg.append("Unknown command: '");
                msg.append(cmd_name.as_str());
                msg.append("'\nType 'help' to see available commands.");
                proof {
                    assert(msg@ =~= "Unknown command: '"@ + shell_tokens(line@)->0[0]
                        + "'\nType 'help' to see available commands."@);
                }
                CommandResult::error(msg.as_str())
            },
        }
    }

    /// Parses and executes a command line against the given credentials,
    /// using this shell's own key trie and registry as the context; the
    /// second result reports whether the command mutated the credentials,
    /// for the caller's save-after-mutation step.
    pub fn execute_line(&mut self, line: &str, credentials: &mut Credentials) -> (r: (
        CommandResult,
        bool,
    ))
        requires
            old(self).wf(),
            old(credentials).wf(),
            old(self).spec_key_trie()@.len() < usize::MAX,
        ensures
            final(self).wf(),
            final(credentials).wf(),
            final(self).spec_registry() == old(self).spec_registry(),
            dispatch_spec(
                old(self).spec_registry(),
                line@,
                (ShellContext {
                    credentials: *old(credentials),
                    modified: false,
                    registry: Some(old(self).spec_registry()),
                    key_trie: old(self).spec_key_trie(),
                }),
                (ShellContext {
                    credentials: *final(credentials),
                    modified: r.1,
                    registry: Some(old(self).spec_registry()),
                    key_trie: final(self).spec_key_trie(),
                }),
                r.0,
            ),
    {
        let mut creds = Credentials::new();
        core::mem::swap(&mut creds, credentials);
        let mut trie = Trie::new();
        core::mem::swap(&mut trie, &mut self.key_trie);
        let mut reg = CommandRegistry::new();
        core::mem::swap(&mut reg, &mut self.registry);
        let mut ctx = ShellContext::new(creds, trie).with_registry(reg);
        let result = dispatch(line, &mut ctx);
        let ghost ctx_after = ctx;
        let ShellContext { credentials: creds2, modified, registry: reg2, key_trie: trie2 } = ctx;
        *credentials = creds2;
        self.key_trie = trie2;
        match reg2 {
            Some(reg_back) => {
                self.registry = reg_back;
            },
            None => {
                proof {
                    assert(false);
                }
            },
        }
        proof {
            assert(ctx_after == (ShellContext {
                credentials: *credentials,
                modified,
                registry: Some(old(self).spec_registry()),
                key_trie: self.key_trie,
            }));
            assert(dispatch_spec(
                old(self).spec_registry(),
                line@,
                (ShellContext {
                    credentials: *old(credentials),
                    modified: false,
                    registry: Some(old(self).spec_registry()),
                    key_trie: old(self).spec_key_trie(),
                }),
                ctx_after,
                result,
            ));
        }
        (result, modified)
    }
}

/// One dispatch cycle, resolving the command through the registry that the
/// context itself carries.
fn dispatch(line: &str, ctx: &mut ShellContext) -> (r: CommandResult)
    requires
        old(ctx).wf(),
        old(ctx).registry is Some,
        old(ctx).key_trie@.len() < usize::MAX,
    ensures
        final(ctx).wf(),
        dispatch_spec(old(ctx).registry->0, line@, *old(ctx), *final(ctx), r),
        final(ctx).registry == old(ctx).registry,
{
    let mut parts = match split_shell(line) {
        Some(parts) => parts,
        None => {
            return CommandResult::Continue;
        },
    };
    if parts.len() == 0 {
        return CommandResult::Continue;
    }
    let cmd_name = parts.remove(0);
    proof {
        assert(cmd_name@ == shell_tokens(line@)->0[0]);
        assert(parts.deep_view() =~= shell_tokens(line@)->0.skip(1));
    }
    let cmd_opt = match &ctx.registry {
        Some(reg) => reg.get(cmd_name.as_str()),
        None => None,
    };
    match cmd_opt {
        Some(cmd) => {
            let r = cmd.execute(&parts, ctx);
            proof {
                lemma_execute_preserves_registry(
                    cmd,
                    parts.deep_view(),
                    *old(ctx),
                    *ctx,
                    r,
                );
            }
            r
        },
        None => {
            let mut msg = String::new();
            msg.append("Unknown command: '");
            msg.append(cmd_name.as_str());
            msg.append("'\nType 'help' to see available commands.");
            proof {
                assert(msg@ =~= "Unknown command: '"@ + shell_tokens(line@)->0[0]
                    + "'\nType 'help' to see available commands."@);
            }
            CommandResult::error(msg.as_str())
        },
    }
}

} // verus!
