//! The command system of the shell: results, execution context, the command
//! interface, and the registry that resolves names and aliases.

use vstd::prelude::*;

use crate::credentials::Credentials;
use crate::shell::commands::CommandKind;
use crate::text::lex_lt;
use crate::trie::Trie;

verus! {

/// Result of executing a command.
pub enum CommandResult {
    /// Command executed successfully with optional message.
    Success(Option<String>),
    /// Command failed with error message.
    Error(String),
    /// Signal to exit the shell.
    Exit,
    /// Continue without output.
    Continue,
}

impl CommandResult {
    /// Creates a success result with a message.
    pub fn success(msg: &str) -> (r: CommandResult)
        ensures
            match r {
                CommandResult::Success(m) => m is Some && m->0@ == msg@,
                _ => false,
            },
    {
        let mut s = String::new();
        s.append(msg);
        CommandResult::Success(Some(s))
    }

    /// Creates a success result without a message.
    pub fn ok() -> (r: CommandResult)
        ensures
            r == CommandResult::Success(None::<String>),
    {
        CommandResult::Success(None)
    }

    /// Creates an error result.
    pub fn error(msg: &str) -> (r: CommandResult)
        ensures
            match r {
                CommandResult::Error(m) => m@ == msg@,
                _ => false,
            },
    {
        let mut s = String::new();
        s.append(msg);
        CommandResult::Error(s)
    }
}

/// Context available to commands during execution: all mutable state of one
/// dispatch cycle lives here.
pub struct ShellContext {
    /// The credential store.
    pub credentials: Credentials,
    /// Flag indicating if credentials have been modified.
    pub modified: bool,
    /// The command registry, for the help command.
    pub registry: Option<CommandRegistry>,
    /// The prefix index over credential names, kept in lockstep with the
    /// store by the mutating commands.
    pub key_trie: Trie,
}

impl ShellContext {
    pub open spec fn wf(&self) -> bool {
        &&& self.credentials.wf()
        &&& self.key_trie.wf()
        &&& match self.registry {
            Some(reg) => reg.wf(),
            None => true,
        }
    }

    /// Creates a new shell context owning the given state.
    pub fn new(credentials: Credentials, key_trie: Trie) -> (r: ShellContext)
        ensures
            r.credentials == credentials,
            r.key_trie == key_trie,
            !r.modified,
            r.registry is None,
    {
        ShellContext { credentials, modified: false, registry: None, key_trie }
    }

    /// Hands the context the registry, for the help command.
    pub fn with_registry(self, registry: CommandRegistry) -> (r: ShellContext)
        ensures
            r == (ShellContext { registry: Some(registry), ..self }),
    {
        ShellContext { registry: Some(registry), ..self }
    }

    /// Marks credentials as modified.
    pub fn mark_modified(&mut self)
        ensures
            *final(self) == (ShellContext { modified: true, ..*old(self) }),
    {
        self.modified = true;
    }
}

/// The (word, list) relation of prefix completion: `out` is exactly the words
/// with the given prefix, in strictly increasing code-point order.
pub open spec fn completion_list(
    words: Set<Seq<char>>,
    prefix: Seq<char>,
    out: Seq<Seq<char>>,
) -> bool {
    &&& forall|k: int|
        0 <= k < out.len() ==> words.contains(#[trigger] out[k]) && prefix.is_prefix_of(out[k])
    &&& forall|w: Seq<char>|
        words.contains(w) && prefix.is_prefix_of(w) ==> exists|k: int|
            0 <= k < out.len() && (#[trigger] out[k]) == w
    &&& forall|k1: int, k2: int|
        0 <= k1 < k2 < out.len() ==> lex_lt(#[trigger] out[k1], #[trigger] out[k2])
}

/// A command that can be executed in the shell. Every behavior is pinned by
/// the implementor's spec functions.
pub trait Command: Sized {
    /// The primary name.
    spec fn spec_name(&self) -> Seq<char>;

    /// The aliases, in declaration order.
    spec fn spec_aliases(&self) -> Seq<Seq<char>>;

    /// The one-line description.
    spec fn spec_description(&self) -> Seq<char>;

    /// The usage line.
    spec fn spec_usage(&self) -> Seq<char>;

    /// The detailed help text.
    spec fn spec_help(&self) -> Seq<char>;

    /// The minimum number of arguments.
    spec fn spec_min_args(&self) -> nat;

    /// The maximum number of arguments, if bounded.
    spec fn spec_max_args(&self) -> Option<nat>;

    /// How execution relates the result and the new context to the arguments
    /// and the old context.
    spec fn execute_spec(
        &self,
        args: Seq<Seq<char>>,
        prev: ShellContext,
        next: ShellContext,
        r: CommandResult,
    ) -> bool;

    /// What argument completion returns.
    spec fn completions_spec(
        &self,
        arg_index: nat,
        partial: Seq<char>,
        ctx: ShellContext,
        out: Seq<Seq<char>>,
    ) -> bool;

    /// Returns the primary name of the command.
    fn name(&self) -> (r: &str)
        ensures
            r@ == self.spec_name(),
    ;

    /// Returns command aliases (alternative names).
    fn aliases(&self) -> (r: Vec<String>)
        ensures
            r.deep_view() == self.spec_aliases(),
    ;

    /// Returns a short description of the command.
    fn description(&self) -> (r: &str)
        ensures
            r@ == self.spec_description(),
    ;

    /// Returns usage information.
    fn usage(&self) -> (r: &str)
        ensures
            r@ == self.spec_usage(),
    ;

    /// Returns detailed help text.
    fn help(&self) -> (r: &str)
        ensures
            r@ == self.spec_help(),
    ;

    /// Executes the command with the given arguments.
    fn execute(&self, args: &Vec<String>, ctx: &mut ShellContext) -> (r: CommandResult)
        requires
            old(ctx).wf(),
            old(ctx).key_trie@.len() < usize::MAX,
        ensures
            final(ctx).wf(),
            self.execute_spec(args.deep_view(), *old(ctx), *final(ctx), r),
    ;

    /// Returns completions for the command's arguments; `arg_index` is the
    /// 0-based index of the argument being completed.
    fn completions(&self, arg_index: usize, partial: &str, ctx: &ShellContext) -> (r: Vec<String>)
        requires
            ctx.wf(),
        ensures
            self.completions_spec(arg_index as nat, partial@, *ctx, r.deep_view()),
    ;

    /// Returns the minimum number of required arguments.
    fn min_args(&self) -> (r: usize)
        ensures
            r == self.spec_min_args(),
    ;

    /// Returns the maximum number of arguments (None = unlimited).
    fn max_args(&self) -> (r: Option<usize>)
        ensures
            match r {
                Some(m) => self.spec_max_args() == Some(m as nat),
                None => self.spec_max_args() is None,
            },
    ;
}

/// What registering `c` leaves in the name-sorted command list: a command
/// with the same name is replaced in place, a fresh name is inserted where
/// the order puts it.
pub open spec fn register_spec(cmds: Seq<CommandKind>, c: CommandKind) -> Seq<CommandKind>
    decreases cmds.len(),
{
    if cmds.len() == 0 {
        seq![c]
    } else if cmds[0].kind_name() == c.kind_name() {
        seq![c] + cmds.skip(1)
    } else if lex_lt(c.kind_name(), cmds[0].kind_name()) {
        seq![c] + cmds
    } else {
        seq![cmds[0]] + register_spec(cmds.skip(1), c)
    }
}

/// `find_command` misses exactly when no entry carries the name.
pub proof fn lemma_find_command_none(cmds: Seq<CommandKind>, name: Seq<char>)
    ensures
        (find_command(cmds, name) is None) <==> (forall|i: int|
            0 <= i < cmds.len() ==> (#[trigger] cmds[i]).kind_name() != name),
    decreases cmds.len(),
{
    if cmds.len() == 0 {
    } else {
        lemma_find_command_none(cmds.skip(1), name);
        if cmds[0].kind_name() == name {
        } else {
            assert forall|i: int|
                0 <= i < cmds.len() && (find_command(cmds, name) is None) implies (
            #[trigger] cmds[i]).kind_name() != name by {
                if i > 0 {
                    assert(cmds.skip(1)[i - 1] == cmds[i]);
                }
            }
            if forall|i: int| 0 <= i < cmds.len() ==> (#[trigger] cmds[i]).kind_name() != name {
                assert forall|i: int|
                    0 <= i < cmds.skip(1).len() implies (#[trigger] cmds.skip(1)[i]).kind_name()
                    != name by {
                    assert(cmds.skip(1)[i] == cmds[i + 1]);
                }
            }
        }
    }
}

/// The first command of `cmds` named `name`, if any.
pub open spec fn find_command(cmds: Seq<CommandKind>, name: Seq<char>) -> Option<CommandKind>
    decreases cmds.len(),
{
    if cmds.len() == 0 {
        None
    } else if cmds[0].kind_name() == name {
        Some(cmds[0])
    } else {
        find_command(cmds.skip(1), name)
    }
}

/// The canonical name the alias table maps `name` to, if any.
pub open spec fn find_alias(pairs: Seq<(Seq<char>, Seq<char>)>, name: Seq<char>) -> Option<
    Seq<char>,
>
    decreases pairs.len(),
{
    if pairs.len() == 0 {
        None
    } else if pairs[0].0 == name {
        Some(pairs[0].1)
    } else {
        find_alias(pairs.skip(1), name)
    }
}

/// Registry of all available commands: canonical names first, aliases second.
pub struct CommandRegistry {
    /// The registered commands, kept sorted by primary name.
    commands: Vec<CommandKind>,
    /// Alias to primary name mapping.
    aliases: Vec<(String, String)>,
    /// Trie over names and aliases, for command-name completion.
    command_trie: Trie,
}

impl CommandRegistry {
    /// The registered commands, sorted by name.
    pub closed spec fn reg_commands(&self) -> Seq<CommandKind> {
        self.commands@
    }

    /// The alias table, in registration order.
    pub closed spec fn alias_pairs(&self) -> Seq<(Seq<char>, Seq<char>)> {
        self.aliases.deep_view()
    }

    /// The names and aliases known to completion.
    pub closed spec fn known_names(&self) -> Set<Seq<char>> {
        self.command_trie@
    }

    /// Lookup: a canonical name wins; otherwise an alias resolves to its
    /// canonical command.
    pub open spec fn resolve_spec(&self, name: Seq<char>) -> Option<CommandKind> {
        match find_command(self.reg_commands(), name) {
            Some(cmd) => Some(cmd),
            None => match find_alias(self.alias_pairs(), name) {
                Some(primary) => find_command(self.reg_commands(), primary),
                None => None,
            },
        }
    }

    pub closed spec fn wf(&self) -> bool {
        &&& self.command_trie.wf()
        &&& forall|i: int, j: int|
            0 <= i < j < self.commands@.len() ==> lex_lt(
                (#[trigger] self.commands@[i]).kind_name(),
                (#[trigger] self.commands@[j]).kind_name(),
            )
    }

    /// Creates a new empty registry.
    pub fn new() -> (r: CommandRegistry)
        ensures
            r.wf(),
            r.reg_commands() == Seq::<CommandKind>::empty(),
            r.alias_pairs() == Seq::<(Seq<char>, Seq<char>)>::empty(),
            r.known_names() == Set::<Seq<char>>::empty(),
    {
        let r = CommandRegistry { commands: Vec::new(), aliases: Vec::new(), command_trie: Trie::new() };
        proof {
            assert(r.alias_pairs() =~= Seq::<(Seq<char>, Seq<char>)>::empty());
        }
        r
    }

    /// Registers a command under its name and aliases. A name that is
    /// already registered has its command replaced in place, as a map insert
    /// would; the alias table gains nothing new in that case.
    pub fn register(&mut self, command: CommandKind)
        requires
            old(self).wf(),
            old(self).known_names().len() + command.kind_aliases().len() + 1 < usize::MAX,
        ensures
            final(self).wf(),
            final(self).reg_commands() == register_spec(old(self).reg_commands(), command),
            final(self).reg_commands().len() == old(self).reg_commands().len() + (
            if find_command(old(self).reg_commands(), command.kind_name()) is Some {
                0int
            } else {
                1int
            }),
            final(self).alias_pairs() == if find_command(
                old(self).reg_commands(),
                command.kind_name(),
            ) is Some {
                old(self).alias_pairs()
            } else {
                old(self).alias_pairs() + Seq::new(
                    command.kind_aliases().len(),
                    |k: int| (command.kind_aliases()[k], command.kind_name()),
                )
            },
            final(self).known_names() == old(self).known_names().insert(
                command.kind_name(),
            ).union(command.kind_aliases().to_set()),
            final(self).known_names().len() <= old(self).known_names().len()
                + command.kind_aliases().len() + 1,
            command.kind_name().len() > 0 && (forall|k: int|
                0 <= k < command.kind_aliases().len() ==> (#[trigger] command.kind_aliases()[k]).len()
                    > 0),
    {
        let name = command.name();
        proof {
            command.lemma_names_nonempty();
        }
        let existing = Self::lookup_index(&self.commands, name);
        let is_new = match existing {
            Some(_) => false,
            None => true,
        };
        self.command_trie.insert(name);
        let alias_list = command.aliases();
        let name_string = {
            let mut s = String::new();
            s.append(name);
            s
        };
        let ghost aliases0 = old(self).alias_pairs();
        let ghost pairs0 = old(self).aliases@;
        let ghost trie0 = old(self).known_names().insert(command.kind_name());
        proof {
            assert(command.kind_aliases().subrange(0, 0).to_set() =~= Set::<Seq<char>>::empty());
            assert(self.command_trie@ =~= trie0.union(
                command.kind_aliases().subrange(0, 0).to_set(),
            ));
        }
        let n_aliases = alias_list.len();
        let mut k: usize = 0;
        while k < n_aliases
            invariant
                k <= n_aliases,
                n_aliases == command.kind_aliases().len(),
                old(self).known_names().len() + n_aliases + 1 < usize::MAX,
                alias_list.deep_view() == command.kind_aliases(),
                name_string@ == command.kind_name(),
                self.command_trie.wf(),
                self.commands == old(self).commands,
                self.command_trie@ == trie0.union(
                    command.kind_aliases().subrange(0, k as int).to_set(),
                ),
                self.command_trie@.len() <= old(self).known_names().len() + 1 + k,
                is_new ==> self.aliases@.len() == pairs0.len() + k,
                !is_new ==> self.aliases@ == pairs0,
                forall|j: int| 0 <= j < pairs0.len() ==> (#[trigger] self.aliases@[j]) == pairs0[j],
                forall|j: int|
                    0 <= j < self.aliases@.len() - pairs0.len() ==> (
                    #[trigger] self.aliases@[pairs0.len() + j]).0@ == command.kind_aliases()[j]
                        && self.aliases@[pairs0.len() + j].1@ == command.kind_name(),
                forall|j: int|
                    0 <= j < command.kind_aliases().len() ==> (
                    #[trigger] command.kind_aliases()[j]).len() > 0,
            decreases n_aliases - k,
        {
            let alias = &alias_list[k];
            proof {
                crate::text::lemma_deep_view_strings(alias_list);
                assert(alias@ == command.kind_aliases()[k as int]);
            }
            self.command_trie.insert(alias.as_str());
            if is_new {
                self.aliases.push((alias.clone(), name_string.clone()));
            }
            proof {
                assert(command.kind_aliases().subrange(0, k as int).push(
                    command.kind_aliases()[k as int],
                ) =~= command.kind_aliases().subrange(0, k as int + 1));
                assert(self.command_trie@ =~= trie0.union(
                    command.kind_aliases().subrange(0, k as int + 1).to_set(),
                )) by {
                    assert(command.kind_aliases().subrange(0, k as int + 1).to_set()
                        =~= command.kind_aliases().subrange(0, k as int).to_set().insert(alias@))
                        by {
                        let pre = command.kind_aliases().subrange(0, k as int);
                        assert forall|x: Seq<char>| #[trigger]
                            pre.push(alias@).contains(x) == (pre.contains(x) || x == alias@) by {
                            vstd::seq_lib::lemma_seq_contains_after_push(pre, alias@, x);
                        }
                    }
                }
            }
            k = k + 1;
        }
        proof {
            assert(command.kind_aliases().subrange(0, n_aliases as int) =~= command.kind_aliases());
            assert(self.known_names() =~= old(self).known_names().insert(
                command.kind_name(),
            ).union(command.kind_aliases().to_set()));
            if is_new {
                assert(self.alias_pairs() =~= aliases0 + Seq::new(
                    command.kind_aliases().len(),
                    |j: int| (command.kind_aliases()[j], command.kind_name()),
                )) by {
                    crate::text::lemma_deep_view_pairs(self.aliases);
                    crate::text::lemma_deep_view_pairs(old(self).aliases);
                    let rhs = aliases0 + Seq::new(
                        command.kind_aliases().len(),
                        |j2: int| (command.kind_aliases()[j2], command.kind_name()),
                    );
                    assert forall|j: int|
                        0 <= j < self.aliases@.len() implies self.aliases.deep_view()[j] == rhs[j]
                    by {
                        if j < pairs0.len() {
                            assert(self.aliases@[j] == pairs0[j]);
                            assert(aliases0[j] == (pairs0[j].0@, pairs0[j].1@));
                        } else {
                            assert(self.aliases@[pairs0.len() + (j - pairs0.len())]
                                == self.aliases@[j]);
                            assert(self.aliases@[j].0@ == command.kind_aliases()[j - pairs0.len()]);
                            assert(self.aliases@[j].1@ == command.kind_name());
                        }
                    }
                }
            } else {
                assert(self.alias_pairs() =~= aliases0) by {
                    crate::text::lemma_deep_view_pairs(self.aliases);
                    crate::text::lemma_deep_view_pairs(old(self).aliases);
                    assert forall|j: int|
                        0 <= j < self.aliases@.len() implies self.aliases.deep_view()[j]
                        == aliases0[j] by {
                        assert(self.aliases@[j] == pairs0[j]);
                        assert(aliases0[j] == (pairs0[j].0@, pairs0[j].1@));
                    }
                }
            }
        }
        match existing {
            Some(idx) => {
                let ghost cmds0 = self.commands@;
                let _ = self.commands.remove(idx);
                self.commands.insert(idx, command);
                proof {
                    assert(self.commands@ =~= cmds0.update(idx as int, command));
                    lemma_register_replace(cmds0, command, idx as int);
                    assert forall|i: int, j: int|
                        0 <= i < j < self.commands@.len() implies lex_lt(
                        (#[trigger] self.commands@[i]).kind_name(),
                        (#[trigger] self.commands@[j]).kind_name(),
                    ) by {
                        assert(self.commands@[i].kind_name() == cmds0[i].kind_name());
                        assert(self.commands@[j].kind_name() == cmds0[j].kind_name());
                    }
                }
            },
            None => {
                let pos = self.find_insert_pos(&command);
                let ghost cmds0 = self.commands@;
                self.commands.insert(pos, command);
                proof {
                    lemma_find_command_none(cmds0, command.kind_name());
                    lemma_register_insert(cmds0, command, pos as int);
                    assert forall|i: int, j: int|
                        0 <= i < j < self.commands@.len() implies lex_lt(
                        (#[trigger] self.commands@[i]).kind_name(),
                        (#[trigger] self.commands@[j]).kind_name(),
                    ) by {
                        let p = pos as int;
                        if i < p && j < p {
                            assert(self.commands@[i] == cmds0[i] && self.commands@[j] == cmds0[j]);
                        } else if i < p && j == p {
                            assert(self.commands@[i] == cmds0[i]);
                            crate::text::lemma_lex_total(cmds0[i].kind_name(), command.kind_name());
                        } else if i < p && j > p {
                            assert(self.commands@[i] == cmds0[i] && self.commands@[j] == cmds0[j
                                - 1]);
                        } else if i == p {
                            assert(self.commands@[j] == cmds0[j - 1]);
                        } else {
                            assert(self.commands@[i] == cmds0[i - 1] && self.commands@[j]
                                == cmds0[j - 1]);
                        }
                    }
                }
            },
        }
    }

    /// The first entry carrying `name`, if any.
    fn lookup_index(cmds: &Vec<CommandKind>, name: &str) -> (r: Option<usize>)
        ensures
            match r {
                Some(idx) => {
                    &&& idx < cmds@.len()
                    &&& cmds@[idx as int].kind_name() == name@
                    &&& find_command(cmds@, name@) == Some(cmds@[idx as int])
                    &&& forall|i: int|
                        0 <= i < idx ==> (#[trigger] cmds@[i]).kind_name() != name@
                },
                None => find_command(cmds@, name@) is None,
            },
    {
        let n = cmds.len();
        let mut i: usize = 0;
        proof {
            assert(cmds@.skip(0) =~= cmds@);
        }
        while i < n
            invariant
                i <= n,
                n == cmds@.len(),
                find_command(cmds@, name@) == find_command(cmds@.skip(i as int), name@),
                forall|j: int| 0 <= j < i ==> (#[trigger] cmds@[j]).kind_name() != name@,
            decreases n - i,
        {
            let cmd = cmds[i];
            if crate::text::str_eq(cmd.name(), name) {
                proof {
                    assert(cmds@.skip(i as int)[0] == cmds@[i as int]);
                }
                return Some(i);
            }
            proof {
                assert(cmds@.skip(i as int)[0] == cmds@[i as int]);
                assert(cmds@.skip(i as int).skip(1) =~= cmds@.skip(i as int + 1));
            }
            i = i + 1;
        }
        None
    }

    /// The position where `command` slots into the sorted command list.
    fn find_insert_pos(&self, command: &CommandKind) -> (pos: usize)
        requires
            self.wf(),
        ensures
            pos <= self.reg_commands().len(),
            forall|i: int|
                0 <= i < pos ==> !lex_lt(
                    command.kind_name(),
                    (#[trigger] self.reg_commands()[i]).kind_name(),
                ),
            forall|i: int|
                pos <= i < self.reg_commands().len() ==> lex_lt(
                    command.kind_name(),
                    (#[trigger] self.reg_commands()[i]).kind_name(),
                ),
    {
        let n = self.commands.len();
        let mut pos: usize = 0;
        while pos < n
            invariant
                pos <= n,
                n == self.commands@.len(),
                self.wf(),
                forall|i: int|
                    0 <= i < pos ==> !lex_lt(
                        command.kind_name(),
                        (#[trigger] self.commands@[i]).kind_name(),
                    ),
            decreases n - pos,
        {
            let here = self.commands[pos].name();
            if crate::text::str_lex_lt(command.name(), here) {
                proof {
                    assert forall|i: int|
                        pos <= i < self.commands@.len() implies lex_lt(
                        command.kind_name(),
                        (#[trigger] self.commands@[i]).kind_name(),
                    ) by {
                        if i > pos {
                            if lex_lt(self.commands@[pos as int].kind_name(), self.commands@[i].kind_name()) {
                                crate::text::lemma_lex_trans(
                                    command.kind_name(),
                                    self.commands@[pos as int].kind_name(),
                                    self.commands@[i].kind_name(),
                                );
                            }
                        }
                    }
                }
                return pos;
            }
            pos = pos + 1;
        }
        pos
    }

    /// Looks up a command by name or alias.
    pub fn get(&self, name: &str) -> (r: Option<CommandKind>)
        requires
            self.wf(),
        ensures
            r == self.resolve_spec(name@),
    {
        match Self::lookup_command(&self.commands, name) {
            Some(cmd) => Some(cmd),
            None => {
                match Self::lookup_alias(&self.aliases, name) {
                    Some(primary_idx) => Self::lookup_command(
                        &self.commands,
                        self.aliases[primary_idx].1.as_str(),
                    ),
                    None => None,
                }
            },
        }
    }

    fn lookup_command(cmds: &Vec<CommandKind>, name: &str) -> (r: Option<CommandKind>)
        ensures
            r == find_command(cmds@, name@),
    {
        let n = cmds.len();
        let mut i: usize = 0;
        proof {
            assert(cmds@.skip(0) =~= cmds@);
        }
        while i < n
            invariant
                i <= n,
                n == cmds@.len(),
                find_command(cmds@, name@) == find_command(cmds@.skip(i as int), name@),
            decreases n - i,
        {
            let cmd = cmds[i];
            if crate::text::str_eq(cmd.name(), name) {
                proof {
                    assert(cmds@.skip(i as int)[0] == cmds@[i as int]);
                }
                return Some(cmd);
            }
            proof {
                assert(cmds@.skip(i as int)[0] == cmds@[i as int]);
                assert(cmds@.skip(i as int).skip(1) =~= cmds@.skip(i as int + 1));
            }
            i = i + 1;
        }
        None
    }

    fn lookup_alias(aliases: &Vec<(String, String)>, name: &str) -> (r: Option<usize>)
        ensures
            match r {
                Some(idx) => idx < aliases@.len() && aliases@[idx as int].0@ == name@ && find_alias(
                    aliases.deep_view(),
                    name@,
                ) == Some(aliases@[idx as int].1@),
                None => find_alias(aliases.deep_view(), name@) is None,
            },
    {
        let n = aliases.len();
        let mut i: usize = 0;
        proof {
            assert(aliases.deep_view().skip(0) =~= aliases.deep_view());
        }
        while i < n
            invariant
                i <= n,
                n == aliases@.len(),
                aliases.deep_view().len() == n,
                forall|j: int| 0 <= j < n ==> (#[trigger] aliases.deep_view()[j]) == (
                    aliases@[j].0@,
                    aliases@[j].1@,
                ),
                find_alias(aliases.deep_view(), name@) == find_alias(
                    aliases.deep_view().skip(i as int),
                    name@,
                ),
            decreases n - i,
        {
            if crate::text::str_eq(aliases[i].0.as_str(), name) {
                proof {
                    assert(aliases.deep_view().skip(i as int)[0] == aliases.deep_view()[i as int]);
                }
                return Some(i);
            }
            proof {
                assert(aliases.deep_view().skip(i as int)[0] == aliases.deep_view()[i as int]);
                assert(aliases.deep_view().skip(i as int).skip(1) =~= aliases.deep_view().skip(
                    i as int + 1,
                ));
            }
            i = i + 1;
        }
        None
    }

    /// All registered commands, sorted by name.
    pub fn commands(&self) -> (r: &Vec<CommandKind>)
        ensures
            r@ == self.reg_commands(),
    {
        &self.commands
    }

    /// All primary command names.
    pub fn names(&self) -> (r: Vec<String>)
        ensures
            r.deep_view() == Seq::new(
                self.reg_commands().len(),
                |k: int| self.reg_commands()[k].kind_name(),
            ),
    {
        let n = self.commands.len();
        let mut r: Vec<String> = Vec::new();
        let mut i: usize = 0;
        while i < n
            invariant
                i <= n,
                n == self.commands@.len(),
                r@.len() == i,
                forall|k: int| 0 <= k < i ==> (#[trigger] r@[k])@ == self.commands@[k].kind_name(),
            decreases n - i,
        {
            let name = self.commands[i].name();
            let mut s = String::new();
            s.append(name);
            r.push(s);
            i = i + 1;
        }
        proof {
            crate::text::lemma_deep_view_strings(r);
            assert(r.deep_view() =~= Seq::new(
                n as nat,
                |k: int| self.commands@[k].kind_name(),
            ));
        }
        r
    }

    /// Command-name completions (names and aliases) for the given prefix,
    /// sorted.
    pub fn completions(&self, prefix: &str) -> (r: Vec<String>)
        requires
            self.wf(),
        ensures
            completion_list(self.known_names(), prefix@, r.deep_view()),
    {
        let out = self.command_trie.completions(prefix);
        proof {
            assert forall|k: int|
                0 <= k < out.deep_view().len() implies self.known_names().contains(
                #[trigger] out.deep_view()[k],
            ) && prefix@.is_prefix_of(out.deep_view()[k]) by {
                assert(out.deep_view()[k] == out@[k]@);
            }
            assert forall|w: Seq<char>|
                self.known_names().contains(w) && prefix@.is_prefix_of(w) implies exists|k: int|
                0 <= k < out.deep_view().len() && (#[trigger] out.deep_view()[k]) == w by {
                let k = choose|k: int| 0 <= k < out@.len() && (#[trigger] out@[k])@ == w;
                assert(out.deep_view()[k] == w);
            }
            assert forall|k1: int, k2: int|
                0 <= k1 < k2 < out.deep_view().len() implies lex_lt(
                #[trigger] out.deep_view()[k1],
                #[trigger] out.deep_view()[k2],
            ) by {
                assert(out.deep_view()[k1] == out@[k1]@ && out.deep_view()[k2] == out@[k2]@);
            }
        }
        out
    }

    /// The number of registered commands.
    pub fn len(&self) -> (r: usize)
        ensures
            r == self.reg_commands().len(),
    {
        self.commands.len()
    }

    /// True if no commands are registered.
    pub fn is_empty(&self) -> (r: bool)
        ensures
            r == (self.reg_commands().len() == 0),
    {
        self.commands.len() == 0
    }
}

/// Replacing the entry that carries `c`'s name is what registering does in
/// a name-sorted list.
proof fn lemma_register_replace(cmds: Seq<CommandKind>, c: CommandKind, idx: int)
    requires
        forall|i: int, j: int|
            0 <= i < j < cmds.len() ==> lex_lt(
                (#[trigger] cmds[i]).kind_name(),
                (#[trigger] cmds[j]).kind_name(),
            ),
        0 <= idx < cmds.len(),
        cmds[idx].kind_name() == c.kind_name(),
    ensures
        register_spec(cmds, c) == cmds.update(idx, c),
    decreases cmds.len(),
{
    if idx == 0 {
        assert(register_spec(cmds, c) =~= cmds.update(0, c));
    } else {
        assert(lex_lt(cmds[0].kind_name(), cmds[idx].kind_name()));
        crate::text::lemma_lex_total(cmds[0].kind_name(), c.kind_name());
        assert(cmds[0].kind_name() != c.kind_name());
        assert(!lex_lt(c.kind_name(), cmds[0].kind_name()));
        assert forall|i: int, j: int|
            0 <= i < j < cmds.skip(1).len() implies lex_lt(
            (#[trigger] cmds.skip(1)[i]).kind_name(),
            (#[trigger] cmds.skip(1)[j]).kind_name(),
        ) by {
            assert(cmds.skip(1)[i] == cmds[i + 1] && cmds.skip(1)[j] == cmds[j + 1]);
        }
        assert(cmds.skip(1)[idx - 1] == cmds[idx]);
        lemma_register_replace(cmds.skip(1), c, idx - 1);
        assert(register_spec(cmds, c) =~= cmds.update(idx, c)) by {
            assert(register_spec(cmds, c) == seq![cmds[0]] + register_spec(cmds.skip(1), c));
            assert(cmds.skip(1).update(idx - 1, c) =~= cmds.update(idx, c).skip(1));
        }
    }
}

/// Inserting a fresh name at its sorted position is what registering does.
proof fn lemma_register_insert(cmds: Seq<CommandKind>, c: CommandKind, pos: int)
    requires
        0 <= pos <= cmds.len(),
        forall|i: int| 0 <= i < cmds.len() ==> (#[trigger] cmds[i]).kind_name() != c.kind_name(),
        forall|i: int| 0 <= i < pos ==> !lex_lt(c.kind_name(), (#[trigger] cmds[i]).kind_name()),
        forall|i: int|
            pos <= i < cmds.len() ==> lex_lt(c.kind_name(), (#[trigger] cmds[i]).kind_name()),
    ensures
        register_spec(cmds, c) == cmds.insert(pos, c),
    decreases cmds.len(),
{
    if cmds.len() == 0 {
        assert(cmds.insert(0, c) =~= seq![c]);
    } else if pos == 0 {
        assert(lex_lt(c.kind_name(), cmds[0].kind_name()));
        assert(cmds.insert(0, c) =~= seq![c] + cmds);
    } else {
        assert(!lex_lt(c.kind_name(), cmds[0].kind_name()));
        assert forall|i: int|
            0 <= i < cmds.skip(1).len() implies (#[trigger] cmds.skip(1)[i]).kind_name()
            != c.kind_name() by {
            assert(cmds.skip(1)[i] == cmds[i + 1]);
        }
        assert forall|i: int|
            0 <= i < pos - 1 implies !lex_lt(
            c.kind_name(),
            (#[trigger] cmds.skip(1)[i]).kind_name(),
        ) by {
            assert(cmds.skip(1)[i] == cmds[i + 1]);
        }
        assert forall|i: int|
            pos - 1 <= i < cmds.skip(1).len() implies lex_lt(
            c.kind_name(),
            (#[trigger] cmds.skip(1)[i]).kind_name(),
        ) by {
            assert(cmds.skip(1)[i] == cmds[i + 1]);
        }
        lemma_register_insert(cmds.skip(1), c, pos - 1);
        assert(cmds.insert(pos, c) =~= seq![cmds[0]] + cmds.skip(1).insert(pos - 1, c));
    }
}

} // verus!
