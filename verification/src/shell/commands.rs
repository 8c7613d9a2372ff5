//! The built-in commands: add, get, remove, list, help, quit. Each one's
//! behavior is pinned by a spec function relating arguments, the context
//! before and after, and the result.

use vstd::prelude::*;

use crate::shell::command::{
    completion_list, Command, CommandRegistry, CommandResult, ShellContext,
};
use crate::text::{join_spec, join_strings, lex_lt, sort_unique, view_among};

verus! {

/// Command to add a new credential.
pub struct AddCommand;

/// Command to retrieve a credential.
pub struct GetCommand;

/// Command to remove a credential.
pub struct RemoveCommand;

/// Command to list all credentials.
pub struct ListCommand;

/// Command to display help information.
pub struct HelpCommand;

/// Command to exit the shell.
pub struct QuitCommand;

/// The fixed set of commands, for dispatch and registry storage.
#[derive(Clone, Copy)]
pub enum CommandKind {
    Add,
    Get,
    Remove,
    List,
    Help,
    Quit,
}

// ---------------------------------------------------------------------------
// add

pub open spec fn add_execute_spec(
    args: Seq<Seq<char>>,
    prev: ShellContext,
    next: ShellContext,
    r: CommandResult,
) -> bool {
    if args.len() < 2 {
        &&& next == prev
        &&& r matches CommandResult::Error(m) && m@ == "Usage: add <name> <secret>\nMissing required arguments"@
    } else {
        let name = args[0];
        let secret = join_spec(args.skip(1), " "@);
        if prev.credentials@.dom().contains(name) {
            &&& next.credentials@ == prev.credentials@
            &&& next.key_trie == prev.key_trie
            &&& next.modified == prev.modified
            &&& next.registry == prev.registry
            &&& r matches CommandResult::Error(m) && m@ == "'"@ + name + "' already exists."@
        } else {
            &&& next.credentials@ == prev.credentials@.insert(name, secret)
            &&& next.key_trie@ == if name.len() > 0 {
                prev.key_trie@.insert(name)
            } else {
                prev.key_trie@
            }
            &&& next.modified
            &&& next.registry == prev.registry
            &&& r matches CommandResult::Success(m) && m is Some && m->0@ == "Added '"@ + name
                + "'"@
        }
    }
}

impl Command for AddCommand {
    open spec fn spec_name(&self) -> Seq<char> {
        "add"@
    }

    open spec fn spec_aliases(&self) -> Seq<Seq<char>> {
        seq!["a"@, "new"@, "set"@]
    }

    open spec fn spec_description(&self) -> Seq<char> {
        "Add a new credential"@
    }

    open spec fn spec_usage(&self) -> Seq<char> {
        "add <name> <secret>"@
    }

    open spec fn spec_help(&self) -> Seq<char> {
        "Add a new credential to the store.\n\nArguments:\n  <name>   - Unique identifier for the credential\n  <secret> - The secret value to store\n\nExamples:\n  add github mypassword123\n  add \"my email\" \"secret with spaces\""@
    }

    open spec fn spec_min_args(&self) -> nat {
        2
    }

    open spec fn spec_max_args(&self) -> Option<nat> {
        None
    }

    open spec fn execute_spec(
        &self,
        args: Seq<Seq<char>>,
        prev: ShellContext,
        next: ShellContext,
        r: CommandResult,
    ) -> bool {
        add_execute_spec(args, prev, next, r)
    }

    open spec fn completions_spec(
        &self,
        arg_index: nat,
        partial: Seq<char>,
        ctx: ShellContext,
        out: Seq<Seq<char>>,
    ) -> bool {
        out == Seq::<Seq<char>>::empty()
    }

    fn name(&self) -> (r: &str) {
        "add"
    }

    fn aliases(&self) -> (r: Vec<String>) {
        three_aliases("a", "new", "set")
    }

    fn description(&self) -> (r: &str) {
        "Add a new credential"
    }

    fn usage(&self) -> (r: &str) {
        "add <name> <secret>"
    }

    fn help(&self) -> (r: &str) {
        "Add a new credential to the store.\n\nArguments:\n  <name>   - Unique identifier for the credential\n  <secret> - The secret value to store\n\nExamples:\n  add github mypassword123\n  add \"my email\" \"secret with spaces\""
    }

    fn execute(&self, args: &Vec<String>, ctx: &mut ShellContext) -> (r: CommandResult) {
        if args.len() < 2 {
            let mut msg = String::new();
            msg.append("Usage: add <name> <secret>\nMissing required arguments");
            return CommandResult::error(msg.as_str());
        }
        let name = args[0].clone();
        let mut rest: Vec<String> = Vec::new();
        let n = args.len();
        let mut k: usize = 1;
        while k < n
            invariant
                1 <= k <= n,
                n == args@.len(),
                rest@.len() == k - 1,
                forall|j: int| 0 <= j < k - 1 ==> (#[trigger] rest@[j])@ == args@[j + 1]@,
            decreases n - k,
        {
            rest.push(args[k].clone());
            k = k + 1;
        }
        proof {
            crate::text::lemma_deep_view_strings(rest);
            crate::text::lemma_deep_view_strings(*args);
            assert(rest.deep_view() =~= args.deep_view().skip(1));
        }
        let secret = join_strings(&rest, " ");
        proof {
            crate::text::lemma_deep_view_strings(*args);
            assert(name@ == args.deep_view()[0]);
        }
        match ctx.credentials.add(name.clone(), secret) {
            Ok(()) => {
                ctx.key_trie.insert(name.as_str());
                ctx.mark_modified();
                let mut msg = String::new();
                msg.append("Added '");
                msg.append(name.as_str());
                msg.append("'");
                proof {
                    assert(msg@ =~= "Added '"@ + name@ + "'"@);
                }
                CommandResult::success(msg.as_str())
            },
            Err(e) => CommandResult::error(e.as_str()),
        }
    }

    fn completions(&self, arg_index: usize, partial: &str, ctx: &ShellContext) -> (r: Vec<
        String,
    >) {
        let r: Vec<String> = Vec::new();
        proof {
            assert(r.deep_view() =~= Seq::<Seq<char>>::empty());
        }
        r
    }

    fn min_args(&self) -> (r: usize) {
        2
    }

    fn max_args(&self) -> (r: Option<usize>) {
        None
    }
}

// ---------------------------------------------------------------------------
// get

pub open spec fn get_execute_spec(
    args: Seq<Seq<char>>,
    prev: ShellContext,
    next: ShellContext,
    r: CommandResult,
) -> bool {
    &&& next == prev
    &&& if args.len() == 0 {
        r matches CommandResult::Error(m) && m@ == "Usage: get <name>\nMissing credential name"@
    } else {
        let name = args[0];
        if prev.credentials@.dom().contains(name) {
            r matches CommandResult::Success(m) && m is Some && m->0@ == prev.credentials@[name]
        } else {
            r matches CommandResult::Error(m) && m@ == "'"@ + name + "' not found"@
        }
    }
}

impl Command for GetCommand {
    open spec fn spec_name(&self) -> Seq<char> {
        "get"@
    }

    open spec fn spec_aliases(&self) -> Seq<Seq<char>> {
        seq!["g"@, "show"@]
    }

    open spec fn spec_description(&self) -> Seq<char> {
        "Get a credential by name"@
    }

    open spec fn spec_usage(&self) -> Seq<char> {
        "get <name>"@
    }

    open spec fn spec_help(&self) -> Seq<char> {
        "Retrieve and display a stored credential.\n\nArguments:\n  <name> - The name of the credential to retrieve\n\nExamples:\n  get github\n  get \"my email\""@
    }

    open spec fn spec_min_args(&self) -> nat {
        1
    }

    open spec fn spec_max_args(&self) -> Option<nat> {
        Some(1)
    }

    open spec fn execute_spec(
        &self,
        args: Seq<Seq<char>>,
        prev: ShellContext,
        next: ShellContext,
        r: CommandResult,
    ) -> bool {
        get_execute_spec(args, prev, next, r)
    }

    open spec fn completions_spec(
        &self,
        arg_index: nat,
        partial: Seq<char>,
        ctx: ShellContext,
        out: Seq<Seq<char>>,
    ) -> bool {
        if arg_index == 0 {
            completion_list(ctx.key_trie@, partial, out)
        } else {
            out == Seq::<Seq<char>>::empty()
        }
    }

    fn name(&self) -> (r: &str) {
        "get"
    }

    fn aliases(&self) -> (r: Vec<String>) {
        two_aliases("g", "show")
    }

    fn description(&self) -> (r: &str) {
        "Get a credential by name"
    }

    fn usage(&self) -> (r: &str) {
        "get <name>"
    }

    fn help(&self) -> (r: &str) {
        "Retrieve and display a stored credential.\n\nArguments:\n  <name> - The name of the credential to retrieve\n\nExamples:\n  get github\n  get \"my email\""
    }

    fn execute(&self, args: &Vec<String>, ctx: &mut ShellContext) -> (r: CommandResult) {
        if args.len() == 0 {
            let mut msg = String::new();
            msg.append("Usage: get <name>\nMissing credential name");
            return CommandResult::error(msg.as_str());
        }
        let name = &args[0];
        proof {
            crate::text::lemma_deep_view_strings(*args);
            assert(name@ == args.deep_view()[0]);
        }
        match ctx.credentials.get(name.as_str()) {
            Some(secret) => CommandResult::success(secret.as_str()),
            None => {
                let mut msg = String::new();
                msg.append("'");
                msg.append(name.as_str());
                msg.append("' not found");
                proof {
                    assert(msg@ =~= "'"@ + name@ + "' not found"@);
                }
                CommandResult::error(msg.as_str())
            },
        }
    }

    fn completions(&self, arg_index: usize, partial: &str, ctx: &ShellContext) -> (r: Vec<
        String,
    >) {
        if arg_index == 0 {
            key_completions(partial, ctx)
        } else {
            let r: Vec<String> = Vec::new();
            proof {
                assert(r.deep_view() =~= Seq::<Seq<char>>::empty());
            }
            r
        }
    }

    fn min_args(&self) -> (r: usize) {
        1
    }

    fn max_args(&self) -> (r: Option<usize>) {
        Some(1)
    }
}

/// Credential-name completions out of the context's prefix index.
fn key_completions(partial: &str, ctx: &ShellContext) -> (r: Vec<String>)
    requires
        ctx.wf(),
    ensures
        completion_list(ctx.key_trie@, partial@, r.deep_view()),
{
    let out = ctx.key_trie.completions(partial);
    proof {
        assert forall|k: int|
            0 <= k < out.deep_view().len() implies ctx.key_trie@.contains(
            #[trigger] out.deep_view()[k],
        ) && partial@.is_prefix_of(out.deep_view()[k]) by {
            assert(out.deep_view()[k] == out@[k]@);
        }
        assert forall|w: Seq<char>|
            ctx.key_trie@.contains(w) && partial@.is_prefix_of(w) implies exists|k: int|
            0 <= k < out.deep_view().len() && (#[trigger] out.deep_view()[k]) == w by {
            let k = choose|k: int| 0 <= k < out@.len() && (#[trigger] out@[k])@ == w;
            assert(out.deep_view()[k] == w);
        }
        assert forall|k1: int, k2: int|
            0 <= k1 < k2 < out.deep_view().len() implies lex_lt(
            #[trigger] out.deep_view()[k1],
            #[trigger] out.deep_view()[k2],
        ) by {
            assert(out.deep_view()[k1] == out@[k1]@ && out.deep_view()[k2] == out@[k2]@);
        }
    }
    out
}

// ---------------------------------------------------------------------------
// remove

pub open spec fn remove_execute_spec(
    args: Seq<Seq<char>>,
    prev: ShellContext,
    next: ShellContext,
    r: CommandResult,
) -> bool {
    if args.len() == 0 {
        &&& next == prev
        &&& r matches CommandResult::Error(m) && m@ == "Usage: remove <name>\nMissing credential name"@
    } else {
        let name = args[0];
        if prev.credentials@.dom().contains(name) {
            &&& next.credentials@ == prev.credentials@.remove(name)
            &&& next.key_trie@ == prev.key_trie@.remove(name)
            &&& next.modified
            &&& next.registry == prev.registry
            &&& r matches CommandResult::Success(m) && m is Some && m->0@ == "Removed '"@ + name
                + "'"@
        } else {
            &&& next.credentials@ == prev.credentials@
            &&& next.key_trie == prev.key_trie
            &&& next.modified == prev.modified
            &&& next.registry == prev.registry
            &&& r matches CommandResult::Error(m) && m@ == "'"@ + name + "' not found"@
        }
    }
}

impl Command for RemoveCommand {
    open spec fn spec_name(&self) -> Seq<char> {
        "remove"@
    }

    open spec fn spec_aliases(&self) -> Seq<Seq<char>> {
        seq!["rm"@, "delete"@, "del"@]
    }

    open spec fn spec_description(&self) -> Seq<char> {
        "Remove a credential by name"@
    }

    open spec fn spec_usage(&self) -> Seq<char> {
        "remove <name>"@
    }

    open spec fn spec_help(&self) -> Seq<char> {
        "Remove a credential from the store.\n\nArguments:\n  <name> - The name of the credential to remove\n\nExamples:\n  remove github\n  rm \"old email\""@
    }

    open spec fn spec_min_args(&self) -> nat {
        1
    }

    open spec fn spec_max_args(&self) -> Option<nat> {
        Some(1)
    }

    open spec fn execute_spec(
        &self,
        args: Seq<Seq<char>>,
        prev: ShellContext,
        next: ShellContext,
        r: CommandResult,
    ) -> bool {
        remove_execute_spec(args, prev, next, r)
    }

    open spec fn completions_spec(
        &self,
        arg_index: nat,
        partial: Seq<char>,
        ctx: ShellContext,
        out: Seq<Seq<char>>,
    ) -> bool {
        if arg_index == 0 {
            completion_list(ctx.key_trie@, partial, out)
        } else {
            out == Seq::<Seq<char>>::empty()
        }
    }

    fn name(&self) -> (r: &str) {
        "remove"
    }

    fn aliases(&self) -> (r: Vec<String>) {
        three_aliases("rm", "delete", "del")
    }

    fn description(&self) -> (r: &str) {
        "Remove a credential by name"
    }

    fn usage(&self) -> (r: &str) {
        "remove <name>"
    }

    fn help(&self) -> (r: &str) {
        "Remove a credential from the store.\n\nArguments:\n  <name> - The name of the credential to remove\n\nExamples:\n  remove github\n  rm \"old email\""
    }

    fn execute(&self, args: &Vec<String>, ctx: &mut ShellContext) -> (r: CommandResult) {
        if args.len() == 0 {
            let mut msg = String::new();
            msg.append("Usage: remove <name>\nMissing credential name");
            return CommandResult::error(msg.as_str());
        }
        let name = &args[0];
        proof {
            crate::text::lemma_deep_view_strings(*args);
            assert(name@ == args.deep_view()[0]);
        }
        let ghost creds0 = ctx.credentials@;
        if ctx.credentials.remove(name.as_str()) {
            let _ = ctx.key_trie.remove(name.as_str());
            ctx.mark_modified();
            let mut msg = String::new();
            msg.append("Removed '");
            msg.append(name.as_str());
            msg.append("'");
            proof {
                assert(msg@ =~= "Removed '"@ + name@ + "'"@);
            }
            CommandResult::success(msg.as_str())
        } else {
            proof {
                assert(ctx.credentials@ =~= creds0);
            }
            let mut msg = String::new();
            msg.append("'");
            msg.append(name.as_str());
            msg.append("' not found");
            proof {
                assert(msg@ =~= "'"@ + name@ + "' not found"@);
            }
            CommandResult::error(msg.as_str())
        }
    }

    fn completions(&self, arg_index: usize, partial: &str, ctx: &ShellContext) -> (r: Vec<
        String,
    >) {
        if arg_index == 0 {
            key_completions(partial, ctx)
        } else {
            let r: Vec<String> = Vec::new();
            proof {
                assert(r.deep_view() =~= Seq::<Seq<char>>::empty());
            }
            r
        }
    }

    fn min_args(&self) -> (r: usize) {
        1
    }

    fn max_args(&self) -> (r: Option<usize>) {
        Some(1)
    }
}

// ---------------------------------------------------------------------------
// list

/// `names` is exactly `dom`, in strictly increasing code-point order.
pub open spec fn sorted_names(dom: Set<Seq<char>>, names: Seq<Seq<char>>) -> bool {
    &&& forall|k: int| 0 <= k < names.len() ==> dom.contains(#[trigger] names[k])
    &&& forall|n: Seq<char>|
        #[trigger] dom.contains(n) ==> exists|k: int| 0 <= k < names.len() && names[k] == n
    &&& forall|k1: int, k2: int|
        0 <= k1 < k2 < names.len() ==> lex_lt(#[trigger] names[k1], #[trigger] names[k2])
}

pub open spec fn list_execute_spec(
    args: Seq<Seq<char>>,
    prev: ShellContext,
    next: ShellContext,
    r: CommandResult,
) -> bool {
    &&& next == prev
    &&& if prev.credentials@.dom().len() == 0 {
        r matches CommandResult::Success(m) && m is Some && m->0@ == "No credentials stored."@
    } else {
        r matches CommandResult::Success(m) && m is Some && exists|names: Seq<Seq<char>>|
            #[trigger] sorted_names(prev.credentials@.dom(), names) && m->0@ == join_spec(
                names,
                "\n"@,
            )
    }
}

impl Command for ListCommand {
    open spec fn spec_name(&self) -> Seq<char> {
        "list"@
    }

    open spec fn spec_aliases(&self) -> Seq<Seq<char>> {
        seq!["ls"@, "l"@]
    }

    open spec fn spec_description(&self) -> Seq<char> {
        "List all stored credentials"@
    }

    open spec fn spec_usage(&self) -> Seq<char> {
        "list"@
    }

    open spec fn spec_help(&self) -> Seq<char> {
        "Display a list of all stored credential names.\n\nThe secrets are not shown, only the names.\n\nExamples:\n  list\n  ls"@
    }

    open spec fn spec_min_args(&self) -> nat {
        0
    }

    open spec fn spec_max_args(&self) -> Option<nat> {
        Some(0)
    }

    open spec fn execute_spec(
        &self,
        args: Seq<Seq<char>>,
        prev: ShellContext,
        next: ShellContext,
        r: CommandResult,
    ) -> bool {
        list_execute_spec(args, prev, next, r)
    }

    open spec fn completions_spec(
        &self,
        arg_index: nat,
        partial: Seq<char>,
        ctx: ShellContext,
        out: Seq<Seq<char>>,
    ) -> bool {
        out == Seq::<Seq<char>>::empty()
    }

    fn name(&self) -> (r: &str) {
        "list"
    }

    fn aliases(&self) -> (r: Vec<String>) {
        two_aliases("ls", "l")
    }

    fn description(&self) -> (r: &str) {
        "List all stored credentials"
    }

    fn usage(&self) -> (r: &str) {
        "list"
    }

    fn help(&self) -> (r: &str) {
        "Display a list of all stored credential names.\n\nThe secrets are not shown, only the names.\n\nExamples:\n  list\n  ls"
    }

    fn execute(&self, args: &Vec<String>, ctx: &mut ShellContext) -> (r: CommandResult) {
        if ctx.credentials.is_empty() {
            let mut msg = String::new();
            msg.append("No credentials stored.");
            return CommandResult::success(msg.as_str());
        }
        let names = ctx.credentials.list();
        let sorted = sort_unique(names);
        let output = join_strings(&sorted, "\n");
        proof {
            let dom = ctx.credentials@.dom();
            let sv = sorted.deep_view();
            assert(sorted_names(dom, sv)) by {
                assert forall|k: int| 0 <= k < sv.len() implies dom.contains(#[trigger] sv[k]) by {
                    assert(sv[k] == sorted@[k]@);
                    assert(view_among(sorted@[k]@, names@));
                    let j = choose|j: int| 0 <= j < names@.len() && (#[trigger] names@[j])@
                        == sorted@[k]@;
                }
                assert forall|n: Seq<char>| #[trigger] dom.contains(n) implies exists|k: int|
                    0 <= k < sv.len() && sv[k] == n by {
                    let j = choose|j: int| 0 <= j < names@.len() && (#[trigger] names@[j])@ == n;
                    assert(view_among(names@[j]@, sorted@));
                    let k = choose|k: int| 0 <= k < sorted@.len() && (#[trigger] sorted@[k])@ == n;
                    assert(sv[k] == n);
                }
                assert forall|k1: int, k2: int|
                    0 <= k1 < k2 < sv.len() implies lex_lt(
                    #[trigger] sv[k1],
                    #[trigger] sv[k2],
                ) by {
                    assert(sv[k1] == sorted@[k1]@ && sv[k2] == sorted@[k2]@);
                }
            }
        }
        CommandResult::success(output.as_str())
    }

    fn completions(&self, arg_index: usize, partial: &str, ctx: &ShellContext) -> (r: Vec<
        String,
    >) {
        let r: Vec<String> = Vec::new();
        proof {
            assert(r.deep_view() =~= Seq::<Seq<char>>::empty());
        }
        r
    }

    fn min_args(&self) -> (r: usize) {
        0
    }

    fn max_args(&self) -> (r: Option<usize>) {
        Some(0)
    }
}

// ---------------------------------------------------------------------------
// help

/// `n` spaces.
pub open spec fn spaces(n: nat) -> Seq<char>
    decreases n,
{
    if n == 0 {
        Seq::empty()
    } else {
        spaces((n - 1) as nat).push(' ')
    }
}

/// `s` padded with spaces to at least `width` characters.
pub open spec fn pad_to(s: Seq<char>, width: nat) -> Seq<char> {
    if s.len() >= width {
        s
    } else {
        s + spaces((width - s.len()) as nat)
    }
}

pub open spec fn upper_char(c: char) -> char {
    if 'a' <= c && c <= 'z' {
        (((c as u8) - 32) as char)
    } else {
        c
    }
}

/// ASCII uppercasing, character by character.
pub open spec fn upper_of(s: Seq<char>) -> Seq<char> {
    Seq::new(s.len(), |i: int| upper_char(s[i]))
}

/// The parenthesized alias list of the overview, or nothing.
pub open spec fn alias_note(aliases: Seq<Seq<char>>) -> Seq<char> {
    if aliases.len() == 0 {
        Seq::empty()
    } else {
        " ("@ + join_spec(aliases, ", "@) + ")"@
    }
}

/// One line of the command overview.
pub open spec fn overview_line(c: CommandKind) -> Seq<char> {
    "  "@ + pad_to(c.spec_name(), 12) + alias_note(c.spec_aliases()) + " - "@
        + c.spec_description() + "\n"@
}

pub open spec fn overview_lines(cmds: Seq<CommandKind>) -> Seq<char>
    decreases cmds.len(),
{
    if cmds.len() == 0 {
        Seq::empty()
    } else {
        overview_line(cmds[0]) + overview_lines(cmds.skip(1))
    }
}

/// The full output of `help` without arguments, over the registered commands
/// in their (name-sorted) registry order.
pub open spec fn help_overview(cmds: Seq<CommandKind>) -> Seq<char> {
    "Available commands:\n\n"@ + overview_lines(cmds)
        + "\nType 'help <command>' for detailed help on a specific command."@
}

/// The full output of `help <command>`.
pub open spec fn help_detail(c: CommandKind) -> Seq<char> {
    upper_of(c.spec_name()) + "\n\nUsage: "@ + c.spec_usage() + (if c.spec_aliases().len() == 0 {
        Seq::<char>::empty()
    } else {
        "\nAliases: "@ + join_spec(c.spec_aliases(), ", "@)
    }) + "\n\n"@ + c.spec_help()
}

pub open spec fn help_execute_spec(
    args: Seq<Seq<char>>,
    prev: ShellContext,
    next: ShellContext,
    r: CommandResult,
) -> bool {
    &&& next == prev
    &&& match prev.registry {
        None => r matches CommandResult::Error(m) && m@ == "Help not available (no registry)"@,
        Some(reg) => {
            if args.len() == 0 {
                r matches CommandResult::Success(m) && m is Some && m->0@ == help_overview(
                    reg.reg_commands(),
                )
            } else {
                match reg.resolve_spec(args[0]) {
                    Some(cmd) => r matches CommandResult::Success(m) && m is Some && m->0@
                        == help_detail(cmd),
                    None => r matches CommandResult::Error(m) && m@ == "Unknown command: '"@
                        + args[0] + "'\nType 'help' to see available commands."@,
                }
            }
        },
    }
}

proof fn lemma_overview_snoc(cmds: Seq<CommandKind>, c: CommandKind)
    ensures
        overview_lines(cmds.push(c)) == overview_lines(cmds) + overview_line(c),
    decreases cmds.len(),
{
    if cmds.len() == 0 {
        assert(cmds.push(c)[0] == c);
        assert(cmds.push(c).skip(1) =~= Seq::<CommandKind>::empty());
        assert(overview_lines(Seq::<CommandKind>::empty()) == Seq::<char>::empty());
        assert(overview_lines(cmds.push(c)) == overview_line(c) + overview_lines(
            Seq::<CommandKind>::empty(),
        ));
        assert(overview_line(c) + Seq::<char>::empty() =~= overview_line(c));
        assert(overview_lines(cmds) + overview_line(c) =~= overview_line(c));
    } else {
        assert(cmds.push(c)[0] == cmds[0]);
        assert(cmds.push(c).skip(1) =~= cmds.skip(1).push(c));
        lemma_overview_snoc(cmds.skip(1), c);
        assert(overview_lines(cmds.push(c)) =~= overview_line(cmds[0]) + overview_lines(
            cmds.skip(1),
        ) + overview_line(c));
        assert(overview_lines(cmds) + overview_line(c) =~= overview_line(cmds[0])
            + overview_lines(cmds.skip(1)) + overview_line(c));
    }
}

/// ASCII uppercasing of a name, as `str::to_uppercase` yields it for the
/// ASCII command names this shell registers.
fn ascii_upper(s: &str) -> (r: String)
    ensures
        r@ == upper_of(s@),
{
    let chars = crate::text::str_to_chars(s);
    let n = chars.len();
    let mut r = String::new();
    let mut i: usize = 0;
    while i < n
        invariant
            i <= n,
            n == chars@.len(),
            chars@ == s@,
            r@ =~= upper_of(s@).subrange(0, i as int),
        decreases n - i,
    {
        let c = chars[i];
        if 'a' <= c && c <= 'z' {
            crate::text::push_char(&mut r, ((c as u8) - 32) as char);
        } else {
            crate::text::push_char(&mut r, c);
        }
        proof {
            assert(upper_of(s@)[i as int] == upper_char(s@[i as int]));
            assert(r@ =~= upper_of(s@).subrange(0, i as int + 1));
        }
        i = i + 1;
    }
    proof {
        assert(r@ =~= upper_of(s@));
    }
    r
}

/// The name padded to column twelve, as the overview aligns it.
fn pad_name(msg: &mut String, name: &str)
    ensures
        final(msg)@ == old(msg)@ + pad_to(name@, 12),
{
    msg.append(name);
    let len = name.unicode_len();
    if len >= 12 {
        proof {
            assert(pad_to(name@, 12) == name@);
        }
        return ;
    }
    let mut p: usize = len;
    while p < 12
        invariant
            name@.len() <= p <= 12,
            msg@ == old(msg)@ + name@ + spaces((p - name@.len()) as nat),
        decreases 12 - p,
    {
        crate::text::push_char(msg, ' ');
        p = p + 1;
        proof {
            assert(old(msg)@ + name@ + spaces((p - name@.len()) as nat) =~= (old(msg)@ + name@
                + spaces((p - 1 - name@.len()) as nat)).push(' '));
        }
    }
    proof {
        assert(msg@ =~= old(msg)@ + pad_to(name@, 12));
    }
}

impl Command for HelpCommand {
    open spec fn spec_name(&self) -> Seq<char> {
        "help"@
    }

    open spec fn spec_aliases(&self) -> Seq<Seq<char>> {
        seq!["h"@, "?"@]
    }

    open spec fn spec_description(&self) -> Seq<char> {
        "Display help information"@
    }

    open spec fn spec_usage(&self) -> Seq<char> {
        "help [command]"@
    }

    open spec fn spec_help(&self) -> Seq<char> {
        "Display help information about commands.\n\nWithout arguments, lists all available commands.\nWith a command name, shows detailed help for that command.\n\nExamples:\n  help\n  help add\n  ? get"@
    }

    open spec fn spec_min_args(&self) -> nat {
        0
    }

    open spec fn spec_max_args(&self) -> Option<nat> {
        Some(1)
    }

    open spec fn execute_spec(
        &self,
        args: Seq<Seq<char>>,
        prev: ShellContext,
        next: ShellContext,
        r: CommandResult,
    ) -> bool {
        help_execute_spec(args, prev, next, r)
    }

    open spec fn completions_spec(
        &self,
        arg_index: nat,
        partial: Seq<char>,
        ctx: ShellContext,
        out: Seq<Seq<char>>,
    ) -> bool {
        if arg_index == 0 {
            match ctx.registry {
                Some(reg) => completion_list(reg.known_names(), partial, out),
                None => out == Seq::<Seq<char>>::empty(),
            }
        } else {
            out == Seq::<Seq<char>>::empty()
        }
    }

    fn name(&self) -> (r: &str) {
        "help"
    }

    fn aliases(&self) -> (r: Vec<String>) {
        two_aliases("h", "?")
    }

    fn description(&self) -> (r: &str) {
        "Display help information"
    }

    fn usage(&self) -> (r: &str) {
        "help [command]"
    }

    fn help(&self) -> (r: &str) {
        "Display help information about commands.\n\nWithout arguments, lists all available commands.\nWith a command name, shows detailed help for that command.\n\nExamples:\n  help\n  help add\n  ? get"
    }

    #[verifier::rlimit(100)]
    fn execute(&self, args: &Vec<String>, ctx: &mut ShellContext) -> (r: CommandResult) {
        let registry = match &ctx.registry {
            Some(r) => r,
            None => {
                let mut msg = String::new();
                msg.append("Help not available (no registry)");
                return CommandResult::error(msg.as_str());
            },
        };
        if args.len() == 0 {
            let cmds = registry.commands();
            let n = cmds.len();
            let mut msg = String::new();
            msg.append("Available commands:\n\n");
            let mut i: usize = 0;
            while i < n
                invariant
                    i <= n,
                    n == cmds@.len(),
                    cmds@ == registry.reg_commands(),
                    msg@ == "Available commands:\n\n"@ + overview_lines(
                        cmds@.subrange(0, i as int),
                    ),
                decreases n - i,
            {
                let ghost before = msg@;
                let c = cmds[i];
                msg.append("  ");
                pad_name(&mut msg, c.name());
                let al = c.aliases();
                if al.len() > 0 {
                    msg.append(" (");
                    let joined = join_strings(&al, ", ");
                    msg.append(joined.as_str());
                    msg.append(")");
                }
                msg.append(" - ");
                msg.append(c.description());
                msg.append("\n");
                proof {
                    assert(msg@ =~= before + overview_line(cmds@[i as int]));
                    lemma_overview_snoc(cmds@.subrange(0, i as int), cmds@[i as int]);
                    assert(cmds@.subrange(0, i as int).push(cmds@[i as int]) =~= cmds@.subrange(
                        0,
                        i as int + 1,
                    ));
                    assert(msg@ =~= "Available commands:\n\n"@ + overview_lines(
                        cmds@.subrange(0, i as int + 1),
                    ));
                }
                i = i + 1;
            }
            msg.append("\nType 'help <command>' for detailed help on a specific command.");
            proof {
                assert(cmds@.subrange(0, n as int) =~= cmds@);
                assert(msg@ =~= help_overview(registry.reg_commands()));
            }
            CommandResult::success(msg.as_str())
        } else {
            let cmd_name = &args[0];
            proof {
                crate::text::lemma_deep_view_strings(*args);
                assert(cmd_name@ == args.deep_view()[0]);
            }
            match registry.get(cmd_name.as_str()) {
                Some(cmd) => {
                    let mut msg = ascii_upper(cmd.name());
                    msg.append("\n\nUsage: ");
                    msg.append(cmd.usage());
                    let al = cmd.aliases();
                    if al.len() > 0 {
                        msg.append("\nAliases: ");
                        let joined = join_strings(&al, ", ");
                        msg.append(joined.as_str());
                    }
                    msg.append("\n\n");
                    msg.append(cmd.help());
                    proof {
                        assert(msg@ =~= help_detail(cmd));
                    }
                    CommandResult::success(msg.as_str())
                },
                None => {
                    let mut msg = String::new();
                    msg.append("Unknown command: '");
                    msg.append(cmd_name.as_str());
                    msg.append("'\nType 'help' to see available commands.");
                    proof {
                        assert(msg@ =~= "Unknown command: '"@ + cmd_name@
                            + "'\nType 'help' to see available commands."@);
                    }
                    CommandResult::error(msg.as_str())
                },
            }
        }
    }

    fn completions(&self, arg_index: usize, partial: &str, ctx: &ShellContext) -> (r: Vec<
        String,
    >) {
        if arg_index == 0 {
            match &ctx.registry {
                Some(reg) => reg.completions(partial),
                None => {
                    let r: Vec<String> = Vec::new();
                    proof {
                        assert(r.deep_view() =~= Seq::<Seq<char>>::empty());
                    }
                    r
                },
            }
        } else {
            let r: Vec<String> = Vec::new();
            proof {
                assert(r.deep_view() =~= Seq::<Seq<char>>::empty());
            }
            r
        }
    }

    fn min_args(&self) -> (r: usize) {
        0
    }

    fn max_args(&self) -> (r: Option<usize>) {
        Some(1)
    }
}

// ---------------------------------------------------------------------------
// quit

pub open spec fn quit_execute_spec(
    args: Seq<Seq<char>>,
    prev: ShellContext,
    next: ShellContext,
    r: CommandResult,
) -> bool {
    &&& next == prev
    &&& r is Exit
}

impl Command for QuitCommand {
    open spec fn spec_name(&self) -> Seq<char> {
        "quit"@
    }

    open spec fn spec_aliases(&self) -> Seq<Seq<char>> {
        seq!["exit"@, "q"@]
    }

    open spec fn spec_description(&self) -> Seq<char> {
        "Exit the password manager"@
    }

    open spec fn spec_usage(&self) -> Seq<char> {
        "quit"@
    }

    open spec fn spec_help(&self) -> Seq<char> {
        "Exit the password manager and save any pending changes.\n\nExamples:\n  quit\n  exit\n  q"@
    }

    open spec fn spec_min_args(&self) -> nat {
        0
    }

    open spec fn spec_max_args(&self) -> Option<nat> {
        Some(0)
    }

    open spec fn execute_spec(
        &self,
        args: Seq<Seq<char>>,
        prev: ShellContext,
        next: ShellContext,
        r: CommandResult,
    ) -> bool {
        quit_execute_spec(args, prev, next, r)
    }

    open spec fn completions_spec(
        &self,
        arg_index: nat,
        partial: Seq<char>,
        ctx: ShellContext,
        out: Seq<Seq<char>>,
    ) -> bool {
        out == Seq::<Seq<char>>::empty()
    }

    fn name(&self) -> (r: &str) {
        "quit"
    }

    fn aliases(&self) -> (r: Vec<String>) {
        two_aliases("exit", "q")
    }

    fn description(&self) -> (r: &str) {
        "Exit the password manager"
    }

    fn usage(&self) -> (r: &str) {
        "quit"
    }

    fn help(&self) -> (r: &str) {
        "Exit the password manager and save any pending changes.\n\nExamples:\n  quit\n  exit\n  q"
    }

    fn execute(&self, args: &Vec<String>, ctx: &mut ShellContext) -> (r: CommandResult) {
        CommandResult::Exit
    }

    fn completions(&self, arg_index: usize, partial: &str, ctx: &ShellContext) -> (r: Vec<
        String,
    >) {
        let r: Vec<String> = Vec::new();
        proof {
            assert(r.deep_view() =~= Seq::<Seq<char>>::empty());
        }
        r
    }

    fn min_args(&self) -> (r: usize) {
        0
    }

    fn max_args(&self) -> (r: Option<usize>) {
        Some(0)
    }
}

// ---------------------------------------------------------------------------
// shared helpers and dispatch

fn two_aliases(a: &str, b: &str) -> (r: Vec<String>)
    ensures
        r.deep_view() == seq![a@, b@],
{
    let mut r: Vec<String> = Vec::new();
    let mut s = String::new();
    s.append(a);
    r.push(s);
    let mut s = String::new();
    s.append(b);
    r.push(s);
    proof {
        assert(r.deep_view() =~= seq![a@, b@]);
    }
    r
}

fn three_aliases(a: &str, b: &str, c: &str) -> (r: Vec<String>)
    ensures
        r.deep_view() == seq![a@, b@, c@],
{
    let mut r: Vec<String> = Vec::new();
    let mut s = String::new();
    s.append(a);
    r.push(s);
    let mut s = String::new();
    s.append(b);
    r.push(s);
    let mut s = String::new();
    s.append(c);
    r.push(s);
    proof {
        assert(r.deep_view() =~= seq![a@, b@, c@]);
    }
    r
}

impl CommandKind {
    /// The primary name, by kind; inherent so the registry's invariants do
    /// not go through the `Command` trait.
    pub open spec fn kind_name(&self) -> Seq<char> {
        match self {
            CommandKind::Add => "add"@,
            CommandKind::Get => "get"@,
            CommandKind::Remove => "remove"@,
            CommandKind::List => "list"@,
            CommandKind::Help => "help"@,
            CommandKind::Quit => "quit"@,
        }
    }

    /// The aliases, by kind.
    pub open spec fn kind_aliases(&self) -> Seq<Seq<char>> {
        match self {
            CommandKind::Add => seq!["a"@, "new"@, "set"@],
            CommandKind::Get => seq!["g"@, "show"@],
            CommandKind::Remove => seq!["rm"@, "delete"@, "del"@],
            CommandKind::List => seq!["ls"@, "l"@],
            CommandKind::Help => seq!["h"@, "?"@],
            CommandKind::Quit => seq!["exit"@, "q"@],
        }
    }

    /// Every registered name and alias is nonempty, so the registry's prefix
    /// index records each of them.
    pub proof fn lemma_names_nonempty(&self)
        ensures
            self.kind_name().len() > 0,
            forall|k: int|
                0 <= k < self.kind_aliases().len() ==> (#[trigger] self.kind_aliases()[k]).len()
                    > 0,
    {
        reveal_strlit("add");
        reveal_strlit("a");
        reveal_strlit("new");
        reveal_strlit("set");
        reveal_strlit("get");
        reveal_strlit("g");
        reveal_strlit("show");
        reveal_strlit("remove");
        reveal_strlit("rm");
        reveal_strlit("delete");
        reveal_strlit("del");
        reveal_strlit("list");
        reveal_strlit("ls");
        reveal_strlit("l");
        reveal_strlit("help");
        reveal_strlit("h");
        reveal_strlit("?");
        reveal_strlit("quit");
        reveal_strlit("exit");
        reveal_strlit("q");
        match self {
            CommandKind::Add => {
                assert forall|k: int| 0 <= k < self.kind_aliases().len() implies (
                #[trigger] self.kind_aliases()[k]).len() > 0 by {
                    assert(self.kind_aliases() == seq!["a"@, "new"@, "set"@]);
                }
            },
            CommandKind::Get => {
                assert forall|k: int| 0 <= k < self.kind_aliases().len() implies (
                #[trigger] self.kind_aliases()[k]).len() > 0 by {
                    assert(self.kind_aliases() == seq!["g"@, "show"@]);
                }
            },
            CommandKind::Remove => {
                assert forall|k: int| 0 <= k < self.kind_aliases().len() implies (
                #[trigger] self.kind_aliases()[k]).len() > 0 by {
                    assert(self.kind_aliases() == seq!["rm"@, "delete"@, "del"@]);
                }
            },
            CommandKind::List => {
                assert forall|k: int| 0 <= k < self.kind_aliases().len() implies (
                #[trigger] self.kind_aliases()[k]).len() > 0 by {
                    assert(self.kind_aliases() == seq!["ls"@, "l"@]);
                }
            },
            CommandKind::Help => {
                assert forall|k: int| 0 <= k < self.kind_aliases().len() implies (
                #[trigger] self.kind_aliases()[k]).len() > 0 by {
                    assert(self.kind_aliases() == seq!["h"@, "?"@]);
                }
            },
            CommandKind::Quit => {
                assert forall|k: int| 0 <= k < self.kind_aliases().len() implies (
                #[trigger] self.kind_aliases()[k]).len() > 0 by {
                    assert(self.kind_aliases() == seq!["exit"@, "q"@]);
                }
            },
        }
    }
}

impl Command for CommandKind {
    open spec fn spec_name(&self) -> Seq<char> {
        self.kind_name()
    }

    open spec fn spec_aliases(&self) -> Seq<Seq<char>> {
        self.kind_aliases()
    }

    open spec fn spec_description(&self) -> Seq<char> {
        match self {
            CommandKind::Add => (AddCommand).spec_description(),
            CommandKind::Get => (GetCommand).spec_description(),
            CommandKind::Remove => (RemoveCommand).spec_description(),
            CommandKind::List => (ListCommand).spec_description(),
            CommandKind::Help => (HelpCommand).spec_description(),
            CommandKind::Quit => (QuitCommand).spec_description(),
        }
    }

    open spec fn spec_usage(&self) -> Seq<char> {
        match self {
            CommandKind::Add => (AddCommand).spec_usage(),
            CommandKind::Get => (GetCommand).spec_usage(),
            CommandKind::Remove => (RemoveCommand).spec_usage(),
            CommandKind::List => (ListCommand).spec_usage(),
            CommandKind::Help => (HelpCommand).spec_usage(),
            CommandKind::Quit => (QuitCommand).spec_usage(),
        }
    }

    open spec fn spec_help(&self) -> Seq<char> {
        match self {
            CommandKind::Add => (AddCommand).spec_help(),
            CommandKind::Get => (GetCommand).spec_help(),
            CommandKind::Remove => (RemoveCommand).spec_help(),
            CommandKind::List => (ListCommand).spec_help(),
            CommandKind::Help => (HelpCommand).spec_help(),
            CommandKind::Quit => (QuitCommand).spec_help(),
        }
    }

    open spec fn spec_min_args(&self) -> nat {
        match self {
            CommandKind::Add => (AddCommand).spec_min_args(),
            CommandKind::Get => (GetCommand).spec_min_args(),
            CommandKind::Remove => (RemoveCommand).spec_min_args(),
            CommandKind::List => (ListCommand).spec_min_args(),
            CommandKind::Help => (HelpCommand).spec_min_args(),
            CommandKind::Quit => (QuitCommand).spec_min_args(),
        }
    }

    open spec fn spec_max_args(&self) -> Option<nat> {
        match self {
            CommandKind::Add => (AddCommand).spec_max_args(),
            CommandKind::Get => (GetCommand).spec_max_args(),
            CommandKind::Remove => (RemoveCommand).spec_max_args(),
            CommandKind::List => (ListCommand).spec_max_args(),
            CommandKind::Help => (HelpCommand).spec_max_args(),
            CommandKind::Quit => (QuitCommand).spec_max_args(),
        }
    }

    open spec fn execute_spec(
        &self,
        args: Seq<Seq<char>>,
        prev: ShellContext,
        next: ShellContext,
        r: CommandResult,
    ) -> bool {
        match self {
            CommandKind::Add => add_execute_spec(args, prev, next, r),
            CommandKind::Get => get_execute_spec(args, prev, next, r),
            CommandKind::Remove => remove_execute_spec(args, prev, next, r),
            CommandKind::List => list_execute_spec(args, prev, next, r),
            CommandKind::Help => help_execute_spec(args, prev, next, r),
            CommandKind::Quit => quit_execute_spec(args, prev, next, r),
        }
    }

    open spec fn completions_spec(
        &self,
        arg_index: nat,
        partial: Seq<char>,
        ctx: ShellContext,
        out: Seq<Seq<char>>,
    ) -> bool {
        match self {
            CommandKind::Add => (AddCommand).completions_spec(arg_index, partial, ctx, out),
            CommandKind::Get => (GetCommand).completions_spec(arg_index, partial, ctx, out),
            CommandKind::Remove => (RemoveCommand).completions_spec(arg_index, partial, ctx, out),
            CommandKind::List => (ListCommand).completions_spec(arg_index, partial, ctx, out),
            CommandKind::Help => (HelpCommand).completions_spec(arg_index, partial, ctx, out),
            CommandKind::Quit => (QuitCommand).completions_spec(arg_index, partial, ctx, out),
        }
    }

    fn name(&self) -> (r: &str) {
        match self {
            CommandKind::Add => (AddCommand).name(),
            CommandKind::Get => (GetCommand).name(),
            CommandKind::Remove => (RemoveCommand).name(),
            CommandKind::List => (ListCommand).name(),
            CommandKind::Help => (HelpCommand).name(),
            CommandKind::Quit => (QuitCommand).name(),
        }
    }

    fn aliases(&self) -> (r: Vec<String>) {
        match self {
            CommandKind::Add => (AddCommand).aliases(),
            CommandKind::Get => (GetCommand).aliases(),
            CommandKind::Remove => (RemoveCommand).aliases(),
            CommandKind::List => (ListCommand).aliases(),
            CommandKind::Help => (HelpCommand).aliases(),
            CommandKind::Quit => (QuitCommand).aliases(),
        }
    }

    fn description(&self) -> (r: &str) {
        match self {
            CommandKind::Add => (AddCommand).description(),
            CommandKind::Get => (GetCommand).description(),
            CommandKind::Remove => (RemoveCommand).description(),
            CommandKind::List => (ListCommand).description(),
            CommandKind::Help => (HelpCommand).description(),
            CommandKind::Quit => (QuitCommand).description(),
        }
    }

    fn usage(&self) -> (r: &str) {
        match self {
            CommandKind::Add => (AddCommand).usage(),
            CommandKind::Get => (GetCommand).usage(),
            CommandKind::Remove => (RemoveCommand).usage(),
            CommandKind::List => (ListCommand).usage(),
            CommandKind::Help => (HelpCommand).usage(),
            CommandKind::Quit => (QuitCommand).usage(),
        }
    }

    fn help(&self) -> (r: &str) {
        match self {
            CommandKind::Add => (AddCommand).help(),
            CommandKind::Get => (GetCommand).help(),
            CommandKind::Remove => (RemoveCommand).help(),
            CommandKind::List => (ListCommand).help(),
            CommandKind::Help => (HelpCommand).help(),
            CommandKind::Quit => (QuitCommand).help(),
        }
    }

    fn execute(&self, args: &Vec<String>, ctx: &mut ShellContext) -> (r: CommandResult) {
        match self {
            CommandKind::Add => (AddCommand).execute(args, ctx),
            CommandKind::Get => (GetCommand).execute(args, ctx),
            CommandKind::Remove => (RemoveCommand).execute(args, ctx),
            CommandKind::List => (ListCommand).execute(args, ctx),
            CommandKind::Help => (HelpCommand).execute(args, ctx),
            CommandKind::Quit => (QuitCommand).execute(args, ctx),
        }
    }

    fn completions(&self, arg_index: usize, partial: &str, ctx: &ShellContext) -> (r: Vec<
        String,
    >) {
        match self {
            CommandKind::Add => (AddCommand).completions(arg_index, partial, ctx),
            CommandKind::Get => (GetCommand).completions(arg_index, partial, ctx),
            CommandKind::Remove => (RemoveCommand).completions(arg_index, partial, ctx),
            CommandKind::List => (ListCommand).completions(arg_index, partial, ctx),
            CommandKind::Help => (HelpCommand).completions(arg_index, partial, ctx),
            CommandKind::Quit => (QuitCommand).completions(arg_index, partial, ctx),
        }
    }

    fn min_args(&self) -> (r: usize) {
        match self {
            CommandKind::Add => (AddCommand).min_args(),
            CommandKind::Get => (GetCommand).min_args(),
            CommandKind::Remove => (RemoveCommand).min_args(),
            CommandKind::List => (ListCommand).min_args(),
            CommandKind::Help => (HelpCommand).min_args(),
            CommandKind::Quit => (QuitCommand).min_args(),
        }
    }

    fn max_args(&self) -> (r: Option<usize>) {
        match self {
            CommandKind::Add => (AddCommand).max_args(),
            CommandKind::Get => (GetCommand).max_args(),
            CommandKind::Remove => (RemoveCommand).max_args(),
            CommandKind::List => (ListCommand).max_args(),
            CommandKind::Help => (HelpCommand).max_args(),
            CommandKind::Quit => (QuitCommand).max_args(),
        }
    }
}

/// No command touches the registry the context carries.
pub proof fn lemma_execute_preserves_registry(
    cmd: CommandKind,
    args: Seq<Seq<char>>,
    prev: ShellContext,
    next: ShellContext,
    r: CommandResult,
)
    requires
        cmd.execute_spec(args, prev, next, r),
    ensures
        next.registry == prev.registry,
{
}

/// Distinct kinds carry distinct primary names.
pub proof fn lemma_kind_names_distinct(a: CommandKind, b: CommandKind)
    requires
        a != b,
    ensures
        a.kind_name() != b.kind_name(),
{
    reveal_strlit("add");
    reveal_strlit("get");
    reveal_strlit("remove");
    reveal_strlit("list");
    reveal_strlit("help");
    reveal_strlit("quit");
    assert("add"@[0] != "get"@[0]);
    assert("list"@[0] != "help"@[0]);
    assert("list"@[0] != "quit"@[0]);
    assert("help"@[0] != "quit"@[0]);
}

/// Re-registering a name that a sorted command list already carries replaces
/// its entry in place: the command count stays as it was.
pub proof fn lemma_register_existing_keeps_count(cmds: Seq<CommandKind>, c: CommandKind)
    requires
        forall|i: int, j: int|
            0 <= i < j < cmds.len() ==> crate::text::lex_lt(
                (#[trigger] cmds[i]).kind_name(),
                (#[trigger] cmds[j]).kind_name(),
            ),
        crate::shell::command::find_command(cmds, c.kind_name()) is Some,
    ensures
        crate::shell::command::register_spec(cmds, c).len() == cmds.len(),
    decreases cmds.len(),
{
    if cmds.len() == 0 {
    } else if cmds[0].kind_name() == c.kind_name() {
    } else {
        assert forall|i: int, j: int|
            0 <= i < j < cmds.skip(1).len() implies crate::text::lex_lt(
            (#[trigger] cmds.skip(1)[i]).kind_name(),
            (#[trigger] cmds.skip(1)[j]).kind_name(),
        ) by {
            assert(cmds.skip(1)[i] == cmds[i + 1] && cmds.skip(1)[j] == cmds[j + 1]);
        }
        assert(crate::shell::command::find_command(cmds.skip(1), c.kind_name()) is Some);
        // the match sits deeper, so the sorted order rules the insert branch out
        assert(!crate::text::lex_lt(c.kind_name(), cmds[0].kind_name())) by {
            crate::shell::command::lemma_find_command_none(cmds.skip(1), c.kind_name());
            let i = choose|i: int|
                0 <= i < cmds.skip(1).len() && (#[trigger] cmds.skip(1)[i]).kind_name()
                    == c.kind_name();
            assert(cmds.skip(1)[i] == cmds[i + 1]);
            assert(crate::text::lex_lt(cmds[0].kind_name(), cmds[i + 1].kind_name()));
            crate::text::lemma_lex_total(c.kind_name(), cmds[0].kind_name());
            if crate::text::lex_lt(c.kind_name(), cmds[0].kind_name()) {
                crate::text::lemma_lex_trans(
                    c.kind_name(),
                    cmds[0].kind_name(),
                    cmds[i + 1].kind_name(),
                );
                crate::text::lemma_lex_total(c.kind_name(), cmds[i + 1].kind_name());
            }
        }
        lemma_register_existing_keeps_count(cmds.skip(1), c);
    }
}

proof fn lemma_absent_from(cmds: Seq<CommandKind>, c: CommandKind)
    requires
        forall|i: int| 0 <= i < cmds.len() ==> (#[trigger] cmds[i]) != c,
    ensures
        crate::shell::command::find_command(cmds, c.kind_name()) is None,
{
    assert forall|i: int|
        0 <= i < cmds.len() implies (#[trigger] cmds[i]).kind_name() != c.kind_name() by {
        lemma_kind_names_distinct(cmds[i], c);
    }
    crate::shell::command::lemma_find_command_none(cmds, c.kind_name());
}

/// Registers all built-in commands with a fresh registry: afterwards the six
/// commands stand under their names, every alias resolves, and completion
/// knows all twenty words.
pub fn register_all(registry: &mut CommandRegistry)
    requires
        old(registry).wf(),
        old(registry).reg_commands() == Seq::<CommandKind>::empty(),
        old(registry).alias_pairs() == Seq::<(Seq<char>, Seq<char>)>::empty(),
        old(registry).known_names() == Set::<Seq<char>>::empty(),
    ensures
        final(registry).wf(),
        final(registry).reg_commands() == builtin_commands(),
        final(registry).reg_commands().len() == 6,
        final(registry).known_names() == builtin_names(),
        final(registry).alias_pairs() == builtin_alias_pairs(),
{
    proof {
        (CommandKind::Add).lemma_names_nonempty();
        (CommandKind::Get).lemma_names_nonempty();
        (CommandKind::Remove).lemma_names_nonempty();
        (CommandKind::List).lemma_names_nonempty();
        (CommandKind::Help).lemma_names_nonempty();
        (CommandKind::Quit).lemma_names_nonempty();
        reveal_strlit("add");
        reveal_strlit("get");
        reveal_strlit("remove");
        reveal_strlit("list");
        reveal_strlit("help");
        reveal_strlit("quit");
        lemma_kind_names_distinct(CommandKind::Add, CommandKind::Get);
        lemma_kind_names_distinct(CommandKind::Add, CommandKind::Remove);
        lemma_kind_names_distinct(CommandKind::Add, CommandKind::List);
        lemma_kind_names_distinct(CommandKind::Add, CommandKind::Help);
        lemma_kind_names_distinct(CommandKind::Add, CommandKind::Quit);
        lemma_kind_names_distinct(CommandKind::Get, CommandKind::Remove);
        lemma_kind_names_distinct(CommandKind::Get, CommandKind::List);
        lemma_kind_names_distinct(CommandKind::Get, CommandKind::Help);
        lemma_kind_names_distinct(CommandKind::Get, CommandKind::Quit);
        lemma_kind_names_distinct(CommandKind::Remove, CommandKind::List);
        lemma_kind_names_distinct(CommandKind::Remove, CommandKind::Help);
        lemma_kind_names_distinct(CommandKind::Remove, CommandKind::Quit);
        lemma_kind_names_distinct(CommandKind::List, CommandKind::Help);
        lemma_kind_names_distinct(CommandKind::List, CommandKind::Quit);
        lemma_kind_names_distinct(CommandKind::Help, CommandKind::Quit);
    }
    registry.register(CommandKind::Add);
    proof {
        reveal_with_fuel(crate::shell::command::register_spec, 7);
        assert(registry.reg_commands() =~= seq![CommandKind::Add]);
        lemma_absent_from(seq![CommandKind::Add], CommandKind::Get);
    }
    registry.register(CommandKind::Get);
    proof {
        reveal_with_fuel(crate::shell::command::register_spec, 7);
        assert(seq![CommandKind::Add].skip(1) =~= Seq::<CommandKind>::empty());
        assert(registry.reg_commands() =~= seq![CommandKind::Add, CommandKind::Get]);
        lemma_absent_from(seq![CommandKind::Add, CommandKind::Get], CommandKind::Remove);
    }
    registry.register(CommandKind::Remove);
    proof {
        reveal_with_fuel(crate::shell::command::register_spec, 7);
        let s2 = seq![CommandKind::Add, CommandKind::Get];
        assert(s2.skip(1) =~= seq![CommandKind::Get]);
        assert(seq![CommandKind::Get].skip(1) =~= Seq::<CommandKind>::empty());
        assert(registry.reg_commands() =~= seq![
            CommandKind::Add,
            CommandKind::Get,
            CommandKind::Remove,
        ]);
        lemma_absent_from(
            seq![CommandKind::Add, CommandKind::Get, CommandKind::Remove],
            CommandKind::List,
        );
    }
    registry.register(CommandKind::List);
    proof {
        reveal_with_fuel(crate::shell::command::register_spec, 7);
        let s3 = seq![CommandKind::Add, CommandKind::Get, CommandKind::Remove];
        assert(s3.skip(1) =~= seq![CommandKind::Get, CommandKind::Remove]);
        assert(seq![CommandKind::Get, CommandKind::Remove].skip(1) =~= seq![CommandKind::Remove]);
        assert(registry.reg_commands() =~= seq![
            CommandKind::Add,
            CommandKind::Get,
            CommandKind::List,
            CommandKind::Remove,
        ]);
        lemma_absent_from(
            seq![CommandKind::Add, CommandKind::Get, CommandKind::List, CommandKind::Remove],
            CommandKind::Help,
        );
    }
    registry.register(CommandKind::Help);
    proof {
        reveal_with_fuel(crate::shell::command::register_spec, 7);
        let s4 = seq![CommandKind::Add, CommandKind::Get, CommandKind::List, CommandKind::Remove];
        assert(s4.skip(1) =~= seq![CommandKind::Get, CommandKind::List, CommandKind::Remove]);
        assert(seq![CommandKind::Get, CommandKind::List, CommandKind::Remove].skip(1) =~= seq![
            CommandKind::List,
            CommandKind::Remove,
        ]);
        assert(registry.reg_commands() =~= seq![
            CommandKind::Add,
            CommandKind::Get,
            CommandKind::Help,
            CommandKind::List,
            CommandKind::Remove,
        ]);
        lemma_absent_from(
            seq![
                CommandKind::Add,
                CommandKind::Get,
                CommandKind::Help,
                CommandKind::List,
                CommandKind::Remove,
            ],
            CommandKind::Quit,
        );
    }
    registry.register(CommandKind::Quit);
}

/// The six built-in commands in their registry order.
pub open spec fn builtin_commands() -> Seq<CommandKind> {
    crate::shell::command::register_spec(
        crate::shell::command::register_spec(
            crate::shell::command::register_spec(
                crate::shell::command::register_spec(
                    crate::shell::command::register_spec(
                        crate::shell::command::register_spec(
                            Seq::<CommandKind>::empty(),
                            CommandKind::Add,
                        ),
                        CommandKind::Get,
                    ),
                    CommandKind::Remove,
                ),
                CommandKind::List,
            ),
            CommandKind::Help,
        ),
        CommandKind::Quit,
    )
}

/// The six primary names and their fourteen aliases, as completion knows
/// them.
pub open spec fn builtin_names() -> Set<Seq<char>> {
    Set::<Seq<char>>::empty().insert(CommandKind::Add.kind_name()).union(
        CommandKind::Add.kind_aliases().to_set(),
    ).insert(CommandKind::Get.kind_name()).union(
        CommandKind::Get.kind_aliases().to_set(),
    ).insert(CommandKind::Remove.kind_name()).union(
        CommandKind::Remove.kind_aliases().to_set(),
    ).insert(CommandKind::List.kind_name()).union(
        CommandKind::List.kind_aliases().to_set(),
    ).insert(CommandKind::Help.kind_name()).union(
        CommandKind::Help.kind_aliases().to_set(),
    ).insert(CommandKind::Quit.kind_name()).union(CommandKind::Quit.kind_aliases().to_set())
}

/// The fourteen alias-to-name pairs, in registration order.
pub open spec fn builtin_alias_pairs() -> Seq<(Seq<char>, Seq<char>)> {
    Seq::<(Seq<char>, Seq<char>)>::empty() + Seq::new(
        CommandKind::Add.kind_aliases().len(),
        |k: int| (CommandKind::Add.kind_aliases()[k], CommandKind::Add.kind_name()),
    ) + Seq::new(
        CommandKind::Get.kind_aliases().len(),
        |k: int| (CommandKind::Get.kind_aliases()[k], CommandKind::Get.kind_name()),
    ) + Seq::new(
        CommandKind::Remove.kind_aliases().len(),
        |k: int| (CommandKind::Remove.kind_aliases()[k], CommandKind::Remove.kind_name()),
    ) + Seq::new(
        CommandKind::List.kind_aliases().len(),
        |k: int| (CommandKind::List.kind_aliases()[k], CommandKind::List.kind_name()),
    ) + Seq::new(
        CommandKind::Help.kind_aliases().len(),
        |k: int| (CommandKind::Help.kind_aliases()[k], CommandKind::Help.kind_name()),
    ) + Seq::new(
        CommandKind::Quit.kind_aliases().len(),
        |k: int| (CommandKind::Quit.kind_aliases()[k], CommandKind::Quit.kind_name()),
    )
}

} // verus!
