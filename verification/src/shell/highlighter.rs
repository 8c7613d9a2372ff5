//! Coloring for shell input and output: the command in cyan when it resolves
//! and red when it does not, key names in magenta, secrets dimmed.

use vstd::prelude::*;

use crate::shell::command::CommandRegistry;
use crate::text::{
    is_wschar, lead_ws, lemma_lead_ws_bounds, lemma_lead_ws_exact, lemma_token_len_bounds,
    lemma_token_len_exact, str_eq, str_to_chars, token_len, trim_spec,
};

verus! {

pub const RESET: &'static str = "\u{1b}[0m";

pub const BOLD: &'static str = "\u{1b}[1m";

pub const DIM: &'static str = "\u{1b}[2m";

pub const RED: &'static str = "\u{1b}[31m";

pub const GREEN: &'static str = "\u{1b}[32m";

pub const YELLOW: &'static str = "\u{1b}[33m";

pub const BLUE: &'static str = "\u{1b}[34m";

pub const MAGENTA: &'static str = "\u{1b}[35m";

pub const CYAN: &'static str = "\u{1b}[36m";

pub const WHITE: &'static str = "\u{1b}[37m";

pub const BRIGHT_RED: &'static str = "\u{1b}[91m";

pub const BRIGHT_GREEN: &'static str = "\u{1b}[92m";

pub const BRIGHT_CYAN: &'static str = "\u{1b}[96m";

/// The color an argument of a command gets: key names magenta, secrets
/// dimmed, help topics yellow, everything else white.
pub open spec fn arg_color(command: Seq<char>, i: int) -> Seq<char> {
    if command == "add"@ || command == "a"@ || command == "new"@ || command == "set"@ {
        if i == 0 {
            "\u{1b}[35m"@
        } else {
            "\u{1b}[2m"@
        }
    } else if command == "get"@ || command == "g"@ || command == "show"@ || command == "remove"@
        || command == "rm"@ || command == "delete"@ || command == "del"@ {
        "\u{1b}[35m"@
    } else if command == "help"@ || command == "h"@ || command == "?"@ {
        "\u{1b}[33m"@
    } else {
        "\u{1b}[37m"@
    }
}

/// The argument text recolored run by run: whitespace kept as it is, the
/// `i`-th argument wrapped in its color and a reset.
pub open spec fn highlight_args_spec(command: Seq<char>, s: Seq<char>, i: int) -> Seq<char>
    decreases s.len(),
    via highlight_args_spec_decreases
{
    if s.len() == 0 {
        Seq::empty()
    } else if is_wschar(s[0]) {
        s.subrange(0, lead_ws(s) as int) + highlight_args_spec(
            command,
            s.skip(lead_ws(s) as int),
            i,
        )
    } else {
        arg_color(command, i) + s.subrange(0, token_len(s) as int) + "\u{1b}[0m"@
            + highlight_args_spec(command, s.skip(token_len(s) as int), i + 1)
    }
}

#[via_fn]
proof fn highlight_args_spec_decreases(command: Seq<char>, s: Seq<char>, i: int) {
    lemma_lead_ws_bounds(s);
    lemma_token_len_bounds(s);
}

/// What highlighting a line yields: a blank line unchanged; otherwise the
/// leading whitespace, the command bold cyan when the registry resolves it
/// and red when not, and the arguments recolored by position.
pub open spec fn highlight_line_spec(reg: CommandRegistry, line: Seq<char>, r: Seq<char>) -> bool {
    if trim_spec(line).len() == 0 {
        r == line
    } else {
        let lead = lead_ws(line) as int;
        let cmd_len = token_len(line.skip(lead)) as int;
        let command = line.subrange(lead, lead + cmd_len);
        let rest = line.skip(lead + cmd_len);
        let colored = if reg.resolve_spec(command) is Some {
            "\u{1b}[1m"@ + "\u{1b}[36m"@ + command + "\u{1b}[0m"@
        } else {
            "\u{1b}[31m"@ + command + "\u{1b}[0m"@
        };
        r == line.subrange(0, lead) + colored + highlight_args_spec(command, rest, 0)
    }
}

/// Highlighter for shell input with syntax coloring.
pub struct PassmgrHighlighter {
    /// Registry to check for valid commands.
    registry: CommandRegistry,
}

impl PassmgrHighlighter {
    pub closed spec fn spec_registry(&self) -> CommandRegistry {
        self.registry
    }

    pub open spec fn wf(&self) -> bool {
        self.spec_registry().wf()
    }

    /// Creates a new highlighter over a registry.
    pub fn new(registry: CommandRegistry) -> (r: PassmgrHighlighter)
        ensures
            r.spec_registry() == registry,
    {
        PassmgrHighlighter { registry }
    }

    /// Highlights a line of input.
    pub fn highlight_line(&self, line: &str) -> (r: String)
        requires
            self.wf(),
        ensures
            highlight_line_spec(self.spec_registry(), line@, r@),
    {
        let chars = str_to_chars(line);
        let n = chars.len();
        // leading whitespace
        let mut lead: usize = 0;
        while lead < n && crate::text::char_is_ws(chars[lead])
            invariant
                lead <= n,
                n == chars@.len(),
                chars@ == line@,
                forall|k: int| 0 <= k < lead ==> is_wschar(#[trigger] line@[k]),
            decreases n - lead,
        {
            lead = lead + 1;
        }
        if lead == n {
            proof {
                assert(trim_spec(line@).len() == 0) by {
                    crate::text::lemma_lead_ws_exact(line@, n as int);
                }
            }
            let mut r = String::new();
            r.append(line);
            return r;
        }
        proof {
            lemma_lead_ws_exact(line@, lead as int);
            assert(trim_spec(line@).len() > 0) by {
                crate::text::lemma_trail_ws_bounds(line@);
                if line@.len() - crate::text::trail_ws(line@) <= lead as int {
                    assert(is_wschar(line@[lead as int]));
                }
            }
        }
        // the command token
        let mut cmd_end: usize = lead;
        while cmd_end < n && !crate::text::char_is_ws(chars[cmd_end])
            invariant
                lead <= cmd_end <= n,
                n == chars@.len(),
                chars@ == line@,
                forall|k: int| lead <= k < cmd_end ==> !is_wschar(#[trigger] line@[k]),
            decreases n - cmd_end,
        {
            cmd_end = cmd_end + 1;
        }
        proof {
            let suf = line@.skip(lead as int);
            assert forall|k: int| 0 <= k < cmd_end - lead implies !is_wschar(
                #[trigger] suf[k],
            ) by {
                assert(suf[k] == line@[lead + k]);
            }
            if cmd_end < n {
                assert(suf[cmd_end - lead] == line@[cmd_end as int]);
            }
            lemma_token_len_exact(suf, cmd_end - lead as int);
        }
        let command = crate::text::chars_to_string(
            vstd::slice::slice_subrange(chars.as_slice(), lead, cmd_end),
        );
        let mut r = crate::text::chars_to_string(
            vstd::slice::slice_subrange(chars.as_slice(), 0, lead),
        );
        let is_valid = match self.registry.get(command.as_str()) {
            Some(_) => true,
            None => false,
        };
        if is_valid {
            r.append(BOLD);
            r.append(CYAN);
            r.append(command.as_str());
            r.append(RESET);
        } else {
            r.append(RED);
            r.append(command.as_str());
            r.append(RESET);
        }
        let rest = crate::text::chars_to_string(
            vstd::slice::slice_subrange(chars.as_slice(), cmd_end, n),
        );
        proof {
            assert(rest@ =~= line@.skip(lead as int + (cmd_end - lead as int)));
        }
        let colored_args = self.highlight_arguments(command.as_str(), rest.as_str());
        r.append(colored_args.as_str());
        proof {
            assert(r@ =~= line@.subrange(0, lead as int) + (if self.spec_registry().resolve_spec(
                command@,
            ) is Some {
                "\u{1b}[1m"@ + "\u{1b}[36m"@ + command@ + "\u{1b}[0m"@
            } else {
                "\u{1b}[31m"@ + command@ + "\u{1b}[0m"@
            }) + highlight_args_spec(command@, line@.skip(lead as int + (cmd_end - lead as int)), 0));
        }
        r
    }

    /// Highlights command arguments, keeping the spacing.
    pub fn highlight_arguments(&self, command: &str, args_str: &str) -> (r: String)
        ensures
            r@ == highlight_args_spec(command@, args_str@, 0),
    {
        let chars = str_to_chars(args_str);
        let n = chars.len();
        let mut r = String::new();
        let mut i: usize = 0;
        let mut argi: usize = 0;
        proof {
            assert(args_str@.skip(0) =~= args_str@);
        }
        while i < n
            invariant
                i <= n,
                n == chars@.len(),
                chars@ == args_str@,
                r@ + highlight_args_spec(command@, args_str@.skip(i as int), argi as int)
                    =~= highlight_args_spec(command@, args_str@, 0),
                argi <= i,
            decreases n - i,
        {
            let s0 = chars[i];
            if crate::text::char_is_ws(s0) {
                let start = i;
                let mut j = i + 1;
                while j < n && crate::text::char_is_ws(chars[j])
                    invariant
                        start < j <= n,
                        n == chars@.len(),
                        chars@ == args_str@,
                        forall|k: int| start <= k < j ==> is_wschar(#[trigger] args_str@[k]),
                    decreases n - j,
                {
                    j = j + 1;
                }
                proof {
                    let suf = args_str@.skip(start as int);
                    assert forall|k: int| 0 <= k < j - start implies is_wschar(
                        #[trigger] suf[k],
                    ) by {
                        assert(suf[k] == args_str@[start + k]);
                    }
                    if j < n {
                        assert(suf[j - start] == args_str@[j as int]);
                    }
                    lemma_lead_ws_exact(suf, j - start as int);
                    assert(suf.subrange(0, j - start as int) =~= args_str@.subrange(
                        start as int,
                        j as int,
                    ));
                    assert(suf.skip(j - start as int) =~= args_str@.skip(j as int));
                }
                let run = crate::text::chars_to_string(
                    vstd::slice::slice_subrange(chars.as_slice(), start, j),
                );
                r.append(run.as_str());
                proof {
                    assert(r@ + highlight_args_spec(command@, args_str@.skip(j as int), argi as int)
                        =~= highlight_args_spec(command@, args_str@, 0));
                }
                i = j;
            } else {
                let start = i;
                let mut j = i + 1;
                while j < n && !crate::text::char_is_ws(chars[j])
                    invariant
                        start < j <= n,
                        n == chars@.len(),
                        chars@ == args_str@,
                        forall|k: int| start <= k < j ==> !is_wschar(#[trigger] args_str@[k]),
                    decreases n - j,
                {
                    j = j + 1;
                }
                proof {
                    let suf = args_str@.skip(start as int);
                    assert forall|k: int| 0 <= k < j - start implies !is_wschar(
                        #[trigger] suf[k],
                    ) by {
                        assert(suf[k] == args_str@[start + k]);
                    }
                    if j < n {
                        assert(suf[j - start] == args_str@[j as int]);
                    }
                    lemma_token_len_exact(suf, j - start as int);
                    assert(suf.subrange(0, j - start as int) =~= args_str@.subrange(
                        start as int,
                        j as int,
                    ));
                    assert(suf.skip(j - start as int) =~= args_str@.skip(j as int));
                }
                let color = self.pick_color(command, argi);
                r.append(color);
                let token = crate::text::chars_to_string(
                    vstd::slice::slice_subrange(chars.as_slice(), start, j),
                );
                r.append(token.as_str());
                r.append(RESET);
                proof {
                    assert(r@ + highlight_args_spec(
                        command@,
                        args_str@.skip(j as int),
                        argi as int + 1,
                    ) =~= highlight_args_spec(command@, args_str@, 0));
                }
                i = j;
                argi = argi + 1;
            }
        }
        proof {
            assert(highlight_args_spec(command@, args_str@.skip(n as int), argi as int)
                =~= Seq::<char>::empty());
            assert(r@ =~= highlight_args_spec(command@, args_str@, 0));
        }
        r
    }

    fn pick_color(&self, command: &str, argi: usize) -> (r: &'static str)
        ensures
            r@ == arg_color(command@, argi as int),
    {
        if str_eq(command, "add") || str_eq(command, "a") || str_eq(command, "new") || str_eq(
            command,
            "set",
        ) {
            if argi == 0 {
                MAGENTA
            } else {
                DIM
            }
        } else if str_eq(command, "get") || str_eq(command, "g") || str_eq(command, "show")
            || str_eq(command, "remove") || str_eq(command, "rm") || str_eq(command, "delete")
            || str_eq(command, "del") {
            MAGENTA
        } else if str_eq(command, "help") || str_eq(command, "h") || str_eq(command, "?") {
            YELLOW
        } else {
            WHITE
        }
    }
}

/// Colors for result lines printed by the surrounding program.
pub struct OutputHighlighter;

impl OutputHighlighter {
    /// Formats a success message.
    pub fn success(msg: &str) -> (r: String)
        ensures
            r@ == "\u{1b}[32m"@ + msg@ + "\u{1b}[0m"@,
    {
        wrap_color(GREEN, msg)
    }

    /// Formats an error message.
    pub fn error(msg: &str) -> (r: String)
        ensures
            r@ == "\u{1b}[91m"@ + msg@ + "\u{1b}[0m"@,
    {
        wrap_color(BRIGHT_RED, msg)
    }

    /// Formats a warning message.
    pub fn warning(msg: &str) -> (r: String)
        ensures
            r@ == "\u{1b}[33m"@ + msg@ + "\u{1b}[0m"@,
    {
        wrap_color(YELLOW, msg)
    }

    /// Formats a key/credential name.
    pub fn key(name: &str) -> (r: String)
        ensures
            r@ == "\u{1b}[35m"@ + name@ + "\u{1b}[0m"@,
    {
        wrap_color(MAGENTA, name)
    }

    /// Formats a secret, dimmed for less visibility.
    pub fn secret(secret: &str) -> (r: String)
        ensures
            r@ == "\u{1b}[2m"@ + secret@ + "\u{1b}[0m"@,
    {
        wrap_color(DIM, secret)
    }

    /// Formats a command name.
    pub fn command(cmd: &str) -> (r: String)
        ensures
            r@ == "\u{1b}[1m"@ + "\u{1b}[36m"@ + cmd@ + "\u{1b}[0m"@,
    {
        let mut r = String::new();
        r.append(BOLD);
        r.append(CYAN);
        r.append(cmd);
        r.append(RESET);
        r
    }

    /// Formats informational text.
    pub fn info(msg: &str) -> (r: String)
        ensures
            r@ == "\u{1b}[34m"@ + msg@ + "\u{1b}[0m"@,
    {
        wrap_color(BLUE, msg)
    }
}

fn wrap_color(color: &str, msg: &str) -> (r: String)
    ensures
        r@ == color@ + msg@ + "\u{1b}[0m"@,
{
    let mut r = String::new();
    r.append(color);
    r.append(msg);
    r.append(RESET);
    r
}

} // verus!
