//! Inline hints for the shell: complete a half-typed command name when only
//! one completion fits, or show the arguments a command still needs.

use vstd::prelude::*;

use crate::shell::command::{completion_list, Command, CommandRegistry};
use crate::text::{
    join_spec, join_strings, lemma_deep_view_strings, split_ws, str_starts_with, trim, trim_spec,
    ws_tokens,
};

verus! {

/// What the hinter suggests for a line: the rest of the unique command-name
/// completion while the first word is being typed, or the missing arguments
/// from the resolved command's usage line.
pub open spec fn hint_spec(reg: CommandRegistry, line: Seq<char>, r: Option<Seq<char>>) -> bool {
    let trailing = line.len() > 0 && line.last() == ' ';
    let t = trim_spec(line);
    if t.len() == 0 {
        r is None
    } else {
        let parts = ws_tokens(t);
        if parts.len() == 0 {
            r is None
        } else {
            let command = parts[0];
            if parts.len() == 1 && !trailing {
                exists|cs: Seq<Seq<char>>|
                    #[trigger] completion_list(reg.known_names(), command, cs) && if cs.len() == 1
                        && command.is_prefix_of(cs[0]) && cs[0] != command {
                        r == Some(cs[0].skip(command.len() as int))
                    } else {
                        r is None
                    }
            } else {
                match reg.resolve_spec(command) {
                    Some(cmd) => {
                        let arg_count = parts.len() - 1;
                        if arg_count < cmd.spec_min_args() && cmd.kind_name().is_prefix_of(
                            cmd.spec_usage(),
                        ) {
                            let args_part = trim_spec(
                                cmd.spec_usage().skip(cmd.kind_name().len() as int),
                            );
                            let hint_parts = ws_tokens(args_part);
                            if args_part.len() > 0 && arg_count < hint_parts.len() {
                                r == Some(
                                    " "@ + join_spec(hint_parts.skip(arg_count as int), " "@),
                                )
                            } else {
                                r is None
                            }
                        } else {
                            r is None
                        }
                    },
                    None => r is None,
                }
            }
        }
    }
}

/// Hinter that suggests completions and usage as the user types.
pub struct PassmgrHinter {
    /// Registry of available commands.
    registry: CommandRegistry,
}

impl PassmgrHinter {
    pub closed spec fn spec_registry(&self) -> CommandRegistry {
        self.registry
    }

    pub open spec fn wf(&self) -> bool {
        self.spec_registry().wf()
    }

    /// Creates a new hinter over a registry.
    pub fn new(registry: CommandRegistry) -> (r: PassmgrHinter)
        ensures
            r.spec_registry() == registry,
    {
        PassmgrHinter { registry }
    }

    /// Gets a hint for the current input.
    pub fn get_hint(&self, line: &str) -> (r: Option<String>)
        requires
            self.wf(),
        ensures
            match r {
                Some(h) => hint_spec(self.spec_registry(), line@, Some(h@)),
                None => hint_spec(self.spec_registry(), line@, None::<Seq<char>>),
            },
    {
        let has_trailing_space = line.unicode_len() > 0 && line.get_char(
            line.unicode_len() - 1,
        ) == ' ';
        let trimmed = trim(line);
        if trimmed.as_str().unicode_len() == 0 {
            return None;
        }
        let parts = split_ws(trimmed.as_str());
        proof {
            lemma_deep_view_strings(parts);
        }
        if parts.len() == 0 {
            return None;
        }
        let command = &parts[0];
        if parts.len() == 1 && !has_trailing_space {
            let completions = self.registry.completions(command.as_str());
            proof {
                lemma_deep_view_strings(completions);
            }
            if completions.len() == 1 {
                let completion = &completions[0];
                if str_starts_with(completion.as_str(), command.as_str()) && !crate::text::str_eq(
                    completion.as_str(),
                    command.as_str(),
                ) {
                    let suffix = completion.as_str().substring_char(
                        command.as_str().unicode_len(),
                        completion.as_str().unicode_len(),
                    );
                    let mut hint = String::new();
                    hint.append(suffix);
                    return Some(hint);
                }
            }
            return None;
        }
        match self.registry.get(command.as_str()) {
            Some(cmd) => {
                let arg_count = parts.len() - 1;
                let min_args = cmd.min_args();
                if arg_count < min_args {
                    let usage = cmd.usage();
                    let cmd_name = cmd.name();
                    if str_starts_with(usage, cmd_name) {
                        let args_part_raw = usage.substring_char(
                            cmd_name.unicode_len(),
                            usage.unicode_len(),
                        );
                        let args_part = trim(args_part_raw);
                        if args_part.as_str().unicode_len() > 0 {
                            let hint_parts = split_ws(args_part.as_str());
                            proof {
                                lemma_deep_view_strings(hint_parts);
                            }
                            if arg_count < hint_parts.len() {
                                let mut remaining: Vec<String> = Vec::new();
                                let total = hint_parts.len();
                                let mut k: usize = arg_count;
                                while k < total
                                    invariant
                                        arg_count <= k <= total,
                                        total == hint_parts@.len(),
                                        remaining@.len() == k - arg_count,
                                        forall|j: int|
                                            0 <= j < k - arg_count ==> (#[trigger] remaining@[j])@
                                                == hint_parts@[arg_count + j]@,
                                    decreases total - k,
                                {
                                    remaining.push(hint_parts[k].clone());
                                    k = k + 1;
                                }
                                proof {
                                    lemma_deep_view_strings(remaining);
                                    lemma_deep_view_strings(hint_parts);
                                    assert(remaining.deep_view() =~= hint_parts.deep_view().skip(
                                        arg_count as int,
                                    ));
                                }
                                let joined = join_strings(&remaining, " ");
                                let mut hint = String::new();
                                hint.append(" ");
                                hint.append(joined.as_str());
                                proof {
                                    assert(hint@ =~= " "@ + joined@);
                                }
                                return Some(hint);
                            }
                        }
                    }
                }
                None
            },
            None => None,
        }
    }
}

} // verus!
