//! Completion logic for the shell: decides whether the cursor stands in a
//! command name or in an argument, and which completions fit there.

use vstd::prelude::*;

use crate::shell::command::{completion_list, CommandRegistry};
use crate::text::{is_wschar, lemma_deep_view_strings, split_ws, ws_tokens};
use crate::trie::Trie;

verus! {

/// Context for completion: is a command or an argument being completed?
pub enum CompletionContext {
    Command { partial: String },
    Argument { command: String, arg_index: usize, partial: String },
}

/// What `parse_context` decides for a line and a cursor position: with the
/// cursor in the first word, the command name is being completed; after it,
/// an argument, counted from the word boundaries before the cursor.
pub open spec fn parse_context_spec(line: Seq<char>, pos: int, r: CompletionContext) -> bool {
    let upto = line.subrange(0, pos);
    let parts = ws_tokens(upto);
    let ends_space = upto.len() > 0 && upto.last() == ' ';
    if parts.len() == 0 {
        r matches CompletionContext::Command { partial } && partial@ == Seq::<char>::empty()
    } else if parts.len() == 1 && !ends_space {
        r matches CompletionContext::Command { partial } && partial@ == parts[0]
    } else {
        let want_index = if ends_space {
            parts.len() - 1
        } else {
            parts.len() - 2
        };
        let want_partial = if ends_space {
            Seq::<char>::empty()
        } else {
            parts.last()
        };
        r matches CompletionContext::Argument { command, arg_index, partial } && command@
            == parts[0] && arg_index == want_index && partial@ == want_partial
    }
}

/// Completer that handles both command and argument completion.
pub struct PassmgrCompleter {
    /// Registry of available commands.
    registry: CommandRegistry,
    /// Trie of credential names.
    key_trie: Trie,
}

impl PassmgrCompleter {
    pub closed spec fn spec_registry(&self) -> CommandRegistry {
        self.registry
    }

    pub closed spec fn spec_key_trie(&self) -> Trie {
        self.key_trie
    }

    pub open spec fn wf(&self) -> bool {
        self.spec_registry().wf() && self.spec_key_trie().wf()
    }

    /// Creates a new completer over a registry and a credential-name index.
    pub fn new(registry: CommandRegistry, key_trie: Trie) -> (r: PassmgrCompleter)
        ensures
            r.spec_registry() == registry,
            r.spec_key_trie() == key_trie,
    {
        PassmgrCompleter { registry, key_trie }
    }

    /// Command-name completions for a partial word.
    pub fn complete_command(&self, partial: &str) -> (r: Vec<String>)
        requires
            self.wf(),
        ensures
            completion_list(self.spec_registry().known_names(), partial@, r.deep_view()),
    {
        self.registry.completions(partial)
    }

    /// Credential-name completions for a partial word.
    pub fn complete_key(&self, partial: &str) -> (r: Vec<String>)
        requires
            self.wf(),
        ensures
            completion_list(self.spec_key_trie()@, partial@, r.deep_view()),
    {
        let out = self.key_trie.completions(partial);
        proof {
            lemma_deep_view_strings(out);
            assert forall|w: Seq<char>|
                self.key_trie@.contains(w) && partial@.is_prefix_of(w) implies exists|k: int|
                0 <= k < out.deep_view().len() && (#[trigger] out.deep_view()[k]) == w by {
                let k = choose|k: int| 0 <= k < out@.len() && (#[trigger] out@[k])@ == w;
                assert(out.deep_view()[k] == w);
            }
        }
        out
    }

    /// Parses the input up to the cursor to determine completion context; the
    /// position counts characters.
    pub fn parse_context(&self, line: &str, pos: usize) -> (r: CompletionContext)
        requires
            pos <= line@.len(),
        ensures
            parse_context_spec(line@, pos as int, r),
    {
        let upto = line.substring_char(0, pos);
        let parts = split_ws(upto);
        proof {
            lemma_deep_view_strings(parts);
        }
        if parts.len() == 0 {
            return CompletionContext::Command { partial: String::new() };
        }
        let ends_space = pos > 0 && upto.get_char(pos - 1) == ' ';
        if parts.len() == 1 && !ends_space {
            return CompletionContext::Command { partial: parts[0].clone() };
        }
        let arg_index = if ends_space {
            parts.len() - 1
        } else {
            parts.len() - 2
        };
        let partial = if ends_space {
            String::new()
        } else {
            parts[parts.len() - 1].clone()
        };
        CompletionContext::Argument { command: parts[0].clone(), arg_index, partial }
    }
}

} // verus!
