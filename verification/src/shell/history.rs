//! Command history policy: which lines are worth keeping, and the limits for
//! the persistent history file. Reading and writing that file is the
//! surrounding program's business.

use vstd::prelude::*;

use crate::text::{is_wschar, trim, trim_spec};

verus! {

/// Configuration for command history.
#[derive(Debug)]
pub struct HistoryConfig {
    /// Path to the history file.
    pub path: String,
    /// Maximum number of entries to keep.
    pub max_entries: usize,
    /// Whether to ignore duplicate consecutive entries.
    pub ignore_dups: bool,
    /// Whether to ignore entries starting with whitespace.
    pub ignore_space: bool,
}

pub const DEFAULT_HISTORY_MAX_ENTRIES: usize = 1000;

impl HistoryConfig {
    /// Creates a history config with the given path and default limits.
    pub fn new(path: String) -> (r: HistoryConfig)
        ensures
            r.path == path,
            r.max_entries == DEFAULT_HISTORY_MAX_ENTRIES,
            r.ignore_dups,
            r.ignore_space,
    {
        HistoryConfig {
            path,
            max_entries: DEFAULT_HISTORY_MAX_ENTRIES,
            ignore_dups: true,
            ignore_space: true,
        }
    }

    /// Sets the maximum number of entries.
    pub fn with_max_entries(self, max: usize) -> (r: HistoryConfig)
        ensures
            r == (HistoryConfig { max_entries: max, ..self }),
    {
        HistoryConfig { max_entries: max, ..self }
    }

    /// Sets whether to ignore duplicate consecutive entries.
    pub fn with_ignore_dups(self, ignore: bool) -> (r: HistoryConfig)
        ensures
            r == (HistoryConfig { ignore_dups: ignore, ..self }),
    {
        HistoryConfig { ignore_dups: ignore, ..self }
    }

    /// Sets whether to ignore entries starting with whitespace.
    pub fn with_ignore_space(self, ignore: bool) -> (r: HistoryConfig)
        ensures
            r == (HistoryConfig { ignore_space: ignore, ..self }),
    {
        HistoryConfig { ignore_space: ignore, ..self }
    }
}

impl Default for HistoryConfig {
    /// The default history policy: file `history`, a thousand entries,
    /// consecutive duplicates and whitespace-led lines dropped.
    fn default() -> (r: HistoryConfig)
        ensures
            r.path@ == "history"@,
            r.max_entries == DEFAULT_HISTORY_MAX_ENTRIES,
            r.ignore_dups,
            r.ignore_space,
    {
        let mut path = String::new();
        path.append("history");
        HistoryConfig {
            path,
            max_entries: DEFAULT_HISTORY_MAX_ENTRIES,
            ignore_dups: true,
            ignore_space: true,
        }
    }
}

/// Whether a line, trimmed to `t`, should enter the history under `dups` and
/// `space` filtering, given the previous entry.
pub open spec fn should_add_spec(
    ignore_dups: bool,
    ignore_space: bool,
    last: Option<Seq<char>>,
    entry: Seq<char>,
) -> bool {
    let t = trim_spec(entry);
    &&& t.len() > 0
    &&& !(ignore_space && is_wschar(t[0]))
    &&& !(ignore_dups && last == Some(t))
}

/// Decides what to add to history, remembering the last accepted entry.
pub struct HistoryFilter {
    config: HistoryConfig,
    last_entry: Option<String>,
}

impl HistoryFilter {
    /// The last entry that was accepted, if any.
    pub closed spec fn last(&self) -> Option<Seq<char>> {
        match self.last_entry {
            Some(s) => Some(s@),
            None => None,
        }
    }

    pub closed spec fn spec_config(&self) -> HistoryConfig {
        self.config
    }

    /// Creates a new filter with the given config.
    pub fn new(config: HistoryConfig) -> (r: HistoryFilter)
        ensures
            r.spec_config() == config,
            r.last() is None,
    {
        HistoryFilter { config, last_entry: None }
    }

    /// Determines if an entry should be added to history; an accepted entry
    /// becomes the one that duplicate filtering compares against.
    pub fn should_add(&mut self, entry: &str) -> (r: bool)
        ensures
            r == should_add_spec(
                old(self).spec_config().ignore_dups,
                old(self).spec_config().ignore_space,
                old(self).last(),
                entry@,
            ),
            final(self).spec_config() == old(self).spec_config(),
            final(self).last() == if r {
                Some(trim_spec(entry@))
            } else {
                old(self).last()
            },
    {
        let t = trim(entry);
        if t.as_str().unicode_len() == 0 {
            return false;
        }
        if self.config.ignore_space {
            let first = t.as_str().get_char(0);
            if crate::text::char_is_ws(first) {
                return false;
            }
        }
        if self.config.ignore_dups {
            match &self.last_entry {
                Some(last) => {
                    proof {
                        assert(old(self).last() == Some(last@));
                    }
                    if crate::text::str_eq(last.as_str(), t.as_str()) {
                        proof {
                            assert(last@ == t@);
                            assert(old(self).last() == Some(trim_spec(entry@)));
                        }
                        return false;
                    }
                    proof {
                        assert(old(self).last() != Some(trim_spec(entry@)));
                    }
                },
                None => {},
            }
        }
        self.last_entry = Some(t);
        true
    }

    /// Resets the filter state.
    pub fn reset(&mut self)
        ensures
            final(self).spec_config() == old(self).spec_config(),
            final(self).last() is None,
    {
        self.last_entry = None;
    }
}

} // verus!
