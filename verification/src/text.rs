//! Character and string helpers shared by the shell-facing modules: whitespace
//! classification, tokenization, trimming, and code-point-order comparison.

use vstd::prelude::*;

verus! {

/// The Unicode `White_Space` characters, the set that `str::split_whitespace`
/// and `str::trim` treat as separators.
pub open spec fn is_wschar(c: char) -> bool {
    ||| c == ' '
    ||| c == '\t'
    ||| c == '\n'
    ||| c == '\u{0b}'
    ||| c == '\u{0c}'
    ||| c == '\r'
    ||| c == '\u{85}'
    ||| c == '\u{a0}'
    ||| c == '\u{1680}'
    ||| ('\u{2000}' <= c && c <= '\u{200a}')
    ||| c == '\u{2028}'
    ||| c == '\u{2029}'
    ||| c == '\u{202f}'
    ||| c == '\u{205f}'
    ||| c == '\u{3000}'
}

pub fn char_is_ws(c: char) -> (r: bool)
    ensures
        r == is_wschar(c),
{
    c == ' ' || c == '\t' || c == '\n' || c == '\u{0b}' || c == '\u{0c}' || c == '\r'
        || c == '\u{85}' || c == '\u{a0}' || c == '\u{1680}'
        || ('\u{2000}' <= c && c <= '\u{200a}') || c == '\u{2028}' || c == '\u{2029}'
        || c == '\u{202f}' || c == '\u{205f}' || c == '\u{3000}'
}

/// Relies on `String::push`: appends exactly one character to the string.
#[verifier::external_body]
pub fn push_char(s: &mut String, c: char)
    ensures
        final(s)@ == old(s)@.push(c),
{
    s.push(c)
}

pub fn str_to_chars(s: &str) -> (r: Vec<char>)
    ensures
        r@ == s@,
{
    let n = s.unicode_len();
    let mut r: Vec<char> = Vec::new();
    let mut i: usize = 0;
    while i < n
        invariant
            i <= n,
            n == s@.len(),
            r@ == s@.subrange(0, i as int),
        decreases n - i,
    {
        r.push(s.get_char(i));
        i = i + 1;
        proof {
            assert(r@ =~= s@.subrange(0, i as int));
        }
    }
    proof {
        assert(r@ =~= s@);
    }
    r
}

pub fn chars_to_string(v: &[char]) -> (r: String)
    ensures
        r@ == v@,
{
    let mut r = String::new();
    let mut i: usize = 0;
    while i < v.len()
        invariant
            i <= v@.len(),
            r@ == v@.subrange(0, i as int),
        decreases v@.len() - i,
    {
        push_char(&mut r, v[i]);
        i = i + 1;
        proof {
            assert(r@ =~= v@.subrange(0, i as int));
        }
    }
    proof {
        assert(r@ =~= v@);
    }
    r
}

pub fn str_eq(a: &str, b: &str) -> (r: bool)
    ensures
        r == (a@ == b@),
{
    let na = a.unicode_len();
    let nb = b.unicode_len();
    if na != nb {
        proof {
            assert(a@ != b@) by {
                assert(a@.len() != b@.len());
            }
        }
        return false;
    }
    let mut i: usize = 0;
    while i < na
        invariant
            i <= na,
            na == a@.len(),
            na == b@.len(),
            forall|k: int| 0 <= k < i ==> a@[k] == b@[k],
        decreases na - i,
    {
        if a.get_char(i) != b.get_char(i) {
            return false;
        }
        i = i + 1;
    }
    proof {
        assert(a@ =~= b@);
    }
    true
}

pub fn str_starts_with(s: &str, prefix: &str) -> (r: bool)
    ensures
        r == prefix@.is_prefix_of(s@),
{
    let n = s.unicode_len();
    let np = prefix.unicode_len();
    if np > n {
        return false;
    }
    let mut i: usize = 0;
    while i < np
        invariant
            i <= np,
            np == prefix@.len(),
            n == s@.len(),
            np <= n,
            forall|k: int| 0 <= k < i ==> prefix@[k] == s@[k],
        decreases np - i,
    {
        if prefix.get_char(i) != s.get_char(i) {
            return false;
        }
        i = i + 1;
    }
    proof {
        assert(prefix@ =~= s@.subrange(0, prefix@.len() as int));
    }
    true
}

/// Length of the maximal run of non-whitespace characters at the front of `s`.
pub open spec fn token_len(s: Seq<char>) -> nat
    decreases s.len(),
{
    if s.len() == 0 || is_wschar(s[0]) {
        0
    } else {
        1 + token_len(s.skip(1))
    }
}

pub proof fn lemma_token_len_bounds(s: Seq<char>)
    ensures
        token_len(s) <= s.len(),
        s.len() > 0 && !is_wschar(s[0]) ==> token_len(s) >= 1,
        forall|k: int| 0 <= k < token_len(s) ==> !is_wschar(#[trigger] s[k]),
        token_len(s) < s.len() ==> is_wschar(s[token_len(s) as int]),
    decreases s.len(),
{
    if s.len() == 0 || is_wschar(s[0]) {
    } else {
        lemma_token_len_bounds(s.skip(1));
        assert forall|k: int| 0 <= k < token_len(s) implies !is_wschar(#[trigger] s[k]) by {
            if k > 0 {
                assert(s.skip(1)[k - 1] == s[k]);
            }
        }
        if token_len(s) < s.len() {
            assert(s.skip(1)[token_len(s) as int - 1] == s[token_len(s) as int]);
        }
    }
}

/// The whitespace-separated tokens of `s`, in order: what
/// `str::split_whitespace` yields.
pub open spec fn ws_tokens(s: Seq<char>) -> Seq<Seq<char>>
    decreases s.len(),
    via ws_tokens_decreases
{
    if s.len() == 0 {
        Seq::empty()
    } else if is_wschar(s[0]) {
        ws_tokens(s.skip(1))
    } else {
        seq![s.subrange(0, token_len(s) as int)] + ws_tokens(s.skip(token_len(s) as int))
    }
}

#[via_fn]
proof fn ws_tokens_decreases(s: Seq<char>) {
    lemma_token_len_bounds(s);
}

/// Characterizes `token_len` by its endpoints, for use in loop proofs.
pub proof fn lemma_token_len_exact(s: Seq<char>, m: int)
    requires
        0 <= m <= s.len(),
        forall|k: int| 0 <= k < m ==> !is_wschar(#[trigger] s[k]),
        m == s.len() || is_wschar(s[m]),
    ensures
        token_len(s) == m,
    decreases s.len(),
{
    if m == 0 {
    } else {
        assert(!is_wschar(s[0]));
        assert forall|k: int| 0 <= k < m - 1 implies !is_wschar(#[trigger] s.skip(1)[k]) by {
            assert(s.skip(1)[k] == s[k + 1]);
        }
        if m - 1 < s.skip(1).len() {
            assert(s.skip(1)[m - 1] == s[m]);
        }
        lemma_token_len_exact(s.skip(1), m - 1);
    }
}

/// Splits on Unicode whitespace, as `str::split_whitespace` does.
pub fn split_ws(s: &str) -> (r: Vec<String>)
    ensures
        r.deep_view() == ws_tokens(s@),
{
    let chars = str_to_chars(s);
    let n = chars.len();
    let mut r: Vec<String> = Vec::new();
    let mut i: usize = 0;
    proof {
        assert(s@.skip(0) =~= s@);
        assert(r.deep_view() =~= Seq::<Seq<char>>::empty());
        assert(r.deep_view() + ws_tokens(s@) =~= ws_tokens(s@));
    }
    while i < n
        invariant
            i <= n,
            n == chars@.len(),
            chars@ == s@,
            r.deep_view() + ws_tokens(s@.skip(i as int)) =~= ws_tokens(s@),
        decreases n - i,
    {
        if char_is_ws(chars[i]) {
            proof {
                assert(s@.skip(i as int).skip(1) =~= s@.skip(i as int + 1));
            }
            i = i + 1;
        } else {
            let start = i;
            let mut j = i + 1;
            while j < n && !char_is_ws(chars[j])
                invariant
                    start < j <= n,
                    n == chars@.len(),
                    chars@ == s@,
                    forall|k: int| start <= k < j ==> !is_wschar(#[trigger] s@[k]),
                decreases n - j,
            {
                j = j + 1;
            }
            let token = chars_to_string(vstd::slice::slice_subrange(chars.as_slice(), start, j));
            r.push(token);
            proof {
                let suf = s@.skip(start as int);
                assert forall|k: int| 0 <= k < j - start implies !is_wschar(#[trigger] suf[k]) by {
                    assert(suf[k] == s@[start + k]);
                }
                if j < n {
                    assert(suf[j - start] == s@[j as int]);
                }
                lemma_token_len_exact(suf, j - start);
                assert(suf.subrange(0, j - start) =~= s@.subrange(start as int, j as int));
                assert(suf.skip(j - start) =~= s@.skip(j as int));
                assert(ws_tokens(suf) == seq![s@.subrange(start as int, j as int)] + ws_tokens(
                    s@.skip(j as int),
                ));
                assert(token@ == s@.subrange(start as int, j as int));
                assert(r.deep_view() + ws_tokens(s@.skip(j as int)) =~= ws_tokens(s@));
            }
            i = j;
        }
    }
    proof {
        assert(ws_tokens(s@.skip(n as int)) =~= Seq::<Seq<char>>::empty());
        assert(r.deep_view() =~= ws_tokens(s@));
    }
    r
}

/// Parser states of shell-style word splitting, one per position in the
/// quoting grammar: between words, inside an unquoted, single-quoted, or
/// double-quoted word, after a backslash in each escaping context, or inside
/// a comment.
#[derive(Clone, Copy, Debug, PartialEq, Eq, Structural)]
pub enum ShellState {
    Delimiter,
    Backslash,
    Unquoted,
    UnquotedBackslash,
    SingleQuoted,
    DoubleQuoted,
    DoubleQuotedBackslash,
    Comment,
}

/// One step of the quoting grammar: consumes `c` and yields the next state,
/// the words finished so far, and the word being built.
pub open spec fn shell_step(
    state: ShellState,
    tokens: Seq<Seq<char>>,
    word: Seq<char>,
    c: char,
) -> (ShellState, Seq<Seq<char>>, Seq<char>) {
    match state {
        ShellState::Delimiter => {
            if c == '\'' {
                (ShellState::SingleQuoted, tokens, word)
            } else if c == '"' {
                (ShellState::DoubleQuoted, tokens, word)
            } else if c == '\\' {
                (ShellState::Backslash, tokens, word)
            } else if c == '\t' || c == ' ' || c == '\n' {
                (ShellState::Delimiter, tokens, word)
            } else if c == '#' {
                (ShellState::Comment, tokens, word)
            } else {
                (ShellState::Unquoted, tokens, word.push(c))
            }
        },
        ShellState::Backslash => {
            if c == '\n' {
                (ShellState::Delimiter, tokens, word)
            } else {
                (ShellState::Unquoted, tokens, word.push(c))
            }
        },
        ShellState::Unquoted => {
            if c == '\'' {
                (ShellState::SingleQuoted, tokens, word)
            } else if c == '"' {
                (ShellState::DoubleQuoted, tokens, word)
            } else if c == '\\' {
                (ShellState::UnquotedBackslash, tokens, word)
            } else if c == '\t' || c == ' ' || c == '\n' {
                (ShellState::Delimiter, tokens.push(word), Seq::empty())
            } else {
                (ShellState::Unquoted, tokens, word.push(c))
            }
        },
        ShellState::UnquotedBackslash => {
            if c == '\n' {
                (ShellState::Unquoted, tokens, word)
            } else {
                (ShellState::Unquoted, tokens, word.push(c))
            }
        },
        ShellState::SingleQuoted => {
            if c == '\'' {
                (ShellState::Unquoted, tokens, word)
            } else {
                (ShellState::SingleQuoted, tokens, word.push(c))
            }
        },
        ShellState::DoubleQuoted => {
            if c == '"' {
                (ShellState::Unquoted, tokens, word)
            } else if c == '\\' {
                (ShellState::DoubleQuotedBackslash, tokens, word)
            } else {
                (ShellState::DoubleQuoted, tokens, word.push(c))
            }
        },
        ShellState::DoubleQuotedBackslash => {
            if c == '\n' {
                (ShellState::DoubleQuoted, tokens, word)
            } else if c == '$' || c == '`' || c == '"' || c == '\\' {
                (ShellState::DoubleQuoted, tokens, word.push(c))
            } else {
                (ShellState::DoubleQuoted, tokens, word.push('\\').push(c))
            }
        },
        ShellState::Comment => {
            if c == '\n' {
                (ShellState::Delimiter, tokens, word)
            } else {
                (ShellState::Comment, tokens, word)
            }
        },
    }
}

/// Runs the quoting grammar over all of `s` from the given accumulator.
pub open spec fn shell_fold(
    s: Seq<char>,
    state: ShellState,
    tokens: Seq<Seq<char>>,
    word: Seq<char>,
) -> (ShellState, Seq<Seq<char>>, Seq<char>)
    decreases s.len(),
{
    if s.len() == 0 {
        (state, tokens, word)
    } else {
        let next = shell_step(state, tokens, word, s[0]);
        shell_fold(s.skip(1), next.0, next.1, next.2)
    }
}

/// Shell-style word splitting with quoting: whitespace separates words,
/// quotes group them, a backslash escapes. A line with an unclosed quote
/// yields nothing.
pub open spec fn shell_tokens(s: Seq<char>) -> Option<Seq<Seq<char>>> {
    let end = shell_fold(s, ShellState::Delimiter, Seq::empty(), Seq::empty());
    match end.0 {
        ShellState::Delimiter => Some(end.1),
        ShellState::Comment => Some(end.1),
        ShellState::Unquoted => Some(end.1.push(end.2)),
        ShellState::Backslash => Some(end.1.push(end.2.push('\\'))),
        ShellState::UnquotedBackslash => Some(end.1.push(end.2.push('\\'))),
        ShellState::SingleQuoted => None,
        ShellState::DoubleQuoted => None,
        ShellState::DoubleQuotedBackslash => None,
    }
}

/// Splits a line by the shell quoting grammar, as `shell_words::split` does;
/// `None` stands for an unclosed quote.
pub fn split_shell(s: &str) -> (r: Option<Vec<String>>)
    ensures
        match r {
            Some(parts) => shell_tokens(s@) == Some(parts.deep_view()),
            None => shell_tokens(s@) is None,
        },
{
    let chars = str_to_chars(s);
    let n = chars.len();
    let mut state = ShellState::Delimiter;
    let mut tokens: Vec<String> = Vec::new();
    let mut word = String::new();
    let mut i: usize = 0;
    proof {
        assert(s@.skip(0) =~= s@);
        assert(tokens.deep_view() =~= Seq::<Seq<char>>::empty());
    }
    while i < n
        invariant
            i <= n,
            n == chars@.len(),
            chars@ == s@,
            shell_fold(s@.skip(i as int), state, tokens.deep_view(), word@) == shell_fold(
                s@,
                ShellState::Delimiter,
                Seq::empty(),
                Seq::empty(),
            ),
        decreases n - i,
    {
        let c = chars[i];
        let ghost tokens0 = tokens.deep_view();
        let ghost word0 = word@;
        let ghost state0 = state;
        match state {
            ShellState::Delimiter => {
                if c == '\'' {
                    state = ShellState::SingleQuoted;
                } else if c == '"' {
                    state = ShellState::DoubleQuoted;
                } else if c == '\\' {
                    state = ShellState::Backslash;
                } else if c == '\t' || c == ' ' || c == '\n' {
                } else if c == '#' {
                    state = ShellState::Comment;
                } else {
                    push_char(&mut word, c);
                    state = ShellState::Unquoted;
                }
            },
            ShellState::Backslash => {
                if c == '\n' {
                    state = ShellState::Delimiter;
                } else {
                    push_char(&mut word, c);
                    state = ShellState::Unquoted;
                }
            },
            ShellState::Unquoted => {
                if c == '\'' {
                    state = ShellState::SingleQuoted;
                } else if c == '"' {
                    state = ShellState::DoubleQuoted;
                } else if c == '\\' {
                    state = ShellState::UnquotedBackslash;
                } else if c == '\t' || c == ' ' || c == '\n' {
                    tokens.push(word);
                    word = String::new();
                    state = ShellState::Delimiter;
                } else {
                    push_char(&mut word, c);
                }
            },
            ShellState::UnquotedBackslash => {
                if c == '\n' {
                    state = ShellState::Unquoted;
                } else {
                    push_char(&mut word, c);
                    state = ShellState::Unquoted;
                }
            },
            ShellState::SingleQuoted => {
                if c == '\'' {
                    state = ShellState::Unquoted;
                } else {
                    push_char(&mut word, c);
                }
            },
            ShellState::DoubleQuoted => {
                if c == '"' {
                    state = ShellState::Unquoted;
                } else if c == '\\' {
                    state = ShellState::DoubleQuotedBackslash;
                } else {
                    push_char(&mut word, c);
                }
            },
            ShellState::DoubleQuotedBackslash => {
                if c == '\n' {
                    state = ShellState::DoubleQuoted;
                } else if c == '$' || c == '`' || c == '"' || c == '\\' {
                    push_char(&mut word, c);
                    state = ShellState::DoubleQuoted;
                } else {
                    push_char(&mut word, '\\');
                    push_char(&mut word, c);
                    state = ShellState::DoubleQuoted;
                }
            },
            ShellState::Comment => {
                if c == '\n' {
                    state = ShellState::Delimiter;
                }
            },
        }
        proof {
            let stepped = shell_step(state0, tokens0, word0, s@[i as int]);
            assert(state == stepped.0);
            assert(tokens.deep_view() =~= stepped.1);
            assert(word@ == stepped.2);
            assert(s@.skip(i as int)[0] == s@[i as int]);
            assert(s@.skip(i as int).skip(1) =~= s@.skip(i as int + 1));
        }
        i = i + 1;
    }
    proof {
        assert(s@.skip(n as int) =~= Seq::<char>::empty());
    }
    match state {
        ShellState::Delimiter => Some(tokens),
        ShellState::Comment => Some(tokens),
        ShellState::Unquoted => {
            tokens.push(word);
            proof {
                assert(tokens.deep_view() =~= shell_tokens(s@)->0);
            }
            Some(tokens)
        },
        ShellState::Backslash => {
            push_char(&mut word, '\\');
            tokens.push(word);
            proof {
                assert(tokens.deep_view() =~= shell_tokens(s@)->0);
            }
            Some(tokens)
        },
        ShellState::UnquotedBackslash => {
            push_char(&mut word, '\\');
            tokens.push(word);
            proof {
                assert(tokens.deep_view() =~= shell_tokens(s@)->0);
            }
            Some(tokens)
        },
        ShellState::SingleQuoted => None,
        ShellState::DoubleQuoted => None,
        ShellState::DoubleQuotedBackslash => None,
    }
}

/// Count of leading whitespace characters.
pub open spec fn lead_ws(s: Seq<char>) -> nat
    decreases s.len(),
{
    if s.len() == 0 || !is_wschar(s[0]) {
        0
    } else {
        1 + lead_ws(s.skip(1))
    }
}

pub proof fn lemma_lead_ws_bounds(s: Seq<char>)
    ensures
        lead_ws(s) <= s.len(),
        forall|k: int| 0 <= k < lead_ws(s) ==> is_wschar(#[trigger] s[k]),
        lead_ws(s) < s.len() ==> !is_wschar(s[lead_ws(s) as int]),
    decreases s.len(),
{
    if s.len() == 0 || !is_wschar(s[0]) {
    } else {
        lemma_lead_ws_bounds(s.skip(1));
        assert forall|k: int| 0 <= k < lead_ws(s) implies is_wschar(#[trigger] s[k]) by {
            if k > 0 {
                assert(s.skip(1)[k - 1] == s[k]);
            }
        }
        if lead_ws(s) < s.len() {
            assert(s.skip(1)[lead_ws(s) as int - 1] == s[lead_ws(s) as int]);
        }
    }
}

/// Characterizes `lead_ws` by its endpoints, for use in loop proofs.
pub proof fn lemma_lead_ws_exact(s: Seq<char>, m: int)
    requires
        0 <= m <= s.len(),
        forall|k: int| 0 <= k < m ==> is_wschar(#[trigger] s[k]),
        m == s.len() || !is_wschar(s[m]),
    ensures
        lead_ws(s) == m,
    decreases s.len(),
{
    if m == 0 {
    } else {
        assert(is_wschar(s[0]));
        assert forall|k: int| 0 <= k < m - 1 implies is_wschar(#[trigger] s.skip(1)[k]) by {
            assert(s.skip(1)[k] == s[k + 1]);
        }
        if m - 1 < s.skip(1).len() {
            assert(s.skip(1)[m - 1] == s[m]);
        }
        lemma_lead_ws_exact(s.skip(1), m - 1);
    }
}

/// Count of trailing whitespace characters.
pub open spec fn trail_ws(s: Seq<char>) -> nat
    decreases s.len(),
{
    if s.len() == 0 || !is_wschar(s.last()) {
        0
    } else {
        1 + trail_ws(s.drop_last())
    }
}

/// What `str::trim` returns: `s` with leading and trailing whitespace removed.
pub open spec fn trim_spec(s: Seq<char>) -> Seq<char> {
    if lead_ws(s) == s.len() {
        Seq::empty()
    } else {
        s.subrange(lead_ws(s) as int, s.len() - trail_ws(s))
    }
}

pub proof fn lemma_trail_ws_bounds(s: Seq<char>)
    ensures
        trail_ws(s) <= s.len(),
        forall|k: int| s.len() - trail_ws(s) <= k < s.len() ==> is_wschar(#[trigger] s[k]),
        trail_ws(s) < s.len() ==> !is_wschar(s[s.len() - trail_ws(s) - 1]),
    decreases s.len(),
{
    if s.len() == 0 || !is_wschar(s.last()) {
    } else {
        lemma_trail_ws_bounds(s.drop_last());
        assert forall|k: int| s.len() - trail_ws(s) <= k < s.len() implies is_wschar(
            #[trigger] s[k],
        ) by {
            if k < s.len() - 1 {
                assert(s.drop_last()[k] == s[k]);
            }
        }
        if trail_ws(s) < s.len() {
            assert(s.drop_last()[s.len() - trail_ws(s) - 1] == s[s.len() - trail_ws(s) - 1]);
        }
    }
}

proof fn lemma_trim_ends(s: Seq<char>, lo: int, hi: int)
    requires
        0 <= lo <= hi <= s.len(),
        forall|k: int| 0 <= k < lo ==> is_wschar(#[trigger] s[k]),
        lo < s.len() ==> !is_wschar(s[lo]),
        forall|k: int| hi <= k < s.len() ==> is_wschar(#[trigger] s[k]),
        lo < hi ==> !is_wschar(s[hi - 1]),
        lo == s.len() ==> hi == lo,
        lo < s.len() ==> lo < hi,
    ensures
        trim_spec(s) == s.subrange(lo, hi),
{
    lemma_lead_ws_bounds(s);
    lemma_trail_ws_bounds(s);
    if lo == s.len() {
        // all whitespace
        assert(lead_ws(s) == s.len()) by {
            if lead_ws(s) < s.len() {
                assert(is_wschar(s[lead_ws(s) as int]));
            }
        }
        assert(trim_spec(s) =~= s.subrange(lo, hi));
    } else {
        assert(lead_ws(s) == lo) by {
            if lead_ws(s) < lo {
                assert(is_wschar(s[lead_ws(s) as int]));
            }
            if lead_ws(s) > lo {
                assert(is_wschar(s[lo]));
            }
        }
        assert(s.len() - trail_ws(s) == hi) by {
            if s.len() - trail_ws(s) < hi {
                assert(is_wschar(s[s.len() - trail_ws(s) - 1]));
            }
            if s.len() - trail_ws(s) > hi {
                assert(is_wschar(s[hi]));
            }
        }
    }
}

/// Trims Unicode whitespace from both ends, as `str::trim` does.
pub fn trim(s: &str) -> (r: String)
    ensures
        r@ == trim_spec(s@),
{
    let chars = str_to_chars(s);
    let n = chars.len();
    let mut lo: usize = 0;
    while lo < n && char_is_ws(chars[lo])
        invariant
            lo <= n,
            n == chars@.len(),
            chars@ == s@,
            forall|k: int| 0 <= k < lo ==> is_wschar(#[trigger] s@[k]),
        decreases n - lo,
    {
        lo = lo + 1;
    }
    if lo == n {
        proof {
            lemma_trim_ends(s@, lo as int, lo as int);
        }
        return String::new();
    }
    let mut hi: usize = n;
    while hi > lo && char_is_ws(chars[hi - 1])
        invariant
            lo <= hi <= n,
            n == chars@.len(),
            chars@ == s@,
            forall|k: int| hi <= k < n ==> is_wschar(#[trigger] s@[k]),
        decreases hi,
    {
        hi = hi - 1;
    }
    proof {
        lemma_trim_ends(s@, lo as int, hi as int);
    }
    chars_to_string(vstd::slice::slice_subrange(chars.as_slice(), lo, hi))
}

/// Strict lexicographic order on character sequences by code point, the order
/// in which `Vec<String>::sort` puts distinct strings.
pub open spec fn lex_lt(a: Seq<char>, b: Seq<char>) -> bool
    decreases a.len(),
{
    &&& b.len() > 0
    &&& {
        ||| a.len() == 0
        ||| a[0] < b[0]
        ||| (a[0] == b[0] && lex_lt(a.skip(1), b.skip(1)))
    }
}

pub proof fn lemma_lex_total(a: Seq<char>, b: Seq<char>)
    ensures
        lex_lt(a, b) || lex_lt(b, a) || a == b,
        !(lex_lt(a, b) && lex_lt(b, a)),
        lex_lt(a, b) ==> a != b,
    decreases a.len(),
{
    if a.len() == 0 && b.len() == 0 {
        assert(a =~= b);
    } else if a.len() == 0 || b.len() == 0 {
    } else {
        if a[0] == b[0] {
            lemma_lex_total(a.skip(1), b.skip(1));
            if a.skip(1) == b.skip(1) {
                assert(a =~= b) by {
                    assert forall|k: int| 0 <= k < a.len() implies a[k] == b[k] by {
                        if k > 0 {
                            assert(a.skip(1)[k - 1] == a[k]);
                            assert(b.skip(1)[k - 1] == b[k]);
                        }
                    }
                }
            }
            if a == b {
                assert(a.skip(1) =~= b.skip(1));
            }
            if lex_lt(a, b) && lex_lt(b, a) {
                assert(lex_lt(a.skip(1), b.skip(1)) && lex_lt(b.skip(1), a.skip(1)));
            }
            if lex_lt(a, b) && a == b {
                assert(lex_lt(a.skip(1), b.skip(1)) && a.skip(1) == b.skip(1));
            }
        } else {
            assert(a[0] != b[0]);
            if a == b {
                assert(a[0] == b[0]);
            }
        }
    }
}

pub proof fn lemma_lex_trans(a: Seq<char>, b: Seq<char>, c: Seq<char>)
    requires
        lex_lt(a, b),
        lex_lt(b, c),
    ensures
        lex_lt(a, c),
    decreases a.len(),
{
    if a.len() == 0 {
    } else if a[0] < c[0] {
    } else {
        // b is nonempty since lex_lt(a, b) with a nonempty and not a[0] < b[0] forces a[0] == b[0]
        if a[0] < b[0] {
            if b[0] < c[0] {
            } else {
                assert(b[0] == c[0]);
                assert(a[0] < c[0]);
            }
        } else {
            assert(a[0] == b[0]);
            if b[0] < c[0] {
                assert(a[0] < c[0]);
            } else {
                assert(b[0] == c[0]);
                assert(a[0] == c[0]);
                lemma_lex_trans(a.skip(1), b.skip(1), c.skip(1));
            }
        }
    }
}

/// A proper prefix is lexicographically smaller.
pub proof fn lemma_lex_prefix(a: Seq<char>, b: Seq<char>)
    requires
        a.is_prefix_of(b),
        a.len() < b.len(),
    ensures
        lex_lt(a, b),
    decreases a.len(),
{
    if a.len() == 0 {
    } else {
        assert(a[0] == b[0]);
        assert(a.skip(1).is_prefix_of(b.skip(1))) by {
            assert forall|k: int| 0 <= k < a.skip(1).len() implies a.skip(1)[k] == b.skip(1)[k] by {
                assert(a.skip(1)[k] == a[k + 1]);
                assert(b.skip(1)[k] == b[k + 1]);
            }
            assert(a.skip(1) =~= b.skip(1).subrange(0, a.skip(1).len() as int));
        }
        lemma_lex_prefix(a.skip(1), b.skip(1));
    }
}

/// Order is decided after a shared prefix.
pub proof fn lemma_lex_common_prefix(p: Seq<char>, a: Seq<char>, b: Seq<char>)
    ensures
        lex_lt(p + a, p + b) == lex_lt(a, b),
    decreases p.len(),
{
    if p.len() == 0 {
        assert(p + a =~= a);
        assert(p + b =~= b);
    } else {
        assert((p + a).len() > 0 && (p + b).len() > 0);
        assert((p + a)[0] == p[0] && (p + b)[0] == p[0]);
        assert((p + a).skip(1) =~= p.skip(1) + a);
        assert((p + b).skip(1) =~= p.skip(1) + b);
        lemma_lex_common_prefix(p.skip(1), a, b);
    }
}

/// Executable code-point comparison matching `lex_lt`.
pub fn str_lex_lt(a: &str, b: &str) -> (r: bool)
    ensures
        r == lex_lt(a@, b@),
{
    let na = a.unicode_len();
    let nb = b.unicode_len();
    let mut i: usize = 0;
    proof {
        assert(a@.skip(0) =~= a@);
        assert(b@.skip(0) =~= b@);
    }
    loop
        invariant
            i <= na,
            i <= nb,
            na == a@.len(),
            nb == b@.len(),
            lex_lt(a@, b@) == lex_lt(a@.skip(i as int), b@.skip(i as int)),
        decreases na - i,
    {
        if i == nb {
            return false;
        }
        if i == na {
            return true;
        }
        let ca = a.get_char(i);
        let cb = b.get_char(i);
        if ca < cb {
            return true;
        }
        if ca != cb {
            proof {
                lemma_lex_total(a@.skip(i as int), b@.skip(i as int));
                assert(!lex_lt(a@.skip(i as int), b@.skip(i as int)));
                assert(a@.skip(i as int) != b@.skip(i as int)) by {
                    assert(a@.skip(i as int)[0] == a@[i as int]);
                }
            }
            return false;
        }
        proof {
            assert(a@.skip(i as int).skip(1) =~= a@.skip(i as int + 1));
            assert(b@.skip(i as int).skip(1) =~= b@.skip(i as int + 1));
        }
        i = i + 1;
    }
}

/// The parts joined with `sep` between them, as `[&str]::join` builds it.
pub open spec fn join_spec(parts: Seq<Seq<char>>, sep: Seq<char>) -> Seq<char>
    decreases parts.len(),
{
    if parts.len() == 0 {
        Seq::empty()
    } else if parts.len() == 1 {
        parts[0]
    } else {
        parts[0] + sep + join_spec(parts.skip(1), sep)
    }
}

/// The deep view of a string vector is its elements' views, index by index.
pub proof fn lemma_deep_view_strings(v: Vec<String>)
    ensures
        v.deep_view().len() == v@.len(),
        forall|i: int| 0 <= i < v@.len() ==> v.deep_view()[i] == (#[trigger] v@[i])@,
{
    assert forall|i: int| 0 <= i < v@.len() implies v.deep_view()[i] == (#[trigger] v@[i])@ by {
        assert(v.deep_view()[i] == v@[i].deep_view());
    }
}

/// The deep view of a vector of string pairs, index by index.
pub proof fn lemma_deep_view_pairs(v: Vec<(String, String)>)
    ensures
        v.deep_view().len() == v@.len(),
        forall|i: int|
            0 <= i < v@.len() ==> v.deep_view()[i] == ((#[trigger] v@[i]).0@, v@[i].1@),
{
    assert forall|i: int|
        0 <= i < v@.len() implies v.deep_view()[i] == ((#[trigger] v@[i]).0@, v@[i].1@) by {
        assert(v.deep_view()[i] == v@[i].deep_view());
    }
}

/// The view `x` occurs among the strings of `w`.
pub open spec fn view_among(x: Seq<char>, w: Seq<String>) -> bool {
    exists|k: int| 0 <= k < w.len() && (#[trigger] w[k])@ == x
}

/// Every entry of `r` is one of the first `i` strings of `v`, by view.
#[verifier::opaque]
spec fn views_from(r: Seq<String>, v: Seq<String>, i: int) -> bool {
    forall|k: int| 0 <= k < r.len() ==> exists|j: int| 0 <= j < i && (#[trigger] r[k])@ == v[j]@
}

/// Each of the first `i` strings of `v` appears in `r`, by view.
#[verifier::opaque]
spec fn views_cover(r: Seq<String>, v: Seq<String>, i: int) -> bool {
    forall|j: int| 0 <= j < i ==> exists|k: int| 0 <= k < r.len() && (#[trigger] v[j])@ == r[k]@
}

/// The views of `r` are in strictly increasing code-point order.
#[verifier::opaque]
spec fn views_sorted(r: Seq<String>) -> bool {
    forall|k1: int, k2: int| 0 <= k1 < k2 < r.len() ==> lex_lt((#[trigger] r[k1])@, (#[trigger] r[k2])@)
}

/// Everything at or after `pos` in a sorted run that `x` slots into at `pos`
/// is strictly greater than `x`.
proof fn lemma_sort_gap(r: Seq<String>, v: Seq<String>, i: int, pos: int)
    requires
        0 <= i < v.len(),
        0 <= pos <= r.len(),
        forall|k1: int, k2: int|
            0 <= k1 < k2 < v.len() ==> (#[trigger] v[k1])@ != (#[trigger] v[k2])@,
        views_from(r, v, i),
        views_sorted(r),
        forall|k: int| 0 <= k < pos ==> lex_lt((#[trigger] r[k])@, v[i]@),
        pos < r.len() ==> !lex_lt(r[pos]@, v[i]@),
    ensures
        forall|k: int| pos <= k < r.len() ==> lex_lt(v[i]@, (#[trigger] r[k])@),
{
    reveal(views_from);
    reveal(views_sorted);
    assert forall|k: int| pos <= k < r.len() implies lex_lt(v[i]@, (#[trigger] r[k])@) by {
        let j = choose|j: int| 0 <= j < i && (#[trigger] r[k])@ == v[j]@;
        assert(v[j]@ != v[i]@);
        lemma_lex_total(v[i]@, r[k]@);
        if k == pos {
        } else {
            assert(lex_lt(r[pos]@, r[k]@));
            if lex_lt(r[k]@, v[i]@) {
                lemma_lex_trans(r[pos]@, r[k]@, v[i]@);
            }
            lemma_lex_total(v[i]@, r[pos]@);
            if lex_lt(r[pos]@, v[i]@) {
            } else if r[pos]@ == v[i]@ {
                let jp = choose|jp: int| 0 <= jp < i && (#[trigger] r[pos])@ == v[jp]@;
                assert(v[jp]@ != v[i]@);
            } else {
                lemma_lex_trans(v[i]@, r[pos]@, r[k]@);
            }
        }
    }
}

proof fn lemma_sort_insert_from(r0: Seq<String>, x: String, v: Seq<String>, i: int, pos: int)
    requires
        0 <= i < v.len(),
        0 <= pos <= r0.len(),
        x@ == v[i]@,
        views_from(r0, v, i),
    ensures
        views_from(r0.insert(pos, x), v, i + 1),
{
    reveal(views_from);
    let r1 = r0.insert(pos, x);
    assert forall|k: int| 0 <= k < r1.len() implies exists|j: int|
        0 <= j < i + 1 && (#[trigger] r1[k])@ == v[j]@ by {
        if k < pos {
            assert(r1[k] == r0[k]);
            let j = choose|j: int| 0 <= j < i && (#[trigger] r0[k])@ == v[j]@;
            assert(r1[k]@ == v[j]@);
        } else if k == pos {
            assert(r1[k]@ == v[i]@);
        } else {
            assert(r1[k] == r0[k - 1]);
            let j = choose|j: int| 0 <= j < i && (#[trigger] r0[k - 1])@ == v[j]@;
            assert(r1[k]@ == v[j]@);
        }
    }
}

proof fn lemma_sort_insert_cover(r0: Seq<String>, x: String, v: Seq<String>, i: int, pos: int)
    requires
        0 <= i < v.len(),
        0 <= pos <= r0.len(),
        x@ == v[i]@,
        views_cover(r0, v, i),
    ensures
        views_cover(r0.insert(pos, x), v, i + 1),
{
    reveal(views_cover);
    let r1 = r0.insert(pos, x);
    assert forall|j: int| 0 <= j < i + 1 implies exists|k: int|
        0 <= k < r1.len() && (#[trigger] v[j])@ == r1[k]@ by {
        if j == i {
            assert(r1[pos] == x);
            assert(v[j]@ == r1[pos]@);
        } else {
            let k = choose|k: int| 0 <= k < r0.len() && (#[trigger] v[j])@ == r0[k]@;
            if k < pos {
                assert(r1[k] == r0[k]);
                assert(v[j]@ == r1[k]@);
            } else {
                assert(r1[k + 1] == r0[k]);
                assert(v[j]@ == r1[k + 1]@);
            }
        }
    }
}

proof fn lemma_sort_insert_sorted(r0: Seq<String>, x: String, pos: int)
    requires
        0 <= pos <= r0.len(),
        views_sorted(r0),
        forall|k: int| 0 <= k < pos ==> lex_lt((#[trigger] r0[k])@, x@),
        forall|k: int| pos <= k < r0.len() ==> lex_lt(x@, (#[trigger] r0[k])@),
    ensures
        views_sorted(r0.insert(pos, x)),
{
    reveal(views_sorted);
    let r1 = r0.insert(pos, x);
    assert forall|k1: int, k2: int| 0 <= k1 < k2 < r1.len() implies lex_lt(
        (#[trigger] r1[k1])@,
        (#[trigger] r1[k2])@,
    ) by {
        if k1 < pos && k2 < pos {
            assert(r1[k1] == r0[k1] && r1[k2] == r0[k2]);
        } else if k1 < pos && k2 == pos {
            assert(r1[k1] == r0[k1]);
        } else if k1 < pos && k2 > pos {
            assert(r1[k1] == r0[k1] && r1[k2] == r0[k2 - 1]);
        } else if k1 == pos {
            assert(r1[k2] == r0[k2 - 1]);
        } else {
            assert(r1[k1] == r0[k1 - 1] && r1[k2] == r0[k2 - 1]);
        }
    }
}

/// Sorts pairwise-distinct strings into strictly increasing code-point
/// order; the result holds exactly the input's strings.
pub fn sort_unique(v: Vec<String>) -> (r: Vec<String>)
    requires
        forall|k1: int, k2: int|
            0 <= k1 < k2 < v@.len() ==> (#[trigger] v@[k1])@ != (#[trigger] v@[k2])@,
    ensures
        r@.len() == v@.len(),
        forall|k: int| 0 <= k < r@.len() ==> view_among((#[trigger] r@[k])@, v@),
        forall|j: int| 0 <= j < v@.len() ==> view_among((#[trigger] v@[j])@, r@),
        forall|k1: int, k2: int| 0 <= k1 < k2 < r@.len() ==> lex_lt(r@[k1]@, r@[k2]@),
{
    let n = v.len();
    let mut r: Vec<String> = Vec::new();
    let mut i: usize = 0;
    proof {
        reveal(views_from);
        reveal(views_cover);
        reveal(views_sorted);
    }
    while i < n
        invariant
            i <= n,
            n == v@.len(),
            r@.len() == i,
            forall|k1: int, k2: int|
                0 <= k1 < k2 < v@.len() ==> (#[trigger] v@[k1])@ != (#[trigger] v@[k2])@,
            views_from(r@, v@, i as int),
            views_cover(r@, v@, i as int),
            views_sorted(r@),
        decreases n - i,
    {
        let x = v[i].clone();
        let m = r.len();
        let mut pos: usize = 0;
        while pos < m && str_lex_lt(&r[pos], &x)
            invariant
                pos <= m,
                m == r@.len(),
                x@ == v@[i as int]@,
                forall|k: int| 0 <= k < pos ==> lex_lt((#[trigger] r@[k])@, x@),
            decreases m - pos,
        {
            pos = pos + 1;
        }
        proof {
            lemma_sort_gap(r@, v@, i as int, pos as int);
            lemma_sort_insert_from(r@, x, v@, i as int, pos as int);
            lemma_sort_insert_cover(r@, x, v@, i as int, pos as int);
            lemma_sort_insert_sorted(r@, x, pos as int);
        }
        r.insert(pos, x);
        i = i + 1;
    }
    proof {
        assert forall|k: int| 0 <= k < r@.len() implies view_among((#[trigger] r@[k])@, v@) by {
            reveal(views_from);
            let entry = r@[k];
            let j = choose|j: int| 0 <= j < i && (#[trigger] r@[k])@ == v@[j]@;
            assert(v@[j]@ == r@[k]@);
        }
        assert forall|j: int| 0 <= j < v@.len() implies view_among((#[trigger] v@[j])@, r@) by {
            reveal(views_cover);
            let s = v@[j];
            let k = choose|k: int| 0 <= k < r@.len() && (#[trigger] v@[j])@ == r@[k]@;
            assert(r@[k]@ == v@[j]@);
        }
        assert forall|k1: int, k2: int| 0 <= k1 < k2 < r@.len() implies lex_lt(r@[k1]@, r@[k2]@) by {
            reveal(views_sorted);
        }
    }
    r
}

proof fn lemma_join_snoc(parts: Seq<Seq<char>>, sep: Seq<char>, x: Seq<char>)
    requires
        parts.len() >= 1,
    ensures
        join_spec(parts.push(x), sep) == join_spec(parts, sep) + sep + x,
    decreases parts.len(),
{
    if parts.len() == 1 {
        assert(parts.push(x)[0] == parts[0]);
        assert(parts.push(x).skip(1) =~= seq![x]);
        assert(join_spec(seq![x], sep) == x);
        assert(join_spec(parts.push(x), sep) =~= parts[0] + sep + x);
        assert(join_spec(parts, sep) + sep + x =~= parts[0] + sep + x);
    } else {
        assert(parts.push(x).skip(1) =~= parts.skip(1).push(x));
        lemma_join_snoc(parts.skip(1), sep, x);
        assert(parts.push(x)[0] == parts[0]);
        assert(join_spec(parts.push(x), sep) =~= parts[0] + sep + join_spec(parts.skip(1), sep)
            + sep + x);
        assert(join_spec(parts, sep) + sep + x =~= parts[0] + sep + join_spec(parts.skip(1), sep)
            + sep + x);
    }
}

pub fn join_strings(parts: &Vec<String>, sep: &str) -> (r: String)
    ensures
        r@ == join_spec(parts.deep_view(), sep@),
{
    let n = parts.len();
    if n == 0 {
        return String::new();
    }
    let mut r = String::new();
    r.append(parts[0].as_str());
    proof {
        assert(parts.deep_view()[0] == parts@[0]@);
        assert(parts.deep_view().subrange(0, 1) =~= seq![parts.deep_view()[0]]);
        assert(join_spec(parts.deep_view().subrange(0, 1), sep@) == parts.deep_view()[0]);
    }
    let mut i: usize = 1;
    while i < n
        invariant
            1 <= i <= n,
            n == parts@.len(),
            r@ == join_spec(parts.deep_view().subrange(0, i as int), sep@),
        decreases n - i,
    {
        r.append(sep);
        r.append(parts[i].as_str());
        proof {
            let dv = parts.deep_view();
            assert(dv[i as int] == parts@[i as int]@);
            assert(dv.subrange(0, i as int).len() == i);
            lemma_join_snoc(dv.subrange(0, i as int), sep@, dv[i as int]);
            assert(dv.subrange(0, i as int).push(dv[i as int]) =~= dv.subrange(0, i as int + 1));
        }
        i = i + 1;
    }
    proof {
        assert(parts.deep_view().subrange(0, n as int) =~= parts.deep_view());
    }
    r
}

} // verus!

