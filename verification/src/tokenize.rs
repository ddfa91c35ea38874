//! Shell-like command-line tokenizer: splits one line into argument
//! tokens, honoring single/double quoting and backslash escapes. The
//! behaviour is fixed by a character-at-a-time state machine given as a
//! spec function; the executable tokenizer is proved to follow it.

use vstd::prelude::*;
use crate::strutil::{is_space_char, push_char, trim, trim_str};

verus! {

/// The tokenizer state after some prefix of the line: the tokens already
/// emitted, the token under construction, and the quoting/escape flags.
pub struct TokState {
    pub done: Seq<Seq<char>>,
    pub cur: Seq<char>,
    pub in_single: bool,
    pub in_double: bool,
    pub escape: bool,
}

/// The state before any character is read.
pub open spec fn tok_init() -> TokState {
    TokState {
        done: Seq::empty(),
        cur: Seq::empty(),
        in_single: false,
        in_double: false,
        escape: false,
    }
}

/// One character of input advances the state:
/// - after a backslash, the character is taken literally;
/// - a backslash arms the escape;
/// - a quote toggles its region; when the closing quote of the outermost
///   region is seen, the token so far is emitted (trimmed, even if empty);
/// - an unquoted space ends a non-empty token (trimmed);
/// - anything else joins the current token.
pub open spec fn tok_step(st: TokState, c: char) -> TokState {
    if st.escape {
        TokState { cur: st.cur.push(c), escape: false, ..st }
    } else if c == '\\' {
        TokState { escape: true, ..st }
    } else if c == '"' {
        if st.in_double && !st.in_single {
            TokState { done: st.done.push(trim(st.cur)), cur: Seq::empty(), in_double: false, ..st }
        } else {
            TokState { in_double: !st.in_double, ..st }
        }
    } else if c == '\'' {
        if st.in_single && !st.in_double {
            TokState { done: st.done.push(trim(st.cur)), cur: Seq::empty(), in_single: false, ..st }
        } else {
            TokState { in_single: !st.in_single, ..st }
        }
    } else if c == ' ' && !st.in_single && !st.in_double {
        if st.cur.len() > 0 {
            TokState { done: st.done.push(trim(st.cur)), cur: Seq::empty(), ..st }
        } else {
            st
        }
    } else {
        TokState { cur: st.cur.push(c), ..st }
    }
}

/// The state after the whole of `s` has been read.
pub open spec fn tok_run(s: Seq<char>) -> TokState
    decreases s.len(),
{
    if s.len() == 0 {
        tok_init()
    } else {
        tok_step(tok_run(s.drop_last()), s.last())
    }
}

/// The tokens of one line: the emitted tokens, plus the trailing partial
/// token when it is non-empty after trimming. An unterminated quote is not
/// an error; the line simply ends inside the region.
pub open spec fn tokenize(s: Seq<char>) -> Seq<Seq<char>> {
    let st = tok_run(s);
    if trim(st.cur).len() > 0 {
        st.done.push(trim(st.cur))
    } else {
        st.done
    }
}

/// Splits `input` into argument tokens as `tokenize` prescribes.
pub fn get_line_tokens(input: &str) -> (tokens: Vec<String>)
    ensures
        tokens.deep_view() == tokenize(input@),
{
    let len = input.unicode_len();
    let mut tokens: Vec<String> = Vec::new();
    let mut current: String = String::new();
    let mut in_single = false;
    let mut in_double = false;
    let mut escape = false;
    let mut i: usize = 0;
    while i < len
        invariant
            len == input@.len(),
            0 <= i <= len,
            tok_run(input@.subrange(0, i as int)).done =~= tokens.deep_view(),
            tok_run(input@.subrange(0, i as int)).cur == current@,
            tok_run(input@.subrange(0, i as int)).in_single == in_single,
            tok_run(input@.subrange(0, i as int)).in_double == in_double,
            tok_run(input@.subrange(0, i as int)).escape == escape,
        decreases len - i,
    {
        let ghost pre = input@.subrange(0, i as int);
        let c = input.get_char(i);
        proof {
            let post = input@.subrange(0, i + 1);
            assert(post.drop_last() =~= pre);
            assert(post.last() == c);
            assert(tok_run(post) == tok_step(tok_run(pre), c));
        }
        let ghost old_tokens = tokens.deep_view();
        let ghost old_cur = current@;
        if escape {
            push_char(&mut current, c);
            escape = false;
        } else if c == '\\' {
            escape = true;
        } else if c == '"' {
            if in_double && !in_single {
                let t = trim_str(current.as_str());
                tokens.push(t);
                current = String::new();
                in_double = false;
                proof {
                    assert(tokens.deep_view() =~= old_tokens.push(trim(old_cur)));
                }
            } else {
                in_double = !in_double;
            }
        } else if c == '\'' {
            if in_single && !in_double {
                let t = trim_str(current.as_str());
                tokens.push(t);
                current = String::new();
                in_single = false;
                proof {
                    assert(tokens.deep_view() =~= old_tokens.push(trim(old_cur)));
                }
            } else {
                in_single = !in_single;
            }
        } else if c == ' ' && !in_single && !in_double {
            if current.unicode_len() > 0 {
                let t = trim_str(current.as_str());
                tokens.push(t);
                current = String::new();
                proof {
                    assert(tokens.deep_view() =~= old_tokens.push(trim(old_cur)));
                }
            }
        } else {
            push_char(&mut current, c);
        }
        i += 1;
    }
    proof {
        assert(input@.subrange(0, len as int) =~= input@);
    }
    let t = trim_str(current.as_str());
    if t.unicode_len() > 0 {
        let ghost old_tokens = tokens.deep_view();
        tokens.push(t);
        proof {
            assert(tokens.deep_view() =~= old_tokens.push(trim(current@)));
        }
    }
    tokens
}

} // verus!
