//! Command classification and path expansion: determines the verb a
//! command line invokes (skipping one privilege-elevation prefix token)
//! and turns the remaining tokens into fully-qualified candidate object
//! strings, dropping option flags and null-device paths, and aborting the
//! whole candidate list when the destination-directory option form of a
//! copy or move is seen.

use vstd::prelude::*;
use crate::strutil::{contains_char, starts_with, str_contains_char, str_eq, str_starts_with};
use crate::tokenize::{get_line_tokens, tokenize};

verus! {

/// The supported command verbs; anything else is `Etc`.
#[derive(PartialEq, Eq, Structural, Clone, Copy, Debug)]
pub enum Command {
    Cd,
    Cp,
    Mv,
    Scp,
    Ssh,
    Rm,
    Rmdir,
    Etc,
}

/// The verb a command-name token names.
pub open spec fn verb_of(t: Seq<char>) -> Command {
    if t == "cd"@ {
        Command::Cd
    } else if t == "cp"@ {
        Command::Cp
    } else if t == "mv"@ {
        Command::Mv
    } else if t == "scp"@ {
        Command::Scp
    } else if t == "ssh"@ {
        Command::Ssh
    } else if t == "rm"@ {
        Command::Rm
    } else if t == "rmdir"@ {
        Command::Rmdir
    } else {
        Command::Etc
    }
}

/// A token that itself looks like a filesystem path invocation.
pub open spec fn is_pathlike(t: Seq<char>) -> bool {
    starts_with(t, "./"@) || starts_with(t, "../"@) || starts_with(t, "/"@) || starts_with(
        t,
        "~/"@,
    )
}

/// The token list with one leading privilege-elevation prefix removed.
pub open spec fn skip_sudo(tokens: Seq<Seq<char>>) -> Seq<Seq<char>> {
    if tokens.len() > 0 && tokens[0] == "sudo"@ {
        tokens.drop_first()
    } else {
        tokens
    }
}

/// The verb of a token list: the first token after the prefix skip names it.
pub open spec fn classify(tokens: Seq<Seq<char>>) -> Command {
    let rest = skip_sudo(tokens);
    if rest.len() == 0 {
        Command::Etc
    } else {
        verb_of(rest[0])
    }
}

/// What one argument token contributes.
pub enum TokenAction {
    /// The token is an option flag or a null-device path: nothing.
    Dropped,
    /// The destination-directory option form of a copy or move: the whole
    /// candidate list of this invocation is discarded.
    Aborts,
    /// A fully-qualified candidate object string.
    Kept(Seq<char>),
}

/// Expansion of one argument token under a verb:
/// - option flags are dropped, except the destination-directory forms of
///   copy/move, which abort the invocation;
/// - null-device paths are dropped;
/// - `~/` is replaced by the home directory; absolute paths stand;
///   colon-bearing tokens (remote specs) and every remote-login token
///   pass through verbatim; anything else is joined to the working
///   directory.
pub open spec fn token_action(
    t: Seq<char>,
    cmd: Command,
    home: Seq<char>,
    pwd: Seq<char>,
) -> TokenAction {
    if starts_with(t, "-"@) {
        if (cmd == Command::Cp || cmd == Command::Mv) && (t == "-t"@ || starts_with(
            t,
            "--target-directory"@,
        )) {
            TokenAction::Aborts
        } else {
            TokenAction::Dropped
        }
    } else if starts_with(t, "/dev/null"@) {
        TokenAction::Dropped
    } else if starts_with(t, "~/"@) {
        TokenAction::Kept(home + t.drop_first())
    } else if starts_with(t, "/"@) {
        TokenAction::Kept(t)
    } else if contains_char(t, ':') {
        TokenAction::Kept(t)
    } else if cmd == Command::Ssh {
        TokenAction::Kept(t)
    } else {
        TokenAction::Kept(pwd + "/"@ + t)
    }
}

/// The outcome of scanning the argument tokens: the candidates collected,
/// and whether the invocation was aborted (candidates discarded).
pub struct ArgScan {
    pub args: Seq<Seq<char>>,
    pub aborted: bool,
}

/// One scan step: after an abort nothing more is collected.
pub open spec fn scan_step(
    acc: ArgScan,
    t: Seq<char>,
    cmd: Command,
    home: Seq<char>,
    pwd: Seq<char>,
) -> ArgScan {
    if acc.aborted {
        acc
    } else {
        match token_action(t, cmd, home, pwd) {
            TokenAction::Aborts => ArgScan { args: Seq::empty(), aborted: true },
            TokenAction::Dropped => acc,
            TokenAction::Kept(v) => ArgScan { args: acc.args.push(v), aborted: false },
        }
    }
}

/// The scan of a whole argument-token list, left to right.
pub open spec fn scan_args(
    tokens: Seq<Seq<char>>,
    cmd: Command,
    home: Seq<char>,
    pwd: Seq<char>,
) -> ArgScan
    decreases tokens.len(),
{
    if tokens.len() == 0 {
        ArgScan { args: Seq::empty(), aborted: false }
    } else {
        scan_step(scan_args(tokens.drop_last(), cmd, home, pwd), tokens.last(), cmd, home, pwd)
    }
}

/// The argument tokens of a token list: everything after the prefix skip,
/// including the command-name token itself only when it is path-like.
pub open spec fn arg_tokens(tokens: Seq<Seq<char>>) -> Seq<Seq<char>> {
    let rest = skip_sudo(tokens);
    if rest.len() == 0 {
        rest
    } else if is_pathlike(rest[0]) {
        rest
    } else {
        rest.drop_first()
    }
}

/// The candidate objects of a token list under its own verb.
pub open spec fn scan_objects(tokens: Seq<Seq<char>>, home: Seq<char>, pwd: Seq<char>) -> ArgScan {
    scan_args(arg_tokens(tokens), classify(tokens), home, pwd)
}

/// The verb named by one token.
pub fn verb_of_token(t: &str) -> (c: Command)
    ensures
        c == verb_of(t@),
{
    if str_eq(t, "cd") {
        Command::Cd
    } else if str_eq(t, "cp") {
        Command::Cp
    } else if str_eq(t, "mv") {
        Command::Mv
    } else if str_eq(t, "scp") {
        Command::Scp
    } else if str_eq(t, "ssh") {
        Command::Ssh
    } else if str_eq(t, "rm") {
        Command::Rm
    } else if str_eq(t, "rmdir") {
        Command::Rmdir
    } else {
        Command::Etc
    }
}

/// Whether the token itself looks like a filesystem path invocation.
pub fn is_pathlike_token(t: &str) -> (r: bool)
    ensures
        r == is_pathlike(t@),
{
    str_starts_with(t, "./") || str_starts_with(t, "../") || str_starts_with(t, "/")
        || str_starts_with(t, "~/")
}

/// Expands one argument token; mirrors `token_action`.
fn apply_token(t: &String, cmd: Command, home: &str, pwd: &str, list: &mut Vec<String>) -> (aborted:
    bool)
    ensures
        ({
            let act = token_action(t@, cmd, home@, pwd@);
            match act {
                TokenAction::Aborts => aborted && final(list)@.len() == 0,
                TokenAction::Dropped => !aborted && *final(list) == *old(list),
                TokenAction::Kept(v) => !aborted && final(list).deep_view() == old(
                    list,
                ).deep_view().push(v),
            }
        }),
{
    let ghost old_deep = list.deep_view();
    if str_starts_with(t.as_str(), "-") {
        if (cmd == Command::Cp || cmd == Command::Mv) && (str_eq(t.as_str(), "-t")
            || str_starts_with(t.as_str(), "--target-directory")) {
            list.clear();
            return true;
        }
        return false;
    }
    if str_starts_with(t.as_str(), "/dev/null") {
        return false;
    }
    let full: String;
    if str_starts_with(t.as_str(), "~/") {
        proof {
            reveal_strlit("~/");
        }
        let len = t.as_str().unicode_len();
        let tail = t.as_str().substring_char(1, len);
        let mut h = String::from_str(home);
        h.append(tail);
        proof {
            assert(h@ =~= home@ + t@.drop_first());
        }
        full = h;
    } else if str_starts_with(t.as_str(), "/") {
        full = t.clone();
    } else if str_contains_char(t.as_str(), ':') {
        full = t.clone();
    } else if cmd == Command::Ssh {
        full = t.clone();
    } else {
        let mut p = String::from_str(pwd);
        p.append("/");
        p.append(t.as_str());
        proof {
            assert(p@ =~= pwd@ + "/"@ + t@);
        }
        full = p;
    }
    let ghost v = full@;
    list.push(full);
    proof {
        assert(list.deep_view() =~= old_deep.push(v));
    }
    false
}

/// Tokenizes `input`, determines its verb, and appends the expanded
/// candidate objects to `list`; on the destination-directory option form
/// of a copy or move the list is cleared instead.
#[verifier::rlimit(60)]
pub fn get_filesystem_object_list(input: &str, home: &str, pwd: &str, list: &mut Vec<String>) -> (
    cmd: Command)
    ensures
        cmd == classify(tokenize(input@)),
        ({
            let scan = scan_objects(tokenize(input@), home@, pwd@);
            if scan.aborted {
                final(list)@.len() == 0
            } else {
                final(list).deep_view() == old(list).deep_view() + scan.args
            }
        }),
{
    let tokens = get_line_tokens(input);
    let ghost toks = tokenize(input@);
    let mut idx: usize = 0;
    if tokens.len() > 0 && str_eq(tokens[0].as_str(), "sudo") {
        idx = 1;
    }
    proof {
        if idx == 1 {
            assert(skip_sudo(toks) =~= toks.drop_first());
        } else {
            assert(skip_sudo(toks) == toks);
        }
    }
    let ghost rest = skip_sudo(toks);
    if idx >= tokens.len() {
        proof {
            assert(rest.len() == 0);
            assert(scan_objects(toks, home@, pwd@).args =~= Seq::<Seq<char>>::empty());
            assert(list.deep_view() =~= list.deep_view() + scan_objects(toks, home@, pwd@).args);
        }
        return Command::Etc;
    }
    let cmd = verb_of_token(tokens[idx].as_str());
    proof {
        assert(rest[0] == toks[idx as int]);
        assert(cmd == classify(toks));
    }
    let start: usize = if is_pathlike_token(tokens[idx].as_str()) {
        idx
    } else {
        idx + 1
    };
    let ghost argtoks = arg_tokens(toks);
    proof {
        assert(argtoks =~= toks.subrange(start as int, toks.len() as int));
    }
    let ghost old_deep = list.deep_view();
    let mut k: usize = start;
    while k < tokens.len()
        invariant
            tokens.deep_view() == toks,
            toks == tokenize(input@),
            cmd == classify(toks),
            argtoks == arg_tokens(toks),
            old_deep == old(list).deep_view(),
            start <= k <= tokens.len(),
            argtoks == toks.subrange(start as int, toks.len() as int),
            !scan_args(argtoks.subrange(0, k - start), cmd, home@, pwd@).aborted,
            list.deep_view() == old_deep + scan_args(
                argtoks.subrange(0, k - start),
                cmd,
                home@,
                pwd@,
            ).args,
        decreases tokens.len() - k,
    {
        let ghost done = argtoks.subrange(0, k - start);
        let ghost next = argtoks.subrange(0, k - start + 1);
        proof {
            assert(next.drop_last() =~= done);
            assert(next.last() == toks[k as int]);
            assert(tokens[k as int]@ == toks[k as int]);
        }
        let aborted = apply_token(&tokens[k], cmd, home, pwd, list);
        if aborted {
            proof {
                let whole = scan_args(argtoks, cmd, home@, pwd@);
                lemma_abort_propagates(argtoks, next.len() as int, cmd, home@, pwd@);
                assert(whole.aborted);
            }
            return cmd;
        }
        k += 1;
    }
    proof {
        assert(argtoks.subrange(0, tokens@.len() - start) =~= argtoks);
    }
    cmd
}

/// Once a prefix of the argument tokens aborts the scan, the whole scan
/// is aborted.
proof fn lemma_abort_propagates(
    tokens: Seq<Seq<char>>,
    n: int,
    cmd: Command,
    home: Seq<char>,
    pwd: Seq<char>,
)
    requires
        0 <= n <= tokens.len(),
        scan_args(tokens.subrange(0, n), cmd, home, pwd).aborted,
    ensures
        scan_args(tokens, cmd, home, pwd).aborted,
    decreases tokens.len() - n,
{
    if n == tokens.len() {
        assert(tokens.subrange(0, n) =~= tokens);
    } else {
        let next = tokens.subrange(0, n + 1);
        assert(next.drop_last() =~= tokens.subrange(0, n));
        assert(scan_args(next, cmd, home, pwd).aborted);
        lemma_abort_propagates(tokens, n + 1, cmd, home, pwd);
    }
}

} // verus!
