//! Record formation and persistence planning: classifying one resolved
//! candidate into a record string, the copy/move target-directory
//! composition, loading persisted lines into a store, and the
//! capacity-bounded merge written back to disk.
//!
//! Canonicalizing a path against the real filesystem is the caller's
//! work; its outcome is handed in as a [`CanonStat`] value, and every
//! function here is verified for all values of it.

use vstd::prelude::*;
use crate::classify::Command;
use crate::store::{distinct, promote_spec, promote_or_insert, RecordStore};
use crate::strutil::{contains_char, str_contains_char, str_eq};

verus! {

/// The bound on the total record count after a write-back.
pub const LIMIT: usize = 20000;

/// What canonicalization made of a candidate path: the path did not
/// resolve (or does not exist), or it resolved to a regular file, or to a
/// directory, with the canonical absolute path in either case.
pub enum CanonStat {
    Missing,
    File(String),
    Dir(String),
}

/// The spec-level image of a [`CanonStat`].
pub enum CanonView {
    Missing,
    File(Seq<char>),
    Dir(Seq<char>),
}

impl View for CanonStat {
    type V = CanonView;

    open spec fn view(&self) -> CanonView {
        match self {
            CanonStat::Missing => CanonView::Missing,
            CanonStat::File(p) => CanonView::File(p@),
            CanonStat::Dir(p) => CanonView::Dir(p@),
        }
    }
}

/// The record string one candidate contributes, if any:
/// - a copy candidate holding a colon is a tagged remote copy target;
/// - every remote-login candidate is a tagged login record;
/// - otherwise the candidate must have canonicalized: a regular file is
///   recorded as its canonical path, unless that is the persistence file
///   itself; a directory as its canonical path with a trailing
///   separator (none added for the root), plus a trailing space marker
///   when the verb was change-directory.
pub open spec fn record_of(
    cmd: Command,
    obj: Seq<char>,
    canon: CanonView,
    data_filename: Seq<char>,
) -> Option<Seq<char>> {
    if cmd == Command::Scp && contains_char(obj, ':') {
        Some("SCP#"@ + obj)
    } else if cmd == Command::Ssh {
        Some("SSH#"@ + obj)
    } else {
        match canon {
            CanonView::Missing => None,
            CanonView::File(p) => if p == data_filename {
                None
            } else {
                Some(p)
            },
            CanonView::Dir(p) => {
                let d = if p == "/"@ {
                    p
                } else {
                    p + "/"@
                };
                if cmd == Command::Cd {
                    Some(d + " "@)
                } else {
                    Some(d)
                }
            },
        }
    }
}

/// Forms the record for one candidate and applies the store update to it;
/// candidates that yield no record leave both stores unchanged.
pub fn handle_filesystem_object(
    cmd: &Command,
    fs_object: &String,
    canon: &CanonStat,
    data_filename: &String,
    loaded: &mut RecordStore,
    fresh: &mut RecordStore,
)
    requires
        old(loaded).wf(),
        old(fresh).wf(),
    ensures
        final(loaded).wf(),
        final(fresh).wf(),
        match record_of(*cmd, fs_object@, canon@, data_filename@) {
            Some(rec) => final(loaded)@ == promote_spec(old(loaded)@, old(fresh)@, rec).0
                && final(fresh)@ == promote_spec(old(loaded)@, old(fresh)@, rec).1,
            None => final(loaded)@ == old(loaded)@ && final(fresh)@ == old(fresh)@,
        },
{
    if *cmd == Command::Scp && str_contains_char(fs_object.as_str(), ':') {
        let mut rec = String::from_str("SCP#");
        rec.append(fs_object.as_str());
        promote_or_insert(loaded, fresh, rec);
        return ;
    }
    if *cmd == Command::Ssh {
        let mut rec = String::from_str("SSH#");
        rec.append(fs_object.as_str());
        promote_or_insert(loaded, fresh, rec);
        return ;
    }
    match canon {
        CanonStat::Missing => {},
        CanonStat::File(p) => {
            if !str_eq(p.as_str(), data_filename.as_str()) {
                promote_or_insert(loaded, fresh, p.clone());
            }
        },
        CanonStat::Dir(p) => {
            let mut rec: String;
            if str_eq(p.as_str(), "/") {
                rec = p.clone();
            } else {
                rec = p.clone();
                rec.append("/");
            }
            if *cmd == Command::Cd {
                rec.append(" ");
            }
            promote_or_insert(loaded, fresh, rec);
        },
    }
}

/// For a copy or move with at least two candidates whose last candidate
/// canonicalized to a directory, that candidate leaves the list and its
/// canonical path is the target directory; otherwise nothing changes.
pub fn extract_target_dir(cmd: &Command, objects: &mut Vec<String>, last_canon: &CanonStat) -> (r:
    Option<String>)
    ensures
        ({
            let applies = (*cmd == Command::Cp || *cmd == Command::Mv) && old(objects)@.len() >= 2
                && last_canon@ is Dir;
            if applies {
                &&& final(objects)@ == old(objects)@.drop_last()
                &&& r matches Some(td) && td@ == last_canon@->Dir_0
            } else {
                &&& *final(objects) == *old(objects)
                &&& r is None
            }
        }),
{
    if (*cmd == Command::Cp || *cmd == Command::Mv) && objects.len() >= 2 {
        if let CanonStat::Dir(p) = last_canon {
            objects.pop();
            return Some(p.clone());
        }
    }
    None
}

/// A remote-login invocation is honored only with exactly one candidate;
/// with any other count the whole invocation is skipped.
pub fn login_skips(cmd: &Command, objects: &Vec<String>) -> (r: bool)
    ensures
        r == (*cmd == Command::Ssh && objects@.len() != 1),
{
    *cmd == Command::Ssh && objects.len() != 1
}

/// `s` without its trailing path separators.
pub open spec fn strip_trailing_slashes(s: Seq<char>) -> Seq<char>
    decreases s.len(),
{
    if s.len() > 0 && s[s.len() - 1] == '/' {
        strip_trailing_slashes(s.drop_last())
    } else {
        s
    }
}

/// The suffix of `s` after its last path separator (all of `s` when it
/// has none).
pub open spec fn after_last_slash(s: Seq<char>) -> Seq<char>
    decreases s.len(),
{
    if s.len() == 0 {
        s
    } else if s[s.len() - 1] == '/' {
        Seq::empty()
    } else {
        after_last_slash(s.drop_last()).push(s[s.len() - 1])
    }
}

/// The final path component of `s`: what stands after the last separator
/// once trailing separators are dropped; none when that is empty or a
/// relative step.
pub open spec fn base_name_spec(s: Seq<char>) -> Option<Seq<char>> {
    let b = after_last_slash(strip_trailing_slashes(s));
    if b.len() == 0 || b == "."@ || b == ".."@ {
        None
    } else {
        Some(b)
    }
}

proof fn lemma_strip_trailing(s: Seq<char>, k: int)
    requires
        0 <= k <= s.len(),
        forall|j: int| k <= j < s.len() ==> s[j] == '/',
        k > 0 ==> s[k - 1] != '/',
    ensures
        strip_trailing_slashes(s) =~= s.subrange(0, k),
    decreases s.len() - k,
{
    if k == s.len() {
        if s.len() > 0 {
            assert(s[s.len() - 1] != '/');
        }
        assert(s =~= s.subrange(0, s.len() as int));
    } else {
        let t = s.drop_last();
        assert(s[s.len() - 1] == '/');
        assert(forall|j: int| k <= j < t.len() ==> t[j] == s[j]);
        lemma_strip_trailing(t, k);
        assert(t.subrange(0, k) =~= s.subrange(0, k));
    }
}

proof fn lemma_after_last_slash(s: Seq<char>, k: int)
    requires
        0 <= k <= s.len(),
        forall|j: int| k <= j < s.len() ==> s[j] != '/',
        k > 0 ==> s[k - 1] == '/',
    ensures
        after_last_slash(s) =~= s.subrange(k, s.len() as int),
    decreases s.len() - k,
{
    if k == s.len() {
        if s.len() > 0 {
            assert(s[s.len() - 1] == '/');
        }
    } else {
        let t = s.drop_last();
        assert(s[s.len() - 1] != '/');
        assert(forall|j: int| k <= j < t.len() ==> t[j] == s[j]);
        lemma_after_last_slash(t, k);
        assert(after_last_slash(s) == after_last_slash(t).push(s[s.len() - 1]));
        assert(t.subrange(k, t.len() as int).push(s[s.len() - 1]) =~= s.subrange(
            k,
            s.len() as int,
        ));
    }
}

/// The final path component of `obj`, per `base_name_spec`.
pub fn base_name(obj: &str) -> (r: Option<String>)
    ensures
        match r {
            Some(b) => base_name_spec(obj@) == Some(b@),
            None => base_name_spec(obj@) is None,
        },
{
    let len = obj.unicode_len();
    let mut end: usize = len;
    while end > 0 && obj.get_char(end - 1) == '/'
        invariant
            len == obj@.len(),
            0 <= end <= len,
            forall|j: int| end <= j < len ==> obj@[j] == '/',
        decreases end,
    {
        end -= 1;
    }
    proof {
        lemma_strip_trailing(obj@, end as int);
    }
    let ghost stripped = obj@.subrange(0, end as int);
    let mut start: usize = end;
    while start > 0 && obj.get_char(start - 1) != '/'
        invariant
            len == obj@.len(),
            0 <= start <= end <= len,
            forall|j: int| start <= j < end ==> obj@[j] != '/',
        decreases start,
    {
        start -= 1;
    }
    proof {
        assert(forall|j: int| start <= j < stripped.len() ==> stripped[j] == obj@[j]);
        if start > 0 {
            assert(stripped[start - 1] == obj@[start - 1]);
        }
        lemma_after_last_slash(stripped, start as int);
        assert(stripped.subrange(start as int, stripped.len() as int) =~= obj@.subrange(
            start as int,
            end as int,
        ));
    }
    let b = obj.substring_char(start, end);
    if b.unicode_len() == 0 || str_eq(b, ".") || str_eq(b, "..") {
        None
    } else {
        Some(String::from_str(b))
    }
}

/// The composed destination of one source under a target directory: the
/// directory, a separator, and the source's final path component; none
/// when the source has no such component.
pub fn compose_target(target_dir: &String, obj: &String) -> (r: Option<String>)
    ensures
        match base_name_spec(obj@) {
            Some(b) => r matches Some(c) && c@ == target_dir@ + "/"@ + b,
            None => r is None,
        },
{
    match base_name(obj.as_str()) {
        Some(b) => {
            let mut c = target_dir.clone();
            c.append("/");
            c.append(b.as_str());
            proof {
                assert(c@ =~= target_dir@ + "/"@ + b@);
            }
            Some(c)
        },
        None => None,
    }
}

/// The persisted lines in file order with later duplicates dropped: what
/// inserting each line in turn leaves in a store.
pub open spec fn dedup_in_order(lines: Seq<Seq<char>>) -> Seq<Seq<char>>
    decreases lines.len(),
{
    if lines.len() == 0 {
        lines
    } else {
        let p = dedup_in_order(lines.drop_last());
        if p.contains(lines.last()) {
            p
        } else {
            p.push(lines.last())
        }
    }
}

/// Fills a store from the persisted lines, in file order, first
/// occurrence winning.
pub fn load_records(lines: Vec<String>) -> (s: RecordStore)
    ensures
        s.wf(),
        s@ == dedup_in_order(lines.deep_view()),
{
    let mut s = RecordStore::new();
    let ghost all = lines.deep_view();
    let mut i: usize = 0;
    let n = lines.len();
    while i < n
        invariant
            n == all.len(),
            all == lines.deep_view(),
            0 <= i <= n,
            s.wf(),
            s@ == dedup_in_order(all.subrange(0, i as int)),
        decreases n - i,
    {
        let ghost pre = all.subrange(0, i as int);
        let ghost next = all.subrange(0, i + 1);
        proof {
            assert(next.drop_last() =~= pre);
            assert(next.last() == all[i as int]);
            assert(lines[i as int]@ == all[i as int]);
        }
        s.insert(lines[i].clone());
        i += 1;
    }
    proof {
        assert(all.subrange(0, n as int) =~= all);
    }
    s
}

/// What a write-back holds: the whole new batch first, then as many
/// loaded records as keep the total within `cap`; when the new batch
/// alone reaches `cap`, no loaded record is retained.
pub open spec fn merged_spec(fresh: Seq<Seq<char>>, loaded: Seq<Seq<char>>, cap: nat) -> Seq<
    Seq<char>,
> {
    if fresh.len() >= cap {
        fresh
    } else if loaded.len() <= cap - fresh.len() {
        fresh + loaded
    } else {
        fresh + loaded.take(cap - fresh.len())
    }
}

/// Lays out the records a write-back stores: the new batch, then the
/// loaded records that fit within `cap`.
pub fn render_output(fresh: &RecordStore, loaded: &RecordStore, cap: usize) -> (out: Vec<String>)
    ensures
        out.deep_view() == merged_spec(fresh@, loaded@, cap as nat),
{
    let mut out: Vec<String> = Vec::new();
    let fresh_len = fresh.len();
    let mut i: usize = 0;
    while i < fresh_len
        invariant
            fresh_len == fresh@.len(),
            0 <= i <= fresh_len,
            out.deep_view() =~= fresh@.subrange(0, i as int),
        decreases fresh_len - i,
    {
        if let Some(v) = fresh.get_at(i) {
            let ghost pre = out.deep_view();
            out.push(v);
            proof {
                assert(out.deep_view() =~= pre.push(fresh@[i as int]));
                assert(pre.push(fresh@[i as int]) =~= fresh@.subrange(0, i + 1));
            }
        }
        i += 1;
    }
    proof {
        assert(fresh@.subrange(0, fresh_len as int) =~= fresh@);
    }
    if fresh_len >= cap {
        return out;
    }
    let room: usize = cap - fresh_len;
    let loaded_len = loaded.len();
    let keep: usize = if loaded_len <= room {
        loaded_len
    } else {
        room
    };
    let mut j: usize = 0;
    while j < keep
        invariant
            fresh_len == fresh@.len(),
            loaded_len == loaded@.len(),
            keep <= loaded_len,
            0 <= j <= keep,
            out.deep_view() =~= fresh@ + loaded@.subrange(0, j as int),
        decreases keep - j,
    {
        if let Some(v) = loaded.get_at(j) {
            let ghost pre = out.deep_view();
            out.push(v);
            proof {
                assert(out.deep_view() =~= pre.push(loaded@[j as int]));
                assert((fresh@ + loaded@.subrange(0, j as int)).push(loaded@[j as int]) =~= fresh@
                    + loaded@.subrange(0, j + 1));
            }
        }
        j += 1;
    }
    proof {
        if loaded_len <= room {
            assert(loaded@.subrange(0, keep as int) =~= loaded@);
        } else {
            assert(loaded@.subrange(0, keep as int) =~= loaded@.take(cap - fresh_len));
        }
    }
    out
}

/// A write-back of disjoint, duplicate-free batches holds no duplicate
/// record, and, whenever the new batch fits within the capacity, no more
/// than `cap` records in all.
pub proof fn lemma_merged_sound(fresh: Seq<Seq<char>>, loaded: Seq<Seq<char>>, cap: nat)
    requires
        distinct(fresh),
        distinct(loaded),
        forall|v: Seq<char>| fresh.contains(v) ==> !loaded.contains(v),
    ensures
        distinct(merged_spec(fresh, loaded, cap)),
        fresh.len() <= cap ==> merged_spec(fresh, loaded, cap).len() <= cap,
{
    let m = merged_spec(fresh, loaded, cap);
    if fresh.len() >= cap {
    } else {
        let kept = if loaded.len() <= cap - fresh.len() {
            loaded
        } else {
            loaded.take(cap - fresh.len())
        };
        assert(forall|k: int| 0 <= k < kept.len() ==> kept[k] == loaded[k]);
        assert(m == fresh + kept);
        assert forall|i: int, j: int| 0 <= i < j < m.len() implies m[i] != m[j] by {
            if i < fresh.len() && j < fresh.len() {
            } else if i >= fresh.len() && j >= fresh.len() {
                assert(m[i] == loaded[i - fresh.len()]);
                assert(m[j] == loaded[j - fresh.len()]);
            } else {
                assert(m[i] == fresh[i]);
                assert(m[j] == loaded[j - fresh.len()]);
                assert(fresh.contains(fresh[i]));
                if m[i] == m[j] {
                    assert(loaded.contains(loaded[j - fresh.len()]));
                }
            }
        }
    }
}

/// For any sequence of candidate updates against a duplicate-free load,
/// the write-back holds no record twice, and holds no more than `cap`
/// records whenever the new batch alone fits within `cap`.
pub proof fn lemma_store_sound(loaded: Seq<Seq<char>>, vs: Seq<Seq<char>>, cap: nat)
    requires
        distinct(loaded),
    ensures
        ({
            let p = crate::store::promote_all(loaded, Seq::<Seq<char>>::empty(), vs);
            let m = merged_spec(p.1, p.0, cap);
            &&& distinct(m)
            &&& p.1.len() <= cap ==> m.len() <= cap
        }),
{
    crate::store::lemma_promote_all_preserves(loaded, Seq::<Seq<char>>::empty(), vs);
    let p = crate::store::promote_all(loaded, Seq::<Seq<char>>::empty(), vs);
    lemma_merged_sound(p.1, p.0, cap);
}

/// Promoting a loaded record that is not the most recent one puts it in
/// front of the write-back, and every other record keeps its place
/// relative to the rest.
pub proof fn lemma_promote_then_merge_fronts(loaded: Seq<Seq<char>>, v: Seq<char>, cap: nat)
    requires
        distinct(loaded),
        loaded.contains(v),
        loaded[0] != v,
        loaded.len() <= cap,
    ensures
        ({
            let (l2, n2) = promote_spec(loaded, Seq::<Seq<char>>::empty(), v);
            let m = merged_spec(n2, l2, cap);
            let i = loaded.index_of(v);
            &&& m.len() == loaded.len()
            &&& m[0] == v
            &&& m == seq![v] + loaded.remove(i)
            &&& forall|k: int| 1 <= k <= i ==> m[k] == loaded[k - 1]
            &&& forall|k: int| i < k < loaded.len() ==> m[k] == loaded[k]
        }),
{
    let (l2, n2) = promote_spec(loaded, Seq::<Seq<char>>::empty(), v);
    let i = loaded.index_of(v);
    assert(0 <= i < loaded.len() && loaded[i] == v);
    assert(i != 0);
    assert(l2 == loaded.remove(i));
    loaded.remove_ensures(i);
    assert(n2 =~= seq![v]);
    let m = merged_spec(n2, l2, cap);
    assert(m == n2 + l2);
    assert(m =~= seq![v] + loaded.remove(i));
}

/// The path of the persistence file under a home directory.
pub fn data_file_path(home: &str) -> (r: String)
    ensures
        r@ == home@ + "/.recent.txt"@,
{
    let mut p = String::from_str(home);
    p.append("/.recent.txt");
    p
}

} // verus!
