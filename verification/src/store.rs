//! The recency store: an ordered, duplicate-free collection of record
//! strings, most-recent-first, held in an `indexmap::IndexSet` behind
//! trusted wrappers, with the insert/promote decision and its laws.

use vstd::prelude::*;

verus! {

/// `indexmap::IndexSet`: a hash set that also keeps its entries in
/// insertion order.
#[verifier::external_type_specification]
#[verifier::external_body]
#[verifier::reject_recursive_types(T)]
#[verifier::reject_recursive_types(S)]
pub struct ExIndexSet<T, S>(indexmap::IndexSet<T, S>);

/// What an `indexmap::IndexSet<String>` holds, in its insertion order,
/// each entry as its character sequence.
pub uninterp spec fn entries(s: indexmap::IndexSet<String>) -> Seq<Seq<char>>;

/// Relies on `indexmap::IndexSet::new`: an empty set.
#[verifier::external_body]
fn iset_new() -> (r: indexmap::IndexSet<String>)
    ensures
        entries(r) == Seq::<Seq<char>>::empty(),
{
    indexmap::IndexSet::new()
}

/// Relies on `indexmap::IndexSet::len`: the number of entries.
#[verifier::external_body]
fn iset_len(s: &indexmap::IndexSet<String>) -> (r: usize)
    ensures
        r == entries(*s).len(),
{
    s.len()
}

/// Relies on `indexmap::IndexSet::contains`: whether an equal entry
/// exists; `String`s are equal exactly when their characters are.
#[verifier::external_body]
fn iset_contains(s: &indexmap::IndexSet<String>, v: &String) -> (r: bool)
    ensures
        r == entries(*s).contains(v@),
{
    s.contains(v)
}

/// Relies on `indexmap::IndexSet::insert`: when no equal entry exists the
/// value is appended at the end and `true` returned; otherwise the set is
/// left as it stands, its order included, and `false` returned.
#[verifier::external_body]
fn iset_insert(s: &mut indexmap::IndexSet<String>, v: String) -> (r: bool)
    ensures
        r == !entries(*old(s)).contains(v@),
        r ==> entries(*final(s)) == entries(*old(s)).push(v@),
        !r ==> entries(*final(s)) == entries(*old(s)),
{
    s.insert(v)
}

/// Relies on `indexmap::IndexSet::shift_remove`: the entry equal to the
/// value is removed and the entries that follow shift left, keeping their
/// relative order; `false` when no equal entry exists.
#[verifier::external_body]
fn iset_shift_remove(s: &mut indexmap::IndexSet<String>, v: &String) -> (r: bool)
    ensures
        r == entries(*old(s)).contains(v@),
        !r ==> entries(*final(s)) == entries(*old(s)),
        r ==> exists|i: int|
            0 <= i < entries(*old(s)).len() && entries(*old(s))[i] == v@ && entries(*final(s))
                == entries(*old(s)).remove(i),
{
    s.shift_remove(v)
}

/// Relies on `indexmap::IndexSet::first`: the entry at index 0, if any.
#[verifier::external_body]
fn iset_first(s: &indexmap::IndexSet<String>) -> (r: Option<String>)
    ensures
        match r {
            Some(v) => entries(*s).len() > 0 && v@ == entries(*s)[0],
            None => entries(*s).len() == 0,
        },
{
    s.first().cloned()
}

/// Relies on `indexmap::IndexSet::get_index`: the entry at the given
/// index, if the index is in range.
#[verifier::external_body]
fn iset_get_index(s: &indexmap::IndexSet<String>, i: usize) -> (r: Option<String>)
    ensures
        match r {
            Some(v) => i < entries(*s).len() && v@ == entries(*s)[i as int],
            None => i >= entries(*s).len(),
        },
{
    s.get_index(i).cloned()
}

/// No two positions of `s` hold equal strings.
pub open spec fn distinct(s: Seq<Seq<char>>) -> bool {
    forall|i: int, j: int| 0 <= i < j < s.len() ==> s[i] != s[j]
}

/// An ordered, duplicate-free collection of record strings; the order
/// encodes recency.
pub struct RecordStore {
    inner: indexmap::IndexSet<String>,
}

impl View for RecordStore {
    type V = Seq<Seq<char>>;

    closed spec fn view(&self) -> Seq<Seq<char>> {
        entries(self.inner)
    }
}

proof fn lemma_distinct_push(s: Seq<Seq<char>>, v: Seq<char>)
    requires
        distinct(s),
        !s.contains(v),
    ensures
        distinct(s.push(v)),
{
    let t = s.push(v);
    assert forall|i: int, j: int| 0 <= i < j < t.len() implies t[i] != t[j] by {
        if j < s.len() {
        } else {
            assert(t[j] == v);
            assert(t[i] == s[i]);
            assert(s.contains(s[i]));
        }
    }
}

proof fn lemma_distinct_remove(s: Seq<Seq<char>>, i: int)
    requires
        distinct(s),
        0 <= i < s.len(),
    ensures
        distinct(s.remove(i)),
        forall|v: Seq<char>| s.remove(i).contains(v) ==> s.contains(v),
        !s.remove(i).contains(s[i]),
{
    let t = s.remove(i);
    s.remove_ensures(i);
    assert forall|a: int, b: int| 0 <= a < b < t.len() implies t[a] != t[b] by {
        let a0 = if a < i { a } else { a + 1 };
        let b0 = if b < i { b } else { b + 1 };
        assert(t[a] == s[a0] && t[b] == s[b0]);
    }
    assert forall|v: Seq<char>| t.contains(v) implies s.contains(v) by {
        let k = choose|k: int| 0 <= k < t.len() && t[k] == v;
        let k0 = if k < i { k } else { k + 1 };
        assert(s[k0] == v);
    }
    assert forall|k: int| 0 <= k < t.len() implies t[k] != s[i] by {
        let k0 = if k < i { k } else { k + 1 };
        assert(t[k] == s[k0]);
    }
}

impl RecordStore {
    /// Every entry occurs once.
    pub open spec fn wf(&self) -> bool {
        distinct(self@)
    }

    /// An empty store.
    pub fn new() -> (s: RecordStore)
        ensures
            s@ == Seq::<Seq<char>>::empty(),
            s.wf(),
    {
        RecordStore { inner: iset_new() }
    }

    /// The number of records held.
    pub fn len(&self) -> (n: usize)
        ensures
            n == self@.len(),
    {
        iset_len(&self.inner)
    }

    /// Whether a record equal to `v` is held.
    pub fn contains(&self, v: &String) -> (r: bool)
        ensures
            r == self@.contains(v@),
    {
        iset_contains(&self.inner, v)
    }

    /// The most recent record, if any.
    pub fn first(&self) -> (r: Option<String>)
        ensures
            match r {
                Some(v) => self@.len() > 0 && v@ == self@[0],
                None => self@.len() == 0,
            },
    {
        iset_first(&self.inner)
    }

    /// The record at position `i`, if in range.
    pub fn get_at(&self, i: usize) -> (r: Option<String>)
        ensures
            match r {
                Some(v) => i < self@.len() && v@ == self@[i as int],
                None => i >= self@.len(),
            },
    {
        iset_get_index(&self.inner, i)
    }

    /// Appends `v` at the back unless an equal record is already held.
    pub fn insert(&mut self, v: String) -> (r: bool)
        requires
            old(self).wf(),
        ensures
            final(self).wf(),
            r == !old(self)@.contains(v@),
            r ==> final(self)@ == old(self)@.push(v@),
            !r ==> final(self)@ == old(self)@,
    {
        let ghost pre = self@;
        let ghost vv = v@;
        let r = iset_insert(&mut self.inner, v);
        proof {
            if r {
                lemma_distinct_push(pre, vv);
            }
        }
        r
    }

    /// Removes the record equal to `v`, if held, keeping the relative
    /// order of the rest.
    pub fn remove(&mut self, v: &String) -> (r: bool)
        requires
            old(self).wf(),
        ensures
            final(self).wf(),
            r == old(self)@.contains(v@),
            r ==> final(self)@ == old(self)@.remove(old(self)@.index_of(v@)),
            !r ==> final(self)@ == old(self)@,
            forall|w: Seq<char>| final(self)@.contains(w) ==> old(self)@.contains(w),
            r ==> !final(self)@.contains(v@),
    {
        let ghost pre = self@;
        let r = iset_shift_remove(&mut self.inner, v);
        proof {
            if r {
                let i = choose|i: int|
                    0 <= i < pre.len() && pre[i] == v@ && self@ == pre.remove(i);
                let k = pre.index_of(v@);
                assert(pre.contains(v@));
                assert(0 <= k < pre.len() && pre[k] == v@);
                assert(i == k);
                lemma_distinct_remove(pre, i);
                assert(pre[i] == v@);
            }
        }
        r
    }
}

/// The store update for one record `v` against the loaded records and the
/// records new in this invocation: when `v` is already the most recent
/// loaded record nothing changes; otherwise `v` leaves the loaded records
/// (if present) and joins the new batch (if not already there).
pub open spec fn promote_spec(
    loaded: Seq<Seq<char>>,
    fresh: Seq<Seq<char>>,
    v: Seq<char>,
) -> (Seq<Seq<char>>, Seq<Seq<char>>) {
    if loaded.len() > 0 && loaded[0] == v {
        (loaded, fresh)
    } else {
        let l2 = if loaded.contains(v) {
            loaded.remove(loaded.index_of(v))
        } else {
            loaded
        };
        let n2 = if fresh.contains(v) {
            fresh
        } else {
            fresh.push(v)
        };
        (l2, n2)
    }
}

/// Applies `promote_spec` to the two stores.
pub fn promote_or_insert(loaded: &mut RecordStore, fresh: &mut RecordStore, v: String)
    requires
        old(loaded).wf(),
        old(fresh).wf(),
    ensures
        final(loaded).wf(),
        final(fresh).wf(),
        final(loaded)@ == promote_spec(old(loaded)@, old(fresh)@, v@).0,
        final(fresh)@ == promote_spec(old(loaded)@, old(fresh)@, v@).1,
{
    if loaded.contains(&v) {
        let first = loaded.first();
        if let Some(f) = first {
            if f == v {
                return ;
            }
        }
        loaded.remove(&v);
    }
    fresh.insert(v);
}

/// However many records are pushed through the store update, the two
/// batches stay duplicate-free and share no record: every record is held
/// at most once.
pub proof fn lemma_promote_preserves(
    loaded: Seq<Seq<char>>,
    fresh: Seq<Seq<char>>,
    v: Seq<char>,
)
    requires
        distinct(loaded),
        distinct(fresh),
        forall|w: Seq<char>| fresh.contains(w) ==> !loaded.contains(w),
    ensures
        ({
            let (l2, n2) = promote_spec(loaded, fresh, v);
            &&& distinct(l2)
            &&& distinct(n2)
            &&& forall|w: Seq<char>| n2.contains(w) ==> !l2.contains(w)
        }),
{
    let (l2, n2) = promote_spec(loaded, fresh, v);
    if loaded.len() > 0 && loaded[0] == v {
    } else {
        if loaded.contains(v) {
            let i = loaded.index_of(v);
            assert(0 <= i < loaded.len() && loaded[i] == v);
            lemma_distinct_remove(loaded, i);
        }
        if !fresh.contains(v) {
            lemma_distinct_push(fresh, v);
            assert forall|w: Seq<char>| n2.contains(w) implies !l2.contains(w) by {
                let k = choose|k: int| 0 <= k < n2.len() && n2[k] == w;
                if k < fresh.len() {
                    assert(fresh.contains(w));
                    if loaded.contains(v) {
                        assert(forall|u: Seq<char>| l2.contains(u) ==> loaded.contains(u));
                    }
                } else {
                    assert(w == v);
                    if loaded.contains(v) {
                        assert(!l2.contains(v));
                    }
                }
            }
        } else {
            assert forall|w: Seq<char>| n2.contains(w) implies !l2.contains(w) by {
                if loaded.contains(v) {
                    assert(forall|u: Seq<char>| l2.contains(u) ==> loaded.contains(u));
                }
            }
        }
    }
}

/// The two batches after a whole sequence of store updates, applied left
/// to right.
pub open spec fn promote_all(
    loaded: Seq<Seq<char>>,
    fresh: Seq<Seq<char>>,
    vs: Seq<Seq<char>>,
) -> (Seq<Seq<char>>, Seq<Seq<char>>)
    decreases vs.len(),
{
    if vs.len() == 0 {
        (loaded, fresh)
    } else {
        let p = promote_all(loaded, fresh, vs.drop_last());
        promote_spec(p.0, p.1, vs.last())
    }
}

/// However many candidates one invocation pushes through the store
/// update, the loaded and new batches stay duplicate-free and share no
/// record.
pub proof fn lemma_promote_all_preserves(
    loaded: Seq<Seq<char>>,
    fresh: Seq<Seq<char>>,
    vs: Seq<Seq<char>>,
)
    requires
        distinct(loaded),
        distinct(fresh),
        forall|w: Seq<char>| fresh.contains(w) ==> !loaded.contains(w),
    ensures
        ({
            let p = promote_all(loaded, fresh, vs);
            &&& distinct(p.0)
            &&& distinct(p.1)
            &&& forall|w: Seq<char>| p.1.contains(w) ==> !p.0.contains(w)
        }),
    decreases vs.len(),
{
    if vs.len() > 0 {
        lemma_promote_all_preserves(loaded, fresh, vs.drop_last());
        let p = promote_all(loaded, fresh, vs.drop_last());
        lemma_promote_preserves(p.0, p.1, vs.last());
    }
}

/// Updating with the record that is already the most recent loaded one
/// changes neither batch nor any order.
pub proof fn lemma_promote_noop(loaded: Seq<Seq<char>>, fresh: Seq<Seq<char>>, v: Seq<char>)
    requires
        loaded.len() > 0,
        loaded[0] == v,
    ensures
        promote_spec(loaded, fresh, v) == (loaded, fresh),
{
}

/// Re-applying the update for the same record changes nothing: one no-op
/// promote is idempotent.
pub proof fn lemma_promote_idempotent(
    loaded: Seq<Seq<char>>,
    fresh: Seq<Seq<char>>,
    v: Seq<char>,
)
    requires
        distinct(loaded),
    ensures
        ({
            let (l2, n2) = promote_spec(loaded, fresh, v);
            promote_spec(l2, n2, v) == (l2, n2)
        }),
{
    let (l2, n2) = promote_spec(loaded, fresh, v);
    if loaded.len() > 0 && loaded[0] == v {
    } else {
        if loaded.contains(v) {
            let i = loaded.index_of(v);
            assert(0 <= i < loaded.len() && loaded[i] == v);
            lemma_distinct_remove(loaded, i);
            assert(!l2.contains(v));
        }
        assert(!l2.contains(v));
        assert(n2.contains(v)) by {
            if !fresh.contains(v) {
                assert(n2 == fresh.push(v));
                assert(n2[n2.len() - 1] == v);
            }
        }
        if l2.len() > 0 && l2[0] == v {
            assert(l2.contains(v));
            assert(false);
        }
    }
}

/// Promoting a record that is held but not most recent moves it into the
/// new batch and removes it from the loaded records, keeping the relative
/// order of every other record (`Seq::remove` shifts without reordering).
pub proof fn lemma_promote_moves_to_front(
    loaded: Seq<Seq<char>>,
    fresh: Seq<Seq<char>>,
    v: Seq<char>,
)
    requires
        distinct(loaded),
        loaded.contains(v),
        !(loaded.len() > 0 && loaded[0] == v),
    ensures
        ({
            let (l2, n2) = promote_spec(loaded, fresh, v);
            let i = loaded.index_of(v);
            &&& l2 == loaded.remove(i)
            &&& !l2.contains(v)
            &&& n2.contains(v)
            &&& forall|k: int| 0 <= k < i ==> l2[k] == loaded[k]
            &&& forall|k: int| i <= k < loaded.len() - 1 ==> l2[k] == loaded[k + 1]
        }),
{
    let (l2, n2) = promote_spec(loaded, fresh, v);
    let i = loaded.index_of(v);
    assert(0 <= i < loaded.len() && loaded[i] == v);
    lemma_distinct_remove(loaded, i);
    loaded.remove_ensures(i);
    if !fresh.contains(v) {
        assert(n2 == fresh.push(v));
        assert(n2[n2.len() - 1] == v);
    }
}

} // verus!
