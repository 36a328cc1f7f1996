//! The lock registry: for each locked path, who holds the lock and under
//! which number. It is a cache of what the locking tool last reported.

use vstd::prelude::*;

verus! {

/// One lock of the registry: a path, the name of the lock's owner and the
/// lock's number.
#[derive(Debug, PartialEq, Eq)]
pub struct Holding {
    pub path: String,
    pub owner: String,
    pub id: u32,
}

/// A holding as plain values.
pub struct HoldingView {
    pub path: Seq<char>,
    pub owner: Seq<char>,
    pub id: u32,
}

impl View for Holding {
    type V = HoldingView;

    open spec fn view(&self) -> HoldingView {
        HoldingView { path: self.path@, owner: self.owner@, id: self.id }
    }
}

impl Clone for Holding {
    fn clone(&self) -> (out: Self)
        ensures
            out == *self,
    {
        Holding { path: self.path.clone(), owner: self.owner.clone(), id: self.id }
    }
}

/// What a registry is: a finite map from a locked path to the owner's name
/// and the lock's number.
pub type Locks = Map<Seq<char>, (Seq<char>, u32)>;

/// The holdings of `s` as plain values.
pub open spec fn holdings(s: Seq<Holding>) -> Seq<HoldingView> {
    Seq::new(s.len(), |i: int| s[i]@)
}

/// The map that a sequence of holdings describes. Where a path occurs more
/// than once, its last holding counts.
pub open spec fn locks_of(s: Seq<HoldingView>) -> Locks
    decreases s.len(),
{
    if s.len() == 0 {
        Map::empty()
    } else {
        locks_of(s.drop_last()).insert(s.last().path, (s.last().owner, s.last().id))
    }
}

/// `locks` without every lock that has the number `id`.
pub open spec fn without_id(locks: Locks, id: u32) -> Locks {
    Map::new(|p: Seq<char>| locks.contains_key(p) && locks[p].1 != id, |p: Seq<char>| locks[p])
}

/// Whether some lock of `locks` has the number `id`.
pub open spec fn has_id(locks: Locks, id: u32) -> bool {
    exists|p: Seq<char>| #[trigger] locks.contains_key(p) && locks[p].1 == id
}

/// Whether no two holdings of `s` are on the same path.
pub open spec fn distinct_paths(s: Seq<HoldingView>) -> bool {
    forall|i: int, j: int| 0 <= i < j < s.len() ==> s[i].path != s[j].path
}

/// A path is in the map of `s` exactly if a holding of `s` is on it, and the
/// map of `s` is finite.
pub proof fn lemma_locks_of_domain(s: Seq<HoldingView>)
    ensures
        locks_of(s).dom().finite(),
        forall|p: Seq<char>| #[trigger]
            locks_of(s).contains_key(p) <==> exists|i: int| 0 <= i < s.len() && s[i].path == p,
    decreases s.len(),
{
    if s.len() > 0 {
        let front = s.drop_last();
        lemma_locks_of_domain(front);
        assert forall|p: Seq<char>| #[trigger]
            locks_of(s).contains_key(p) <==> exists|i: int|
                0 <= i < s.len() && s[i].path == p by {
            if locks_of(s).contains_key(p) {
                if p == s.last().path {
                    assert(s[s.len() - 1].path == p);
                } else {
                    let i = choose|i: int| 0 <= i < front.len() && front[i].path == p;
                    assert(s[i].path == p);
                }
            }
            if exists|i: int| 0 <= i < s.len() && s[i].path == p {
                let i = choose|i: int| 0 <= i < s.len() && s[i].path == p;
                if i < s.len() - 1 {
                    assert(front[i].path == p);
                }
            }
        }
    }
}

/// Where no path occurs twice, the map of `s` has as many paths as `s` has
/// holdings.
pub proof fn lemma_locks_of_len(s: Seq<HoldingView>)
    requires
        distinct_paths(s),
    ensures
        locks_of(s).dom().finite(),
        locks_of(s).len() == s.len(),
    decreases s.len(),
{
    lemma_locks_of_domain(s);
    if s.len() > 0 {
        let front = s.drop_last();
        assert(distinct_paths(front));
        lemma_locks_of_len(front);
        lemma_locks_of_domain(front);
        if locks_of(front).contains_key(s.last().path) {
            let i = choose|i: int| 0 <= i < front.len() && front[i].path == s.last().path;
            assert(s[i].path == s[s.len() - 1].path);
        }
    }
}

/// Where no path occurs twice, the map of `s` gives for each holding's path
/// that holding's owner and number.
pub proof fn lemma_locks_of_value(s: Seq<HoldingView>, i: int)
    requires
        distinct_paths(s),
        0 <= i < s.len(),
    ensures
        locks_of(s).contains_key(s[i].path),
        locks_of(s)[s[i].path] == (s[i].owner, s[i].id),
    decreases s.len(),
{
    if i < s.len() - 1 {
        let front = s.drop_last();
        assert(distinct_paths(front));
        lemma_locks_of_value(front, i);
        assert(front[i] == s[i]);
    }
}

/// The paths of `s`, holding by holding.
pub open spec fn paths_of(s: Seq<HoldingView>) -> Seq<Seq<char>> {
    Seq::new(s.len(), |i: int| s[i].path)
}

/// Whether `order` names every locked path of `locks` once and nothing
/// else.
pub open spec fn is_order_of(locks: Locks, order: Seq<Seq<char>>) -> bool {
    &&& order.no_duplicates()
    &&& forall|p: Seq<char>| #[trigger] order.contains(p) <==> locks.contains_key(p)
}

/// Where no path occurs twice, the paths of `s` name every locked path of
/// its map once.
pub proof fn lemma_paths_are_order(s: Seq<HoldingView>)
    requires
        distinct_paths(s),
    ensures
        is_order_of(locks_of(s), paths_of(s)),
{
    let order = paths_of(s);
    lemma_locks_of_domain(s);
    assert forall|p: Seq<char>| #[trigger] order.contains(p) <==> locks_of(s).contains_key(p) by {
        if order.contains(p) {
            let k = choose|k: int| 0 <= k < order.len() && order[k] == p;
            assert(s[k].path == p);
        }
        if locks_of(s).contains_key(p) {
            let k = choose|k: int| 0 <= k < s.len() && s[k].path == p;
            assert(order[k] == p);
        }
    }
}

/// The position of the holding on `path`, if there is one.
fn position_of(entries: &Vec<Holding>, path: &String) -> (out: Option<usize>)
    ensures
        match out {
            Some(i) => i < entries@.len() && entries@[i as int].path@ == path@,
            None => forall|i: int| 0 <= i < entries@.len() ==> entries@[i].path@ != path@,
        },
{
    let mut i: usize = 0;
    while i < entries.len()
        invariant
            i <= entries@.len(),
            forall|k: int| 0 <= k < i ==> entries@[k].path@ != path@,
        decreases entries@.len() - i,
    {
        if entries[i].path == *path {
            return Some(i);
        }
        i += 1;
    }
    None
}

/// Puts `holding` in place of the holding on its path, or at the end where
/// its path is new.
fn put(entries: &mut Vec<Holding>, holding: Holding)
    requires
        distinct_paths(holdings(old(entries)@)),
    ensures
        distinct_paths(holdings(final(entries)@)),
        locks_of(holdings(final(entries)@)) == locks_of(holdings(old(entries)@)).insert(
            holding.path@,
            (holding.owner@, holding.id),
        ),
{
    let ghost before = holdings(entries@);
    let ghost added = holding@;
    match position_of(entries, &holding.path) {
        Some(k) => {
            entries.set(k, holding);
            proof {
                let after = holdings(entries@);
                assert(after =~= before.update(k as int, added));
                assert(before[k as int].path == added.path);
                assert forall|i: int, j: int| 0 <= i < j < after.len() implies after[i].path
                    != after[j].path by {
                    assert(before[i].path != before[j].path);
                }
                lemma_locks_of_domain(before);
                lemma_locks_of_domain(after);
                let goal = locks_of(before).insert(added.path, (added.owner, added.id));
                assert forall|p: Seq<char>| #[trigger]
                    locks_of(after).contains_key(p) <==> goal.contains_key(p) by {
                    if locks_of(after).contains_key(p) {
                        let i = choose|i: int| 0 <= i < after.len() && after[i].path == p;
                        assert(before[i].path == p);
                    }
                    if goal.contains_key(p) && p != added.path {
                        let i = choose|i: int| 0 <= i < before.len() && before[i].path == p;
                        assert(after[i].path == p);
                    }
                    if p == added.path {
                        assert(after[k as int].path == p);
                    }
                }
                assert forall|p: Seq<char>| locks_of(after).contains_key(p) implies #[trigger]
                    locks_of(after)[p] == goal[p] by {
                    let i = choose|i: int| 0 <= i < after.len() && after[i].path == p;
                    lemma_locks_of_value(after, i);
                    if i != k {
                        assert(after[i] == before[i]);
                        assert(after[i].path != after[k as int].path);
                        lemma_locks_of_value(before, i);
                    }
                }
                assert(locks_of(after) =~= goal);
            }
        },
        None => {
            entries.push(holding);
            proof {
                let after = holdings(entries@);
                assert(after =~= before.push(added));
                assert(after.drop_last() =~= before);
            }
        },
    }
}

/// The holdings of `entries` whose number is not `id`, in their order.
fn dropping(entries: &Vec<Holding>, id: u32) -> (out: Vec<Holding>)
    requires
        distinct_paths(holdings(entries@)),
    ensures
        distinct_paths(holdings(out@)),
        locks_of(holdings(out@)) == without_id(locks_of(holdings(entries@)), id),
{
    let ghost all = holdings(entries@);
    let mut out: Vec<Holding> = Vec::new();
    let ghost mut origin: Seq<int> = Seq::empty();
    let mut i: usize = 0;
    while i < entries.len()
        invariant
            i <= entries@.len(),
            all == holdings(entries@),
            distinct_paths(all),
            origin.len() == out@.len(),
            forall|k: int|
                0 <= k < out@.len() ==> 0 <= #[trigger] origin[k] < i && out@[k]@ == all[origin[k]]
                    && all[origin[k]].id != id,
            forall|k: int, l: int| 0 <= k < l < origin.len() ==> origin[k] < origin[l],
            forall|j: int|
                0 <= j < i && (#[trigger] all[j]).id != id ==> exists|k: int|
                    0 <= k < origin.len() && origin[k] == j,
        decreases entries@.len() - i,
    {
        if entries[i].id != id {
            let kept = entries[i].clone();
            proof {
                let ghost old_origin = origin;
                origin = origin.push(i as int);
                assert forall|j: int| 0 <= j < i + 1 && (#[trigger] all[j]).id != id implies exists|
                    k: int,
                | 0 <= k < origin.len() && origin[k] == j by {
                    if j < i {
                        let k = choose|k: int| 0 <= k < old_origin.len() && old_origin[k] == j;
                        assert(origin[k] == j);
                    } else {
                        assert(origin[origin.len() - 1] == j);
                    }
                }
            }
            out.push(kept);
        }
        i += 1;
    }
    proof {
        let kept = holdings(out@);
        assert forall|k: int, l: int| 0 <= k < l < kept.len() implies kept[k].path
            != kept[l].path by {
            assert(kept[k] == all[origin[k]]);
            assert(kept[l] == all[origin[l]]);
        }
        lemma_locks_of_domain(all);
        lemma_locks_of_domain(kept);
        let goal = without_id(locks_of(all), id);
        assert forall|p: Seq<char>| #[trigger]
            locks_of(kept).contains_key(p) <==> goal.contains_key(p) by {
            if locks_of(kept).contains_key(p) {
                let k = choose|k: int| 0 <= k < kept.len() && kept[k].path == p;
                assert(kept[k] == all[origin[k]]);
                lemma_locks_of_value(all, origin[k]);
            }
            if goal.contains_key(p) {
                let j = choose|j: int| 0 <= j < all.len() && all[j].path == p;
                lemma_locks_of_value(all, j);
                let k = choose|k: int| 0 <= k < origin.len() && origin[k] == j;
                assert(kept[k].path == p);
            }
        }
        assert forall|p: Seq<char>| locks_of(kept).contains_key(p) implies #[trigger]
            locks_of(kept)[p] == goal[p] by {
            let k = choose|k: int| 0 <= k < kept.len() && kept[k].path == p;
            assert(kept[k] == all[origin[k]]);
            lemma_locks_of_value(kept, k);
            lemma_locks_of_value(all, origin[k]);
        }
        assert(locks_of(kept) =~= goal);
    }
    out
}

/// Takes out the holding on `path`, if there is one.
fn take_out(entries: &mut Vec<Holding>, path: &String)
    requires
        distinct_paths(holdings(old(entries)@)),
    ensures
        distinct_paths(holdings(final(entries)@)),
        locks_of(holdings(final(entries)@)) == locks_of(holdings(old(entries)@)).remove(path@),
{
    let ghost before = holdings(entries@);
    proof {
        lemma_locks_of_domain(before);
    }
    match position_of(entries, path) {
        Some(k) => {
            let _ = entries.remove(k);
            proof {
                let after = holdings(entries@);
                assert(after =~= before.remove(k as int));
                assert forall|i: int, j: int| 0 <= i < j < after.len() implies after[i].path
                    != after[j].path by {
                    let from_i = if i < k { i } else { i + 1 };
                    let from_j = if j < k { j } else { j + 1 };
                    assert(after[i] == before[from_i]);
                    assert(after[j] == before[from_j]);
                }
                lemma_locks_of_domain(after);
                let goal = locks_of(before).remove(path@);
                assert forall|p: Seq<char>| #[trigger]
                    locks_of(after).contains_key(p) <==> goal.contains_key(p) by {
                    if locks_of(after).contains_key(p) {
                        let i = choose|i: int| 0 <= i < after.len() && after[i].path == p;
                        let from = if i < k { i } else { i + 1 };
                        assert(before[from].path == p);
                        assert(before[from].path != before[k as int].path);
                    }
                    if goal.contains_key(p) {
                        let j = choose|j: int| 0 <= j < before.len() && before[j].path == p;
                        let to = if j < k { j } else { j - 1 };
                        assert(after[to].path == p);
                    }
                }
                assert forall|p: Seq<char>| locks_of(after).contains_key(p) implies #[trigger]
                    locks_of(after)[p] == goal[p] by {
                    let i = choose|i: int| 0 <= i < after.len() && after[i].path == p;
                    let from = if i < k { i } else { i + 1 };
                    assert(after[i] == before[from]);
                    lemma_locks_of_value(after, i);
                    lemma_locks_of_value(before, from);
                }
                assert(locks_of(after) =~= goal);
            }
        },
        None => {
            proof {
                assert forall|i: int| 0 <= i < before.len() implies before[i].path != path@ by {
                    assert(before[i].path == entries@[i].path@);
                }
                assert(locks_of(before).remove(path@) =~= locks_of(before));
            }
        },
    }
}

/// The registry of known locks. No path has more than one lock.
#[derive(Debug)]
pub struct LockRegistry {
    entries: Vec<Holding>,
}

impl View for LockRegistry {
    type V = Locks;

    closed spec fn view(&self) -> Locks {
        locks_of(holdings(self.entries@))
    }
}

impl LockRegistry {
    #[verifier::type_invariant]
    spec fn well_formed(&self) -> bool {
        distinct_paths(holdings(self.entries@))
    }

    /// The registry without any lock.
    pub fn new() -> (out: Self)
        ensures
            out@ == Locks::empty(),
    {
        let entries: Vec<Holding> = Vec::new();
        assert(holdings(entries@) =~= Seq::<HoldingView>::empty());
        LockRegistry { entries }
    }

    /// The registry that `list` describes, read from first to last: where a
    /// path occurs more than once, its last holding counts.
    pub fn from_holdings(list: &Vec<Holding>) -> (out: Self)
        ensures
            out@ == locks_of(holdings(list@)),
    {
        let ghost all = holdings(list@);
        let mut entries: Vec<Holding> = Vec::new();
        assert(holdings(entries@) =~= Seq::<HoldingView>::empty());
        assert(all.take(0) =~= Seq::<HoldingView>::empty());
        let mut i: usize = 0;
        while i < list.len()
            invariant
                i <= list@.len(),
                all == holdings(list@),
                distinct_paths(holdings(entries@)),
                locks_of(holdings(entries@)) == locks_of(all.take(i as int)),
            decreases list@.len() - i,
        {
            proof {
                assert(all.take(i + 1).drop_last() =~= all.take(i as int));
                assert(all.take(i + 1).last() == list@[i as int]@);
            }
            put(&mut entries, list[i].clone());
            i += 1;
        }
        assert(all.take(list@.len() as int) =~= all);
        LockRegistry { entries }
    }

    /// Whether a lock on `path` is known.
    pub fn contains(&self, path: &String) -> (out: bool)
        ensures
            out == self@.contains_key(path@),
    {
        proof {
            lemma_locks_of_domain(holdings(self.entries@));
        }
        let found = position_of(&self.entries, path);
        proof {
            if let Some(k) = found {
                assert(holdings(self.entries@)[k as int].path == path@);
            }
        }
        found.is_some()
    }

    /// The owner and the number of the lock on `path`, if one is known.
    pub fn get(&self, path: &String) -> (out: Option<(String, u32)>)
        ensures
            match out {
                Some((owner, id)) => self@.contains_key(path@) && self@[path@] == (owner@, id),
                None => !self@.contains_key(path@),
            },
    {
        proof {
            use_type_invariant(self);
            lemma_locks_of_domain(holdings(self.entries@));
        }
        match position_of(&self.entries, path) {
            Some(k) => {
                proof {
                    lemma_locks_of_value(holdings(self.entries@), k as int);
                }
                Some((self.entries[k].owner.clone(), self.entries[k].id))
            },
            None => None,
        }
    }

    /// Whether some known lock has the number `id`.
    pub fn holds_id(&self, id: u32) -> (out: bool)
        ensures
            out == has_id(self@, id),
    {
        let ghost all = holdings(self.entries@);
        proof {
            use_type_invariant(self);
            lemma_locks_of_domain(all);
        }
        let mut i: usize = 0;
        while i < self.entries.len()
            invariant
                i <= self.entries@.len(),
                all == holdings(self.entries@),
                distinct_paths(all),
                forall|k: int| 0 <= k < i ==> (#[trigger] all[k]).id != id,
            decreases self.entries@.len() - i,
        {
            if self.entries[i].id == id {
                proof {
                    lemma_locks_of_value(all, i as int);
                    assert(self@.contains_key(all[i as int].path));
                }
                return true;
            }
            i += 1;
        }
        proof {
            if has_id(self@, id) {
                let p = choose|p: Seq<char>| #[trigger] self@.contains_key(p) && self@[p].1 == id;
                let k = choose|k: int| 0 <= k < all.len() && all[k].path == p;
                lemma_locks_of_value(all, k);
            }
        }
        false
    }

    /// Records the lock on `path`; a lock that was known on `path` gives way.
    pub fn insert(&mut self, path: String, owner: String, id: u32)
        ensures
            final(self)@ == old(self)@.insert(path@, (owner@, id)),
    {
        proof {
            use_type_invariant(&*self);
        }
        let mut entries: Vec<Holding> = Vec::new();
        assert(holdings(entries@) =~= Seq::<HoldingView>::empty());
        core::mem::swap(&mut self.entries, &mut entries);
        put(&mut entries, Holding { path, owner, id });
        self.entries = entries;
    }

    /// Forgets every lock with the number `id`.
    pub fn remove_id(&mut self, id: u32)
        ensures
            final(self)@ == without_id(old(self)@, id),
    {
        proof {
            use_type_invariant(&*self);
        }
        let kept = dropping(&self.entries, id);
        self.entries = kept;
    }

    /// Forgets the lock on `path`, if one is known.
    pub fn remove(&mut self, path: &String)
        ensures
            final(self)@ == old(self)@.remove(path@),
    {
        proof {
            use_type_invariant(&*self);
        }
        let mut entries: Vec<Holding> = Vec::new();
        assert(holdings(entries@) =~= Seq::<HoldingView>::empty());
        core::mem::swap(&mut self.entries, &mut entries);
        take_out(&mut entries, path);
        self.entries = entries;
    }

    /// The known locks, one holding for each locked path. The order in
    /// which they stand is not part of what the registry says.
    pub fn entries(&self) -> (out: Vec<Holding>)
        ensures
            distinct_paths(holdings(out@)),
            locks_of(holdings(out@)) == self@,
    {
        proof {
            use_type_invariant(self);
        }
        let mut out: Vec<Holding> = Vec::new();
        let mut i: usize = 0;
        while i < self.entries.len()
            invariant
                i <= self.entries@.len(),
                holdings(out@) == holdings(self.entries@).take(i as int),
            decreases self.entries@.len() - i,
        {
            let ghost before = holdings(out@);
            let copy = self.entries[i].clone();
            out.push(copy);
            i += 1;
            assert(holdings(out@) =~= before.push(copy@));
            assert(holdings(self.entries@).take(i as int) =~= before.push(copy@));
        }
        assert(holdings(self.entries@).take(i as int) =~= holdings(self.entries@));
        out
    }

    /// How many locks are known.
    pub fn len(&self) -> (out: usize)
        ensures
            out == self@.len(),
            self@.dom().finite(),
    {
        proof {
            use_type_invariant(self);
            lemma_locks_of_len(holdings(self.entries@));
        }
        self.entries.len()
    }
}

} // verus!
