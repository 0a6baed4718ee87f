//! Sets and maps of ids that are walked in the order of the ids.

use vstd::prelude::*;

use crate::text::{
    id_less, lemma_id_less_asymmetric, lemma_id_less_total, lemma_id_less_transitive, place,
    Placement,
};

verus! {

/// Every id of `s` precedes those behind it.
pub open spec fn strictly_sorted(s: Seq<Seq<char>>) -> bool {
    forall|i: int, j: int| 0 <= i < j < s.len() ==> id_less(#[trigger] s[i], #[trigger] s[j])
}

/// `s` holds exactly the ids of `ids`, each once and in order.
pub open spec fn lists(s: Seq<Seq<char>>, ids: Set<Seq<char>>) -> bool {
    &&& strictly_sorted(s)
    &&& s.to_set() == ids
}

/// The ids of a finite set in order.
pub open spec fn sorted(ids: Set<Seq<char>>) -> Seq<Seq<char>> {
    choose|s: Seq<Seq<char>>| lists(s, ids)
}

/// A set has at most one listing.
pub proof fn lemma_listing_unique(a: Seq<Seq<char>>, b: Seq<Seq<char>>, ids: Set<Seq<char>>)
    requires
        lists(a, ids),
        lists(b, ids),
    ensures
        a == b,
    decreases a.len(),
{
    if a.len() == 0 {
        if b.len() > 0 {
            assert(b.to_set().contains(b[0]));
            assert(a.to_set().contains(b[0]));
        }
        assert(a =~= b);
    } else {
        assert(a.to_set().contains(a.last()));
        assert(b.to_set().contains(a.last()));
        let j = choose|j: int| 0 <= j < b.len() && b[j] == a.last();
        assert(b.to_set().contains(b.last()));
        assert(a.to_set().contains(b.last()));
        let k = choose|k: int| 0 <= k < a.len() && a[k] == b.last();
        lemma_id_less_asymmetric(a.last(), b.last());
        assert(a.last() == b.last());
        let x = a.last();
        let shorter = ids.remove(x);
        assert forall|y: Seq<char>| #[trigger]
            a.drop_last().to_set().contains(y) <==> shorter.contains(y) by {
            lemma_last_removed(a, y);
        }
        assert forall|y: Seq<char>| #[trigger]
            b.drop_last().to_set().contains(y) <==> shorter.contains(y) by {
            lemma_last_removed(b, y);
        }
        assert(a.drop_last().to_set() =~= shorter);
        assert(b.drop_last().to_set() =~= shorter);
        lemma_listing_unique(a.drop_last(), b.drop_last(), shorter);
        assert(a =~= a.drop_last().push(x));
        assert(b =~= b.drop_last().push(x));
    }
}

proof fn lemma_last_removed(s: Seq<Seq<char>>, y: Seq<char>)
    requires
        strictly_sorted(s),
        s.len() > 0,
    ensures
        s.drop_last().to_set().contains(y) <==> s.to_set().contains(y) && y != s.last(),
{
    let t = s.drop_last();
    if t.to_set().contains(y) {
        let i = choose|i: int| 0 <= i < t.len() && t[i] == y;
        assert(s[i] == y);
        lemma_id_less_asymmetric(s[i], s.last());
    }
    if s.to_set().contains(y) && y != s.last() {
        let i = choose|i: int| 0 <= i < s.len() && s[i] == y;
        assert(t[i] == y);
    }
}

/// A listing of `ids` is `sorted(ids)`.
pub proof fn lemma_sorted_is(s: Seq<Seq<char>>, ids: Set<Seq<char>>)
    requires
        lists(s, ids),
    ensures
        sorted(ids) == s,
        lists(sorted(ids), ids),
{
    lemma_listing_unique(sorted(ids), s, ids);
}

/// Where `x` belongs in a sorted list that lacks it.
pub proof fn lemma_position_exists(s: Seq<Seq<char>>, x: Seq<char>) -> (position: int)
    requires
        strictly_sorted(s),
        !s.contains(x),
    ensures
        0 <= position <= s.len(),
        forall|k: int| 0 <= k < position ==> id_less(#[trigger] s[k], x),
        forall|k: int| position <= k < s.len() ==> id_less(x, #[trigger] s[k]),
    decreases s.len(),
{
    if s.len() == 0 {
        0
    } else {
        let rest = s.drop_last();
        assert forall|k: int| 0 <= k < rest.len() implies #[trigger] rest[k] != x by {
            assert(s.contains(s[k]));
        }
        assert(s.contains(s.last()));
        lemma_id_less_total(s.last(), x);
        if id_less(s.last(), x) {
            assert forall|k: int| 0 <= k < s.len() implies id_less(#[trigger] s[k], x) by {
                if k < s.len() - 1 {
                    lemma_id_less_transitive(s[k], s.last(), x);
                }
            }
            s.len() as int
        } else {
            let position = lemma_position_exists(rest, x);
            assert forall|k: int| 0 <= k < position implies id_less(#[trigger] s[k], x) by {
                assert(rest[k] == s[k]);
            }
            assert forall|k: int| position <= k < s.len() implies id_less(x, #[trigger] s[k]) by {
                if k < rest.len() {
                    assert(rest[k] == s[k]);
                }
            }
            position
        }
    }
}

/// Every finite set of ids has a listing, which `sorted` gives.
pub proof fn lemma_sorted_lists(ids: Set<Seq<char>>)
    requires
        ids.finite(),
    ensures
        lists(sorted(ids), ids),
    decreases ids.len(),
{
    if ids.len() == 0 {
        assert(Seq::<Seq<char>>::empty().to_set() =~= ids);
        lemma_sorted_is(Seq::empty(), ids);
    } else {
        let x = ids.choose();
        let rest = ids.remove(x);
        lemma_sorted_lists(rest);
        let s = sorted(rest);
        assert(!s.contains(x)) by {
            assert(s.to_set().contains(x) <==> s.contains(x));
        }
        let position = lemma_position_exists(s, x);
        lemma_insert_sorted(s, position, x);
        assert(rest.insert(x) =~= ids);
        lemma_sorted_is(s.insert(position, x), ids);
    }
}

/// A set of ids, kept in order.
#[derive(Debug)]
pub struct IdSet {
    ids: Vec<String>,
}

impl View for IdSet {
    type V = Set<Seq<char>>;

    open spec fn view(&self) -> Set<Seq<char>> {
        self.listing().to_set()
    }
}

impl IdSet {
    /// The ids in order.
    pub closed spec fn listing(&self) -> Seq<Seq<char>> {
        self.ids.deep_view()
    }

    /// The ids stand in strict order, so none occurs twice.
    pub open spec fn wf(&self) -> bool {
        strictly_sorted(self.listing())
    }

    pub fn new() -> (res: Self)
        ensures
            res.wf(),
            res@ == Set::<Seq<char>>::empty(),
            res.listing() == Seq::<Seq<char>>::empty(),
    {
        let res = IdSet { ids: Vec::new() };
        assert(res.listing() =~= Seq::<Seq<char>>::empty());
        assert(res@ =~= Set::<Seq<char>>::empty());
        res
    }

    pub fn len(&self) -> (res: usize)
        ensures
            res == self.listing().len(),
    {
        self.ids.len()
    }

    /// The id at position `i`.
    pub fn at(&self, i: usize) -> (res: &String)
        requires
            i < self.listing().len(),
        ensures
            res@ == self.listing()[i as int],
    {
        &self.ids[i]
    }

    /// Where `id` stands, or where it would have to be put, and whether it is there.
    pub fn find(&self, id: &str) -> (res: (usize, bool))
        requires
            self.wf(),
        ensures
            res.0 <= self.listing().len(),
            res.1 ==> res.0 < self.listing().len() && self.listing()[res.0 as int] == id@,
            !res.1 ==> forall|k: int|
                0 <= k < res.0 ==> id_less(#[trigger] self.listing()[k], id@),
            !res.1 ==> forall|k: int|
                res.0 <= k < self.listing().len() ==> id_less(id@, #[trigger] self.listing()[k]),
            res.1 == self@.contains(id@),
    {
        let mut low: usize = 0;
        let mut high: usize = self.ids.len();
        let ghost s = self.listing();
        while low < high
            invariant
                s == self.listing(),
                strictly_sorted(s),
                low <= high <= s.len(),
                forall|k: int| 0 <= k < low ==> id_less(#[trigger] s[k], id@),
                forall|k: int| high <= k < s.len() ==> id_less(id@, #[trigger] s[k]),
            decreases high - low,
        {
            let middle: usize = low + (high - low) / 2;
            match place(self.ids[middle].as_str(), id) {
                Placement::Same => {
                    assert(s[middle as int] == id@);
                    assert(s.to_set().contains(s[middle as int]));
                    return (middle, true);
                },
                Placement::Before => {
                    assert forall|k: int| 0 <= k < middle + 1 implies id_less(
                        #[trigger] s[k],
                        id@,
                    ) by {
                        if k < middle {
                            lemma_id_less_transitive(s[k], s[middle as int], id@);
                        }
                    }
                    low = middle + 1;
                },
                Placement::After => {
                    assert forall|k: int| middle <= k < s.len() implies id_less(
                        id@,
                        #[trigger] s[k],
                    ) by {
                        if k > middle {
                            lemma_id_less_transitive(id@, s[middle as int], s[k]);
                        }
                    }
                    high = middle;
                },
            }
        }
        proof {
            if s.to_set().contains(id@) {
                let k = choose|k: int| 0 <= k < s.len() && s[k] == id@;
                lemma_id_less_asymmetric(s[k], id@);
            }
        }
        (low, false)
    }

    pub fn contains(&self, id: &str) -> (res: bool)
        requires
            self.wf(),
        ensures
            res == self@.contains(id@),
    {
        self.find(id).1
    }

    /// Adds `id`; says whether it is new.
    pub fn insert(&mut self, id: String) -> (res: bool)
        requires
            old(self).wf(),
        ensures
            final(self).wf(),
            final(self)@ == old(self)@.insert(id@),
            res == !old(self)@.contains(id@),
    {
        let (position, found) = self.find(id.as_str());
        let ghost before = self.listing();
        let ghost x = id@;
        if found {
            assert(before.to_set().contains(before[position as int]));
            assert(self@ =~= old(self)@.insert(x));
            false
        } else {
            proof {
                lemma_insert_sorted(before, position as int, x);
            }
            self.insert_at(position, id);
            true
        }
    }

    /// Puts `id` at `position`, between the smaller and the larger ids.
    pub(crate) fn insert_at(&mut self, position: usize, id: String)
        requires
            position <= old(self).listing().len(),
        ensures
            final(self).listing() == old(self).listing().insert(position as int, id@),
    {
        let ghost x = id@;
        self.ids.insert(position, id);
        assert(self.listing() =~= old(self).listing().insert(position as int, x));
    }
}

/// Putting an id between the smaller and the larger ones keeps the order.
pub proof fn lemma_insert_sorted(s: Seq<Seq<char>>, position: int, x: Seq<char>)
    requires
        strictly_sorted(s),
        0 <= position <= s.len(),
        forall|k: int| 0 <= k < position ==> id_less(#[trigger] s[k], x),
        forall|k: int| position <= k < s.len() ==> id_less(x, #[trigger] s[k]),
    ensures
        strictly_sorted(s.insert(position, x)),
        s.insert(position, x).to_set() == s.to_set().insert(x),
{
    let t = s.insert(position, x);
    assert forall|i: int, j: int| 0 <= i < j < t.len() implies id_less(
        #[trigger] t[i],
        #[trigger] t[j],
    ) by {
        if i < position {
            assert(t[i] == s[i]);
            if j > position {
                assert(t[j] == s[j - 1]);
            } else if j < position {
                assert(t[j] == s[j]);
            }
        } else {
            assert(t[j] == s[j - 1]);
            if i > position {
                assert(t[i] == s[i - 1]);
            }
        }
    }
    assert forall|y: Seq<char>| #[trigger]
        t.to_set().contains(y) <==> s.to_set().insert(x).contains(y) by {
        if t.to_set().contains(y) {
            let i = choose|i: int| 0 <= i < t.len() && t[i] == y;
            if i < position {
                assert(s[i] == y);
            } else if i > position {
                assert(s[i - 1] == y);
            }
        }
        if s.to_set().contains(y) {
            let i = choose|i: int| 0 <= i < s.len() && s[i] == y;
            if i < position {
                assert(t[i] == y);
            } else {
                assert(t[i + 1] == y);
            }
        }
        assert(t[position] == x);
    }
    assert(t.to_set() =~= s.to_set().insert(x));
}

/// One more id of a list is one more id of its set.
pub proof fn lemma_take_to_set(keys: Seq<Seq<char>>, i: int)
    requires
        0 <= i < keys.len(),
    ensures
        keys.take(i + 1).to_set() == keys.take(i).to_set().insert(keys[i]),
{
    assert(keys.take(i + 1) =~= keys.take(i).push(keys[i]));
    assert forall|t: Seq<char>| #[trigger]
        keys.take(i + 1).to_set().contains(t) <==> keys.take(i).to_set().insert(
            keys[i],
        ).contains(t) by {
        if keys.take(i).contains(t) {
            let k = choose|k: int| 0 <= k < i && keys.take(i)[k] == t;
            assert(keys.take(i + 1)[k] == t);
        }
        if t == keys[i] {
            assert(keys.take(i + 1)[i] == t);
        }
    }
    assert(keys.take(i + 1).to_set() =~= keys.take(i).to_set().insert(keys[i]));
}

} // verus!
