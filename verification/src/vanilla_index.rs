//! Finds the records of the masters by their ids.

use vstd::hash_map::StringHashMap;
use vstd::prelude::*;

use crate::closure::{first_offer, lemma_first_offer, offers, source_of};
use crate::record_views::ObjectView;
use crate::records::{Plugin, TES3Object};
use crate::references::never_copy;
use crate::text::lower;

verus! {

/// What the masters hold.
pub open spec fn masters_of(plugins: Seq<Plugin>) -> Seq<Seq<ObjectView>> {
    plugins.map_values(|p: Plugin| p@)
}

/// The positions of the records that one master offers, by id.
spec fn indexes(positions: Map<Seq<char>, usize>, objects: Seq<ObjectView>) -> bool {
    forall|id: Seq<char>|
        match first_offer(objects, id) {
            Some(j) => #[trigger] positions.contains_key(id) && positions[id] == j,
            None => !positions.contains_key(id),
        }
}

fn index_of(plugin: &Plugin) -> (res: StringHashMap<usize>)
    ensures
        indexes(res@, plugin@),
{
    let mut records: StringHashMap<usize> = StringHashMap::new();
    let ghost all = plugin@;
    let mut i: usize = 0;
    while i < plugin.objects.len()
        invariant
            i <= plugin.objects@.len(),
            all == plugin@,
            indexes(records@, all.take(i as int)),
        decreases plugin.objects@.len() - i,
    {
        let object: &TES3Object = &plugin.objects[i];
        let ghost before = records@;
        let ghost old_part = all.take(i as int);
        let ghost new_part = all.take(i + 1);
        proof {
            assert(object.deep_view() == all[i as int]);
            assert(new_part.drop_last() =~= old_part);
            assert(new_part.last() == all[i as int]);
        }
        if !never_copy(object) && !object.deleted() {
            let id = object.editor_id().to_ascii_lowercase();
            if !records.contains_key(id.as_str()) {
                records.insert(id, i);
            }
        }
        proof {
            assert forall|id: Seq<char>|
                match first_offer(new_part, id) {
                    Some(j) => #[trigger] records@.contains_key(id) && records@[id] == j,
                    None => !records@.contains_key(id),
                } by {
                assert(match first_offer(old_part, id) {
                    Some(j) => before.contains_key(id) && before[id] == j,
                    None => !before.contains_key(id),
                });
                lemma_first_offer(old_part, id);
            }
        }
        i += 1;
    }
    assert(all.take(i as int) =~= all);
    records
}

/// Finds the records of the masters by their ids.
pub struct VanillaIndex<'a> {
    plugins: &'a [Plugin],
    masters: Vec<StringHashMap<usize>>,
}

impl<'a> VanillaIndex<'a> {
    /// What the masters hold.
    pub closed spec fn masters(&self) -> Seq<Seq<ObjectView>> {
        masters_of(self.plugins@)
    }

    /// Every master is indexed.
    pub closed spec fn wf(&self) -> bool {
        &&& self.masters@.len() == self.plugins@.len()
        &&& forall|m: int|
            0 <= m < self.plugins@.len() ==> indexes(
                (#[trigger] self.masters@[m])@,
                self.plugins@[m]@,
            )
    }

    /// Indexes the records that each master offers; of several under one id, the first.
    pub fn new(base_plugins: &'a [Plugin]) -> (res: Self)
        ensures
            res.wf(),
            res.masters() == masters_of(base_plugins@),
    {
        let mut masters: Vec<StringHashMap<usize>> = Vec::new();
        let mut m: usize = 0;
        while m < base_plugins.len()
            invariant
                m <= base_plugins@.len(),
                masters@.len() == m,
                forall|k: int|
                    0 <= k < m ==> indexes((#[trigger] masters@[k])@, base_plugins@[k]@),
            decreases base_plugins@.len() - m,
        {
            masters.push(index_of(&base_plugins[m]));
            m += 1;
        }
        VanillaIndex { plugins: base_plugins, masters }
    }

    /// Finds the record that `id`, in lower case, stands for: the first of the first master that
    /// offers one.
    pub fn resolve(&self, id: &str) -> (res: Option<(usize, &'a TES3Object)>)
        requires
            self.wf(),
        ensures
            match res {
                Some((m, object)) => source_of(self.masters(), id@) matches Some((k, j)) && k == m
                    && object.deep_view() == self.masters()[k][j],
                None => source_of(self.masters(), id@) is None,
            },
    {
        let ghost all = self.masters();
        let mut m: usize = 0;
        while m < self.plugins.len()
            invariant
                m <= self.plugins@.len(),
                self.wf(),
                all == self.masters(),
                source_of(all.take(m as int), id@) is None,
            decreases self.plugins@.len() - m,
        {
            proof {
                assert(all.take(m + 1).drop_last() =~= all.take(m as int));
                assert(all.take(m + 1).last() == all[m as int]);
                assert(indexes(self.masters@[m as int]@, self.plugins@[m as int]@));
                lemma_first_offer(all[m as int], id@);
            }
            match self.masters[m].get(id) {
                Some(position) => {
                    let j: usize = *position;
                    proof {
                        assert(first_offer(all[m as int], id@) == Some(j as int));
                        assert(source_of(all.take(m + 1), id@) == Some((m as int, j as int)));
                        lemma_source_prefix(all, m + 1, id@);
                        assert(all[m as int] == self.plugins@[m as int]@);
                    }
                    return Some((m, &self.plugins[m].objects[j]));
                },
                None => {
                    assert(first_offer(all[m as int], id@) is None);
                },
            }
            m += 1;
        }
        assert(all.take(m as int) =~= all);
        None
    }
}

/// What is found among the first masters is found among all of them.
proof fn lemma_source_prefix(masters: Seq<Seq<ObjectView>>, n: int, id: Seq<char>)
    requires
        0 <= n <= masters.len(),
        source_of(masters.take(n), id) is Some,
    ensures
        source_of(masters, id) == source_of(masters.take(n), id),
    decreases masters.len(),
{
    if n < masters.len() {
        let rest = masters.drop_last();
        assert(rest.take(n) =~= masters.take(n));
        lemma_source_prefix(rest, n, id);
    } else {
        assert(masters.take(n) =~= masters);
    }
}

} // verus!
