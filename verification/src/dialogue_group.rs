//! A dialogue topic with its lines, in the order in which the game goes through them.

use vstd::prelude::*;

use crate::record_views::{DialogueInfoView, DialogueView};
use crate::records::{Dialogue, DialogueInfo, DialogueType2};
use crate::text::{same, same_id};

verus! {

/// A dialogue topic with its lines.
#[derive(Debug)]
pub struct DialogueGroup {
    pub dialogue: Dialogue,
    pub dialogue_type: DialogueType2,
    pub infos: Vec<DialogueInfo>,
}

/// What a [`DialogueGroup`] holds.
pub struct GroupView {
    pub dialogue: DialogueView,
    pub dialogue_type: DialogueType2,
    pub infos: Seq<DialogueInfoView>,
}

impl DeepView for DialogueGroup {
    type V = GroupView;

    open spec fn deep_view(&self) -> GroupView {
        GroupView {
            dialogue: self.dialogue.deep_view(),
            dialogue_type: self.dialogue_type,
            infos: self.infos.deep_view(),
        }
    }
}

/// A topic without a head and without lines.
pub open spec fn empty_group() -> GroupView {
    GroupView {
        dialogue: DialogueView {
            id: Seq::empty(),
            deleted: false,
            handle: 0,
            tag: Seq::empty(),
            dialogue_type: DialogueType2::Topic,
        },
        dialogue_type: DialogueType2::Topic,
        infos: Seq::empty(),
    }
}

impl Default for DialogueGroup {
    fn default() -> (res: Self)
        ensures
            res.deep_view() == empty_group(),
    {
        let res = DialogueGroup {
            dialogue: Dialogue::default(),
            dialogue_type: DialogueType2::Topic,
            infos: Vec::new(),
        };
        assert(res.infos.deep_view() =~= Seq::empty());
        res
    }
}

/// The position of the first line with the id `id`.
pub open spec fn position(infos: Seq<DialogueInfoView>, id: Seq<char>) -> Option<int>
    decreases infos.len(),
{
    if infos.len() == 0 {
        None
    } else {
        match position(infos.drop_last(), id) {
            Some(i) => Some(i),
            None => if same(infos.last().id, id) {
                Some(infos.len() - 1)
            } else {
                None
            },
        }
    }
}

/// A found position holds a line with the id, and no line before it has the id.
pub proof fn lemma_position(infos: Seq<DialogueInfoView>, id: Seq<char>)
    ensures
        match position(infos, id) {
            Some(i) => {
                &&& 0 <= i < infos.len()
                &&& same(infos[i].id, id)
                &&& forall|k: int| 0 <= k < i ==> !same((#[trigger] infos[k]).id, id)
            },
            None => forall|k: int| 0 <= k < infos.len() ==> !same((#[trigger] infos[k]).id, id),
        },
    decreases infos.len(),
{
    if infos.len() > 0 {
        let rest = infos.drop_last();
        lemma_position(rest, id);
        assert forall|k: int| 0 <= k < rest.len() implies (#[trigger] infos[k]) == rest[k] by {}
    }
}

/// What is found among the first lines is found among all of them.
proof fn lemma_position_prefix(infos: Seq<DialogueInfoView>, n: int, id: Seq<char>)
    requires
        0 <= n <= infos.len(),
        position(infos.take(n), id) is Some,
    ensures
        position(infos, id) == position(infos.take(n), id),
    decreases infos.len(),
{
    if n < infos.len() {
        let rest = infos.drop_last();
        assert(rest.take(n) =~= infos.take(n));
        lemma_position_prefix(rest, n, id);
    } else {
        assert(infos.take(n) =~= infos);
    }
}

fn find_info(infos: &Vec<DialogueInfo>, id: &str) -> (res: Option<usize>)
    ensures
        match res {
            Some(i) => position(infos.deep_view(), id@) == Some(i as int) && i < infos.len(),
            None => position(infos.deep_view(), id@) is None,
        },
{
    let ghost all = infos.deep_view();
    let mut i: usize = 0;
    while i < infos.len()
        invariant
            i <= infos@.len(),
            all == infos.deep_view(),
            position(all.take(i as int), id@) is None,
        decreases infos@.len() - i,
    {
        proof {
            assert(all.take(i + 1).drop_last() =~= all.take(i as int));
            assert(all.take(i + 1).last() == all[i as int]);
        }
        if same_id(infos[i].id.as_str(), id) {
            proof {
                lemma_position_prefix(all, i + 1, id@);
            }
            return Some(i);
        }
        i += 1;
    }
    assert(all.take(i as int) =~= all);
    None
}

/// Where a line that names `prev_id` as the one before it is put: at the front if it names none,
/// behind the named line, or at the end if there is no such line.
pub open spec fn place_behind(infos: Seq<DialogueInfoView>, prev_id: Seq<char>) -> int {
    if prev_id.len() == 0 {
        0
    } else {
        match position(infos, prev_id) {
            Some(i) => i + 1,
            None => infos.len() as int,
        }
    }
}

/// The lines after `info` was merged in. A line with its id that names the same line before it is
/// replaced where it stands. Otherwise such a line is taken out and `info` is put behind the line
/// it names; the place is looked up before anything is taken out.
pub open spec fn merged(infos: Seq<DialogueInfoView>, info: DialogueInfoView) -> Seq<
    DialogueInfoView,
> {
    let place = place_behind(infos, info.prev_id);
    match position(infos, info.id) {
        Some(i) => if same(infos[i].prev_id, info.prev_id) {
            infos.update(i, info)
        } else {
            infos.remove(i).insert(
                if i < place {
                    place - 1
                } else {
                    place
                },
                info,
            )
        },
        None => infos.insert(place, info),
    }
}

impl DialogueGroup {
    /// Merges a line into the topic.
    #[verifier::rlimit(40)]
    pub fn insert_info(&mut self, info: DialogueInfo)
        ensures
            final(self).deep_view() == (GroupView {
                infos: merged(old(self).deep_view().infos, info.deep_view()),
                ..old(self).deep_view()
            }),
    {
        let ghost all = self.infos.deep_view();
        let ghost new = info.deep_view();
        proof {
            lemma_position(all, new.id);
            lemma_position(all, new.prev_id);
        }
        let existing_index = find_info(&self.infos, info.id.as_str());
        if let Some(index) = existing_index {
            assert(all[index as int] == self.infos@[index as int].deep_view());
            if same_id(self.infos[index].prev_id.as_str(), info.prev_id.as_str()) {
                self.infos.set(index, info);
                assert(self.infos.deep_view() =~= all.update(index as int, new));
                return ;
            }
        }
        // The place is looked up before the line that is there is taken out. This matters when
        // the new line names that very line as the one before it.
        let before_index: usize = if info.prev_id.as_str().is_empty() {
            0
        } else {
            match find_info(&self.infos, info.prev_id.as_str()) {
                Some(index) => index + 1,
                None => self.infos.len(),
            }
        };
        match existing_index {
            Some(index) => {
                let insertion_index: usize = if index < before_index {
                    before_index - 1
                } else {
                    before_index
                };
                self.infos.remove(index);
                self.infos.insert(insertion_index, info);
                assert(self.infos.deep_view() =~= all.remove(index as int).insert(
                    insertion_index as int,
                    new,
                ));
            },
            None => {
                self.infos.insert(before_index, info);
                assert(self.infos.deep_view() =~= all.insert(before_index as int, new));
            },
        }
    }
}

} // verus!
