//! Dialogue that was written anew needs no master: written anew without one, it stays as it is.

use vstd::prelude::*;

use crate::dialogue_group::{lemma_position, merged, place_behind, position, GroupView};
use crate::dialogue_records::{
    dialogue_ids, group_or_empty, lines_or_none, list_object, list_objects, loaded, merge_object,
    merge_objects, IdsView, MergeView,
};
use crate::group_laws::are_distinct;
use crate::ids::{lemma_sorted_lists, sorted, strictly_sorted};
use crate::live_infos::{has_live, is_live, is_owned, live_ids, standing_of, topic_live_ids};
use crate::rebuild::{
    as_records, case_of, decoupled, id_at, is_missing, lines_of, linked, plan_of, rewritten,
    supplied, survives, survivors, PlanView, RebuildView,
};
use crate::rebuild_laws::is_other;
use crate::record_laws::{are_named, is_tidy, is_tidy_group, law_topics_are_tidy, lemma_kept_finite};
use crate::record_views::{DialogueInfoView, DialogueView, ObjectView};
use crate::text::{id_less, lemma_id_less_asymmetric, lower, same};

verus! {

/// A piece of a plugin: a record that is no dialogue, or a topic with its lines.
pub enum Piece {
    Other(ObjectView),
    Topic(DialogueView, Seq<DialogueInfoView>),
}

/// The records of a piece.
pub open spec fn piece_records(piece: Piece) -> Seq<ObjectView> {
    match piece {
        Piece::Other(o) => seq![o],
        Piece::Topic(d, infos) => seq![ObjectView::Dialogue(d)] + as_records(infos),
    }
}

/// The records of pieces.
pub open spec fn spread(pieces: Seq<Piece>) -> Seq<ObjectView>
    decreases pieces.len(),
{
    if pieces.len() == 0 {
        Seq::empty()
    } else {
        spread(pieces.drop_last()) + piece_records(pieces.last())
    }
}

/// No line is deleted.
pub open spec fn are_undeleted(infos: Seq<DialogueInfoView>) -> bool {
    forall|i: int| 0 <= i < infos.len() ==> !(#[trigger] infos[i]).deleted
}

/// The lines can stand as they are: they are linked, none is deleted or lacks an id, and no two
/// have the same.
pub open spec fn are_settled(infos: Seq<DialogueInfoView>) -> bool {
    &&& linked(infos) == infos
    &&& are_distinct(infos)
    &&& are_named(infos)
    &&& are_undeleted(infos)
}

/// The piece can stand as it is.
pub open spec fn is_settled_piece(piece: Piece) -> bool {
    match piece {
        Piece::Other(o) => is_other(o),
        Piece::Topic(_, infos) => are_settled(infos),
    }
}

/// The topics of pieces with what they hold.
pub open spec fn table(pieces: Seq<Piece>) -> Map<Seq<char>, GroupView>
    decreases pieces.len(),
{
    if pieces.len() == 0 {
        Map::empty()
    } else {
        match pieces.last() {
            Piece::Other(_) => table(pieces.drop_last()),
            Piece::Topic(d, infos) => table(pieces.drop_last()).insert(
                lower(d.id),
                GroupView { dialogue: d, dialogue_type: d.dialogue_type, infos },
            ),
        }
    }
}

/// All pieces can stand as they are, and no topic is there twice.
pub open spec fn are_pieces_settled(pieces: Seq<Piece>) -> bool
    decreases pieces.len(),
{
    pieces.len() > 0 ==> {
        &&& are_pieces_settled(pieces.drop_last())
        &&& is_settled_piece(pieces.last())
        &&& pieces.last() matches Piece::Topic(d, _) ==> !table(pieces.drop_last()).contains_key(
            lower(d.id),
        )
    }
}

/// The ids, in lower case, of lines.
spec fn id_set(infos: Seq<DialogueInfoView>) -> Set<Seq<char>>
    decreases infos.len(),
{
    if infos.len() == 0 {
        Set::empty()
    } else {
        id_set(infos.drop_last()).insert(lower(infos.last().id))
    }
}

proof fn lemma_id_set(infos: Seq<DialogueInfoView>, i: int)
    requires
        0 <= i < infos.len(),
    ensures
        id_set(infos).contains(lower(infos[i].id)),
    decreases infos.len(),
{
    if i < infos.len() - 1 {
        lemma_id_set(infos.drop_last(), i);
    }
}

spec fn owned_table(pieces: Seq<Piece>) -> Map<Seq<char>, Set<Seq<char>>> {
    table(pieces).map_values(|g: GroupView| id_set(g.infos))
}

proof fn lemma_merge_line(infos: Seq<DialogueInfoView>, k: int)
    requires
        are_settled(infos),
        0 <= k < infos.len(),
    ensures
        merged(infos.take(k), infos[k]) == infos.take(k + 1),
{
    let before = infos.take(k);
    let info = infos[k];
    lemma_position(before, info.id);
    lemma_position(before, info.prev_id);
    assert(position(before, info.id) is None) by {
        if let Some(i) = position(before, info.id) {
            assert(same(infos[i].id, infos[k].id));
        }
    }
    assert(linked(infos)[k] == infos[k]);
    assert(info.prev_id == id_at(infos, k - 1));
    if k > 0 {
        assert(infos[k - 1].id.len() > 0);
        assert(same(before[k - 1].id, info.prev_id));
        assert(position(before, info.prev_id) == Some(k - 1)) by {
            if let Some(i) = position(before, info.prev_id) {
                if i < k - 1 {
                    assert(same(infos[i].id, infos[k - 1].id));
                }
            }
        }
    }
    assert(place_behind(before, info.prev_id) == k);
    assert(merged(before, info) =~= infos.take(k + 1));
}

proof fn lemma_merge_piece(s: MergeView, d: DialogueView, infos: Seq<DialogueInfoView>, k: int)
    requires
        are_settled(infos),
        0 <= k <= infos.len(),
        !s.records.contains_key(lower(d.id)),
    ensures
        merge_objects(seq![ObjectView::Dialogue(d)] + as_records(infos.take(k)), s) == (MergeView {
            records: s.records.insert(
                lower(d.id),
                GroupView { dialogue: d, dialogue_type: d.dialogue_type, infos: infos.take(k) },
            ),
            topic: Some(lower(d.id)),
        }),
    decreases k,
{
    let head = seq![ObjectView::Dialogue(d)];
    let all = head + as_records(infos.take(k));
    let topic = lower(d.id);
    if k == 0 {
        assert(all =~= head);
        assert(head.drop_last() =~= Seq::empty());
        assert(merge_objects(head.drop_last(), s) == s);
        assert(head.last() == ObjectView::Dialogue(d));
        assert(group_or_empty(s.records, topic).infos =~= infos.take(0));
        assert(merge_objects(head, s) == merge_object(s, head.last()));
    } else {
        lemma_merge_piece(s, d, infos, k - 1);
        assert(all.drop_last() =~= head + as_records(infos.take(k - 1)));
        assert(all.last() == ObjectView::DialogueInfo(infos[k - 1]));
        lemma_merge_line(infos, k - 1);
        assert(infos[k - 1].id.len() > 0);
        let before = merge_objects(all.drop_last(), s);
        let group = before.records[topic];
        assert(before.records.insert(
            topic,
            GroupView { infos: merged(group.infos, infos[k - 1]), ..group },
        ) =~= s.records.insert(
            topic,
            GroupView { dialogue: d, dialogue_type: d.dialogue_type, infos: infos.take(k) },
        ));
    }
}

proof fn lemma_merge_add(a: Seq<ObjectView>, b: Seq<ObjectView>, s: MergeView)
    ensures
        merge_objects(a + b, s) == merge_objects(b, merge_objects(a, s)),
    decreases b.len(),
{
    if b.len() == 0 {
        assert(a + b =~= a);
    } else {
        lemma_merge_add(a, b.drop_last(), s);
        assert((a + b).drop_last() =~= a + b.drop_last());
        assert((a + b).last() == b.last());
    }
}

proof fn lemma_merge_pieces(pieces: Seq<Piece>)
    requires
        are_pieces_settled(pieces),
    ensures
        merge_objects(spread(pieces), MergeView { records: Map::empty(), topic: None }).records
            == table(pieces),
    decreases pieces.len(),
{
    if pieces.len() > 0 {
        let rest = pieces.drop_last();
        let start = MergeView { records: Map::empty(), topic: None };
        let before = merge_objects(spread(rest), start);
        lemma_merge_pieces(rest);
        lemma_merge_add(spread(rest), piece_records(pieces.last()), start);
        match pieces.last() {
            Piece::Other(o) => {
                assert(seq![o].drop_last() =~= Seq::empty());
                assert(merge_objects(seq![o].drop_last(), before) == before);
                assert(merge_objects(seq![o], before) == merge_object(before, o));
            },
            Piece::Topic(d, infos) => {
                lemma_merge_piece(before, d, infos, infos.len() as int);
                assert(infos.take(infos.len() as int) =~= infos);
            },
        }
    }
}

proof fn lemma_list_piece(s: IdsView, d: DialogueView, infos: Seq<DialogueInfoView>, k: int)
    requires
        are_settled(infos),
        0 <= k <= infos.len(),
        !s.ids.contains_key(lower(d.id)),
    ensures
        list_objects(seq![ObjectView::Dialogue(d)] + as_records(infos.take(k)), s) == (IdsView {
            ids: s.ids.insert(lower(d.id), id_set(infos.take(k))),
            topic: Some(lower(d.id)),
        }),
    decreases k,
{
    let head = seq![ObjectView::Dialogue(d)];
    let all = head + as_records(infos.take(k));
    let topic = lower(d.id);
    if k == 0 {
        assert(all =~= head);
        assert(head.drop_last() =~= Seq::empty());
        assert(list_objects(head.drop_last(), s) == s);
        assert(head.last() == ObjectView::Dialogue(d));
        assert(id_set(infos.take(0)) =~= lines_or_none(s.ids, topic));
        assert(list_objects(head, s) == list_object(s, head.last()));
    } else {
        lemma_list_piece(s, d, infos, k - 1);
        assert(all.drop_last() =~= head + as_records(infos.take(k - 1)));
        assert(all.last() == ObjectView::DialogueInfo(infos[k - 1]));
        assert(infos[k - 1].id.len() > 0);
        assert(!infos[k - 1].deleted);
        assert(infos.take(k).drop_last() =~= infos.take(k - 1));
        assert(infos.take(k).last() == infos[k - 1]);
        let before = list_objects(all.drop_last(), s);
        assert(before.ids.insert(
            topic,
            lines_or_none(before.ids, topic).insert(lower(infos[k - 1].id)),
        ) =~= s.ids.insert(topic, id_set(infos.take(k))));
    }
}

proof fn lemma_list_add(a: Seq<ObjectView>, b: Seq<ObjectView>, s: IdsView)
    ensures
        list_objects(a + b, s) == list_objects(b, list_objects(a, s)),
    decreases b.len(),
{
    if b.len() == 0 {
        assert(a + b =~= a);
    } else {
        lemma_list_add(a, b.drop_last(), s);
        assert((a + b).drop_last() =~= a + b.drop_last());
        assert((a + b).last() == b.last());
    }
}

proof fn lemma_list_pieces(pieces: Seq<Piece>)
    requires
        are_pieces_settled(pieces),
    ensures
        dialogue_ids(spread(pieces)) == owned_table(pieces),
    decreases pieces.len(),
{
    let start = IdsView { ids: Map::empty(), topic: None };
    if pieces.len() == 0 {
        assert(owned_table(pieces) =~= Map::empty());
    } else {
        let rest = pieces.drop_last();
        let before = list_objects(spread(rest), start);
        lemma_list_pieces(rest);
        lemma_list_add(spread(rest), piece_records(pieces.last()), start);
        match pieces.last() {
            Piece::Other(o) => {
                assert(seq![o].drop_last() =~= Seq::empty());
                assert(list_objects(seq![o].drop_last(), before) == before);
                assert(list_objects(seq![o], before) == list_object(before, o));
            },
            Piece::Topic(d, infos) => {
                lemma_list_piece(before, d, infos, infos.len() as int);
                assert(infos.take(infos.len() as int) =~= infos);
                assert(owned_table(pieces) =~= owned_table(rest).insert(
                    lower(d.id),
                    id_set(infos),
                ));
            },
        }
    }
}

proof fn lemma_table_settled(pieces: Seq<Piece>, topic: Seq<char>)
    requires
        are_pieces_settled(pieces),
        table(pieces).contains_key(topic),
    ensures
        are_settled(table(pieces)[topic].infos),
    decreases pieces.len(),
{
    match pieces.last() {
        Piece::Other(_) => {
            lemma_table_settled(pieces.drop_last(), topic);
        },
        Piece::Topic(d, _) => {
            if lower(d.id) != topic {
                lemma_table_settled(pieces.drop_last(), topic);
            }
        },
    }
}

proof fn lemma_all_survive(infos: Seq<DialogueInfoView>, live: Set<Seq<char>>)
    requires
        forall|i: int| 0 <= i < infos.len() ==> survives(#[trigger] infos[i], live),
    ensures
        survivors(infos, live) == infos,
    decreases infos.len(),
{
    reveal(Seq::filter);
    if infos.len() > 0 {
        assert forall|i: int| 0 <= i < infos.drop_last().len() implies survives(
            #[trigger] infos.drop_last()[i],
            live,
        ) by {
            assert(infos.drop_last()[i] == infos[i]);
        }
        lemma_all_survive(infos.drop_last(), live);
        assert(survivors(infos, live) =~= infos);
    } else {
        assert(survivors(infos, live) =~= infos);
    }
}

/// Without masters the lines of a settled topic are written as they are.
proof fn lemma_lines_stay(pieces: Seq<Piece>, topic: Seq<char>)
    requires
        are_pieces_settled(pieces),
        table(pieces).contains_key(topic),
    ensures
        lines_of(plan_of(case_of(spread(pieces), Seq::empty())), topic) == as_records(
            table(pieces)[topic].infos,
        ),
{
    let objects = spread(pieces);
    let case = case_of(objects, Seq::empty());
    let plan = plan_of(case);
    lemma_merge_pieces(pieces);
    lemma_list_pieces(pieces);
    lemma_table_settled(pieces, topic);
    assert(case.records == table(pieces));
    let infos = table(pieces)[topic].infos;
    let standing = standing_of(case, topic);
    assert(case.owned.contains_key(topic));
    assert(case.reasons.contains_key(topic));
    assert forall|i: int| 0 <= i < infos.len() implies is_live(standing, #[trigger] infos[i])
        && live_ids(standing, infos).contains(lower(infos[i].id)) by {
        lemma_id_set(infos, i);
        assert(is_owned(standing, infos[i]));
        assert(has_live(standing, infos, lower(infos[i].id)));
    }
    if infos.len() == 0 {
        assert(topic_live_ids(case, topic) =~= Set::empty());
        assert(lines_of(plan, topic) =~= as_records(infos));
    } else {
        assert(is_live(standing, infos[0]));
        assert(topic_live_ids(case, topic).contains(lower(infos[0].id)));
        assert(plan.live.contains_key(topic));
        assert forall|i: int| 0 <= i < infos.len() implies survives(
            #[trigger] infos[i],
            plan.live[topic],
        ) by {
            assert(is_live(standing, infos[i]));
        }
        lemma_all_survive(infos, plan.live[topic]);
    }
}

proof fn lemma_skip_lines(plan: PlanView, a: Seq<ObjectView>, infos: Seq<DialogueInfoView>)
    ensures
        rewritten(plan, a + as_records(infos)) == rewritten(plan, a),
    decreases infos.len(),
{
    let all = a + as_records(infos);
    if infos.len() == 0 {
        assert(all =~= a);
    } else {
        assert(all.drop_last() =~= a + as_records(infos.drop_last()));
        assert(all.last() == ObjectView::DialogueInfo(infos.last()));
        lemma_skip_lines(plan, a, infos.drop_last());
    }
}

/// Topics are written as they stand, if the plan holds them as they stand.
proof fn lemma_rewrite_pieces(plan: PlanView, pieces: Seq<Piece>)
    requires
        are_pieces_settled(pieces),
        forall|t: Seq<char>| #[trigger]
            table(pieces).contains_key(t) ==> plan.records.contains_key(t) && lines_of(plan, t)
                == as_records(table(pieces)[t].infos),
    ensures
        rewritten(plan, spread(pieces)) == (RebuildView {
            objects: spread(pieces),
            emitted: table(pieces).dom(),
        }),
    decreases pieces.len(),
{
    if pieces.len() == 0 {
        assert(table(pieces).dom() =~= Set::empty());
    } else {
        let rest = pieces.drop_last();
        let before = spread(rest);
        assert forall|t: Seq<char>| #[trigger] table(rest).contains_key(t) implies
            plan.records.contains_key(t) && lines_of(plan, t) == as_records(
            table(rest)[t].infos,
        ) by {
            assert(table(pieces).contains_key(t));
            assert(table(pieces)[t] == table(rest)[t]);
        }
        lemma_rewrite_pieces(plan, rest);
        match pieces.last() {
            Piece::Other(o) => {
                assert(spread(pieces) =~= before.push(o));
                assert(spread(pieces).drop_last() =~= before);
                assert(spread(pieces).last() == o);
            },
            Piece::Topic(d, infos) => {
                let head = ObjectView::Dialogue(d);
                let topic = lower(d.id);
                assert(spread(pieces) =~= before.push(head) + as_records(infos));
                lemma_skip_lines(plan, before.push(head), infos);
                assert(before.push(head).drop_last() =~= before);
                assert(table(pieces).contains_key(topic));
                assert(table(pieces)[topic].infos == infos);
                assert(table(pieces).dom() =~= table(rest).dom().insert(topic));
            },
        }
    }
}

proof fn lemma_none_missing(plan: PlanView, emitted: Set<Seq<char>>, topics: Seq<Seq<char>>)
    requires
        forall|t: Seq<char>| #[trigger] plan.records.contains_key(t) ==> emitted.contains(t),
    ensures
        supplied(plan, emitted, topics) == Seq::<ObjectView>::empty(),
    decreases topics.len(),
{
    if topics.len() > 0 {
        lemma_none_missing(plan, emitted, topics.drop_last());
    }
}

/// A plugin whose topics can stand as they are does not change when its dialogue is written anew
/// without masters.
pub proof fn law_settled_dialogue_stays(pieces: Seq<Piece>)
    requires
        are_pieces_settled(pieces),
    ensures
        decoupled(spread(pieces), Seq::empty()) == spread(pieces),
{
    let objects = spread(pieces);
    let plan = plan_of(case_of(objects, Seq::empty()));
    lemma_merge_pieces(pieces);
    assert forall|t: Seq<char>| #[trigger] table(pieces).contains_key(t) implies
        plan.records.contains_key(t) && lines_of(plan, t) == as_records(table(pieces)[t].infos) by {
        lemma_lines_stay(pieces, t);
    }
    lemma_rewrite_pieces(plan, pieces);
    lemma_none_missing(plan, table(pieces).dom(), sorted(plan.reasons.dom()));
    assert(objects + Seq::<ObjectView>::empty() =~= objects);
}

/// The lines of a topic as they are written.
spec fn written_infos(plan: PlanView, topic: Seq<char>) -> Seq<DialogueInfoView> {
    if plan.live.contains_key(topic) {
        linked(survivors(plan.records[topic].infos, plan.live[topic]))
    } else {
        Seq::empty()
    }
}

proof fn lemma_written_infos(plan: PlanView, topic: Seq<char>)
    requires
        is_tidy(plan.records),
        plan.records.contains_key(topic),
    ensures
        lines_of(plan, topic) == as_records(written_infos(plan, topic)),
        are_settled(written_infos(plan, topic)),
{
    let out = written_infos(plan, topic);
    if plan.live.contains_key(topic) {
        let infos = plan.records[topic].infos;
        let live = plan.live[topic];
        let kept = survivors(infos, live);
        assert(is_tidy_group(topic, plan.records[topic]));
        lemma_survivors_tidy(infos, live);
        assert forall|i: int| 0 <= i < out.len() implies (#[trigger] out[i]).id == kept[i].id
            && out[i].deleted == kept[i].deleted by {}
        assert forall|i: int| 0 <= i < out.len() implies #[trigger] linked(out)[i] == out[i] by {
            assert(id_at(out, i - 1) == id_at(kept, i - 1));
            assert(id_at(out, i + 1) == id_at(kept, i + 1));
        }
        assert(linked(out) =~= out);
        assert forall|i: int, j: int| 0 <= i < j < out.len() implies !same(
            (#[trigger] out[i]).id,
            (#[trigger] out[j]).id,
        ) by {
            assert(!same(kept[i].id, kept[j].id));
        }
    } else {
        assert(lines_of(plan, topic) =~= as_records(out));
        assert(linked(out) =~= out);
    }
}

proof fn lemma_survivors_tidy(infos: Seq<DialogueInfoView>, live: Set<Seq<char>>)
    requires
        are_distinct(infos),
        are_named(infos),
    ensures
        are_distinct(survivors(infos, live)),
        are_named(survivors(infos, live)),
        are_undeleted(survivors(infos, live)),
    decreases infos.len(),
{
    reveal(Seq::filter);
    let stays = |i: DialogueInfoView| survives(i, live);
    if infos.len() > 0 {
        let rest = infos.drop_last();
        let before = survivors(rest, live);
        let last = infos.last();
        assert(are_distinct(rest)) by {
            assert forall|i: int, j: int| 0 <= i < j < rest.len() implies !same(
                (#[trigger] rest[i]).id,
                (#[trigger] rest[j]).id,
            ) by {
                assert(!same(infos[i].id, infos[j].id));
            }
        }
        assert(are_named(rest)) by {
            assert forall|i: int| 0 <= i < rest.len() implies (#[trigger] rest[i]).id.len() > 0 by {
                assert(infos[i].id.len() > 0);
            }
        }
        lemma_survivors_tidy(rest, live);
        if survives(last, live) {
            let after = survivors(infos, live);
            assert(after == before.push(last));
            assert(infos[infos.len() - 1] == last);
            assert forall|i: int| 0 <= i < before.len() implies !same(
                (#[trigger] before[i]).id,
                last.id,
            ) by {
                assert(before.contains(before[i]));
                rest.lemma_filter_contains_rev(stays, before[i]);
                let k = choose|k: int| 0 <= k < rest.len() && rest[k] == before[i];
                assert(!same(infos[k].id, infos[infos.len() - 1].id));
            }
            assert forall|i: int, j: int| 0 <= i < j < after.len() implies !same(
                (#[trigger] after[i]).id,
                (#[trigger] after[j]).id,
            ) by {
                if j < before.len() {
                    assert(!same(before[i].id, before[j].id));
                } else {
                    assert(!same(before[i].id, last.id));
                }
            }
            assert forall|i: int| 0 <= i < after.len() implies (#[trigger] after[i]).id.len() > 0
                && !after[i].deleted by {
                if i < before.len() {
                    assert(before[i].id.len() > 0 && !before[i].deleted);
                }
            }
        } else {
            assert(survivors(infos, live) == before);
        }
    }
}

/// The pieces of the records of a plugin with their dialogue written anew.
spec fn rewritten_pieces(plan: PlanView, objects: Seq<ObjectView>) -> Seq<Piece>
    decreases objects.len(),
{
    if objects.len() == 0 {
        Seq::empty()
    } else {
        let before = rewritten_pieces(plan, objects.drop_last());
        match objects.last() {
            ObjectView::Dialogue(d) => if rewritten(
                plan,
                objects.drop_last(),
            ).emitted.contains(lower(d.id)) || !plan.records.contains_key(lower(d.id)) {
                before
            } else {
                before.push(Piece::Topic(d, written_infos(plan, lower(d.id))))
            },
            ObjectView::DialogueInfo(_) => before,
            o => before.push(Piece::Other(o)),
        }
    }
}

proof fn lemma_rewritten_pieces(plan: PlanView, objects: Seq<ObjectView>)
    requires
        is_tidy(plan.records),
    ensures
        are_pieces_settled(rewritten_pieces(plan, objects)),
        rewritten(plan, objects) == (RebuildView {
            objects: spread(rewritten_pieces(plan, objects)),
            emitted: table(rewritten_pieces(plan, objects)).dom(),
        }),
    decreases objects.len(),
{
    if objects.len() == 0 {
        assert(table(rewritten_pieces(plan, objects)).dom() =~= Set::empty());
    } else {
        let rest = objects.drop_last();
        let before = rewritten_pieces(plan, rest);
        let after = rewritten_pieces(plan, objects);
        lemma_rewritten_pieces(plan, rest);
        match objects.last() {
            ObjectView::Dialogue(d) => {
                let topic = lower(d.id);
                if after != before {
                    let infos = written_infos(plan, topic);
                    lemma_written_infos(plan, topic);
                    assert(after.drop_last() =~= before);
                    assert(spread(after) =~= spread(before).push(ObjectView::Dialogue(d))
                        + as_records(infos));
                    assert(table(after).dom() =~= table(before).dom().insert(topic));
                }
            },
            ObjectView::DialogueInfo(_) => {},
            o => {
                assert(after.drop_last() =~= before);
                assert(spread(after) =~= spread(before).push(o));
            },
        }
    }
}

/// The pieces with the missing ones of the topics behind them.
spec fn supplied_pieces(
    base: Seq<Piece>,
    plan: PlanView,
    emitted: Set<Seq<char>>,
    topics: Seq<Seq<char>>,
) -> Seq<Piece>
    decreases topics.len(),
{
    if topics.len() == 0 {
        base
    } else {
        let before = supplied_pieces(base, plan, emitted, topics.drop_last());
        let topic = topics.last();
        if is_missing(plan, emitted, topic) {
            before.push(Piece::Topic(plan.records[topic].dialogue, written_infos(plan, topic)))
        } else {
            before
        }
    }
}

proof fn lemma_supplied_pieces(
    base: Seq<Piece>,
    plan: PlanView,
    emitted: Set<Seq<char>>,
    topics: Seq<Seq<char>>,
)
    requires
        is_tidy(plan.records),
        are_pieces_settled(base),
        table(base).dom() == emitted,
        strictly_sorted(topics),
    ensures
        ({
            let pieces = supplied_pieces(base, plan, emitted, topics);
            &&& are_pieces_settled(pieces)
            &&& spread(pieces) == spread(base) + supplied(plan, emitted, topics)
            &&& forall|t: Seq<char>| #[trigger]
                table(pieces).contains_key(t) ==> emitted.contains(t) || topics.contains(t)
        }),
    decreases topics.len(),
{
    let pieces = supplied_pieces(base, plan, emitted, topics);
    if topics.len() == 0 {
        assert(spread(base) + supplied(plan, emitted, topics) =~= spread(base));
        assert forall|t: Seq<char>| #[trigger] table(pieces).contains_key(t) implies
            emitted.contains(t) by {
            assert(table(base).dom().contains(t));
        }
    } else {
        let rest = topics.drop_last();
        let topic = topics.last();
        let before = supplied_pieces(base, plan, emitted, rest);
        assert(strictly_sorted(rest)) by {
            assert forall|i: int, j: int| 0 <= i < j < rest.len() implies id_less(
                #[trigger] rest[i],
                #[trigger] rest[j],
            ) by {
                assert(id_less(topics[i], topics[j]));
            }
        }
        lemma_supplied_pieces(base, plan, emitted, rest);
        assert forall|t: Seq<char>| #[trigger] rest.contains(t) implies topics.contains(t) && t
            != topic by {
            let k = choose|k: int| 0 <= k < rest.len() && rest[k] == t;
            assert(topics[k] == t);
            assert(id_less(topics[k], topics[topics.len() - 1]));
            lemma_id_less_asymmetric(t, topic);
        }
        assert(topics.contains(topic)) by {
            assert(topics[topics.len() - 1] == topic);
        }
        if is_missing(plan, emitted, topic) {
            let d = plan.records[topic].dialogue;
            let infos = written_infos(plan, topic);
            assert(is_tidy_group(topic, plan.records[topic]));
            lemma_written_infos(plan, topic);
            assert(pieces.drop_last() =~= before);
            assert(!table(before).contains_key(topic));
            let head = ObjectView::Dialogue(d);
            let more = supplied(plan, emitted, rest);
            assert(spread(pieces) =~= spread(base) + (more.push(head) + lines_of(plan, topic)));
            assert forall|t: Seq<char>| #[trigger] table(pieces).contains_key(t) implies
                emitted.contains(t) || topics.contains(t) by {
                if t != topic {
                    assert(table(before).contains_key(t));
                }
            }
        } else {
            assert forall|t: Seq<char>| #[trigger] table(pieces).contains_key(t) implies
                emitted.contains(t) || topics.contains(t) by {
                assert(table(before).contains_key(t));
            }
        }
    }
}

/// The dialogue that was written anew needs no master: loaded without any, and written anew once
/// more, every topic and every line of it stays as it is, in its place.
pub proof fn law_rebuilt_dialogue_stands_alone(
    objects: Seq<ObjectView>,
    masters: Seq<Seq<ObjectView>>,
)
    ensures
        decoupled(decoupled(objects, masters), Seq::empty()) == decoupled(objects, masters),
{
    let plan = plan_of(case_of(objects, masters));
    let written = rewritten(plan, objects);
    let topics = sorted(plan.reasons.dom());
    let base = rewritten_pieces(plan, objects);
    let pieces = supplied_pieces(base, plan, written.emitted, topics);
    law_topics_are_tidy(objects, masters);
    lemma_kept_finite(objects, masters);
    lemma_sorted_lists(plan.reasons.dom());
    lemma_rewritten_pieces(plan, objects);
    lemma_supplied_pieces(base, plan, written.emitted, topics);
    law_settled_dialogue_stays(pieces);
}

} // verus!
