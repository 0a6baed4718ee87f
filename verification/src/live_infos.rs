//! Which lines of dialogue are kept.

use vstd::hash_set::StringHashSet;
use vstd::prelude::*;

use crate::audit::{
    add_dialogue_keep_reasons, empty_audit, keep_reasons, times, AuditView, DialogueAudit,
    MaterializedView,
};
use crate::dialogue_group::{DialogueGroup, GroupView};
use crate::dialogue_records::{groups_of, ids_of, DialogueIds, DialogueRecords};
use crate::id_map::{lemma_keys_listed, IdMap};
use crate::ids::{lemma_sorted_is, sorted};
use crate::population::{info_can_match_actor, may_be_spoken, ActorView, DialoguePopulation};
use crate::record_views::DialogueInfoView;
use crate::records::{DialogueInfo, DialogueType2};
use crate::text::lower;
use crate::topic_reasons::{reasons_of, DialogueTopicReason, DialogueTopicReasons, ReasonSet};

verus! {

/// What decides about the lines of a topic: which of them are the plugin's own, why the topic is
/// kept, if it is, of which kind it is, and who may speak.
pub struct StandingView {
    pub owned: Set<Seq<char>>,
    pub reasons: Option<Set<DialogueTopicReason>>,
    pub dialogue_type: DialogueType2,
    pub actors: Seq<ActorView>,
}

/// The line is the plugin's own.
pub open spec fn is_owned(standing: StandingView, info: DialogueInfoView) -> bool {
    standing.owned.contains(lower(info.id))
}

/// The line is kept: its topic is kept, and it is the plugin's own or may be spoken.
pub open spec fn is_live(standing: StandingView, info: DialogueInfoView) -> bool {
    &&& !info.deleted
    &&& standing.reasons is Some
    &&& is_owned(standing, info) || may_be_spoken(info, standing.actors)
}

/// A number of an account.
pub enum Tally {
    /// The lines that are not deleted.
    Effective,
    /// Those of them that are the plugin's own.
    Owned,
    /// Those of the others that are kept.
    Retained,
    /// Those of the others that are not kept.
    Pruned,
    /// Those that are retained for the reason of this name.
    Kept(Seq<char>),
}

/// The line counts towards the number.
pub open spec fn counts(standing: StandingView, tally: Tally, info: DialogueInfoView) -> bool {
    match tally {
        Tally::Effective => !info.deleted,
        Tally::Owned => !info.deleted && is_owned(standing, info),
        Tally::Retained => is_live(standing, info) && !is_owned(standing, info),
        Tally::Pruned => !info.deleted && !is_live(standing, info) && !is_owned(standing, info),
        Tally::Kept(name) => is_live(standing, info) && !is_owned(standing, info) && keep_reasons(
            standing.reasons->0,
            standing.dialogue_type,
            info,
        ).contains(name),
    }
}

/// How many of the lines count towards the number.
pub open spec fn count_lines(
    standing: StandingView,
    tally: Tally,
    infos: Seq<DialogueInfoView>,
) -> nat
    decreases infos.len(),
{
    if infos.len() == 0 {
        0
    } else {
        count_lines(standing, tally, infos.drop_last()) + if counts(
            standing,
            tally,
            infos.last(),
        ) {
            1nat
        } else {
            0nat
        }
    }
}

/// The topics with all that decides about their lines.
pub struct LivenessView {
    pub records: Map<Seq<char>, GroupView>,
    pub owned: Map<Seq<char>, Set<Seq<char>>>,
    pub reasons: Map<Seq<char>, Set<DialogueTopicReason>>,
    pub actors: Seq<ActorView>,
}

/// What decides about the lines of `topic`.
pub open spec fn standing_of(case: LivenessView, topic: Seq<char>) -> StandingView {
    StandingView {
        owned: if case.owned.contains_key(topic) {
            case.owned[topic]
        } else {
            Set::empty()
        },
        reasons: if case.reasons.contains_key(topic) {
            Some(case.reasons[topic])
        } else {
            None
        },
        dialogue_type: case.records[topic].dialogue_type,
        actors: case.actors,
    }
}

/// How many lines of the topics count towards the number.
pub open spec fn count_topics(case: LivenessView, tally: Tally, topics: Seq<Seq<char>>) -> nat
    decreases topics.len(),
{
    if topics.len() == 0 {
        0
    } else {
        count_topics(case, tally, topics.drop_last()) + count_lines(
            standing_of(case, topics.last()),
            tally,
            case.records[topics.last()].infos,
        )
    }
}

/// How many lines there are that count towards the number.
pub open spec fn total(case: LivenessView, tally: Tally) -> nat {
    count_topics(case, tally, sorted(case.records.dom()))
}

/// The account of all lines.
pub open spec fn account(case: LivenessView) -> AuditView {
    AuditView {
        effective: total(case, Tally::Effective),
        owned: total(case, Tally::Owned),
        retained: total(case, Tally::Retained),
        pruned: total(case, Tally::Pruned),
        kept: Map::new(
            |name: Seq<char>| total(case, Tally::Kept(name)) > 0,
            |name: Seq<char>| total(case, Tally::Kept(name)),
        ),
        topics: Map::empty(),
    }
}

/// One of the lines is kept and goes by `id`.
pub open spec fn has_live(
    standing: StandingView,
    infos: Seq<DialogueInfoView>,
    id: Seq<char>,
) -> bool {
    exists|i: int|
        0 <= i < infos.len() && is_live(standing, #[trigger] infos[i]) && lower(infos[i].id) == id
}

/// The ids, in lower case, of the lines that are kept.
pub open spec fn live_ids(standing: StandingView, infos: Seq<DialogueInfoView>) -> Set<Seq<char>> {
    Set::new(|id: Seq<char>| has_live(standing, infos, id))
}

/// The ids of the lines of `topic` that are kept.
pub open spec fn topic_live_ids(case: LivenessView, topic: Seq<char>) -> Set<Seq<char>> {
    live_ids(standing_of(case, topic), case.records[topic].infos)
}

/// The topics of which lines are kept, with the ids of those lines.
pub open spec fn live_infos(case: LivenessView) -> Map<Seq<char>, Set<Seq<char>>> {
    Map::new(
        |t: Seq<char>|
            case.records.contains_key(t) && topic_live_ids(case, t) != Set::<Seq<char>>::empty(),
        |t: Seq<char>| topic_live_ids(case, t),
    )
}

/// A number of an account.
pub open spec fn number(audit: AuditView, tally: Tally) -> nat {
    match tally {
        Tally::Effective => audit.effective,
        Tally::Owned => audit.owned,
        Tally::Retained => audit.retained,
        Tally::Pruned => audit.pruned,
        Tally::Kept(name) => times(audit.kept, name),
    }
}

/// What a line adds to a number.
pub open spec fn worth(standing: StandingView, tally: Tally, info: DialogueInfoView) -> nat {
    if counts(standing, tally, info) {
        1
    } else {
        0
    }
}

/// No reason is listed that was never counted, and no number is above that of all lines.
pub open spec fn is_sober(audit: AuditView) -> bool {
    &&& forall|n: Seq<char>| #[trigger] audit.kept.contains_key(n) ==> audit.kept[n] > 0
    &&& forall|t: Tally| #[trigger] number(audit, t) <= audit.effective
    &&& audit.topics == Map::<Seq<char>, MaterializedView>::empty()
}

/// Why the topic is kept, if it is.
pub open spec fn reasons_seen(reasons: Option<&ReasonSet>) -> Option<Set<DialogueTopicReason>> {
    match reasons {
        Some(set) => Some(set@),
        None => None,
    }
}

/// The lines in a list, or none.
pub open spec fn lines_seen(lines: Option<&StringHashSet>) -> Set<Seq<char>> {
    match lines {
        Some(set) => set@,
        None => Set::empty(),
    }
}

/// Decides about a line and takes it into the account.
fn judge_info(
    owned_ids: Option<&StringHashSet>,
    topic_reasons: Option<&ReasonSet>,
    group: &DialogueGroup,
    info: &DialogueInfo,
    population: &DialoguePopulation,
    audit: &mut DialogueAudit,
    Ghost(standing): Ghost<StandingView>,
) -> (res: bool)
    requires
        standing == (StandingView {
            owned: lines_seen(owned_ids),
            reasons: reasons_seen(topic_reasons),
            dialogue_type: group.dialogue_type,
            actors: population.actors.deep_view(),
        }),
        old(audit).wf(),
        is_sober(old(audit)@),
        old(audit)@.effective < usize::MAX || info.deleted,
    ensures
        final(audit).wf(),
        is_sober(final(audit)@),
        res == is_live(standing, info.deep_view()),
        forall|t: Tally| #[trigger]
            number(final(audit)@, t) == number(old(audit)@, t) + worth(
                standing,
                t,
                info.deep_view(),
            ),
{
    let ghost line = info.deep_view();
    let ghost before = audit@;
    if info.deleted {
        return false;
    }
    let id = info.id.as_str().to_ascii_lowercase();
    let owned = match owned_ids {
        Some(ids) => ids.contains(id.as_str()),
        None => false,
    };
    let live = topic_reasons.is_some() && (owned || info_can_match_actor(info, population));
    proof {
        assert forall|n: Seq<char>| #[trigger] times(before.kept, n) <= before.effective by {
            assert(number(before, Tally::Kept(n)) <= before.effective);
        }
        assert(number(before, Tally::Owned) <= before.effective);
        assert(number(before, Tally::Retained) <= before.effective);
        assert(number(before, Tally::Pruned) <= before.effective);
    }
    if live && !owned {
        add_dialogue_keep_reasons(audit, topic_reasons, group, info);
        audit.retained_vanilla_infos += 1;
    } else if !owned {
        audit.pruned_vanilla_infos += 1;
    }
    if owned {
        audit.starwind_owned_infos += 1;
    }
    audit.effective_infos += 1;
    proof {
        assert forall|t: Tally| #[trigger]
            number(audit@, t) == number(before, t) + worth(standing, t, line) && number(
                audit@,
                t,
            ) <= audit@.effective by {
            assert(number(before, t) <= before.effective);
        }
        assert forall|n: Seq<char>| #[trigger] audit@.kept.contains_key(n) implies audit@.kept[n]
            > 0 by {
            assert(before.kept.contains_key(n) ==> before.kept[n] > 0);
        }
    }
    live
}

/// Decides about the lines of a topic and takes them into the account.
fn judge_group(
    owned_ids: Option<&StringHashSet>,
    topic_reasons: Option<&ReasonSet>,
    group: &DialogueGroup,
    population: &DialoguePopulation,
    audit: &mut DialogueAudit,
    Ghost(standing): Ghost<StandingView>,
) -> (res: StringHashSet)
    requires
        standing == (StandingView {
            owned: lines_seen(owned_ids),
            reasons: reasons_seen(topic_reasons),
            dialogue_type: group.dialogue_type,
            actors: population.actors.deep_view(),
        }),
        old(audit).wf(),
        is_sober(old(audit)@),
        old(audit)@.effective + count_lines(standing, Tally::Effective, group.deep_view().infos)
            <= usize::MAX,
    ensures
        final(audit).wf(),
        is_sober(final(audit)@),
        res@ == live_ids(standing, group.deep_view().infos),
        forall|t: Tally| #[trigger]
            number(final(audit)@, t) == number(old(audit)@, t) + count_lines(
                standing,
                t,
                group.deep_view().infos,
            ),
{
    let ghost infos = group.deep_view().infos;
    let ghost before = audit@;
    let mut ids = StringHashSet::new();
    let mut i: usize = 0;
    proof {
        assert(live_ids(standing, infos.take(0)) =~= Set::empty());
    }
    while i < group.infos.len()
        invariant
            i <= group.infos.len(),
            infos == group.deep_view().infos,
            standing == (StandingView {
                owned: lines_seen(owned_ids),
                reasons: reasons_seen(topic_reasons),
                dialogue_type: group.dialogue_type,
                actors: population.actors.deep_view(),
            }),
            audit.wf(),
            is_sober(audit@),
            before.effective + count_lines(standing, Tally::Effective, infos) <= usize::MAX,
            ids@ == live_ids(standing, infos.take(i as int)),
            forall|t: Tally| #[trigger]
                number(audit@, t) == number(before, t) + count_lines(
                    standing,
                    t,
                    infos.take(i as int),
                ),
        decreases group.infos.len() - i,
    {
        let info: &DialogueInfo = &group.infos[i];
        let ghost reached = audit@;
        proof {
            assert(infos[i as int] == info.deep_view());
            assert(infos.take(i + 1).drop_last() =~= infos.take(i as int));
            assert(infos.take(i + 1).last() == infos[i as int]);
            lemma_count_prefix(standing, Tally::Effective, infos, i + 1);
            assert(number(reached, Tally::Effective) == reached.effective);
            lemma_live_step(standing, infos, i as int);
        }
        let live = judge_info(
            owned_ids,
            topic_reasons,
            group,
            info,
            population,
            audit,
            Ghost(standing),
        );
        if live {
            ids.insert(info.id.as_str().to_ascii_lowercase());
        }
        proof {
            assert forall|t: Tally| #[trigger]
                number(audit@, t) == number(before, t) + count_lines(
                    standing,
                    t,
                    infos.take(i + 1),
                ) by {
                assert(number(reached, t) == number(before, t) + count_lines(
                    standing,
                    t,
                    infos.take(i as int),
                ));
            }
        }
        i += 1;
    }
    assert(infos.take(i as int) =~= infos);
    ids
}

proof fn lemma_count_prefix(
    standing: StandingView,
    tally: Tally,
    infos: Seq<DialogueInfoView>,
    i: int,
)
    requires
        0 <= i <= infos.len(),
    ensures
        count_lines(standing, tally, infos.take(i)) <= count_lines(standing, tally, infos),
    decreases infos.len(),
{
    if i == infos.len() {
        assert(infos.take(i) =~= infos);
    } else {
        lemma_count_prefix(standing, tally, infos.drop_last(), i);
        assert(infos.drop_last().take(i) =~= infos.take(i));
    }
}

proof fn lemma_topics_prefix(case: LivenessView, tally: Tally, topics: Seq<Seq<char>>, i: int)
    requires
        0 <= i <= topics.len(),
    ensures
        count_topics(case, tally, topics.take(i)) <= count_topics(case, tally, topics),
    decreases topics.len(),
{
    if i == topics.len() {
        assert(topics.take(i) =~= topics);
    } else {
        lemma_topics_prefix(case, tally, topics.drop_last(), i);
        assert(topics.drop_last().take(i) =~= topics.take(i));
    }
}

proof fn lemma_live_step(standing: StandingView, infos: Seq<DialogueInfoView>, i: int)
    requires
        0 <= i < infos.len(),
    ensures
        live_ids(standing, infos.take(i + 1)) == if is_live(standing, infos[i]) {
            live_ids(standing, infos.take(i)).insert(lower(infos[i].id))
        } else {
            live_ids(standing, infos.take(i))
        },
{
    let longer = infos.take(i + 1);
    let shorter = infos.take(i);
    assert(longer[i] == infos[i]);
    assert forall|id: Seq<char>| #[trigger]
        has_live(standing, longer, id) <==> has_live(standing, shorter, id) || is_live(
            standing,
            infos[i],
        ) && lower(infos[i].id) == id by {
        if has_live(standing, shorter, id) {
            let k = choose|k: int|
                0 <= k < shorter.len() && is_live(standing, #[trigger] shorter[k]) && lower(
                    shorter[k].id,
                ) == id;
            assert(longer[k] == shorter[k]);
        }
        if has_live(standing, longer, id) {
            let k = choose|k: int|
                0 <= k < longer.len() && is_live(standing, #[trigger] longer[k]) && lower(
                    longer[k].id,
                ) == id;
            if k < i {
                assert(shorter[k] == longer[k]);
            }
        }
    }
    assert(live_ids(standing, longer) =~= if is_live(standing, infos[i]) {
        live_ids(standing, shorter).insert(lower(infos[i].id))
    } else {
        live_ids(standing, shorter)
    });
}

/// Decides which lines are kept, and gives the account.
pub fn collect_live_dialogue_infos(
    records: &DialogueRecords,
    starwind_ids: &DialogueIds,
    live_topics: &DialogueTopicReasons,
    population: &DialoguePopulation,
) -> (res: (DialogueIds, DialogueAudit))
    requires
        records.wf(),
        starwind_ids.wf(),
        live_topics.wf(),
        total(
            (LivenessView {
                records: groups_of(records@),
                owned: ids_of(starwind_ids@),
                reasons: reasons_of(live_topics@),
                actors: population.actors.deep_view(),
            }),
            Tally::Effective,
        ) <= usize::MAX,
    ensures
        res.0.wf(),
        res.1.wf(),
        ids_of(res.0@) == live_infos(
            (LivenessView {
                records: groups_of(records@),
                owned: ids_of(starwind_ids@),
                reasons: reasons_of(live_topics@),
                actors: population.actors.deep_view(),
            }),
        ),
        res.1@ == account(
            (LivenessView {
                records: groups_of(records@),
                owned: ids_of(starwind_ids@),
                reasons: reasons_of(live_topics@),
                actors: population.actors.deep_view(),
            }),
        ),
{
    let ghost case = LivenessView {
        records: groups_of(records@),
        owned: ids_of(starwind_ids@),
        reasons: reasons_of(live_topics@),
        actors: population.actors.deep_view(),
    };
    let ghost keys = records.keys();
    let mut live: DialogueIds = IdMap::new();
    let mut audit = DialogueAudit::default();
    let mut i: usize = 0;
    proof {
        lemma_keys_listed(*records);
        assert(case.records.dom() =~= records@.dom());
        lemma_sorted_is(keys, case.records.dom());
        assert(audit@ == empty_audit());
        assert(ids_of(live@) =~= kept_among(case, keys.take(0)));
        assert forall|t: Tally| #[trigger] number(audit@, t) == count_topics(
            case,
            t,
            keys.take(0),
        ) by {}
    }
    while i < records.len()
        invariant
            i <= keys.len(),
            keys == records.keys(),
            keys == sorted(case.records.dom()),
            records.wf(),
            starwind_ids.wf(),
            live_topics.wf(),
            case == (LivenessView {
                records: groups_of(records@),
                owned: ids_of(starwind_ids@),
                reasons: reasons_of(live_topics@),
                actors: population.actors.deep_view(),
            }),
            total(case, Tally::Effective) <= usize::MAX,
            live.wf(),
            audit.wf(),
            is_sober(audit@),
            ids_of(live@) == kept_among(case, keys.take(i as int)),
            forall|t: Tally| #[trigger]
                number(audit@, t) == count_topics(case, t, keys.take(i as int)),
        decreases keys.len() - i,
    {
        let topic = records.key_at(i);
        let group: &DialogueGroup = records.value_at(i);
        let owned_ids = starwind_ids.get(topic.as_str());
        let topic_reasons = live_topics.get(topic.as_str());
        let ghost standing = standing_of(case, topic@);
        let ghost reached = audit@;
        let ghost kept = ids_of(live@);
        proof {
            assert(case.records[topic@] == group.deep_view());
            assert(keys.take(i + 1).drop_last() =~= keys.take(i as int));
            assert(keys.take(i + 1).last() == topic@);
            lemma_topics_prefix(case, Tally::Effective, keys, i + 1);
            assert(number(reached, Tally::Effective) == reached.effective);
            assert(standing.owned =~= lines_seen(owned_ids));
            assert(standing.reasons == reasons_seen(topic_reasons));
        }
        let ids = judge_group(
            owned_ids,
            topic_reasons,
            group,
            population,
            &mut audit,
            Ghost(standing),
        );
        let ghost found = ids@;
        if !ids.is_empty() {
            live.insert(topic.as_str(), ids);
            assert(ids_of(live@) =~= kept.insert(topic@, found));
        }
        proof {
            lemma_kept_step(case, keys, i as int);
            assert(found == topic_live_ids(case, topic@));
            assert(found.is_empty() <==> found =~= Set::empty());
            assert forall|t: Tally| #[trigger]
                number(audit@, t) == count_topics(case, t, keys.take(i + 1)) by {
                assert(number(reached, t) == count_topics(case, t, keys.take(i as int)));
            }
        }
        i += 1;
    }
    proof {
        assert(keys.take(i as int) =~= keys);
        assert forall|t: Seq<char>| #[trigger]
            keys.contains(t) <==> case.records.contains_key(t) by {
            assert(keys.to_set().contains(t) <==> case.records.dom().contains(t));
        }
        assert(kept_among(case, keys) =~= live_infos(case));
        let expected = account(case);
        assert(number(audit@, Tally::Effective) == expected.effective);
        assert(number(audit@, Tally::Owned) == expected.owned);
        assert(number(audit@, Tally::Retained) == expected.retained);
        assert(number(audit@, Tally::Pruned) == expected.pruned);
        assert forall|n: Seq<char>| #[trigger]
            audit@.kept.contains_key(n) <==> expected.kept.contains_key(n) by {
            assert(number(audit@, Tally::Kept(n)) == total(case, Tally::Kept(n)));
        }
        assert forall|n: Seq<char>| #[trigger] audit@.kept.contains_key(n) implies audit@.kept[n]
            == expected.kept[n] by {
            assert(number(audit@, Tally::Kept(n)) == total(case, Tally::Kept(n)));
        }
        assert(audit@.kept =~= expected.kept);
    }
    (live, audit)
}

/// Those of the topics of which lines are kept, with the ids of those lines.
spec fn kept_among(case: LivenessView, topics: Seq<Seq<char>>) -> Map<Seq<char>, Set<Seq<char>>> {
    Map::new(
        |t: Seq<char>| topics.contains(t) && topic_live_ids(case, t) != Set::<Seq<char>>::empty(),
        |t: Seq<char>| topic_live_ids(case, t),
    )
}

proof fn lemma_kept_step(case: LivenessView, topics: Seq<Seq<char>>, i: int)
    requires
        0 <= i < topics.len(),
    ensures
        kept_among(case, topics.take(i + 1)) == if topic_live_ids(case, topics[i]) == Set::<
            Seq<char>,
        >::empty() {
            kept_among(case, topics.take(i))
        } else {
            kept_among(case, topics.take(i)).insert(topics[i], topic_live_ids(case, topics[i]))
        },
{
    let longer = topics.take(i + 1);
    let shorter = topics.take(i);
    assert forall|t: Seq<char>| #[trigger] longer.contains(t) <==> shorter.contains(t) || t
        == topics[i] by {
        assert(longer[i] == topics[i]);
        if shorter.contains(t) {
            let k = choose|k: int| 0 <= k < shorter.len() && shorter[k] == t;
            assert(longer[k] == t);
        }
        if longer.contains(t) {
            let k = choose|k: int| 0 <= k < longer.len() && longer[k] == t;
            if k < i {
                assert(shorter[k] == t);
            }
        }
    }
    let left = kept_among(case, longer);
    if topic_live_ids(case, topics[i]) == Set::<Seq<char>>::empty() {
        assert(left =~= kept_among(case, shorter));
    } else {
        assert(left =~= kept_among(case, shorter).insert(
            topics[i],
            topic_live_ids(case, topics[i]),
        ));
    }
}

proof fn lemma_lines_add_up(standing: StandingView, infos: Seq<DialogueInfoView>)
    ensures
        count_lines(standing, Tally::Effective, infos) == count_lines(
            standing,
            Tally::Owned,
            infos,
        ) + count_lines(standing, Tally::Retained, infos) + count_lines(
            standing,
            Tally::Pruned,
            infos,
        ),
    decreases infos.len(),
{
    if infos.len() > 0 {
        lemma_lines_add_up(standing, infos.drop_last());
    }
}

proof fn lemma_topics_add_up(case: LivenessView, topics: Seq<Seq<char>>)
    ensures
        count_topics(case, Tally::Effective, topics) == count_topics(case, Tally::Owned, topics)
            + count_topics(case, Tally::Retained, topics) + count_topics(
            case,
            Tally::Pruned,
            topics,
        ),
    decreases topics.len(),
{
    if topics.len() > 0 {
        lemma_topics_add_up(case, topics.drop_last());
        lemma_lines_add_up(
            standing_of(case, topics.last()),
            case.records[topics.last()].infos,
        );
    }
}

/// Every line that is not deleted is the plugin's own, retained or pruned, and only one of these.
pub proof fn law_account_adds_up(case: LivenessView)
    ensures
        account(case).effective == account(case).owned + account(case).retained + account(
            case,
        ).pruned,
{
    lemma_topics_add_up(case, sorted(case.records.dom()));
}

/// A line that the plugin deletes is not kept, though it may have been a master's.
pub proof fn law_deleted_line_is_not_kept(standing: StandingView, info: DialogueInfoView)
    requires
        info.deleted,
    ensures
        !is_live(standing, info),
{
}

/// The plugin's own lines are kept, whoever is there to speak them.
pub proof fn law_own_line_is_kept(standing: StandingView, info: DialogueInfoView)
    requires
        !info.deleted,
        is_owned(standing, info),
        standing.reasons is Some,
    ensures
        is_live(standing, info),
{
}

} // verus!
