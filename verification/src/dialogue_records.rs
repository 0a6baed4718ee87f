//! The dialogue that is in force when plugins are loaded one over the other.

use vstd::hash_set::StringHashSet;
use vstd::prelude::*;

use crate::dialogue_group::{empty_group, merged, DialogueGroup, GroupView};
use crate::id_map::{lemma_paired_at, lemma_paired_update, IdMap};
use crate::record_views::{text_of, ObjectView};
use crate::records::{Plugin, TES3Object};
use crate::text::{lemma_lower_len, lower};
use crate::vanilla_index::masters_of;

verus! {

/// The topics by their ids in lower case.
pub type DialogueRecords = IdMap<DialogueGroup>;

/// The lines of topics, by the ids of the topics; all ids in lower case.
pub type DialogueIds = IdMap<StringHashSet>;

/// What topics hold.
pub open spec fn groups_of(records: Map<Seq<char>, DialogueGroup>) -> Map<Seq<char>, GroupView> {
    records.map_values(|g: DialogueGroup| g.deep_view())
}

/// What lists of lines hold.
pub open spec fn ids_of(ids: Map<Seq<char>, StringHashSet>) -> Map<Seq<char>, Set<Seq<char>>> {
    ids.map_values(|s: StringHashSet| s@)
}

/// The topic under `topic`, or an empty one.
pub open spec fn group_or_empty(
    records: Map<Seq<char>, GroupView>,
    topic: Seq<char>,
) -> GroupView {
    if records.contains_key(topic) {
        records[topic]
    } else {
        empty_group()
    }
}

/// The topics, and the topic that the next line belongs to.
pub struct MergeView {
    pub records: Map<Seq<char>, GroupView>,
    pub topic: Option<Seq<char>>,
}

/// Merges one record in. The head of a topic opens it; the lines that follow belong to it, until
/// another head or a record of another kind comes. Lines without an id, or outside of a topic, are
/// passed over.
pub open spec fn merge_object(s: MergeView, object: ObjectView) -> MergeView {
    match object {
        ObjectView::Dialogue(dialogue) => {
            let topic = lower(dialogue.id);
            MergeView {
                records: s.records.insert(
                    topic,
                    GroupView {
                        dialogue,
                        dialogue_type: dialogue.dialogue_type,
                        ..group_or_empty(s.records, topic)
                    },
                ),
                topic: Some(topic),
            }
        },
        ObjectView::DialogueInfo(info) => match s.topic {
            Some(topic) if info.id.len() > 0 => {
                let group = group_or_empty(s.records, topic);
                MergeView {
                    records: s.records.insert(
                        topic,
                        GroupView { infos: merged(group.infos, info), ..group },
                    ),
                    ..s
                }
            },
            _ => s,
        },
        _ => MergeView { topic: None, ..s },
    }
}

/// Merges records in, one after the other.
pub open spec fn merge_objects(objects: Seq<ObjectView>, s: MergeView) -> MergeView
    decreases objects.len(),
{
    if objects.len() == 0 {
        s
    } else {
        merge_object(merge_objects(objects.drop_last(), s), objects.last())
    }
}

/// The topics after a plugin was loaded over `records`.
pub open spec fn loaded(
    objects: Seq<ObjectView>,
    records: Map<Seq<char>, GroupView>,
) -> Map<Seq<char>, GroupView> {
    merge_objects(objects, MergeView { records, topic: None }).records
}

/// The topics of the masters, of which each is loaded over those behind it.
pub open spec fn master_records(masters: Seq<Seq<ObjectView>>) -> Map<Seq<char>, GroupView>
    decreases masters.len(),
{
    if masters.len() == 0 {
        Map::empty()
    } else {
        loaded(masters[0], master_records(masters.skip(1)))
    }
}

/// The topics that are in force: those of the masters, with the plugin loaded over them.
pub open spec fn effective_records(
    objects: Seq<ObjectView>,
    masters: Seq<Seq<ObjectView>>,
) -> Map<Seq<char>, GroupView> {
    loaded(objects, master_records(masters))
}

/// Replacing a group in the map replaces it in what the map holds.
proof fn lemma_groups_insert(
    records: Map<Seq<char>, DialogueGroup>,
    topic: Seq<char>,
    group: DialogueGroup,
)
    ensures
        groups_of(records.insert(topic, group)) == groups_of(records).insert(
            topic,
            group.deep_view(),
        ),
{
    assert(groups_of(records.insert(topic, group)) =~= groups_of(records).insert(
        topic,
        group.deep_view(),
    ));
}

/// Loads a plugin over the topics.
pub fn merge_dialogue_records(plugin: &Plugin, records: &mut DialogueRecords)
    requires
        old(records).wf(),
    ensures
        final(records).wf(),
        groups_of(final(records)@) == loaded(plugin@, groups_of(old(records)@)),
{
    let mut topic: Option<String> = None;
    let ghost all = plugin@;
    let ghost begun = MergeView { records: groups_of(records@), topic: None };
    let mut i: usize = 0;
    while i < plugin.objects.len()
        invariant
            i <= plugin.objects@.len(),
            all == plugin@,
            records.wf(),
            merge_objects(all.take(i as int), begun) == (MergeView {
                records: groups_of(records@),
                topic: text_of(topic),
            }),
        decreases plugin.objects@.len() - i,
    {
        let object: &TES3Object = &plugin.objects[i];
        let ghost now = merge_objects(all.take(i as int), begun);
        proof {
            assert(object.deep_view() == all[i as int]);
            assert(all.take(i + 1).drop_last() =~= all.take(i as int));
            assert(all.take(i + 1).last() == all[i as int]);
        }
        match object {
            TES3Object::Dialogue(dialogue) => {
                let id = dialogue.id.to_ascii_lowercase();
                let slot = records.entry(id.as_str(), DialogueGroup::default());
                let ghost opened = records@;
                let ghost keys = records.keys();
                let ghost values = records.values();
                proof {
                    lemma_paired_at(keys, values, slot as int);
                    assert(values[slot as int].deep_view() == group_or_empty(now.records, id@));
                }
                let group = records.value_at_mut(slot);
                group.dialogue = dialogue.clone();
                group.dialogue_type = dialogue.dialogue_type;
                proof {
                    let new = records.values()[slot as int];
                    assert(records.values() == values.update(slot as int, new));
                    lemma_paired_update(keys, values, slot as int, new);
                    lemma_groups_insert(opened, id@, new);
                    assert(groups_of(records@) =~= now.records.insert(id@, new.deep_view()));
                }
                topic = Some(id);
            },
            TES3Object::DialogueInfo(info) => {
                proof {
                    lemma_lower_len(info.id@);
                }
                if let Some(topic) = &topic {
                    let id = info.id.to_ascii_lowercase();
                    if !id.as_str().is_empty() {
                        let slot = records.entry(topic.as_str(), DialogueGroup::default());
                        let ghost opened = records@;
                        let ghost keys = records.keys();
                        let ghost values = records.values();
                        proof {
                            lemma_paired_at(keys, values, slot as int);
                            assert(values[slot as int].deep_view() == group_or_empty(
                                now.records,
                                topic@,
                            ));
                        }
                        let group = records.value_at_mut(slot);
                        group.insert_info(info.clone());
                        proof {
                            let new = records.values()[slot as int];
                            assert(records.values() == values.update(slot as int, new));
                            lemma_paired_update(keys, values, slot as int, new);
                            lemma_groups_insert(opened, topic@, new);
                            assert(groups_of(records@) =~= now.records.insert(
                                topic@,
                                new.deep_view(),
                            ));
                        }
                    }
                }
            },
            _ => {
                topic = None;
            },
        }
        i += 1;
    }
    assert(all.take(i as int) =~= all);
}

/// Collects the topics that are in force.
pub fn collect_effective_dialogue_records(plugin: &Plugin, base_plugins: &[Plugin]) -> (res:
    DialogueRecords)
    ensures
        res.wf(),
        groups_of(res@) == effective_records(plugin@, masters_of(base_plugins@)),
{
    let mut records: DialogueRecords = IdMap::new();
    let ghost masters = masters_of(base_plugins@);
    let mut m: usize = base_plugins.len();
    assert(groups_of(records@) =~= Map::empty());
    while m > 0
        invariant
            m <= base_plugins@.len(),
            masters == masters_of(base_plugins@),
            records.wf(),
            groups_of(records@) == master_records(masters.skip(m as int)),
        decreases m,
    {
        proof {
            assert(masters.skip(m - 1)[0] == base_plugins@[m - 1]@);
            assert(masters.skip(m - 1).skip(1) =~= masters.skip(m as int));
        }
        m -= 1;
        merge_dialogue_records(&base_plugins[m], &mut records);
    }
    assert(masters.skip(0) =~= masters);
    merge_dialogue_records(plugin, &mut records);
    records
}

/// The lines of topics, and the topic that the next line belongs to.
pub struct IdsView {
    pub ids: Map<Seq<char>, Set<Seq<char>>>,
    pub topic: Option<Seq<char>>,
}

/// The lines listed under `topic`, if any.
pub open spec fn lines_or_none(
    ids: Map<Seq<char>, Set<Seq<char>>>,
    topic: Seq<char>,
) -> Set<Seq<char>> {
    if ids.contains_key(topic) {
        ids[topic]
    } else {
        Set::empty()
    }
}

/// Lists one record: a topic, or a line of the open topic that has an id and is not deleted.
pub open spec fn list_object(s: IdsView, object: ObjectView) -> IdsView {
    match object {
        ObjectView::Dialogue(dialogue) => {
            let topic = lower(dialogue.id);
            IdsView {
                ids: s.ids.insert(topic, lines_or_none(s.ids, topic)),
                topic: Some(topic),
            }
        },
        ObjectView::DialogueInfo(info) => match s.topic {
            Some(topic) if info.id.len() > 0 && !info.deleted => IdsView {
                ids: s.ids.insert(topic, lines_or_none(s.ids, topic).insert(lower(info.id))),
                ..s
            },
            _ => s,
        },
        _ => IdsView { topic: None, ..s },
    }
}

/// Lists records, one after the other.
pub open spec fn list_objects(objects: Seq<ObjectView>, s: IdsView) -> IdsView
    decreases objects.len(),
{
    if objects.len() == 0 {
        s
    } else {
        list_object(list_objects(objects.drop_last(), s), objects.last())
    }
}

/// The topics of a plugin with the ids of their lines, all in lower case.
pub open spec fn dialogue_ids(objects: Seq<ObjectView>) -> Map<Seq<char>, Set<Seq<char>>> {
    list_objects(objects, IdsView { ids: Map::empty(), topic: None }).ids
}

proof fn lemma_ids_insert(
    ids: Map<Seq<char>, StringHashSet>,
    topic: Seq<char>,
    lines: StringHashSet,
)
    ensures
        ids_of(ids.insert(topic, lines)) == ids_of(ids).insert(topic, lines@),
{
    assert(ids_of(ids.insert(topic, lines)) =~= ids_of(ids).insert(topic, lines@));
}

/// Collects the topics of a plugin with the ids of their lines.
pub fn collect_dialogue_ids(plugin: &Plugin) -> (res: DialogueIds)
    ensures
        res.wf(),
        ids_of(res@) == dialogue_ids(plugin@),
{
    let mut ids: DialogueIds = IdMap::new();
    let mut topic: Option<String> = None;
    let ghost all = plugin@;
    let ghost begun = IdsView { ids: Map::empty(), topic: None };
    let mut i: usize = 0;
    assert(ids_of(ids@) =~= Map::empty());
    while i < plugin.objects.len()
        invariant
            i <= plugin.objects@.len(),
            all == plugin@,
            ids.wf(),
            list_objects(all.take(i as int), begun) == (IdsView {
                ids: ids_of(ids@),
                topic: text_of(topic),
            }),
        decreases plugin.objects@.len() - i,
    {
        let object: &TES3Object = &plugin.objects[i];
        let ghost now = list_objects(all.take(i as int), begun);
        proof {
            assert(object.deep_view() == all[i as int]);
            assert(all.take(i + 1).drop_last() =~= all.take(i as int));
            assert(all.take(i + 1).last() == all[i as int]);
        }
        match object {
            TES3Object::Dialogue(dialogue) => {
                let id = dialogue.id.to_ascii_lowercase();
                let none = StringHashSet::new();
                proof {
                    lemma_ids_insert(ids@, id@, none);
                }
                ids.entry(id.as_str(), none);
                assert(ids_of(ids@) =~= now.ids.insert(id@, lines_or_none(now.ids, id@)));
                topic = Some(id);
            },
            TES3Object::DialogueInfo(info) => {
                proof {
                    lemma_lower_len(info.id@);
                }
                if let Some(topic) = &topic {
                    let id = info.id.to_ascii_lowercase();
                    if !id.as_str().is_empty() && !info.deleted {
                        let ghost x = id@;
                        let slot = ids.entry(topic.as_str(), StringHashSet::new());
                        let ghost opened = ids@;
                        let ghost keys = ids.keys();
                        let ghost values = ids.values();
                        proof {
                            lemma_paired_at(keys, values, slot as int);
                            assert(values[slot as int]@ == lines_or_none(now.ids, topic@));
                        }
                        let lines = ids.value_at_mut(slot);
                        lines.insert(id);
                        proof {
                            let new = ids.values()[slot as int];
                            assert(ids.values() == values.update(slot as int, new));
                            lemma_paired_update(keys, values, slot as int, new);
                            lemma_ids_insert(opened, topic@, new);
                            assert(ids_of(ids@) =~= now.ids.insert(
                                topic@,
                                lines_or_none(now.ids, topic@).insert(x),
                            ));
                        }
                    }
                }
            },
            _ => {
                topic = None;
            },
        }
        i += 1;
    }
    assert(all.take(i as int) =~= all);
    ids
}

} // verus!
