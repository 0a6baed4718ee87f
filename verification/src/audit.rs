//! The account of what became of the lines of dialogue.

use vstd::prelude::*;
use vstd::utf8::is_ascii_chars_encode_utf8;

use crate::dialogue_group::DialogueGroup;
use crate::id_map::{lemma_paired_at, lemma_paired_update, IdMap};
use crate::ids::{lemma_sorted_is, sorted, strictly_sorted};
use crate::live_topics::{is_engine_kind, is_engine_type};
use crate::record_views::DialogueInfoView;
use crate::records::{DialogueInfo, DialogueType2};
use crate::text::{id_less, precedes_at};
use crate::topic_reasons::{reason_name, DialogueTopicReason, ReasonSet};

verus! {

/// A topic that was copied from the masters: how many lines it kept, and why it was kept.
#[derive(Debug)]
pub struct MaterializedTopic {
    pub live_infos: usize,
    pub reasons: Vec<&'static str>,
}

/// What the account of a copied topic holds.
pub struct MaterializedView {
    pub live_infos: nat,
    pub reasons: Seq<Seq<char>>,
}

impl DeepView for MaterializedTopic {
    type V = MaterializedView;

    open spec fn deep_view(&self) -> MaterializedView {
        MaterializedView { live_infos: self.live_infos as nat, reasons: self.reasons.deep_view() }
    }
}

/// How many lines there were, how many were the plugin's own, how many of the others were retained
/// and pruned, how often each reason to retain one applied, and which topics were copied.
#[derive(Debug)]
pub struct DialogueAudit {
    pub effective_infos: usize,
    pub starwind_owned_infos: usize,
    pub retained_vanilla_infos: usize,
    pub pruned_vanilla_infos: usize,
    pub keep_reasons: IdMap<usize>,
    pub materialized_vanilla_topics: IdMap<MaterializedTopic>,
}

/// What an account holds.
pub struct AuditView {
    pub effective: nat,
    pub owned: nat,
    pub retained: nat,
    pub pruned: nat,
    pub kept: Map<Seq<char>, nat>,
    pub topics: Map<Seq<char>, MaterializedView>,
}

/// What a map of counts holds.
pub open spec fn counts_of(counts: Map<Seq<char>, usize>) -> Map<Seq<char>, nat> {
    counts.map_values(|n: usize| n as nat)
}

/// What a map of copied topics holds.
pub open spec fn topics_of(topics: Map<Seq<char>, MaterializedTopic>) -> Map<
    Seq<char>,
    MaterializedView,
> {
    topics.map_values(|t: MaterializedTopic| t.deep_view())
}

impl View for DialogueAudit {
    type V = AuditView;

    open spec fn view(&self) -> AuditView {
        AuditView {
            effective: self.effective_infos as nat,
            owned: self.starwind_owned_infos as nat,
            retained: self.retained_vanilla_infos as nat,
            pruned: self.pruned_vanilla_infos as nat,
            kept: counts_of(self.keep_reasons@),
            topics: topics_of(self.materialized_vanilla_topics@),
        }
    }
}

/// An account of nothing.
pub open spec fn empty_audit() -> AuditView {
    AuditView {
        effective: 0,
        owned: 0,
        retained: 0,
        pruned: 0,
        kept: Map::empty(),
        topics: Map::empty(),
    }
}

/// How often `name` was counted.
pub open spec fn times(counts: Map<Seq<char>, nat>, name: Seq<char>) -> nat {
    if counts.contains_key(name) {
        counts[name]
    } else {
        0
    }
}

/// The counts after every name of `names` was counted once more.
pub open spec fn raised(counts: Map<Seq<char>, nat>, names: Set<Seq<char>>) -> Map<Seq<char>, nat> {
    Map::new(
        |n: Seq<char>| counts.contains_key(n) || names.contains(n),
        |n: Seq<char>|
            times(counts, n) + if names.contains(n) {
                1nat
            } else {
                0nat
            },
    )
}

/// The names of reasons.
pub open spec fn reason_names(reasons: Set<DialogueTopicReason>) -> Set<Seq<char>> {
    reasons.map(|r: DialogueTopicReason| reason_name(r))
}

/// The reasons of a topic, or none.
pub open spec fn reasons_given(reasons: Option<&ReasonSet>) -> Set<DialogueTopicReason> {
    match reasons {
        Some(set) => set@,
        None => Set::empty(),
    }
}

proof fn lemma_reason_name_order()
    ensures
        id_less("EngineTopic"@, "ScriptTopic"@),
        id_less("ScriptTopic"@, "StarwindTopic"@),
        id_less("EngineTopic"@, "StarwindTopic"@),
{
    reveal_strlit("EngineTopic");
    reveal_strlit("ScriptTopic");
    reveal_strlit("StarwindTopic");
    is_ascii_chars_encode_utf8("EngineTopic"@);
    is_ascii_chars_encode_utf8("ScriptTopic"@);
    is_ascii_chars_encode_utf8("StarwindTopic"@);
    let engine = vstd::utf8::encode_utf8("EngineTopic"@);
    let script = vstd::utf8::encode_utf8("ScriptTopic"@);
    let starwind = vstd::utf8::encode_utf8("StarwindTopic"@);
    assert(engine[0] == 'E' as u8);
    assert(script[0] == 'S' as u8);
    assert(script[1] == 'c' as u8);
    assert(starwind[0] == 'S' as u8);
    assert(starwind[1] == 't' as u8);
    assert(precedes_at(engine, script, 0));
    assert(precedes_at(script, starwind, 1));
    assert(precedes_at(engine, starwind, 0));
}

/// Lists the names of reasons in order.
fn list_reason_names(reasons: Option<&ReasonSet>) -> (res: Vec<&'static str>)
    ensures
        res.deep_view() == sorted(reason_names(reasons_given(reasons))),
{
    let ghost given = reasons_given(reasons);
    let ghost names = reason_names(given);
    let mut res: Vec<&'static str> = Vec::new();
    if let Some(set) = reasons {
        if set.contains(DialogueTopicReason::Engine) {
            res.push(DialogueTopicReason::Engine.name());
        }
        if set.contains(DialogueTopicReason::Script) {
            res.push(DialogueTopicReason::Script.name());
        }
        if set.contains(DialogueTopicReason::Starwind) {
            res.push(DialogueTopicReason::Starwind.name());
        }
    }
    proof {
        lemma_reason_name_order();
        let listed = res.deep_view();
        assert(strictly_sorted(listed));
        assert forall|n: Seq<char>| #[trigger] listed.to_set().contains(n) <==> names.contains(
            n,
        ) by {
            if names.contains(n) {
                let r = choose|r: DialogueTopicReason| given.contains(r) && n == reason_name(r);
                match r {
                    DialogueTopicReason::Engine => {
                        assert(listed[0] == n);
                    },
                    DialogueTopicReason::Script => {
                        assert(listed.contains(n)) by {
                            if given.contains(DialogueTopicReason::Engine) {
                                assert(listed[1] == n);
                            } else {
                                assert(listed[0] == n);
                            }
                        }
                    },
                    DialogueTopicReason::Starwind => {
                        assert(listed[listed.len() - 1] == n);
                    },
                }
            }
            if listed.contains(n) {
                assert(given.contains(DialogueTopicReason::Engine) && n == reason_name(
                    DialogueTopicReason::Engine,
                ) || given.contains(DialogueTopicReason::Script) && n == reason_name(
                    DialogueTopicReason::Script,
                ) || given.contains(DialogueTopicReason::Starwind) && n == reason_name(
                    DialogueTopicReason::Starwind,
                ));
            }
        }
        assert(listed.to_set() =~= names);
        lemma_sorted_is(listed, names);
    }
    res
}

impl Default for DialogueAudit {
    fn default() -> (res: Self)
        ensures
            res.wf(),
            res@ == empty_audit(),
    {
        let res = DialogueAudit {
            effective_infos: 0,
            starwind_owned_infos: 0,
            retained_vanilla_infos: 0,
            pruned_vanilla_infos: 0,
            keep_reasons: IdMap::new(),
            materialized_vanilla_topics: IdMap::new(),
        };
        assert(res@.kept =~= Map::empty());
        assert(res@.topics =~= Map::empty());
        res
    }
}

impl DialogueAudit {
    /// The maps are in order.
    pub open spec fn wf(&self) -> bool {
        &&& self.keep_reasons.wf()
        &&& self.materialized_vanilla_topics.wf()
    }

    /// Counts a reason once more.
    pub fn add_reason(&mut self, reason: &'static str)
        requires
            old(self).wf(),
            times(old(self)@.kept, reason@) < usize::MAX,
        ensures
            final(self).wf(),
            final(self)@ == (AuditView {
                kept: old(self)@.kept.insert(reason@, times(old(self)@.kept, reason@) + 1),
                ..old(self)@
            }),
    {
        let ghost before = self@.kept;
        let slot = self.keep_reasons.entry(reason, 0);
        let ghost keys = self.keep_reasons.keys();
        let ghost values = self.keep_reasons.values();
        proof {
            lemma_paired_at(keys, values, slot as int);
            assert(values[slot as int] as nat == times(before, reason@));
        }
        let count = self.keep_reasons.value_at_mut(slot);
        *count = *count + 1;
        proof {
            let new = self.keep_reasons.values()[slot as int];
            assert(self.keep_reasons.values() == values.update(slot as int, new));
            lemma_paired_update(keys, values, slot as int, new);
            assert(self@.kept =~= before.insert(reason@, times(before, reason@) + 1));
        }
    }

    /// Notes that a topic was copied from the masters.
    pub fn add_materialized_topic(
        &mut self,
        topic: &str,
        live_info_count: usize,
        reasons: Option<&ReasonSet>,
    )
        requires
            old(self).wf(),
        ensures
            final(self).wf(),
            final(self)@ == (AuditView {
                topics: old(self)@.topics.insert(
                    topic@,
                    MaterializedView {
                        live_infos: live_info_count as nat,
                        reasons: sorted(reason_names(reasons_given(reasons))),
                    },
                ),
                ..old(self)@
            }),
    {
        let ghost before = self@.topics;
        let names = list_reason_names(reasons);
        let noted = MaterializedTopic { live_infos: live_info_count, reasons: names };
        let ghost view = noted.deep_view();
        self.materialized_vanilla_topics.insert(topic, noted);
        assert(self@.topics =~= before.insert(topic@, view));
    }
}

/// The reasons for which a line of the masters is retained, under the names by which they are
/// counted.
pub open spec fn keep_reasons(
    reasons: Set<DialogueTopicReason>,
    dialogue_type: DialogueType2,
    info: DialogueInfoView,
) -> Set<Seq<char>> {
    Set::new(
        |name: Seq<char>|
            {
                ||| name == "VANILLA_ENGINE_TOPIC_GENERIC"@ && is_generic(info) && is_engine_kind(
                    dialogue_type,
                )
                ||| name == "VANILLA_MATCHING_SPEAKER_ID"@ && info.speaker_id.len() > 0
                ||| name == "VANILLA_MATCHING_RACE"@ && info.speaker_race.len() > 0
                ||| name == "VANILLA_MATCHING_CLASS"@ && info.speaker_class.len() > 0
                ||| name == "VANILLA_FACTION_UNKNOWN"@ && info.speaker_faction.len() > 0
                ||| name == "VANILLA_SCRIPT_TOPIC"@ && reasons.contains(DialogueTopicReason::Script)
                ||| name == "VANILLA_DIALOGUE_TOPIC"@ && reasons.contains(
                    DialogueTopicReason::Starwind,
                )
            },
    )
}

/// The line asks nothing of its speaker.
pub open spec fn is_generic(info: DialogueInfoView) -> bool {
    &&& info.speaker_id.len() == 0
    &&& info.speaker_race.len() == 0
    &&& info.speaker_class.len() == 0
    &&& info.speaker_faction.len() == 0
}

proof fn lemma_reasons_distinct()
    ensures
        "VANILLA_ENGINE_TOPIC_GENERIC"@.len() == 28,
        "VANILLA_MATCHING_SPEAKER_ID"@.len() == 27,
        "VANILLA_MATCHING_RACE"@.len() == 21,
        "VANILLA_MATCHING_CLASS"@.len() == 22,
        "VANILLA_FACTION_UNKNOWN"@.len() == 23,
        "VANILLA_SCRIPT_TOPIC"@.len() == 20,
        "VANILLA_DIALOGUE_TOPIC"@.len() == 22,
        "VANILLA_MATCHING_CLASS"@ != "VANILLA_DIALOGUE_TOPIC"@,
{
    reveal_strlit("VANILLA_ENGINE_TOPIC_GENERIC");
    reveal_strlit("VANILLA_MATCHING_SPEAKER_ID");
    reveal_strlit("VANILLA_MATCHING_RACE");
    reveal_strlit("VANILLA_MATCHING_CLASS");
    reveal_strlit("VANILLA_FACTION_UNKNOWN");
    reveal_strlit("VANILLA_SCRIPT_TOPIC");
    reveal_strlit("VANILLA_DIALOGUE_TOPIC");
    assert("VANILLA_MATCHING_CLASS"@[8] == 'M');
    assert("VANILLA_DIALOGUE_TOPIC"@[8] == 'D');
}

proof fn lemma_raised_insert(counts: Map<Seq<char>, nat>, names: Set<Seq<char>>, name: Seq<char>)
    requires
        !names.contains(name),
    ensures
        raised(counts, names.insert(name)) == raised(counts, names).insert(
            name,
            times(raised(counts, names), name) + 1,
        ),
        times(raised(counts, names), name) == times(counts, name),
{
    let right = raised(counts, names).insert(name, times(raised(counts, names), name) + 1);
    assert(raised(counts, names.insert(name)) =~= right);
}

/// Counts a reason if it applies.
fn count_if(audit: &mut DialogueAudit, applies: bool, reason: &'static str, Ghost(start): Ghost<
    AuditView,
>, Ghost(names): Ghost<Set<Seq<char>>>)
    requires
        old(audit).wf(),
        old(audit)@ == (AuditView { kept: raised(start.kept, names), ..start }),
        !names.contains(reason@),
        times(start.kept, reason@) < usize::MAX,
    ensures
        final(audit).wf(),
        final(audit)@ == (AuditView {
            kept: raised(
                start.kept,
                if applies {
                    names.insert(reason@)
                } else {
                    names
                },
            ),
            ..start
        }),
{
    proof {
        lemma_raised_insert(start.kept, names, reason@);
    }
    if applies {
        audit.add_reason(reason);
    }
}

spec fn gained(names: Set<Seq<char>>, applies: bool, name: Seq<char>) -> Set<Seq<char>> {
    if applies {
        names.insert(name)
    } else {
        names
    }
}

/// Counts the reasons for which a line of the masters is retained.
pub fn add_dialogue_keep_reasons(
    audit: &mut DialogueAudit,
    topic_reasons: Option<&ReasonSet>,
    group: &DialogueGroup,
    info: &DialogueInfo,
)
    requires
        old(audit).wf(),
        forall|n: Seq<char>| #[trigger] times(old(audit)@.kept, n) < usize::MAX,
    ensures
        final(audit).wf(),
        final(audit)@ == (AuditView {
            kept: raised(
                old(audit)@.kept,
                keep_reasons(
                    reasons_given(topic_reasons),
                    group.dialogue_type,
                    info.deep_view(),
                ),
            ),
            ..old(audit)@
        }),
{
    let ghost start = audit@;
    let ghost line = info.deep_view();
    let by_id = !info.speaker_id.as_str().is_empty();
    let by_race = !info.speaker_race.as_str().is_empty();
    let by_class = !info.speaker_class.as_str().is_empty();
    let by_faction = !info.speaker_faction.as_str().is_empty();
    let by_engine = !by_id && !by_race && !by_class && !by_faction && is_engine_type(
        group.dialogue_type,
    );
    let (by_script, by_topic) = match topic_reasons {
        Some(reasons) => (
            reasons.contains(DialogueTopicReason::Script),
            reasons.contains(DialogueTopicReason::Starwind),
        ),
        None => (false, false),
    };
    let ghost n0: Set<Seq<char>> = Set::empty();
    let ghost n1 = gained(n0, by_engine, "VANILLA_ENGINE_TOPIC_GENERIC"@);
    let ghost n2 = gained(n1, by_id, "VANILLA_MATCHING_SPEAKER_ID"@);
    let ghost n3 = gained(n2, by_race, "VANILLA_MATCHING_RACE"@);
    let ghost n4 = gained(n3, by_class, "VANILLA_MATCHING_CLASS"@);
    let ghost n5 = gained(n4, by_faction, "VANILLA_FACTION_UNKNOWN"@);
    let ghost n6 = gained(n5, by_script, "VANILLA_SCRIPT_TOPIC"@);
    let ghost n7 = gained(n6, by_topic, "VANILLA_DIALOGUE_TOPIC"@);
    proof {
        lemma_reasons_distinct();
        assert(raised(start.kept, n0) =~= start.kept);
    }
    count_if(audit, by_engine, "VANILLA_ENGINE_TOPIC_GENERIC", Ghost(start), Ghost(n0));
    count_if(audit, by_id, "VANILLA_MATCHING_SPEAKER_ID", Ghost(start), Ghost(n1));
    count_if(audit, by_race, "VANILLA_MATCHING_RACE", Ghost(start), Ghost(n2));
    count_if(audit, by_class, "VANILLA_MATCHING_CLASS", Ghost(start), Ghost(n3));
    count_if(audit, by_faction, "VANILLA_FACTION_UNKNOWN", Ghost(start), Ghost(n4));
    count_if(audit, by_script, "VANILLA_SCRIPT_TOPIC", Ghost(start), Ghost(n5));
    count_if(audit, by_topic, "VANILLA_DIALOGUE_TOPIC", Ghost(start), Ghost(n6));
    assert(n7 =~= keep_reasons(reasons_given(topic_reasons), group.dialogue_type, line));
}

} // verus!
