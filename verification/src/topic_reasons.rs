//! Why dialogue topics are kept.

use vstd::prelude::*;

use crate::id_map::{lemma_paired_at, lemma_paired_update, IdMap};

verus! {

/// A reason to keep a topic.
#[derive(Clone, Copy, Debug, PartialEq, Eq, Hash, Structural)]
pub enum DialogueTopicReason {
    /// The plugin has the topic.
    Starwind,
    /// The game itself goes through the topic.
    Engine,
    /// A script of the plugin adds the topic.
    Script,
}

/// The name of a reason.
pub open spec fn reason_name(reason: DialogueTopicReason) -> Seq<char> {
    match reason {
        DialogueTopicReason::Starwind => "StarwindTopic"@,
        DialogueTopicReason::Engine => "EngineTopic"@,
        DialogueTopicReason::Script => "ScriptTopic"@,
    }
}

impl DialogueTopicReason {
    /// The name of the reason.
    pub fn name(self) -> (res: &'static str)
        ensures
            res@ == reason_name(self),
    {
        match self {
            Self::Starwind => "StarwindTopic",
            Self::Engine => "EngineTopic",
            Self::Script => "ScriptTopic",
        }
    }
}

/// A set of reasons.
#[derive(Clone, Copy, Debug, PartialEq, Eq, Structural)]
pub struct ReasonSet {
    starwind: bool,
    engine: bool,
    script: bool,
}

impl View for ReasonSet {
    type V = Set<DialogueTopicReason>;

    closed spec fn view(&self) -> Set<DialogueTopicReason> {
        Set::new(
            |r: DialogueTopicReason|
                match r {
                    DialogueTopicReason::Starwind => self.starwind,
                    DialogueTopicReason::Engine => self.engine,
                    DialogueTopicReason::Script => self.script,
                },
        )
    }
}

impl ReasonSet {
    pub fn new() -> (res: Self)
        ensures
            res@ == Set::<DialogueTopicReason>::empty(),
    {
        let res = ReasonSet { starwind: false, engine: false, script: false };
        assert(res@ =~= Set::empty());
        res
    }

    pub fn insert(&mut self, reason: DialogueTopicReason)
        ensures
            final(self)@ == old(self)@.insert(reason),
    {
        match reason {
            DialogueTopicReason::Starwind => {
                self.starwind = true;
            },
            DialogueTopicReason::Engine => {
                self.engine = true;
            },
            DialogueTopicReason::Script => {
                self.script = true;
            },
        }
        assert(self@ =~= old(self)@.insert(reason));
    }

    pub fn contains(&self, reason: DialogueTopicReason) -> (res: bool)
        ensures
            res == self@.contains(reason),
    {
        match reason {
            DialogueTopicReason::Starwind => self.starwind,
            DialogueTopicReason::Engine => self.engine,
            DialogueTopicReason::Script => self.script,
        }
    }
}

/// The topics that are kept, with the reasons.
pub type DialogueTopicReasons = IdMap<ReasonSet>;

/// What a map of reasons holds.
pub open spec fn reasons_of(topics: Map<Seq<char>, ReasonSet>) -> Map<
    Seq<char>,
    Set<DialogueTopicReason>,
> {
    topics.map_values(|r: ReasonSet| r@)
}

/// The reasons to keep `topic`, if any.
pub open spec fn reasons_or_none(
    topics: Map<Seq<char>, Set<DialogueTopicReason>>,
    topic: Seq<char>,
) -> Set<DialogueTopicReason> {
    if topics.contains_key(topic) {
        topics[topic]
    } else {
        Set::empty()
    }
}

/// The map in which every topic of `added` has gained `reason`.
pub open spec fn with_reason(
    topics: Map<Seq<char>, Set<DialogueTopicReason>>,
    added: Set<Seq<char>>,
    reason: DialogueTopicReason,
) -> Map<Seq<char>, Set<DialogueTopicReason>> {
    Map::new(
        |t: Seq<char>| topics.contains_key(t) || added.contains(t),
        |t: Seq<char>|
            if added.contains(t) {
                reasons_or_none(topics, t).insert(reason)
            } else {
                topics[t]
            },
    )
}

/// One more topic gains the reason.
pub proof fn lemma_with_reason_insert(
    topics: Map<Seq<char>, Set<DialogueTopicReason>>,
    added: Set<Seq<char>>,
    reason: DialogueTopicReason,
    topic: Seq<char>,
)
    ensures
        with_reason(topics, added.insert(topic), reason) == with_reason(
            topics,
            added,
            reason,
        ).insert(
            topic,
            reasons_or_none(with_reason(topics, added, reason), topic).insert(reason),
        ),
{
    let before = with_reason(topics, added, reason);
    let right = before.insert(topic, reasons_or_none(before, topic).insert(reason));
    let left = with_reason(topics, added.insert(topic), reason);
    assert(reasons_or_none(topics, topic).insert(reason).insert(reason) =~= reasons_or_none(
        topics,
        topic,
    ).insert(reason));
    assert(left =~= right);
}

/// No topic, no change.
pub proof fn lemma_with_reason_none(
    topics: Map<Seq<char>, Set<DialogueTopicReason>>,
    reason: DialogueTopicReason,
)
    ensures
        with_reason(topics, Set::empty(), reason) == topics,
{
    assert(with_reason(topics, Set::empty(), reason) =~= topics);
}

/// Gives a topic one more reason to be kept.
pub fn add_topic_reason(
    topics: &mut DialogueTopicReasons,
    topic: &str,
    reason: DialogueTopicReason,
)
    requires
        old(topics).wf(),
    ensures
        final(topics).wf(),
        reasons_of(final(topics)@) == reasons_of(old(topics)@).insert(
            topic@,
            reasons_or_none(reasons_of(old(topics)@), topic@).insert(reason),
        ),
{
    let ghost before = reasons_of(topics@);
    let slot = topics.entry(topic, ReasonSet::new());
    let ghost opened = topics@;
    let ghost keys = topics.keys();
    let ghost values = topics.values();
    proof {
        lemma_paired_at(keys, values, slot as int);
    }
    let reasons = topics.value_at_mut(slot);
    reasons.insert(reason);
    proof {
        let new = topics.values()[slot as int];
        assert(topics.values() == values.update(slot as int, new));
        lemma_paired_update(keys, values, slot as int, new);
        assert(new@ == reasons_or_none(before, topic@).insert(reason));
        assert(reasons_of(topics@) =~= before.insert(topic@, new@));
    }
}

} // verus!
