//! The actors of a plugin, and which of them may speak a line of dialogue.

use vstd::prelude::*;

use crate::record_views::{DialogueInfoView, ObjectView};
use crate::records::{DialogueInfo, Plugin, TES3Object};
use crate::text::{lower, same, same_id};

verus! {

/// An actor as dialogue sees it: id, race and class in lower case. A creature has no race and no
/// class.
#[derive(Debug)]
pub struct DialogueActor {
    pub id: String,
    pub race: String,
    pub class: String,
}

/// What an actor holds.
pub struct ActorView {
    pub id: Seq<char>,
    pub race: Seq<char>,
    pub class: Seq<char>,
}

impl DeepView for DialogueActor {
    type V = ActorView;

    open spec fn deep_view(&self) -> ActorView {
        ActorView { id: self.id@, race: self.race@, class: self.class@ }
    }
}

/// The actors that may speak.
#[derive(Debug)]
pub struct DialoguePopulation {
    pub actors: Vec<DialogueActor>,
}

/// The actor that a record defines.
pub open spec fn actor_of(object: ObjectView) -> Option<ActorView> {
    match object {
        ObjectView::Npc(npc) if !npc.deleted => Some(
            ActorView { id: lower(npc.id), race: lower(npc.race), class: lower(npc.class) },
        ),
        ObjectView::Creature(creature) if !creature.deleted => Some(
            ActorView { id: lower(creature.id), race: Seq::empty(), class: Seq::empty() },
        ),
        _ => None,
    }
}

/// The actors that records define, in order.
pub open spec fn actors_of(objects: Seq<ObjectView>) -> Seq<ActorView>
    decreases objects.len(),
{
    if objects.len() == 0 {
        Seq::empty()
    } else {
        match actor_of(objects.last()) {
            Some(actor) => actors_of(objects.drop_last()).push(actor),
            None => actors_of(objects.drop_last()),
        }
    }
}

/// Lists the actors of a plugin.
pub fn collect_dialogue_population(plugin: &Plugin) -> (res: DialoguePopulation)
    ensures
        res.actors.deep_view() == actors_of(plugin@),
{
    let ghost all = plugin@;
    let mut actors: Vec<DialogueActor> = Vec::new();
    let mut i: usize = 0;
    assert(actors.deep_view() =~= actors_of(all.take(0)));
    while i < plugin.objects.len()
        invariant
            i <= plugin.objects.len(),
            all == plugin@,
            actors.deep_view() == actors_of(all.take(i as int)),
        decreases plugin.objects.len() - i,
    {
        let object: &TES3Object = &plugin.objects[i];
        let ghost before = actors.deep_view();
        proof {
            assert(all.take(i + 1).drop_last() =~= all.take(i as int));
            assert(all.take(i + 1).last() == object.deep_view());
        }
        match object {
            TES3Object::Npc(npc) if !npc.deleted => {
                actors.push(
                    DialogueActor {
                        id: npc.id.as_str().to_ascii_lowercase(),
                        race: npc.race.as_str().to_ascii_lowercase(),
                        class: npc.class.as_str().to_ascii_lowercase(),
                    },
                );
                assert(actors.deep_view() =~= before.push(actor_of(object.deep_view())->0));
            },
            TES3Object::Creature(creature) if !creature.deleted => {
                actors.push(
                    DialogueActor {
                        id: creature.id.as_str().to_ascii_lowercase(),
                        race: String::new(),
                        class: String::new(),
                    },
                );
                assert(actors@.last().deep_view().race =~= Seq::empty());
                assert(actors@.last().deep_view().class =~= Seq::empty());
                assert(actors.deep_view() =~= before.push(actor_of(object.deep_view())->0));
            },
            _ => {},
        }
        i += 1;
    }
    assert(all.take(i as int) =~= all);
    DialoguePopulation { actors }
}

/// The line asks for nothing in this place, or for what the actor has there.
pub open spec fn admits(wanted: Seq<char>, has: Seq<char>) -> bool {
    wanted.len() == 0 || same(has, wanted)
}

/// The actor meets what the line asks of its speaker's id, race and class.
pub open spec fn can_speak(info: DialogueInfoView, actor: ActorView) -> bool {
    &&& admits(info.speaker_id, actor.id)
    &&& admits(info.speaker_race, actor.race)
    &&& admits(info.speaker_class, actor.class)
}

/// The line asks for a certain id, race or class.
pub open spec fn is_particular(info: DialogueInfoView) -> bool {
    info.speaker_id.len() > 0 || info.speaker_race.len() > 0 || info.speaker_class.len() > 0
}

/// Some actor can speak the line.
pub open spec fn some_can_speak(info: DialogueInfoView, actors: Seq<ActorView>) -> bool {
    exists|i: int| 0 <= i < actors.len() && can_speak(info, #[trigger] actors[i])
}

/// The line may come up: it asks for no certain id, race or class, or an actor has all that it asks
/// for. Whether an actor is of a faction changes as the game is played, so that is not asked.
pub open spec fn may_be_spoken(info: DialogueInfoView, actors: Seq<ActorView>) -> bool {
    is_particular(info) ==> some_can_speak(info, actors)
}

/// Whether an actor meets what a line asks for in one place.
fn meets(wanted: &str, has: &str) -> (res: bool)
    ensures
        res == admits(wanted@, has@),
{
    wanted.is_empty() || same_id(has, wanted)
}

/// Whether some actor may speak a line.
pub fn info_can_match_actor(info: &DialogueInfo, population: &DialoguePopulation) -> (res: bool)
    ensures
        res == may_be_spoken(info.deep_view(), population.actors.deep_view()),
{
    let ghost actors = population.actors.deep_view();
    if info.speaker_id.as_str().is_empty() && info.speaker_race.as_str().is_empty()
        && info.speaker_class.as_str().is_empty() {
        return true;
    }
    let mut i: usize = 0;
    while i < population.actors.len()
        invariant
            i <= population.actors.len(),
            actors == population.actors.deep_view(),
            is_particular(info.deep_view()),
            forall|k: int| 0 <= k < i ==> !can_speak(info.deep_view(), #[trigger] actors[k]),
        decreases population.actors.len() - i,
    {
        let actor: &DialogueActor = &population.actors[i];
        assert(actors[i as int] == actor.deep_view());
        if meets(info.speaker_id.as_str(), actor.id.as_str()) && meets(
            info.speaker_race.as_str(),
            actor.race.as_str(),
        ) && meets(info.speaker_class.as_str(), actor.class.as_str()) {
            return true;
        }
        i += 1;
    }
    false
}

/// An actor as it is reported: its ids as they are written.
#[derive(Debug)]
pub struct ReportedActor {
    pub tag: &'static str,
    pub id: String,
    pub race: String,
    pub class: String,
    pub sex: &'static str,
}

/// What a reported actor holds.
pub struct ReportedActorView {
    pub tag: Seq<char>,
    pub id: Seq<char>,
    pub race: Seq<char>,
    pub class: Seq<char>,
    pub sex: Seq<char>,
}

impl DeepView for ReportedActor {
    type V = ReportedActorView;

    open spec fn deep_view(&self) -> ReportedActorView {
        ReportedActorView {
            tag: self.tag@,
            id: self.id@,
            race: self.race@,
            class: self.class@,
            sex: self.sex@,
        }
    }
}

/// The report on the actor that a record defines.
pub open spec fn reported(object: ObjectView) -> Option<ReportedActorView> {
    match object {
        ObjectView::Npc(npc) if !npc.deleted => Some(
            ReportedActorView {
                tag: "Npc"@,
                id: npc.id,
                race: npc.race,
                class: npc.class,
                sex: if npc.female {
                    "female"@
                } else {
                    "male"@
                },
            },
        ),
        ObjectView::Creature(creature) if !creature.deleted => Some(
            ReportedActorView {
                tag: "Creature"@,
                id: creature.id,
                race: ""@,
                class: ""@,
                sex: ""@,
            },
        ),
        _ => None,
    }
}

/// The reports on the actors that records define, in order.
pub open spec fn all_reported(objects: Seq<ObjectView>) -> Seq<ReportedActorView>
    decreases objects.len(),
{
    if objects.len() == 0 {
        Seq::empty()
    } else {
        match reported(objects.last()) {
            Some(actor) => all_reported(objects.drop_last()).push(actor),
            None => all_reported(objects.drop_last()),
        }
    }
}

/// Lists the actors of a plugin for a report.
pub fn report_dialogue_population(plugin: &Plugin) -> (res: Vec<ReportedActor>)
    ensures
        res.deep_view() == all_reported(plugin@),
{
    let ghost all = plugin@;
    let mut actors: Vec<ReportedActor> = Vec::new();
    let mut i: usize = 0;
    assert(actors.deep_view() =~= all_reported(all.take(0)));
    while i < plugin.objects.len()
        invariant
            i <= plugin.objects.len(),
            all == plugin@,
            actors.deep_view() == all_reported(all.take(i as int)),
        decreases plugin.objects.len() - i,
    {
        let object: &TES3Object = &plugin.objects[i];
        let ghost before = actors.deep_view();
        proof {
            assert(all.take(i + 1).drop_last() =~= all.take(i as int));
            assert(all.take(i + 1).last() == object.deep_view());
        }
        match object {
            TES3Object::Npc(npc) if !npc.deleted => {
                actors.push(
                    ReportedActor {
                        tag: "Npc",
                        id: npc.id.clone(),
                        race: npc.race.clone(),
                        class: npc.class.clone(),
                        sex: if npc.female {
                            "female"
                        } else {
                            "male"
                        },
                    },
                );
                assert(actors.deep_view() =~= before.push(reported(object.deep_view())->0));
            },
            TES3Object::Creature(creature) if !creature.deleted => {
                actors.push(
                    ReportedActor {
                        tag: "Creature",
                        id: creature.id.clone(),
                        race: "".to_owned(),
                        class: "".to_owned(),
                        sex: "",
                    },
                );
                assert(actors.deep_view() =~= before.push(reported(object.deep_view())->0));
            },
            _ => {},
        }
        i += 1;
    }
    assert(all.take(i as int) =~= all);
    actors
}

/// A line that asks for no certain id, race or class may be spoken, whatever actors there are and
/// whatever faction it asks for.
pub proof fn law_generic_line_may_be_spoken(info: DialogueInfoView, actors: Seq<ActorView>)
    requires
        !is_particular(info),
    ensures
        may_be_spoken(info, actors),
{
}

/// What a line asks of its speaker is met by a single actor: id, race and class that different
/// actors have do not add up.
pub proof fn law_one_actor_meets_all(info: DialogueInfoView, actors: Seq<ActorView>)
    requires
        is_particular(info),
    ensures
        may_be_spoken(info, actors) <==> exists|i: int|
            0 <= i < actors.len() && #[trigger] admits(info.speaker_id, actors[i].id) && admits(
                info.speaker_race,
                actors[i].race,
            ) && admits(info.speaker_class, actors[i].class),
{
    if may_be_spoken(info, actors) {
        let i = choose|i: int| 0 <= i < actors.len() && can_speak(info, #[trigger] actors[i]);
        assert(admits(info.speaker_id, actors[i].id));
    }
}

/// The faction of the speaker makes no difference to whether a line may be spoken.
pub proof fn law_faction_excludes_no_line(
    info: DialogueInfoView,
    faction: Seq<char>,
    actors: Seq<ActorView>,
)
    ensures
        may_be_spoken(info, actors) == may_be_spoken(
            DialogueInfoView { speaker_faction: faction, ..info },
            actors,
        ),
{
    let other = DialogueInfoView { speaker_faction: faction, ..info };
    assert forall|i: int| 0 <= i < actors.len() implies can_speak(info, #[trigger] actors[i])
        == can_speak(other, actors[i]) by {}
}

/// With more actors no line falls silent.
pub proof fn law_more_actors_silence_no_line(
    info: DialogueInfoView,
    actors: Seq<ActorView>,
    more: Seq<ActorView>,
)
    ensures
        may_be_spoken(info, actors) ==> may_be_spoken(info, actors + more),
{
    if some_can_speak(info, actors) {
        let i = choose|i: int| 0 <= i < actors.len() && can_speak(info, #[trigger] actors[i]);
        assert((actors + more)[i] == actors[i]);
    }
}

/// A record is an actor only if it is an actor's record that is not deleted.
pub proof fn law_deleted_actors_do_not_speak(object: ObjectView)
    requires
        object.deleted(),
    ensures
        actor_of(object) is None,
        reported(object) is None,
{
}

} // verus!
