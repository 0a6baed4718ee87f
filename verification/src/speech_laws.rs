//! What a line asks of its speaker, and whom the records offer.

use vstd::prelude::*;

use crate::population::{
    actors_of, all_reported, can_speak, is_particular, may_be_spoken, some_can_speak, ActorView,
    DialogueActor, ReportedActorView,
};
use crate::record_views::{DialogueInfoView, ObjectView};
use crate::text::{lemma_lower_idempotent, lemma_lower_len, lower};

verus! {

/// A line may be spoken just if it asks for no id, no race and no class, or if one actor has
/// each of these that it asks for, in any case. A place that the line leaves empty asks for
/// nothing; one that the actor leaves empty meets no demand.
pub proof fn law_line_is_spoken_by_one_who_has_what_it_asks(
    info: DialogueInfoView,
    actors: Seq<ActorView>,
)
    ensures
        may_be_spoken(info, actors) <==> {
            ||| info.speaker_id.len() == 0 && info.speaker_race.len() == 0
                && info.speaker_class.len() == 0
            ||| exists|i: int|
                0 <= i < actors.len() && (info.speaker_id.len() == 0 || lower(
                    (#[trigger] actors[i]).id,
                ) == lower(info.speaker_id)) && (info.speaker_race.len() == 0 || lower(
                    actors[i].race,
                ) == lower(info.speaker_race)) && (info.speaker_class.len() == 0 || lower(
                    actors[i].class,
                ) == lower(info.speaker_class))
        },
{
    if is_particular(info) && some_can_speak(info, actors) {
        let i = choose|i: int| 0 <= i < actors.len() && can_speak(info, #[trigger] actors[i]);
        assert(can_speak(info, actors[i]));
    }
    assert forall|i: int|
        0 <= i < actors.len() && (info.speaker_id.len() == 0 || lower((#[trigger] actors[i]).id)
            == lower(info.speaker_id)) && (info.speaker_race.len() == 0 || lower(actors[i].race)
            == lower(info.speaker_race)) && (info.speaker_class.len() == 0 || lower(actors[i].class)
            == lower(info.speaker_class)) implies some_can_speak(info, actors) by {
        assert(can_speak(info, actors[i]));
    }
}

/// Where a line asks for a race that no actor has, it is not spoken; so with an id and with a
/// class. Actors without a race or a class make no difference.
pub proof fn law_demand_that_nobody_meets_silences_the_line(
    info: DialogueInfoView,
    actors: Seq<ActorView>,
)
    ensures
        info.speaker_id.len() > 0 && (forall|i: int|
            0 <= i < actors.len() ==> lower((#[trigger] actors[i]).id) != lower(info.speaker_id))
            ==> !may_be_spoken(info, actors),
        info.speaker_race.len() > 0 && (forall|i: int|
            0 <= i < actors.len() ==> lower((#[trigger] actors[i]).race) != lower(
                info.speaker_race,
            )) ==> !may_be_spoken(info, actors),
        info.speaker_class.len() > 0 && (forall|i: int|
            0 <= i < actors.len() ==> lower((#[trigger] actors[i]).class) != lower(
                info.speaker_class,
            )) ==> !may_be_spoken(info, actors),
        info.speaker_race.len() > 0 && (forall|i: int|
            0 <= i < actors.len() ==> (#[trigger] actors[i]).race.len() == 0) ==> !may_be_spoken(
            info,
            actors,
        ),
        info.speaker_class.len() > 0 && (forall|i: int|
            0 <= i < actors.len() ==> (#[trigger] actors[i]).class.len() == 0) ==> !may_be_spoken(
            info,
            actors,
        ),
{
    law_line_is_spoken_by_one_who_has_what_it_asks(info, actors);
    lemma_lower_len(info.speaker_race);
    lemma_lower_len(info.speaker_class);
    assert forall|i: int| 0 <= i < actors.len() implies lower((#[trigger] actors[i]).race).len()
        == actors[i].race.len() && lower(actors[i].class).len() == actors[i].class.len() by {
        lemma_lower_len(actors[i].race);
        lemma_lower_len(actors[i].class);
    }
}

/// Every person and every creature that is not deleted is an actor, in the order of the records; a
/// person with race and class, a creature with neither. No other record is one.
pub proof fn law_actors_come_from_their_records(objects: Seq<ObjectView>, object: ObjectView)
    ensures
        actors_of(Seq::empty()) == Seq::<ActorView>::empty(),
        match object {
            ObjectView::Npc(r) => actors_of(objects.push(object)) == (if r.deleted {
                actors_of(objects)
            } else {
                actors_of(objects).push(
                    (ActorView { id: lower(r.id), race: lower(r.race), class: lower(r.class) }),
                )
            }),
            ObjectView::Creature(r) => actors_of(objects.push(object)) == (if r.deleted {
                actors_of(objects)
            } else {
                actors_of(objects).push(
                    (ActorView { id: lower(r.id), race: Seq::empty(), class: Seq::empty() }),
                )
            }),
            _ => actors_of(objects.push(object)) == actors_of(objects),
        },
{
    assert(objects.push(object).drop_last() =~= objects);
}

/// Every person and every creature that is not deleted is reported, in the order of the records,
/// by what the record says, in the case in which it says it. No other record is.
pub proof fn law_actors_are_reported_as_written(objects: Seq<ObjectView>, object: ObjectView)
    ensures
        all_reported(Seq::empty()) == Seq::<ReportedActorView>::empty(),
        match object {
            ObjectView::Npc(r) => if r.deleted {
                all_reported(objects.push(object)) == all_reported(objects)
            } else {
                let all = all_reported(objects.push(object));
                &&& all.len() > 0
                &&& all.drop_last() == all_reported(objects)
                &&& all.last().tag == "Npc"@
                &&& all.last().id == r.id
                &&& all.last().race == r.race
                &&& all.last().class == r.class
                &&& r.female ==> all.last().sex == "female"@
                &&& !r.female ==> all.last().sex == "male"@
            },
            ObjectView::Creature(r) => if r.deleted {
                all_reported(objects.push(object)) == all_reported(objects)
            } else {
                let all = all_reported(objects.push(object));
                &&& all.len() > 0
                &&& all.drop_last() == all_reported(objects)
                &&& all.last().tag == "Creature"@
                &&& all.last().id == r.id
                &&& all.last().race == ""@
                &&& all.last().class == ""@
                &&& all.last().sex == ""@
            },
            _ => all_reported(objects.push(object)) == all_reported(objects),
        },
{
    assert(objects.push(object).drop_last() =~= objects);
    assert(all_reported(objects.push(object)).len() > all_reported(objects).len()
        ==> all_reported(objects.push(object)).drop_last() =~= all_reported(objects));
}

/// The record is a person or a creature, not deleted, that has each of id, race and class that
/// the line asks for; a creature has neither race nor class.
pub open spec fn is_fit_speaker(info: DialogueInfoView, object: ObjectView) -> bool {
    match object {
        ObjectView::Npc(r) => {
            &&& !r.deleted
            &&& info.speaker_id.len() == 0 || lower(info.speaker_id) == lower(r.id)
            &&& info.speaker_race.len() == 0 || lower(info.speaker_race) == lower(r.race)
            &&& info.speaker_class.len() == 0 || lower(info.speaker_class) == lower(r.class)
        },
        ObjectView::Creature(r) => {
            &&& !r.deleted
            &&& info.speaker_id.len() == 0 || lower(info.speaker_id) == lower(r.id)
            &&& info.speaker_race.len() == 0
            &&& info.speaker_class.len() == 0
        },
        _ => false,
    }
}

/// Among the actors of a plugin, a line that asks for an id, a race or a class is spoken just if
/// one record of the plugin is fit to speak it.
pub proof fn law_line_is_spoken_by_a_record_of_the_plugin(
    info: DialogueInfoView,
    objects: Seq<ObjectView>,
)
    requires
        info.speaker_id.len() > 0 || info.speaker_race.len() > 0 || info.speaker_class.len() > 0,
    ensures
        may_be_spoken(info, actors_of(objects)) <==> exists|i: int|
            0 <= i < objects.len() && is_fit_speaker(info, #[trigger] objects[i]),
    decreases objects.len(),
{
    let actors = actors_of(objects);
    law_line_is_spoken_by_one_who_has_what_it_asks(info, actors);
    if objects.len() > 0 {
        let rest = objects.drop_last();
        let object = objects.last();
        let old = actors_of(rest);
        law_line_is_spoken_by_a_record_of_the_plugin(info, rest);
        law_line_is_spoken_by_one_who_has_what_it_asks(info, old);
        assert(rest.push(object) =~= objects);
        law_actors_come_from_their_records(rest, object);
        lemma_lower_len(info.speaker_race);
        lemma_lower_len(info.speaker_class);
        lemma_lower_len(Seq::empty());
        match object {
            ObjectView::Npc(r) => {
                lemma_lower_idempotent(r.id);
                lemma_lower_idempotent(r.race);
                lemma_lower_idempotent(r.class);
            },
            ObjectView::Creature(r) => {
                lemma_lower_idempotent(r.id);
            },
            _ => {},
        }
        if may_be_spoken(info, old) {
            let i = choose|i: int| 0 <= i < old.len() && can_speak(info, #[trigger] old[i]);
            assert(actors[i] == old[i]);
            let k = choose|k: int| 0 <= k < rest.len() && is_fit_speaker(info, #[trigger] rest[k]);
            assert(objects[k] == rest[k]);
        }
        if is_fit_speaker(info, object) {
            assert(actors.last() == actors[actors.len() - 1]);
            assert(objects[objects.len() - 1] == object);
        }
        assert forall|k: int|
            0 <= k < objects.len() && is_fit_speaker(info, #[trigger] objects[k]) implies (k
            == objects.len() - 1 || may_be_spoken(info, old)) by {
            if k < rest.len() {
                assert(rest[k] == objects[k]);
            }
        }
        assert forall|i: int|
            0 <= i < actors.len() && can_speak(info, #[trigger] actors[i]) implies is_fit_speaker(
            info,
            object,
        ) || may_be_spoken(info, old) by {
            if i < old.len() {
                assert(old[i] == actors[i]);
                assert(can_speak(info, old[i]));
            }
        }
        if may_be_spoken(info, actors) {
            let i = choose|i: int| 0 <= i < actors.len() && can_speak(info, #[trigger] actors[i]);
            assert(can_speak(info, actors[i]));
        }
    }
}

/// An actor is seen with its id, its race and its class.
pub proof fn law_actor_is_seen_whole(actor: DialogueActor)
    ensures
        actor.deep_view().id == actor.id@,
        actor.deep_view().race == actor.race@,
        actor.deep_view().class == actor.class@,
{
}

} // verus!
