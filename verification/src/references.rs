//! Which other records a record needs.

use vstd::hash_set::StringHashSet;
use vstd::prelude::*;

use crate::ids::IdSet;
use crate::record_views::{text_of, AiPackageView, BipedObjectView, ObjectView, ReferenceView};
use crate::records::{AiPackage, BipedObject, Plugin, Reference, TES3Object};
use crate::text::lower;

verus! {

/// The id that an AI package aims at, if it aims at a record.
pub open spec fn ai_target(package: AiPackageView) -> Option<Seq<char>> {
    match package {
        AiPackageView::Travel => None,
        AiPackageView::Wander => None,
        AiPackageView::Escort(p) => Some(p.target),
        AiPackageView::Follow(p) => Some(p.target),
        AiPackageView::Activate(p) => Some(p.target),
    }
}

/// The ids that AI packages aim at.
pub open spec fn ai_targets(packages: Seq<AiPackageView>) -> Seq<Seq<char>> {
    packages.filter_map(|p: AiPackageView| ai_target(p))
}

/// An optional id as a list.
pub open spec fn optional(id: Option<Seq<char>>) -> Seq<Seq<char>> {
    match id {
        Some(id) => seq![id],
        None => Seq::empty(),
    }
}

/// The ids that a thing placed in a cell names.
pub open spec fn placed_ids(r: ReferenceView) -> Seq<Seq<char>> {
    seq![r.id] + optional(r.owner) + optional(r.owner_global) + optional(r.owner_faction)
        + optional(r.key) + optional(r.trap) + optional(r.soul)
}

/// Every id that a record names in a field that must be resolved. Texts, sound files, conditions
/// and places of dialogue are no such fields; neither are the cells of AI packages.
pub open spec fn references(object: ObjectView) -> Seq<Seq<char>> {
    match object {
        ObjectView::Race(r) => r.spells,
        ObjectView::SoundGen(r) => seq![r.creature, r.sound],
        ObjectView::MagicEffect(r) => seq![
            r.bolt_sound,
            r.cast_sound,
            r.hit_sound,
            r.area_sound,
            r.cast_visual,
            r.bolt_visual,
            r.hit_visual,
            r.area_visual,
        ],
        ObjectView::Region(r) => seq![r.id, r.sleep_creature] + r.sounds,
        ObjectView::Birthsign(r) => r.spells,
        ObjectView::Door(r) => seq![r.script, r.open_sound, r.close_sound],
        ObjectView::MiscItem(r) => seq![r.script],
        ObjectView::Weapon(r) => seq![r.script, r.enchanting],
        ObjectView::Container(r) => seq![r.script] + r.inventory,
        ObjectView::Creature(r) => seq![r.script] + r.inventory + r.spells + ai_targets(
            r.ai_packages,
        ) + seq![r.sound],
        ObjectView::Bodypart(r) => seq![r.race],
        ObjectView::Light(r) => seq![r.script, r.sound],
        ObjectView::Npc(r) => seq![r.script] + r.inventory + r.spells + ai_targets(r.ai_packages)
            + seq![r.race, r.class, r.faction, r.head, r.hair],
        ObjectView::Armor(r) => seq![r.script, r.enchanting] + bodyparts(r.biped_objects),
        ObjectView::Clothing(r) => seq![r.script, r.enchanting] + bodyparts(r.biped_objects),
        ObjectView::RepairItem(r) => seq![r.script],
        ObjectView::Activator(r) => seq![r.script],
        ObjectView::Apparatus(r) => seq![r.script],
        ObjectView::Lockpick(r) => seq![r.script],
        ObjectView::Probe(r) => seq![r.script],
        ObjectView::Ingredient(r) => seq![r.script],
        ObjectView::Book(r) => seq![r.script, r.enchanting],
        ObjectView::Alchemy(r) => seq![r.script],
        ObjectView::LeveledItem(r) => r.items,
        ObjectView::LeveledCreature(r) => r.creatures,
        ObjectView::Cell(r) => optional(r.region) + r.references.flat_map(
            |p: ReferenceView| placed_ids(p),
        ),
        ObjectView::DialogueInfo(r) => seq![
            r.speaker_id,
            r.speaker_race,
            r.speaker_class,
            r.speaker_faction,
            r.player_faction,
        ],
        ObjectView::Faction(r) => seq![r.id] + r.reactions,
        ObjectView::Sound(r) => seq![r.id],
        _ => Seq::empty(),
    }
}

/// The body parts that a worn thing names.
pub open spec fn bodyparts(objects: Seq<BipedObjectView>) -> Seq<Seq<char>> {
    objects.flat_map(
        |o: BipedObjectView| seq![o.male_bodypart, o.female_bodypart],
    )
}

/// The ids in lower case.
pub open spec fn lowered(ids: Seq<Seq<char>>) -> Seq<Seq<char>> {
    ids.map_values(|id: Seq<char>| lower(id))
}

/// The ids, in lower case, of the records that a record needs.
pub open spec fn required_ids(object: ObjectView) -> Set<Seq<char>> {
    lowered(references(object)).to_set().remove(Seq::empty())
}

/// A record needs finitely many others.
pub proof fn lemma_required_finite(object: ObjectView)
    ensures
        required_ids(object).finite(),
{
    vstd::seq_lib::seq_to_set_is_finite(lowered(references(object)));
}

fn push_all<'a>(out: &mut Vec<&'a str>, texts: &'a Vec<String>)
    ensures
        final(out).deep_view() == old(out).deep_view() + texts.deep_view(),
{
    let mut i: usize = 0;
    assert(texts.deep_view().take(0) =~= Seq::empty());
    assert(out.deep_view() =~= old(out).deep_view() + texts.deep_view().take(0));
    while i < texts.len()
        invariant
            i <= texts@.len(),
            out.deep_view() == old(out).deep_view() + texts.deep_view().take(i as int),
        decreases texts@.len() - i,
    {
        let ghost before = out.deep_view();
        out.push(texts[i].as_str());
        assert(out.deep_view() =~= before.push(texts.deep_view()[i as int]));
        assert(texts.deep_view().take(i + 1) =~= texts.deep_view().take(i as int).push(
            texts.deep_view()[i as int],
        ));
        i += 1;
    }
    assert(texts.deep_view().take(i as int) =~= texts.deep_view());
}

fn push_one<'a>(out: &mut Vec<&'a str>, text: &'a String)
    ensures
        final(out).deep_view() == old(out).deep_view() + seq![text@],
{
    out.push(text.as_str());
    assert(out.deep_view() =~= old(out).deep_view() + seq![text@]);
}

fn push_some<'a>(out: &mut Vec<&'a str>, text: &'a Option<String>)
    ensures
        final(out).deep_view() == old(out).deep_view() + optional(
            text_of(*text),
        ),
{
    match text {
        Some(text) => push_one(out, text),
        None => {
            assert(out.deep_view() + Seq::<Seq<char>>::empty() =~= out.deep_view());
        },
    }
}

fn push_targets<'a>(out: &mut Vec<&'a str>, packages: &'a Vec<AiPackage>)
    ensures
        final(out).deep_view() == old(out).deep_view() + ai_targets(packages.deep_view()),
{
    let ghost all = packages.deep_view();
    let ghost aim = |p: AiPackageView| ai_target(p);
    let mut i: usize = 0;
    assert(all.take(0).filter_map(aim) =~= Seq::empty());
    assert(out.deep_view() =~= old(out).deep_view() + all.take(0).filter_map(aim));
    while i < packages.len()
        invariant
            i <= packages@.len(),
            all == packages.deep_view(),
            aim == (|p: AiPackageView| ai_target(p)),
            out.deep_view() == old(out).deep_view() + all.take(i as int).filter_map(aim),
        decreases packages@.len() - i,
    {
        let ghost before = out.deep_view();
        proof {
            all.lemma_filter_map_take_succ(aim, i as int);
            assert(all[i as int] == packages@[i as int].deep_view());
        }
        match &packages[i] {
            AiPackage::Activate(p) => push_one(out, &p.target),
            AiPackage::Escort(p) => push_one(out, &p.target),
            AiPackage::Follow(p) => push_one(out, &p.target),
            AiPackage::Travel => {},
            AiPackage::Wander => {},
        }
        assert(out.deep_view() =~= old(out).deep_view() + all.take(i + 1).filter_map(aim));
        i += 1;
    }
    assert(all.take(i as int) =~= all);
}

fn push_bodyparts<'a>(out: &mut Vec<&'a str>, objects: &'a Vec<BipedObject>)
    ensures
        final(out).deep_view() == old(out).deep_view() + bodyparts(objects.deep_view()),
{
    let ghost all = objects.deep_view();
    let ghost parts = |o: BipedObjectView| seq![o.male_bodypart, o.female_bodypart];
    let mut i: usize = 0;
    proof {
        assert(all.take(0).map_values(parts) =~= Seq::empty());
        assert(all.take(0).flat_map(parts) =~= Seq::empty());
    }
    assert(out.deep_view() =~= old(out).deep_view() + all.take(0).flat_map(parts));
    while i < objects.len()
        invariant
            i <= objects@.len(),
            all == objects.deep_view(),
            parts == (|o: BipedObjectView| seq![o.male_bodypart, o.female_bodypart]),
            out.deep_view() == old(out).deep_view() + all.take(i as int).flat_map(parts),
        decreases objects@.len() - i,
    {
        proof {
            all.lemma_flat_map_take_append(parts, i as int);
            assert(all[i as int] == objects@[i as int].deep_view());
        }
        push_one(out, &objects[i].male_bodypart);
        push_one(out, &objects[i].female_bodypart);
        assert(out.deep_view() =~= old(out).deep_view() + all.take(i + 1).flat_map(parts));
        i += 1;
    }
    assert(all.take(i as int) =~= all);
}

#[verifier::rlimit(40)]
fn push_reference<'a>(out: &mut Vec<&'a str>, reference: &'a Reference)
    ensures
        final(out).deep_view() == old(out).deep_view() + placed_ids(reference.deep_view()),
{
    let ghost before = out.deep_view();
    push_one(out, &reference.id);
    push_some(out, &reference.owner);
    push_some(out, &reference.owner_global);
    push_some(out, &reference.owner_faction);
    push_some(out, &reference.key);
    push_some(out, &reference.trap);
    push_some(out, &reference.soul);
    assert(out.deep_view() =~= before + placed_ids(reference.deep_view()));
}

fn push_placed<'a>(out: &mut Vec<&'a str>, placed: &'a Vec<Reference>)
    ensures
        final(out).deep_view() == old(out).deep_view() + placed.deep_view().flat_map(
            |p: ReferenceView| placed_ids(p),
        ),
{
    let ghost all = placed.deep_view();
    let ghost names = |p: ReferenceView| placed_ids(p);
    let mut i: usize = 0;
    proof {
        assert(all.take(0).map_values(names) =~= Seq::empty());
        assert(all.take(0).flat_map(names) =~= Seq::empty());
    }
    assert(out.deep_view() =~= old(out).deep_view() + all.take(0).flat_map(names));
    while i < placed.len()
        invariant
            i <= placed@.len(),
            all == placed.deep_view(),
            names == (|p: ReferenceView| placed_ids(p)),
            out.deep_view() == old(out).deep_view() + all.take(i as int).flat_map(names),
        decreases placed@.len() - i,
    {
        proof {
            all.lemma_flat_map_take_append(names, i as int);
            assert(all[i as int] == placed@[i as int].deep_view());
        }
        push_reference(out, &placed[i]);
        assert(out.deep_view() =~= old(out).deep_view() + all.take(i + 1).flat_map(names));
        i += 1;
    }
    assert(all.take(i as int) =~= all);
}

/// Lists every id that a record names in a field that must be resolved.
pub fn collect_references(object: &TES3Object) -> (res: Vec<&str>)
    ensures
        res.deep_view() == references(object.deep_view()),
{
    let mut out: Vec<&str> = Vec::new();
    assert(out.deep_view() =~= Seq::empty());
    match object {
        TES3Object::Race(r) => {
            push_all(&mut out, &r.spells);
            assert(out.deep_view() =~= references(object.deep_view()));
        },
        TES3Object::SoundGen(r) => {
            push_one(&mut out, &r.creature);
            push_one(&mut out, &r.sound);
            assert(out.deep_view() =~= references(object.deep_view()));
        },
        TES3Object::MagicEffect(r) => {
            push_one(&mut out, &r.bolt_sound);
            push_one(&mut out, &r.cast_sound);
            push_one(&mut out, &r.hit_sound);
            push_one(&mut out, &r.area_sound);
            push_one(&mut out, &r.cast_visual);
            push_one(&mut out, &r.bolt_visual);
            push_one(&mut out, &r.hit_visual);
            push_one(&mut out, &r.area_visual);
            assert(out.deep_view() =~= references(object.deep_view()));
        },
        TES3Object::Region(r) => {
            push_one(&mut out, &r.id);
            push_one(&mut out, &r.sleep_creature);
            push_all(&mut out, &r.sounds);
            assert(out.deep_view() =~= references(object.deep_view()));
        },
        TES3Object::Birthsign(r) => {
            push_all(&mut out, &r.spells);
            assert(out.deep_view() =~= references(object.deep_view()));
        },
        TES3Object::Door(r) => {
            push_one(&mut out, &r.script);
            push_one(&mut out, &r.open_sound);
            push_one(&mut out, &r.close_sound);
            assert(out.deep_view() =~= references(object.deep_view()));
        },
        TES3Object::MiscItem(r) => {
            push_one(&mut out, &r.script);
            assert(out.deep_view() =~= references(object.deep_view()));
        },
        TES3Object::Weapon(r) => {
            push_one(&mut out, &r.script);
            push_one(&mut out, &r.enchanting);
            assert(out.deep_view() =~= references(object.deep_view()));
        },
        TES3Object::Container(r) => {
            push_one(&mut out, &r.script);
            push_all(&mut out, &r.inventory);
            assert(out.deep_view() =~= references(object.deep_view()));
        },
        TES3Object::Creature(r) => {
            push_one(&mut out, &r.script);
            push_all(&mut out, &r.inventory);
            push_all(&mut out, &r.spells);
            push_targets(&mut out, &r.ai_packages);
            push_one(&mut out, &r.sound);
            assert(out.deep_view() =~= references(object.deep_view()));
        },
        TES3Object::Bodypart(r) => {
            push_one(&mut out, &r.race);
            assert(out.deep_view() =~= references(object.deep_view()));
        },
        TES3Object::Light(r) => {
            push_one(&mut out, &r.script);
            push_one(&mut out, &r.sound);
            assert(out.deep_view() =~= references(object.deep_view()));
        },
        TES3Object::Npc(r) => {
            push_one(&mut out, &r.script);
            push_all(&mut out, &r.inventory);
            push_all(&mut out, &r.spells);
            push_targets(&mut out, &r.ai_packages);
            push_one(&mut out, &r.race);
            push_one(&mut out, &r.class);
            push_one(&mut out, &r.faction);
            push_one(&mut out, &r.head);
            push_one(&mut out, &r.hair);
            assert(out.deep_view() =~= references(object.deep_view()));
        },
        TES3Object::Armor(r) => {
            push_one(&mut out, &r.script);
            push_one(&mut out, &r.enchanting);
            push_bodyparts(&mut out, &r.biped_objects);
            assert(out.deep_view() =~= references(object.deep_view()));
        },
        TES3Object::Clothing(r) => {
            push_one(&mut out, &r.script);
            push_one(&mut out, &r.enchanting);
            push_bodyparts(&mut out, &r.biped_objects);
            assert(out.deep_view() =~= references(object.deep_view()));
        },
        TES3Object::RepairItem(r) => {
            push_one(&mut out, &r.script);
            assert(out.deep_view() =~= references(object.deep_view()));
        },
        TES3Object::Activator(r) => {
            push_one(&mut out, &r.script);
            assert(out.deep_view() =~= references(object.deep_view()));
        },
        TES3Object::Apparatus(r) => {
            push_one(&mut out, &r.script);
            assert(out.deep_view() =~= references(object.deep_view()));
        },
        TES3Object::Lockpick(r) => {
            push_one(&mut out, &r.script);
            assert(out.deep_view() =~= references(object.deep_view()));
        },
        TES3Object::Probe(r) => {
            push_one(&mut out, &r.script);
            assert(out.deep_view() =~= references(object.deep_view()));
        },
        TES3Object::Ingredient(r) => {
            push_one(&mut out, &r.script);
            assert(out.deep_view() =~= references(object.deep_view()));
        },
        TES3Object::Book(r) => {
            push_one(&mut out, &r.script);
            push_one(&mut out, &r.enchanting);
            assert(out.deep_view() =~= references(object.deep_view()));
        },
        TES3Object::Alchemy(r) => {
            push_one(&mut out, &r.script);
            assert(out.deep_view() =~= references(object.deep_view()));
        },
        TES3Object::LeveledItem(r) => {
            push_all(&mut out, &r.items);
            assert(out.deep_view() =~= references(object.deep_view()));
        },
        TES3Object::LeveledCreature(r) => {
            push_all(&mut out, &r.creatures);
            assert(out.deep_view() =~= references(object.deep_view()));
        },
        TES3Object::Cell(r) => {
            push_some(&mut out, &r.region);
            push_placed(&mut out, &r.references);
            assert(out.deep_view() =~= references(object.deep_view()));
        },
        TES3Object::DialogueInfo(r) => {
            push_one(&mut out, &r.speaker_id);
            push_one(&mut out, &r.speaker_race);
            push_one(&mut out, &r.speaker_class);
            push_one(&mut out, &r.speaker_faction);
            push_one(&mut out, &r.player_faction);
            assert(out.deep_view() =~= references(object.deep_view()));
        },
        TES3Object::Faction(r) => {
            push_one(&mut out, &r.id);
            push_all(&mut out, &r.reactions);
            assert(out.deep_view() =~= references(object.deep_view()));
        },
        TES3Object::Sound(r) => {
            push_one(&mut out, &r.id);
            assert(out.deep_view() =~= references(object.deep_view()));
        },
        _ => {},
    }
    out
}

/// Collects the ids, in lower case, of the records that a record needs.
pub fn collect_required_ids_from_object(object: &TES3Object) -> (res: IdSet)
    ensures
        res.wf(),
        res@ == required_ids(object.deep_view()),
{
    let named = collect_references(object);
    let ghost all = references(object.deep_view());
    let mut results = IdSet::new();
    let mut i: usize = 0;
    assert(lowered(all.take(0)).to_set().remove(Seq::empty()) =~= Set::empty());
    while i < named.len()
        invariant
            i <= named@.len(),
            named.deep_view() == all,
            results.wf(),
            results@ == lowered(all.take(i as int)).to_set().remove(Seq::empty()),
        decreases named@.len() - i,
    {
        let id = named[i].to_ascii_lowercase();
        proof {
            assert(all[i as int] == named@[i as int]@);
            assert(lowered(all.take(i + 1)) =~= lowered(all.take(i as int)).push(
                lower(all[i as int]),
            ));
            lowered(all.take(i as int)).lemma_push_to_set_commute(lower(all[i as int]));
        }
        if !id.as_str().is_empty() {
            results.insert(id);
            assert(results@ =~= lowered(all.take(i + 1)).to_set().remove(Seq::empty()));
        } else {
            assert(id@ =~= Seq::empty());
            assert(results@ =~= lowered(all.take(i + 1)).to_set().remove(Seq::empty()));
        }
        i += 1;
    }
    assert(all.take(i as int) =~= all);
    results
}

/// Records that are never copied from a master file.
pub open spec fn stays_home(object: ObjectView) -> bool {
    ||| object is Header
    ||| object is Skill
    ||| object is StartScript
    ||| object is LandscapeTexture
    ||| object is Landscape
    ||| object is PathGrid
    ||| object is Dialogue
    ||| object is DialogueInfo
    ||| object is Cell
}

/// Whether a record is of a kind that is never copied from a master file.
pub fn never_copy(object: &TES3Object) -> (res: bool)
    ensures
        res == stays_home(object.deep_view()),
{
    match object {
        TES3Object::Header(_) => true,
        TES3Object::Skill(_) => true,
        TES3Object::StartScript(_) => true,
        TES3Object::LandscapeTexture(_) => true,
        TES3Object::Landscape(_) => true,
        TES3Object::PathGrid(_) => true,
        TES3Object::Dialogue(_) => true,
        TES3Object::DialogueInfo(_) => true,
        TES3Object::Cell(_) => true,
        _ => false,
    }
}

/// `id` is the id, in lower case, of one of the records that may be copied.
pub open spec fn defines(objects: Seq<ObjectView>, id: Seq<char>) -> bool {
    exists|i: int|
        0 <= i < objects.len() && !stays_home(#[trigger] objects[i]) && lower(objects[i].id())
            == id
}

/// The ids, in lower case, that records define.
pub open spec fn defined_ids(objects: Seq<ObjectView>) -> Set<Seq<char>> {
    Set::new(|id: Seq<char>| defines(objects, id))
}

/// Collects the ids, in lower case, that the records of a plugin define.
pub fn collect_defined_ids(plugin: &Plugin) -> (res: StringHashSet)
    ensures
        res@ == defined_ids(plugin@),
{
    let mut results = StringHashSet::new();
    let ghost all = plugin@;
    let mut i: usize = 0;
    assert(defined_ids(all.take(0)) =~= Set::empty());
    while i < plugin.objects.len()
        invariant
            i <= plugin.objects@.len(),
            all == plugin@,
            results@ == defined_ids(all.take(i as int)),
        decreases plugin.objects@.len() - i,
    {
        let object: &TES3Object = &plugin.objects[i];
        let ghost old_part = all.take(i as int);
        let ghost new_part = all.take(i + 1);
        proof {
            assert(object.deep_view() == all[i as int]);
            assert forall|id: Seq<char>| #[trigger] defines(new_part, id) <==> (defines(
                old_part,
                id,
            ) || (!stays_home(all[i as int]) && lower(all[i as int].id()) == id)) by {
                if defines(old_part, id) {
                    let k = choose|k: int|
                        0 <= k < old_part.len() && !stays_home(#[trigger] old_part[k]) && lower(
                            old_part[k].id(),
                        ) == id;
                    assert(new_part[k] == old_part[k]);
                }
                if defines(new_part, id) {
                    let k = choose|k: int|
                        0 <= k < new_part.len() && !stays_home(#[trigger] new_part[k]) && lower(
                            new_part[k].id(),
                        ) == id;
                    if k < i {
                        assert(old_part[k] == new_part[k]);
                    }
                }
                assert(new_part[i as int] == all[i as int]);
            }
        }
        if !never_copy(object) {
            results.insert(object.editor_id().to_ascii_lowercase());
        }
        assert(results@ =~= defined_ids(new_part));
        i += 1;
    }
    assert(all.take(i as int) =~= all);
    results
}

/// A record whose needs count: it is not deleted, and it is no line of dialogue unless those are
/// asked for.
pub open spec fn is_scanned(object: ObjectView, with_dialogue: bool) -> bool {
    !object.deleted() && (with_dialogue || !(object is DialogueInfo))
}

/// Whether the needs of a record count.
pub fn scans(object: &TES3Object, include_dialogue_dependencies: bool) -> (res: bool)
    ensures
        res == is_scanned(object.deep_view(), include_dialogue_dependencies),
{
    !object.deleted() && (include_dialogue_dependencies || match object {
        TES3Object::DialogueInfo(_) => false,
        _ => true,
    })
}

/// One of the scanned records needs `id`.
pub open spec fn is_required(objects: Seq<ObjectView>, with_dialogue: bool, id: Seq<char>) -> bool {
    exists|i: int|
        0 <= i < objects.len() && is_scanned(#[trigger] objects[i], with_dialogue) && required_ids(
            objects[i],
        ).contains(id)
}

/// The ids, in lower case, that the scanned records need.
pub open spec fn all_required_ids(objects: Seq<ObjectView>, with_dialogue: bool) -> Set<Seq<char>> {
    Set::new(|id: Seq<char>| is_required(objects, with_dialogue, id))
}

/// One more record adds its own needs.
pub proof fn lemma_required_step(objects: Seq<ObjectView>, with_dialogue: bool, n: int)
    requires
        0 <= n < objects.len(),
    ensures
        all_required_ids(objects.take(n + 1), with_dialogue) == if is_scanned(
            objects[n],
            with_dialogue,
        ) {
            all_required_ids(objects.take(n), with_dialogue) + required_ids(objects[n])
        } else {
            all_required_ids(objects.take(n), with_dialogue)
        },
{
    let old_part = objects.take(n);
    let new_part = objects.take(n + 1);
    assert forall|id: Seq<char>| #[trigger] is_required(new_part, with_dialogue, id) <==> (
    is_required(old_part, with_dialogue, id) || (is_scanned(objects[n], with_dialogue)
        && required_ids(objects[n]).contains(id))) by {
        if is_required(old_part, with_dialogue, id) {
            let k = choose|k: int|
                0 <= k < old_part.len() && is_scanned(#[trigger] old_part[k], with_dialogue)
                    && required_ids(old_part[k]).contains(id);
            assert(new_part[k] == old_part[k]);
        }
        if is_required(new_part, with_dialogue, id) {
            let k = choose|k: int|
                0 <= k < new_part.len() && is_scanned(#[trigger] new_part[k], with_dialogue)
                    && required_ids(new_part[k]).contains(id);
            if k < n {
                assert(old_part[k] == new_part[k]);
            }
        }
        assert(new_part[n] == objects[n]);
    }
    assert(all_required_ids(new_part, with_dialogue) =~= if is_scanned(objects[n], with_dialogue) {
        all_required_ids(old_part, with_dialogue) + required_ids(objects[n])
    } else {
        all_required_ids(old_part, with_dialogue)
    });
}

/// Collects the ids, in lower case, that the records of a plugin need.
pub fn collect_required_ids(plugin: &Plugin) -> (res: IdSet)
    ensures
        res.wf(),
        res@ == all_required_ids(plugin@, true),
{
    collect_required_ids_with_dialogue(plugin, true)
}

/// Collects the ids, in lower case, that the records of a plugin need; those that only lines of
/// dialogue need are left out unless they are asked for.
pub fn collect_required_ids_with_dialogue(
    plugin: &Plugin,
    include_dialogue_dependencies: bool,
) -> (res: IdSet)
    ensures
        res.wf(),
        res@ == all_required_ids(plugin@, include_dialogue_dependencies),
{
    let mut results = IdSet::new();
    let ghost all = plugin@;
    let mut i: usize = 0;
    assert(all_required_ids(all.take(0), include_dialogue_dependencies) =~= Set::empty());
    while i < plugin.objects.len()
        invariant
            i <= plugin.objects@.len(),
            all == plugin@,
            results.wf(),
            results@ == all_required_ids(all.take(i as int), include_dialogue_dependencies),
        decreases plugin.objects@.len() - i,
    {
        let object: &TES3Object = &plugin.objects[i];
        proof {
            assert(object.deep_view() == all[i as int]);
            lemma_required_step(all, include_dialogue_dependencies, i as int);
        }
        if scans(object, include_dialogue_dependencies) {
            let ids = collect_required_ids_from_object(object);
            let ghost before = results@;
            let mut k: usize = 0;
            let ghost listing = ids.listing();
            assert(listing.take(0).to_set() =~= Set::empty());
            assert(before + listing.take(0).to_set() =~= before);
            while k < ids.len()
                invariant
                    k <= listing.len(),
                    listing == ids.listing(),
                    results.wf(),
                    results@ == before + listing.take(k as int).to_set(),
                decreases listing.len() - k,
            {
                results.insert(ids.at(k).clone());
                proof {
                    assert(listing.take(k + 1) =~= listing.take(k as int).push(
                        listing[k as int],
                    ));
                    listing.take(k as int).lemma_push_to_set_commute(listing[k as int]);
                    assert(results@ =~= before + listing.take(k + 1).to_set());
                }
                k += 1;
            }
            assert(listing.take(k as int) =~= listing);
        }
        i += 1;
    }
    assert(all.take(i as int) =~= all);
    results
}

} // verus!
