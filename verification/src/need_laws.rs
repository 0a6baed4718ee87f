//! What each kind of record needs, field by field.

use vstd::prelude::*;

use crate::record_views::{
    AiPackageView, BipedObjectView, BodypartView, CellView, ContainerView, CreatureView,
    DialogueInfoView, DoorView, EnchantedItemView, FactionView, LeveledCreatureView,
    LeveledItemView, LightView, MagicEffectView, NpcView, ObjectView, PlainRecordView,
    ReferenceView, RegionView, ScriptedItemView, SoundGenView, SpellHolderView, WornItemView,
};
use crate::references::{
    ai_target, ai_targets, bodyparts, lowered, optional, placed_ids, references, required_ids,
};
use crate::text::lower;

verus! {

/// One of the ids reads as the id given, in lower case.
pub open spec fn is_among(ids: Seq<Seq<char>>, id: Seq<char>) -> bool {
    exists|k: int| 0 <= k < ids.len() && lower(#[trigger] ids[k]) == id
}

/// The optional id is there and reads as the id given, in lower case.
pub open spec fn is_some_id(field: Option<Seq<char>>, id: Seq<char>) -> bool {
    match field {
        Some(text) => lower(text) == id,
        None => false,
    }
}

proof fn lemma_needs(object: ObjectView, id: Seq<char>)
    ensures
        required_ids(object).contains(id) <==> id.len() > 0 && is_among(references(object), id),
{
    let ids = references(object);
    assert(id.len() == 0 ==> id =~= Seq::<char>::empty());
    if is_among(ids, id) {
        let k = choose|k: int| 0 <= k < ids.len() && lower(#[trigger] ids[k]) == id;
        assert(lowered(ids)[k] == id);
        assert(lowered(ids).contains(id));
    }
    if lowered(ids).contains(id) {
        let k = choose|k: int| 0 <= k < lowered(ids).len() && lowered(ids)[k] == id;
        assert(lower(ids[k]) == id);
    }
}

proof fn lemma_among_both(a: Seq<Seq<char>>, b: Seq<Seq<char>>, id: Seq<char>)
    ensures
        is_among(a + b, id) <==> is_among(a, id) || is_among(b, id),
{
    if is_among(a, id) {
        let k = choose|k: int| 0 <= k < a.len() && lower(#[trigger] a[k]) == id;
        assert((a + b)[k] == a[k]);
    }
    if is_among(b, id) {
        let k = choose|k: int| 0 <= k < b.len() && lower(#[trigger] b[k]) == id;
        assert((a + b)[a.len() + k] == b[k]);
    }
    if is_among(a + b, id) {
        let k = choose|k: int| 0 <= k < (a + b).len() && lower(#[trigger] (a + b)[k]) == id;
        if k < a.len() {
            assert(a[k] == (a + b)[k]);
        } else {
            assert(b[k - a.len()] == (a + b)[k]);
        }
    }
}

proof fn lemma_among_targets(packages: Seq<AiPackageView>, id: Seq<char>)
    ensures
        is_among(ai_targets(packages), id) <==> exists|k: int|
            0 <= k < packages.len() && is_some_id(ai_target(#[trigger] packages[k]), id),
    decreases packages.len(),
{
    let aim = |p: AiPackageView| ai_target(p);
    reveal(Seq::filter_map);
    if packages.len() > 0 {
        let rest = packages.drop_last();
        lemma_among_targets(rest, id);
        assert(packages =~= rest.push(packages.last()));
        assert(ai_targets(packages) =~= ai_targets(rest) + optional(ai_target(packages.last())));
        lemma_among_both(ai_targets(rest), optional(ai_target(packages.last())), id);
        lemma_among_optional(ai_target(packages.last()), id);
        if is_among(ai_targets(rest), id) {
            let k = choose|k: int|
                0 <= k < rest.len() && is_some_id(ai_target(#[trigger] rest[k]), id);
            assert(packages[k] == rest[k]);
        }
        assert forall|k: int|
            0 <= k < packages.len() && is_some_id(
                ai_target(#[trigger] packages[k]),
                id,
            ) implies is_among(ai_targets(packages), id) by {
            if k < rest.len() {
                assert(rest[k] == packages[k]);
            }
        }
    }
}

proof fn lemma_among_optional(field: Option<Seq<char>>, id: Seq<char>)
    ensures
        is_among(optional(field), id) <==> is_some_id(field, id),
{
    if is_some_id(field, id) {
        assert(optional(field)[0] == field->0);
    }
}

proof fn lemma_among_parts(objects: Seq<BipedObjectView>, id: Seq<char>)
    ensures
        is_among(bodyparts(objects), id) <==> exists|k: int|
            0 <= k < objects.len() && (lower(#[trigger] objects[k].male_bodypart) == id || lower(
                objects[k].female_bodypart,
            ) == id),
    decreases objects.len(),
{
    let parts = |o: BipedObjectView| seq![o.male_bodypart, o.female_bodypart];
    if objects.len() == 0 {
        assert(objects.map_values(parts) =~= Seq::empty());
        assert(bodyparts(objects) =~= Seq::empty());
    } else {
        let n = objects.len() - 1;
        let rest = objects.take(n);
        let last = seq![objects[n].male_bodypart, objects[n].female_bodypart];
        lemma_among_parts(rest, id);
        objects.lemma_flat_map_take_append(parts, n);
        assert(objects.take(n + 1) =~= objects);
        assert(bodyparts(objects) =~= bodyparts(rest) + last);
        lemma_among_both(bodyparts(rest), last, id);
        assert(last[0] == objects[n].male_bodypart);
        assert(last[1] == objects[n].female_bodypart);
        if is_among(bodyparts(rest), id) {
            let k = choose|k: int|
                0 <= k < rest.len() && (lower(#[trigger] rest[k].male_bodypart) == id || lower(
                    rest[k].female_bodypart,
                ) == id);
            assert(objects[k].male_bodypart == rest[k].male_bodypart);
        }
        assert forall|k: int|
            0 <= k < objects.len() && (lower(#[trigger] objects[k].male_bodypart) == id || lower(
                objects[k].female_bodypart,
            ) == id) implies is_among(bodyparts(objects), id) by {
            if k < n {
                assert(rest[k].male_bodypart == objects[k].male_bodypart);
            }
        }
    }
}

proof fn lemma_among_placed_ids(p: ReferenceView, id: Seq<char>)
    ensures
        is_among(placed_ids(p), id) <==> is_named_in_place(p, id),
{
    let a = seq![p.id];
    let b = a + optional(p.owner);
    let c = b + optional(p.owner_global);
    let d = c + optional(p.owner_faction);
    let e = d + optional(p.key);
    let f = e + optional(p.trap);
    assert(a[0] == p.id);
    lemma_among_both(a, optional(p.owner), id);
    lemma_among_both(b, optional(p.owner_global), id);
    lemma_among_both(c, optional(p.owner_faction), id);
    lemma_among_both(d, optional(p.key), id);
    lemma_among_both(e, optional(p.trap), id);
    lemma_among_both(f, optional(p.soul), id);
    lemma_among_optional(p.owner, id);
    lemma_among_optional(p.owner_global, id);
    lemma_among_optional(p.owner_faction, id);
    lemma_among_optional(p.key, id);
    lemma_among_optional(p.trap, id);
    lemma_among_optional(p.soul, id);
}

proof fn lemma_among_placed(placed: Seq<ReferenceView>, id: Seq<char>)
    ensures
        is_among(placed.flat_map(|p: ReferenceView| placed_ids(p)), id) <==> exists|k: int|
            0 <= k < placed.len() && is_named_in_place(#[trigger] placed[k], id),
    decreases placed.len(),
{
    let names = |p: ReferenceView| placed_ids(p);
    if placed.len() == 0 {
        assert(placed.map_values(names) =~= Seq::empty());
        assert(placed.flat_map(names) =~= Seq::empty());
    } else {
        let n = placed.len() - 1;
        let rest = placed.take(n);
        lemma_among_placed(rest, id);
        placed.lemma_flat_map_take_append(names, n);
        assert(placed.take(n + 1) =~= placed);
        lemma_among_both(rest.flat_map(names), placed_ids(placed[n]), id);
        lemma_among_placed_ids(placed[n], id);
        if is_among(rest.flat_map(names), id) {
            let k = choose|k: int| 0 <= k < rest.len() && is_named_in_place(#[trigger] rest[k], id);
            assert(placed[k] == rest[k]);
        }
        assert forall|k: int|
            0 <= k < placed.len() && is_named_in_place(#[trigger] placed[k], id) implies is_among(
            placed.flat_map(names),
            id,
        ) by {
            if k < n {
                assert(rest[k] == placed[k]);
            }
        }
    }
}

/// What a race needs is its spells: the ids there, in lower
/// case, but for empty ones, and nothing else.
pub proof fn law_race_needs(r: SpellHolderView, id: Seq<char>)
    ensures
        required_ids(ObjectView::Race(r)).contains(id) <==> id.len() > 0 && {
            ||| exists|k: int| 0 <= k < r.spells.len() && lower(#[trigger] r.spells[k]) == id
        },
{
    lemma_needs(ObjectView::Race(r), id);
    let p0: Seq<Seq<char>> = r.spells;
}

/// What a birthsign needs is its spells: the ids there, in lower
/// case, but for empty ones, and nothing else.
pub proof fn law_birthsign_needs(r: SpellHolderView, id: Seq<char>)
    ensures
        required_ids(ObjectView::Birthsign(r)).contains(id) <==> id.len() > 0 && {
            ||| exists|k: int| 0 <= k < r.spells.len() && lower(#[trigger] r.spells[k]) == id
        },
{
    lemma_needs(ObjectView::Birthsign(r), id);
    let p0: Seq<Seq<char>> = r.spells;
}

/// What a sound generator needs is its creature and its sound: the ids there, in lower
/// case, but for empty ones, and nothing else.
pub proof fn law_sound_generator_needs(r: SoundGenView, id: Seq<char>)
    ensures
        required_ids(ObjectView::SoundGen(r)).contains(id) <==> id.len() > 0 && {
            ||| lower(r.creature) == id
            ||| lower(r.sound) == id
        },
{
    lemma_needs(ObjectView::SoundGen(r), id);
    let p0: Seq<Seq<char>> = seq![r.creature, r.sound];
    assert(p0[0] == r.creature);
    assert(p0[1] == r.sound);
}

/// What a magic effect needs is its four sounds and its four visuals: the ids there, in lower
/// case, but for empty ones, and nothing else.
pub proof fn law_magic_effect_needs(r: MagicEffectView, id: Seq<char>)
    ensures
        required_ids(ObjectView::MagicEffect(r)).contains(id) <==> id.len() > 0 && {
            ||| lower(r.bolt_sound) == id
            ||| lower(r.cast_sound) == id
            ||| lower(r.hit_sound) == id
            ||| lower(r.area_sound) == id
            ||| lower(r.cast_visual) == id
            ||| lower(r.bolt_visual) == id
            ||| lower(r.hit_visual) == id
            ||| lower(r.area_visual) == id
        },
{
    lemma_needs(ObjectView::MagicEffect(r), id);
    let p0: Seq<Seq<char>> = seq![
        r.bolt_sound,
        r.cast_sound,
        r.hit_sound,
        r.area_sound,
        r.cast_visual,
        r.bolt_visual,
        r.hit_visual,
        r.area_visual,
    ];
    assert(p0[0] == r.bolt_sound);
    assert(p0[1] == r.cast_sound);
    assert(p0[2] == r.hit_sound);
    assert(p0[3] == r.area_sound);
    assert(p0[4] == r.cast_visual);
    assert(p0[5] == r.bolt_visual);
    assert(p0[6] == r.hit_visual);
    assert(p0[7] == r.area_visual);
}

/// What a region needs is itself, its sleep creature and its sounds: the ids there, in lower
/// case, but for empty ones, and nothing else.
pub proof fn law_region_needs(r: RegionView, id: Seq<char>)
    ensures
        required_ids(ObjectView::Region(r)).contains(id) <==> id.len() > 0 && {
            ||| lower(r.id) == id
            ||| lower(r.sleep_creature) == id
            ||| exists|k: int| 0 <= k < r.sounds.len() && lower(#[trigger] r.sounds[k]) == id
        },
{
    lemma_needs(ObjectView::Region(r), id);
    let p0: Seq<Seq<char>> = seq![r.id, r.sleep_creature];
    assert(p0[0] == r.id);
    assert(p0[1] == r.sleep_creature);
    let p1: Seq<Seq<char>> = r.sounds;
    lemma_among_both(p0, p1, id);
    assert(references(ObjectView::Region(r)) == p0 + p1);
}

/// What a door needs is its script and its two sounds: the ids there, in lower
/// case, but for empty ones, and nothing else.
pub proof fn law_door_needs(r: DoorView, id: Seq<char>)
    ensures
        required_ids(ObjectView::Door(r)).contains(id) <==> id.len() > 0 && {
            ||| lower(r.script) == id
            ||| lower(r.open_sound) == id
            ||| lower(r.close_sound) == id
        },
{
    lemma_needs(ObjectView::Door(r), id);
    let p0: Seq<Seq<char>> = seq![r.script, r.open_sound, r.close_sound];
    assert(p0[0] == r.script);
    assert(p0[1] == r.open_sound);
    assert(p0[2] == r.close_sound);
}

/// What a scripted item needs is its script: the ids there, in lower
/// case, but for empty ones, and nothing else.
pub proof fn law_scripted_item_needs(r: ScriptedItemView, id: Seq<char>)
    ensures
        required_ids(ObjectView::MiscItem(r)).contains(id) <==> id.len() > 0
            && lower(r.script) == id,
        required_ids(ObjectView::RepairItem(r)).contains(id) <==> id.len() > 0
            && lower(r.script) == id,
        required_ids(ObjectView::Activator(r)).contains(id) <==> id.len() > 0
            && lower(r.script) == id,
        required_ids(ObjectView::Apparatus(r)).contains(id) <==> id.len() > 0
            && lower(r.script) == id,
        required_ids(ObjectView::Lockpick(r)).contains(id) <==> id.len() > 0
            && lower(r.script) == id,
        required_ids(ObjectView::Probe(r)).contains(id) <==> id.len() > 0 && lower(r.script) == id,
        required_ids(ObjectView::Ingredient(r)).contains(id) <==> id.len() > 0
            && lower(r.script) == id,
        required_ids(ObjectView::Alchemy(r)).contains(id) <==> id.len() > 0
            && lower(r.script) == id,
{
    lemma_needs(ObjectView::MiscItem(r), id);
    lemma_needs(ObjectView::RepairItem(r), id);
    lemma_needs(ObjectView::Activator(r), id);
    lemma_needs(ObjectView::Apparatus(r), id);
    lemma_needs(ObjectView::Lockpick(r), id);
    lemma_needs(ObjectView::Probe(r), id);
    lemma_needs(ObjectView::Ingredient(r), id);
    lemma_needs(ObjectView::Alchemy(r), id);
    let p0: Seq<Seq<char>> = seq![r.script];
    assert(p0[0] == r.script);
}

/// What an enchanted item needs is its script and its enchantment: the ids there, in lower
/// case, but for empty ones, and nothing else.
pub proof fn law_enchanted_item_needs(r: EnchantedItemView, id: Seq<char>)
    ensures
        required_ids(ObjectView::Weapon(r)).contains(id) <==> id.len() > 0 && {
            ||| lower(r.script) == id
            ||| lower(r.enchanting) == id
        },
        required_ids(ObjectView::Book(r)).contains(id) <==> id.len() > 0 && {
            ||| lower(r.script) == id
            ||| lower(r.enchanting) == id
        },
{
    lemma_needs(ObjectView::Weapon(r), id);
    lemma_needs(ObjectView::Book(r), id);
    let p0: Seq<Seq<char>> = seq![r.script, r.enchanting];
    assert(p0[0] == r.script);
    assert(p0[1] == r.enchanting);
}

/// What a container needs is its script and everything in its inventory: the ids there, in lower
/// case, but for empty ones, and nothing else.
pub proof fn law_container_needs(r: ContainerView, id: Seq<char>)
    ensures
        required_ids(ObjectView::Container(r)).contains(id) <==> id.len() > 0 && {
            ||| lower(r.script) == id
            ||| exists|k: int| 0 <= k < r.inventory.len() && lower(#[trigger] r.inventory[k]) == id
        },
{
    lemma_needs(ObjectView::Container(r), id);
    let p0: Seq<Seq<char>> = seq![r.script];
    assert(p0[0] == r.script);
    let p1: Seq<Seq<char>> = r.inventory;
    lemma_among_both(p0, p1, id);
    assert(references(ObjectView::Container(r)) == p0 + p1);
}

/// What a creature needs is its script, everything in its inventory, its spells, whatever its AI
/// packages aim at, and the creature whose sounds it makes: the ids there, in lower case, but for
/// empty ones, and nothing else.
pub proof fn law_creature_needs(r: CreatureView, id: Seq<char>)
    ensures
        required_ids(ObjectView::Creature(r)).contains(id) <==> id.len() > 0 && {
            ||| lower(r.script) == id
            ||| exists|k: int| 0 <= k < r.inventory.len() && lower(#[trigger] r.inventory[k]) == id
            ||| exists|k: int| 0 <= k < r.spells.len() && lower(#[trigger] r.spells[k]) == id
            ||| exists|k: int|
                    0 <= k < r.ai_packages.len() && (match #[trigger] r.ai_packages[k] {
                        AiPackageView::Escort(p) => lower(p.target) == id,
                        AiPackageView::Follow(p) => lower(p.target) == id,
                        AiPackageView::Activate(p) => lower(p.target) == id,
                        AiPackageView::Travel => false,
                        AiPackageView::Wander => false,
                    })
            ||| lower(r.sound) == id
        },
{
    lemma_needs(ObjectView::Creature(r), id);
    let p0: Seq<Seq<char>> = seq![r.script];
    assert(p0[0] == r.script);
    let p1: Seq<Seq<char>> = r.inventory;
    let p2: Seq<Seq<char>> = r.spells;
    let p3: Seq<Seq<char>> = ai_targets(r.ai_packages);
    let p4: Seq<Seq<char>> = seq![r.sound];
    assert(p4[0] == r.sound);
    lemma_among_both(p0, p1, id);
    lemma_among_both(p0 + p1, p2, id);
    lemma_among_both(p0 + p1 + p2, p3, id);
    lemma_among_both(p0 + p1 + p2 + p3, p4, id);
    lemma_among_targets(r.ai_packages, id);
    if is_among(ai_targets(r.ai_packages), id) {
        let k = choose|k: int|
            0 <= k < r.ai_packages.len() && is_some_id(ai_target(#[trigger] r.ai_packages[k]), id);
        assert(is_some_id(ai_target(r.ai_packages[k]), id));
    }
    assert(references(ObjectView::Creature(r)) == p0 + p1 + p2 + p3 + p4);
}

/// What a body part needs is its race: the ids there, in lower
/// case, but for empty ones, and nothing else.
pub proof fn law_body_part_needs(r: BodypartView, id: Seq<char>)
    ensures
        required_ids(ObjectView::Bodypart(r)).contains(id) <==> id.len() > 0 && lower(r.race) == id,
{
    lemma_needs(ObjectView::Bodypart(r), id);
    let p0: Seq<Seq<char>> = seq![r.race];
    assert(p0[0] == r.race);
}

/// What a light needs is its script and its sound: the ids there, in lower
/// case, but for empty ones, and nothing else.
pub proof fn law_light_needs(r: LightView, id: Seq<char>)
    ensures
        required_ids(ObjectView::Light(r)).contains(id) <==> id.len() > 0 && {
            ||| lower(r.script) == id
            ||| lower(r.sound) == id
        },
{
    lemma_needs(ObjectView::Light(r), id);
    let p0: Seq<Seq<char>> = seq![r.script, r.sound];
    assert(p0[0] == r.script);
    assert(p0[1] == r.sound);
}

/// What a person needs is their script, everything in their inventory, their spells, whatever their
/// AI packages aim at, their race, class and faction, their head and their hair: the ids there, in
/// lower case, but for empty ones, and nothing else.
pub proof fn law_person_needs(r: NpcView, id: Seq<char>)
    ensures
        required_ids(ObjectView::Npc(r)).contains(id) <==> id.len() > 0 && {
            ||| lower(r.script) == id
            ||| exists|k: int| 0 <= k < r.inventory.len() && lower(#[trigger] r.inventory[k]) == id
            ||| exists|k: int| 0 <= k < r.spells.len() && lower(#[trigger] r.spells[k]) == id
            ||| exists|k: int|
                    0 <= k < r.ai_packages.len() && (match #[trigger] r.ai_packages[k] {
                        AiPackageView::Escort(p) => lower(p.target) == id,
                        AiPackageView::Follow(p) => lower(p.target) == id,
                        AiPackageView::Activate(p) => lower(p.target) == id,
                        AiPackageView::Travel => false,
                        AiPackageView::Wander => false,
                    })
            ||| lower(r.race) == id
            ||| lower(r.class) == id
            ||| lower(r.faction) == id
            ||| lower(r.head) == id
            ||| lower(r.hair) == id
        },
{
    lemma_needs(ObjectView::Npc(r), id);
    let p0: Seq<Seq<char>> = seq![r.script];
    assert(p0[0] == r.script);
    let p1: Seq<Seq<char>> = r.inventory;
    let p2: Seq<Seq<char>> = r.spells;
    let p3: Seq<Seq<char>> = ai_targets(r.ai_packages);
    let p4: Seq<Seq<char>> = seq![r.race, r.class, r.faction, r.head, r.hair];
    assert(p4[0] == r.race);
    assert(p4[1] == r.class);
    assert(p4[2] == r.faction);
    assert(p4[3] == r.head);
    assert(p4[4] == r.hair);
    lemma_among_both(p0, p1, id);
    lemma_among_both(p0 + p1, p2, id);
    lemma_among_both(p0 + p1 + p2, p3, id);
    lemma_among_both(p0 + p1 + p2 + p3, p4, id);
    lemma_among_targets(r.ai_packages, id);
    if is_among(ai_targets(r.ai_packages), id) {
        let k = choose|k: int|
            0 <= k < r.ai_packages.len() && is_some_id(ai_target(#[trigger] r.ai_packages[k]), id);
        assert(is_some_id(ai_target(r.ai_packages[k]), id));
    }
    assert(references(ObjectView::Npc(r)) == p0 + p1 + p2 + p3 + p4);
}

/// What a worn item needs is its script, its enchantment and the body parts of either sex: the ids
/// there, in lower case, but for empty ones, and nothing else.
pub proof fn law_worn_item_needs(r: WornItemView, id: Seq<char>)
    ensures
        required_ids(ObjectView::Armor(r)).contains(id) <==> id.len() > 0 && {
            ||| lower(r.script) == id
            ||| lower(r.enchanting) == id
            ||| exists|k: int|
                    0 <= k < r.biped_objects.len() && (lower(
                        #[trigger] r.biped_objects[k].male_bodypart,
                    ) == id || lower(r.biped_objects[k].female_bodypart) == id)
        },
        required_ids(ObjectView::Clothing(r)).contains(id) <==> id.len() > 0 && {
            ||| lower(r.script) == id
            ||| lower(r.enchanting) == id
            ||| exists|k: int|
                    0 <= k < r.biped_objects.len() && (lower(
                        #[trigger] r.biped_objects[k].male_bodypart,
                    ) == id || lower(r.biped_objects[k].female_bodypart) == id)
        },
{
    lemma_needs(ObjectView::Armor(r), id);
    lemma_needs(ObjectView::Clothing(r), id);
    let p0: Seq<Seq<char>> = seq![r.script, r.enchanting];
    assert(p0[0] == r.script);
    assert(p0[1] == r.enchanting);
    let p1: Seq<Seq<char>> = bodyparts(r.biped_objects);
    lemma_among_both(p0, p1, id);
    lemma_among_parts(r.biped_objects, id);
    assert(references(ObjectView::Armor(r)) == p0 + p1);
}

/// What an item list needs is its items: the ids there, in lower
/// case, but for empty ones, and nothing else.
pub proof fn law_item_list_needs(r: LeveledItemView, id: Seq<char>)
    ensures
        required_ids(ObjectView::LeveledItem(r)).contains(id) <==> id.len() > 0 && {
            ||| exists|k: int| 0 <= k < r.items.len() && lower(#[trigger] r.items[k]) == id
        },
{
    lemma_needs(ObjectView::LeveledItem(r), id);
    let p0: Seq<Seq<char>> = r.items;
}

/// What a creature list needs is its creatures: the ids there, in lower
/// case, but for empty ones, and nothing else.
pub proof fn law_creature_list_needs(r: LeveledCreatureView, id: Seq<char>)
    ensures
        required_ids(ObjectView::LeveledCreature(r)).contains(id) <==> id.len() > 0 && {
            ||| exists|k: int| 0 <= k < r.creatures.len() && lower(#[trigger] r.creatures[k]) == id
        },
{
    lemma_needs(ObjectView::LeveledCreature(r), id);
    let p0: Seq<Seq<char>> = r.creatures;
}

/// What a line needs is its speaker, their race, class and faction, and the faction of the player:
/// the ids there, in lower case, but for empty ones, and nothing else.
pub proof fn law_line_needs(r: DialogueInfoView, id: Seq<char>)
    ensures
        required_ids(ObjectView::DialogueInfo(r)).contains(id) <==> id.len() > 0 && {
            ||| lower(r.speaker_id) == id
            ||| lower(r.speaker_race) == id
            ||| lower(r.speaker_class) == id
            ||| lower(r.speaker_faction) == id
            ||| lower(r.player_faction) == id
        },
{
    lemma_needs(ObjectView::DialogueInfo(r), id);
    let p0: Seq<Seq<char>> = seq![
        r.speaker_id,
        r.speaker_race,
        r.speaker_class,
        r.speaker_faction,
        r.player_faction,
    ];
    assert(p0[0] == r.speaker_id);
    assert(p0[1] == r.speaker_race);
    assert(p0[2] == r.speaker_class);
    assert(p0[3] == r.speaker_faction);
    assert(p0[4] == r.player_faction);
}

/// What a faction needs is itself and the factions that it reacts to: the ids there, in lower
/// case, but for empty ones, and nothing else.
pub proof fn law_faction_needs(r: FactionView, id: Seq<char>)
    ensures
        required_ids(ObjectView::Faction(r)).contains(id) <==> id.len() > 0 && {
            ||| lower(r.id) == id
            ||| exists|k: int| 0 <= k < r.reactions.len() && lower(#[trigger] r.reactions[k]) == id
        },
{
    lemma_needs(ObjectView::Faction(r), id);
    let p0: Seq<Seq<char>> = seq![r.id];
    assert(p0[0] == r.id);
    let p1: Seq<Seq<char>> = r.reactions;
    lemma_among_both(p0, p1, id);
    assert(references(ObjectView::Faction(r)) == p0 + p1);
}

/// What a sound needs is itself: the ids there, in lower
/// case, but for empty ones, and nothing else.
pub proof fn law_sound_needs(r: PlainRecordView, id: Seq<char>)
    ensures
        required_ids(ObjectView::Sound(r)).contains(id) <==> id.len() > 0 && lower(r.id) == id,
{
    lemma_needs(ObjectView::Sound(r), id);
    let p0: Seq<Seq<char>> = seq![r.id];
    assert(p0[0] == r.id);
}

/// A thing placed in a cell names the id: as what is placed there, or as its owner, the global
/// variable or the faction behind the ownership, its key, its trap or the soul in it.
pub open spec fn is_named_in_place(p: ReferenceView, id: Seq<char>) -> bool {
    ||| lower(p.id) == id
    ||| is_some_id(p.owner, id)
    ||| is_some_id(p.owner_global, id)
    ||| is_some_id(p.owner_faction, id)
    ||| is_some_id(p.key, id)
    ||| is_some_id(p.trap, id)
    ||| is_some_id(p.soul, id)
}

/// What a cell needs is its region and whatever the things placed in it name: the ids there, in
/// lower case, but for empty ones, and nothing else.
pub proof fn law_cell_needs(r: CellView, id: Seq<char>)
    ensures
        required_ids(ObjectView::Cell(r)).contains(id) <==> id.len() > 0 && {
            ||| is_some_id(r.region, id)
            ||| exists|k: int|
                0 <= k < r.references.len() && is_named_in_place(#[trigger] r.references[k], id)
        },
{
    lemma_needs(ObjectView::Cell(r), id);
    lemma_among_both(
        optional(r.region),
        r.references.flat_map(|p: ReferenceView| placed_ids(p)),
        id,
    );
    lemma_among_optional(r.region, id);
    lemma_among_placed(r.references, id);
}

/// Records of the other kinds need nothing.
pub proof fn law_other_kinds_need_nothing(object: ObjectView, id: Seq<char>)
    requires
        match object {
            ObjectView::Header(_) => true,
            ObjectView::GameSetting(_) => true,
            ObjectView::GlobalVariable(_) => true,
            ObjectView::Class(_) => true,
            ObjectView::Skill(_) => true,
            ObjectView::Script(_) => true,
            ObjectView::StartScript(_) => true,
            ObjectView::LandscapeTexture(_) => true,
            ObjectView::Spell(_) => true,
            ObjectView::Static(_) => true,
            ObjectView::Enchanting(_) => true,
            ObjectView::Landscape(_) => true,
            ObjectView::PathGrid(_) => true,
            ObjectView::Dialogue(_) => true,
            _ => false,
        },
    ensures
        !required_ids(object).contains(id),
{
    lemma_needs(object, id);
}

} // verus!
