//! The ids that each kind of record names, in the order in which they are listed.

use vstd::prelude::*;

use crate::record_views::{
    AiPackageView, BipedObjectView, BodypartView, CellView, ContainerView, CreatureView,
    DialogueInfoView, DoorView, EnchantedItemView, FactionView, LeveledCreatureView,
    LeveledItemView, LightView, MagicEffectView, NpcView, ObjectView, PlainRecordView,
    ReferenceView, RegionView, ScriptedItemView, SoundGenView, SpellHolderView, WornItemView,
};
use crate::references::{ai_target, ai_targets, bodyparts, optional, placed_ids, references};

verus! {

/// What a race names, in order.
pub proof fn law_race_names(r: SpellHolderView)
    ensures
        references(ObjectView::Race(r)).len() == r.spells.len(),
        forall|k: int|
            0 <= k < r.spells.len() ==> references(ObjectView::Race(r))[k]
                == #[trigger] r.spells[k],
{
}

/// What a birthsign names, in order.
pub proof fn law_birthsign_names(r: SpellHolderView)
    ensures
        references(ObjectView::Birthsign(r)).len() == r.spells.len(),
        forall|k: int|
            0 <= k < r.spells.len() ==> references(ObjectView::Birthsign(r))[k]
                == #[trigger] r.spells[k],
{
}

/// What a sound generator names, in order.
pub proof fn law_sound_generator_names(r: SoundGenView)
    ensures
        references(ObjectView::SoundGen(r)).len() == 2,
        references(ObjectView::SoundGen(r))[0] == r.creature,
        references(ObjectView::SoundGen(r))[1] == r.sound,
{
}

/// What a magic effect names, in order.
pub proof fn law_magic_effect_names(r: MagicEffectView)
    ensures
        references(ObjectView::MagicEffect(r)).len() == 8,
        references(ObjectView::MagicEffect(r))[0] == r.bolt_sound,
        references(ObjectView::MagicEffect(r))[1] == r.cast_sound,
        references(ObjectView::MagicEffect(r))[2] == r.hit_sound,
        references(ObjectView::MagicEffect(r))[3] == r.area_sound,
        references(ObjectView::MagicEffect(r))[4] == r.cast_visual,
        references(ObjectView::MagicEffect(r))[5] == r.bolt_visual,
        references(ObjectView::MagicEffect(r))[6] == r.hit_visual,
        references(ObjectView::MagicEffect(r))[7] == r.area_visual,
{
}

/// What a region names, in order.
pub proof fn law_region_names(r: RegionView)
    ensures
        references(ObjectView::Region(r)).len() == 2 + r.sounds.len(),
        references(ObjectView::Region(r))[0] == r.id,
        references(ObjectView::Region(r))[1] == r.sleep_creature,
        forall|k: int|
            0 <= k < r.sounds.len() ==> references(ObjectView::Region(r))[2 + k]
                == #[trigger] r.sounds[k],
{
}

/// What a door names, in order.
pub proof fn law_door_names(r: DoorView)
    ensures
        references(ObjectView::Door(r)).len() == 3,
        references(ObjectView::Door(r))[0] == r.script,
        references(ObjectView::Door(r))[1] == r.open_sound,
        references(ObjectView::Door(r))[2] == r.close_sound,
{
}

/// What a scripted item names, in order.
pub proof fn law_scripted_item_names(r: ScriptedItemView)
    ensures
        references(ObjectView::MiscItem(r)).len() == 1,
        references(ObjectView::MiscItem(r))[0] == r.script,
        references(ObjectView::RepairItem(r)).len() == 1,
        references(ObjectView::RepairItem(r))[0] == r.script,
        references(ObjectView::Activator(r)).len() == 1,
        references(ObjectView::Activator(r))[0] == r.script,
        references(ObjectView::Apparatus(r)).len() == 1,
        references(ObjectView::Apparatus(r))[0] == r.script,
        references(ObjectView::Lockpick(r)).len() == 1,
        references(ObjectView::Lockpick(r))[0] == r.script,
        references(ObjectView::Probe(r)).len() == 1,
        references(ObjectView::Probe(r))[0] == r.script,
        references(ObjectView::Ingredient(r)).len() == 1,
        references(ObjectView::Ingredient(r))[0] == r.script,
        references(ObjectView::Alchemy(r)).len() == 1,
        references(ObjectView::Alchemy(r))[0] == r.script,
{
}

/// What an enchanted item names, in order.
pub proof fn law_enchanted_item_names(r: EnchantedItemView)
    ensures
        references(ObjectView::Weapon(r)).len() == 2,
        references(ObjectView::Weapon(r))[0] == r.script,
        references(ObjectView::Weapon(r))[1] == r.enchanting,
        references(ObjectView::Book(r)).len() == 2,
        references(ObjectView::Book(r))[0] == r.script,
        references(ObjectView::Book(r))[1] == r.enchanting,
{
}

/// What a container names, in order.
pub proof fn law_container_names(r: ContainerView)
    ensures
        references(ObjectView::Container(r)).len() == 1 + r.inventory.len(),
        references(ObjectView::Container(r))[0] == r.script,
        forall|k: int|
            0 <= k < r.inventory.len() ==> references(ObjectView::Container(r))[1 + k]
                == #[trigger] r.inventory[k],
{
}

/// What a body part names, in order.
pub proof fn law_body_part_names(r: BodypartView)
    ensures
        references(ObjectView::Bodypart(r)).len() == 1,
        references(ObjectView::Bodypart(r))[0] == r.race,
{
}

/// What a light names, in order.
pub proof fn law_light_names(r: LightView)
    ensures
        references(ObjectView::Light(r)).len() == 2,
        references(ObjectView::Light(r))[0] == r.script,
        references(ObjectView::Light(r))[1] == r.sound,
{
}

/// What an item list names, in order.
pub proof fn law_item_list_names(r: LeveledItemView)
    ensures
        references(ObjectView::LeveledItem(r)).len() == r.items.len(),
        forall|k: int|
            0 <= k < r.items.len() ==> references(ObjectView::LeveledItem(r))[k]
                == #[trigger] r.items[k],
{
}

/// What a creature list names, in order.
pub proof fn law_creature_list_names(r: LeveledCreatureView)
    ensures
        references(ObjectView::LeveledCreature(r)).len() == r.creatures.len(),
        forall|k: int|
            0 <= k < r.creatures.len() ==> references(ObjectView::LeveledCreature(r))[k]
                == #[trigger] r.creatures[k],
{
}

/// What a line names, in order.
pub proof fn law_line_names(r: DialogueInfoView)
    ensures
        references(ObjectView::DialogueInfo(r)).len() == 5,
        references(ObjectView::DialogueInfo(r))[0] == r.speaker_id,
        references(ObjectView::DialogueInfo(r))[1] == r.speaker_race,
        references(ObjectView::DialogueInfo(r))[2] == r.speaker_class,
        references(ObjectView::DialogueInfo(r))[3] == r.speaker_faction,
        references(ObjectView::DialogueInfo(r))[4] == r.player_faction,
{
}

/// What a faction names, in order.
pub proof fn law_faction_names(r: FactionView)
    ensures
        references(ObjectView::Faction(r)).len() == 1 + r.reactions.len(),
        references(ObjectView::Faction(r))[0] == r.id,
        forall|k: int|
            0 <= k < r.reactions.len() ==> references(ObjectView::Faction(r))[1 + k]
                == #[trigger] r.reactions[k],
{
}

/// What a sound names, in order.
pub proof fn law_sound_names(r: PlainRecordView)
    ensures
        references(ObjectView::Sound(r)).len() == 1,
        references(ObjectView::Sound(r))[0] == r.id,
{
}

/// What a creature names, in order: what the AI packages aim at comes behind the spells, package by
/// package.
pub proof fn law_creature_names(r: CreatureView, package: AiPackageView)
    ensures
        ({
            let all = references(ObjectView::Creature(r));
            let n = r.inventory.len() as int;
            let m = r.spells.len() as int;
            let end = all.len() as int - 1;
            &&& end >= 1 + n + m
            &&& r.ai_packages.len() == 0 ==> end == 1 + n + m
            &&& all[0] == r.script
            &&& forall|k: int| 0 <= k < n ==> all[1 + k] == #[trigger] r.inventory[k]
            &&& forall|k: int| 0 <= k < m ==> all[1 + n + k] == #[trigger] r.spells[k]
            &&& all[end] == r.sound
            &&& references(
                ObjectView::Creature(
                    (CreatureView { ai_packages: r.ai_packages.push(package), ..r }),
                ),
            ) == (match package {
                AiPackageView::Escort(p) => all.insert(end, p.target),
                AiPackageView::Follow(p) => all.insert(end, p.target),
                AiPackageView::Activate(p) => all.insert(end, p.target),
                AiPackageView::Travel => all,
                AiPackageView::Wander => all,
            })
        }),
{
    let all = references(ObjectView::Creature(r));
    let end = all.len() as int - 1;
    let more = CreatureView { ai_packages: r.ai_packages.push(package), ..r };
    let longer = references(ObjectView::Creature(more));
    lemma_targets_push(r.ai_packages, package);
    match ai_target(package) {
        Some(id) => {
            assert(longer =~= all.insert(end, id));
        },
        None => {
            assert(longer =~= all);
        },
    }
    if r.ai_packages.len() == 0 {
        reveal(Seq::filter_map);
    }
}

/// What a person names, in order: what the AI packages aim at comes behind the spells, package by
/// package.
pub proof fn law_person_names(r: NpcView, package: AiPackageView)
    ensures
        ({
            let all = references(ObjectView::Npc(r));
            let n = r.inventory.len() as int;
            let m = r.spells.len() as int;
            let end = all.len() as int - 5;
            &&& end >= 1 + n + m
            &&& r.ai_packages.len() == 0 ==> end == 1 + n + m
            &&& all[0] == r.script
            &&& forall|k: int| 0 <= k < n ==> all[1 + k] == #[trigger] r.inventory[k]
            &&& forall|k: int| 0 <= k < m ==> all[1 + n + k] == #[trigger] r.spells[k]
            &&& all[end] == r.race
            &&& all[end + 1] == r.class
            &&& all[end + 2] == r.faction
            &&& all[end + 3] == r.head
            &&& all[end + 4] == r.hair
            &&& references(
                ObjectView::Npc((NpcView { ai_packages: r.ai_packages.push(package), ..r })),
            ) == (match package {
                AiPackageView::Escort(p) => all.insert(end, p.target),
                AiPackageView::Follow(p) => all.insert(end, p.target),
                AiPackageView::Activate(p) => all.insert(end, p.target),
                AiPackageView::Travel => all,
                AiPackageView::Wander => all,
            })
        }),
{
    let all = references(ObjectView::Npc(r));
    let end = all.len() as int - 5;
    let more = NpcView { ai_packages: r.ai_packages.push(package), ..r };
    let longer = references(ObjectView::Npc(more));
    lemma_targets_push(r.ai_packages, package);
    match ai_target(package) {
        Some(id) => {
            assert(longer =~= all.insert(end, id));
        },
        None => {
            assert(longer =~= all);
        },
    }
    if r.ai_packages.len() == 0 {
        reveal(Seq::filter_map);
    }
}

proof fn lemma_targets_push(packages: Seq<AiPackageView>, package: AiPackageView)
    ensures
        ai_targets(packages.push(package)) == ai_targets(packages) + optional(ai_target(package)),
{
    let aim = |p: AiPackageView| ai_target(p);
    let more = packages.push(package);
    more.lemma_filter_map_take_succ(aim, packages.len() as int);
    assert(more.take(packages.len() as int) =~= packages);
    assert(more.take(packages.len() as int + 1) =~= more);
    assert(ai_targets(more) =~= ai_targets(packages) + optional(ai_target(package)));
}

/// What a worn item names, in order: behind its script and its enchantment come the body parts,
/// those of men before those of women.
pub proof fn law_worn_item_names(r: WornItemView, object: BipedObjectView)
    ensures
        r.biped_objects.len() == 0 ==> {
            &&& references(ObjectView::Armor(r)) == seq![r.script, r.enchanting]
            &&& references(ObjectView::Clothing(r)) == seq![r.script, r.enchanting]
        },
        ({
            let more = WornItemView { biped_objects: r.biped_objects.push(object), ..r };
            &&& references(ObjectView::Armor(more)) == references(ObjectView::Armor(r)).push(
                object.male_bodypart,
            ).push(object.female_bodypart)
            &&& references(ObjectView::Clothing(more)) == references(ObjectView::Clothing(r)).push(
                object.male_bodypart,
            ).push(object.female_bodypart)
        }),
{
    let parts = |o: BipedObjectView| seq![o.male_bodypart, o.female_bodypart];
    let all = r.biped_objects.push(object);
    let n = r.biped_objects.len() as int;
    all.lemma_flat_map_take_append(parts, n);
    assert(all.take(n) =~= r.biped_objects);
    assert(all.take(n + 1) =~= all);
    let more = WornItemView { biped_objects: all, ..r };
    assert(references(ObjectView::Armor(more)) =~= references(ObjectView::Armor(r)).push(
        object.male_bodypart,
    ).push(object.female_bodypart));
    assert(references(ObjectView::Clothing(more)) =~= references(ObjectView::Clothing(r)).push(
        object.male_bodypart,
    ).push(object.female_bodypart));
    if r.biped_objects.len() == 0 {
        assert(r.biped_objects.map_values(parts) =~= Seq::empty());
        assert(bodyparts(r.biped_objects) =~= Seq::empty());
        assert(references(ObjectView::Armor(r)) =~= seq![r.script, r.enchanting]);
        assert(references(ObjectView::Clothing(r)) =~= seq![r.script, r.enchanting]);
    }
}

/// The list with the optional id behind it.
pub open spec fn with_optional(ids: Seq<Seq<char>>, id: Option<Seq<char>>) -> Seq<Seq<char>> {
    match id {
        Some(id) => ids.push(id),
        None => ids,
    }
}

/// What a cell names, in order: its region, then thing by thing what is placed in it, its owner,
/// the global variable and the faction of the ownership, its key, its trap and the soul in it.
pub proof fn law_cell_names(r: CellView, p: ReferenceView)
    ensures
        r.references.len() == 0 ==> references(ObjectView::Cell(r)) == with_optional(
            Seq::empty(),
            r.region,
        ),
        ({
            let a = references(ObjectView::Cell(r)).push(p.id);
            let b = with_optional(a, p.owner);
            let c = with_optional(b, p.owner_global);
            let d = with_optional(c, p.owner_faction);
            let e = with_optional(d, p.key);
            let f = with_optional(e, p.trap);
            references(ObjectView::Cell((CellView { references: r.references.push(p), ..r })))
                == with_optional(f, p.soul)
        }),
{
    let names = |p: ReferenceView| placed_ids(p);
    let all = r.references.push(p);
    let n = r.references.len() as int;
    all.lemma_flat_map_take_append(names, n);
    assert(all.take(n) =~= r.references);
    assert(all.take(n + 1) =~= all);
    let old = references(ObjectView::Cell(r));
    let front = optional(r.region);
    lemma_placed_chain(old, p);
    lemma_joined(front, r.references.flat_map(names), placed_ids(p));
    if r.references.len() == 0 {
        assert(r.references.map_values(names) =~= Seq::empty());
        assert(r.references.flat_map(names) =~= Seq::empty());
        lemma_with_optional(Seq::empty(), r.region);
        assert(old =~= with_optional(Seq::empty(), r.region));
    }
}

proof fn lemma_joined(a: Seq<Seq<char>>, b: Seq<Seq<char>>, c: Seq<Seq<char>>)
    ensures
        (a + b) + c == a + (b + c),
{
    assert((a + b) + c =~= a + (b + c));
}

proof fn lemma_placed_chain(ids: Seq<Seq<char>>, p: ReferenceView)
    ensures
        ({
            let a = ids.push(p.id);
            let b = with_optional(a, p.owner);
            let c = with_optional(b, p.owner_global);
            let d = with_optional(c, p.owner_faction);
            let e = with_optional(d, p.key);
            let f = with_optional(e, p.trap);
            with_optional(f, p.soul) == ids + placed_ids(p)
        }),
{
    let a = ids.push(p.id);
    let b = with_optional(a, p.owner);
    let c = with_optional(b, p.owner_global);
    let d = with_optional(c, p.owner_faction);
    let e = with_optional(d, p.key);
    let f = with_optional(e, p.trap);
    let p0 = seq![p.id];
    let p1 = p0 + optional(p.owner);
    let p2 = p1 + optional(p.owner_global);
    let p3 = p2 + optional(p.owner_faction);
    let p4 = p3 + optional(p.key);
    let p5 = p4 + optional(p.trap);
    assert(a =~= ids + p0);
    lemma_with_optional(a, p.owner);
    lemma_joined(ids, p0, optional(p.owner));
    lemma_with_optional(b, p.owner_global);
    lemma_joined(ids, p1, optional(p.owner_global));
    lemma_with_optional(c, p.owner_faction);
    lemma_joined(ids, p2, optional(p.owner_faction));
    lemma_with_optional(d, p.key);
    lemma_joined(ids, p3, optional(p.key));
    lemma_with_optional(e, p.trap);
    lemma_joined(ids, p4, optional(p.trap));
    lemma_with_optional(f, p.soul);
    lemma_joined(ids, p5, optional(p.soul));
}

proof fn lemma_with_optional(ids: Seq<Seq<char>>, id: Option<Seq<char>>)
    ensures
        with_optional(ids, id) == ids + optional(id),
{
    assert(with_optional(ids, id) =~= ids + optional(id));
}

/// Records of the other kinds name nothing.
pub proof fn law_other_kinds_name_nothing(object: ObjectView)
    requires
        match object {
            ObjectView::Header(_) => true,
            ObjectView::GameSetting(_) => true,
            ObjectView::GlobalVariable(_) => true,
            ObjectView::Class(_) => true,
            ObjectView::Skill(_) => true,
            ObjectView::Script(_) => true,
            ObjectView::StartScript(_) => true,
            ObjectView::LandscapeTexture(_) => true,
            ObjectView::Spell(_) => true,
            ObjectView::Static(_) => true,
            ObjectView::Enchanting(_) => true,
            ObjectView::Landscape(_) => true,
            ObjectView::PathGrid(_) => true,
            ObjectView::Dialogue(_) => true,
            _ => false,
        },
    ensures
        references(object).len() == 0,
{
}

} // verus!
