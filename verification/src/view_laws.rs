//! The views leave out nothing that the records hold.

use vstd::hash_set::StringHashSet;
use vstd::prelude::*;

use crate::audit::DialogueAudit;
use crate::dialogue_group::DialogueGroup;
use crate::dialogue_records::{groups_of, ids_of};
use crate::imports::ImportedRecord;
use crate::notices::{Notice, NoticeView};
use crate::population::ReportedActor;
use crate::record_views::{AiPackageView, ObjectView};
use crate::records::{
    AiActivatePackage, AiEscortPackage, AiFollowPackage, AiPackage, BipedObject, Bodypart, Cell,
    Container, Creature, Dialogue, DialogueInfo, Door, EnchantedItem, Faction, Filter, Header,
    LeveledCreature, LeveledItem, Light, MagicEffect, Npc, PlainRecord, Plugin, Reference, Region,
    Script, ScriptedItem, SoundGen, SpellHolder, TES3Object, WornItem,
};
use crate::topic_reasons::{reasons_of, ReasonSet};

verus! {

/// The optional text in the view is the one in the record.
pub open spec fn is_text(view: Option<Seq<char>>, text: Option<String>) -> bool {
    match (view, text) {
        (Some(a), Some(b)) => a == b@,
        (None, None) => true,
        _ => false,
    }
}

/// The texts in the view are those in the record, one for one.
pub open spec fn are_texts(view: Seq<Seq<char>>, texts: Seq<String>) -> bool {
    &&& view.len() == texts.len()
    &&& forall|k: int| 0 <= k < texts.len() ==> #[trigger] view[k] == texts[k]@
}

/// The view of a [`Filter`] holds all its fields.
pub proof fn law_filter_is_seen_whole(r: Filter)
    ensures
        r.deep_view().id == r.id@,
{
}

/// The view of a [`BipedObject`] holds all its fields.
pub proof fn law_biped_object_is_seen_whole(r: BipedObject)
    ensures
        r.deep_view().male_bodypart == r.male_bodypart@,
        r.deep_view().female_bodypart == r.female_bodypart@,
{
}

/// The view of a [`AiEscortPackage`] holds all its fields.
pub proof fn law_ai_escort_package_is_seen_whole(r: AiEscortPackage)
    ensures
        r.deep_view().target == r.target@,
        r.deep_view().cell == r.cell@,
{
}

/// The view of a [`AiFollowPackage`] holds all its fields.
pub proof fn law_ai_follow_package_is_seen_whole(r: AiFollowPackage)
    ensures
        r.deep_view().target == r.target@,
        r.deep_view().cell == r.cell@,
{
}

/// The view of a [`AiActivatePackage`] holds all its fields.
pub proof fn law_ai_activate_package_is_seen_whole(r: AiActivatePackage)
    ensures
        r.deep_view().target == r.target@,
{
}

/// The view of a [`Reference`] holds all its fields.
pub proof fn law_reference_is_seen_whole(r: Reference)
    ensures
        r.deep_view().id == r.id@,
        is_text(r.deep_view().owner, r.owner),
        is_text(r.deep_view().owner_global, r.owner_global),
        is_text(r.deep_view().owner_faction, r.owner_faction),
        is_text(r.deep_view().key, r.key),
        is_text(r.deep_view().trap, r.trap),
        is_text(r.deep_view().soul, r.soul),
{
}

/// The view of a [`PlainRecord`] holds all its fields.
pub proof fn law_plain_record_is_seen_whole(r: PlainRecord)
    ensures
        r.deep_view().id == r.id@,
        r.deep_view().deleted == r.deleted,
        r.deep_view().handle == r.handle,
        r.deep_view().tag == r.tag@,
{
}

/// The view of a [`Header`] holds all its fields.
pub proof fn law_header_is_seen_whole(r: Header)
    ensures
        r.deep_view().id == r.id@,
        r.deep_view().deleted == r.deleted,
        r.deep_view().handle == r.handle,
        r.deep_view().tag == r.tag@,
        are_texts(r.deep_view().masters, r.masters@),
{
}

/// The view of a [`SpellHolder`] holds all its fields.
pub proof fn law_spell_holder_is_seen_whole(r: SpellHolder)
    ensures
        r.deep_view().id == r.id@,
        r.deep_view().deleted == r.deleted,
        r.deep_view().handle == r.handle,
        r.deep_view().tag == r.tag@,
        are_texts(r.deep_view().spells, r.spells@),
{
}

/// The view of a [`Faction`] holds all its fields.
pub proof fn law_faction_is_seen_whole(r: Faction)
    ensures
        r.deep_view().id == r.id@,
        r.deep_view().deleted == r.deleted,
        r.deep_view().handle == r.handle,
        r.deep_view().tag == r.tag@,
        are_texts(r.deep_view().reactions, r.reactions@),
{
}

/// The view of a [`SoundGen`] holds all its fields.
pub proof fn law_sound_gen_is_seen_whole(r: SoundGen)
    ensures
        r.deep_view().id == r.id@,
        r.deep_view().deleted == r.deleted,
        r.deep_view().handle == r.handle,
        r.deep_view().tag == r.tag@,
        r.deep_view().creature == r.creature@,
        r.deep_view().sound == r.sound@,
{
}

/// The view of a [`MagicEffect`] holds all its fields.
pub proof fn law_magic_effect_is_seen_whole(r: MagicEffect)
    ensures
        r.deep_view().id == r.id@,
        r.deep_view().deleted == r.deleted,
        r.deep_view().handle == r.handle,
        r.deep_view().tag == r.tag@,
        r.deep_view().effect_id == r.effect_id,
        r.deep_view().bolt_sound == r.bolt_sound@,
        r.deep_view().cast_sound == r.cast_sound@,
        r.deep_view().hit_sound == r.hit_sound@,
        r.deep_view().area_sound == r.area_sound@,
        r.deep_view().cast_visual == r.cast_visual@,
        r.deep_view().bolt_visual == r.bolt_visual@,
        r.deep_view().hit_visual == r.hit_visual@,
        r.deep_view().area_visual == r.area_visual@,
        r.deep_view().rest == r.rest,
{
}

/// The view of a [`Script`] holds all its fields.
pub proof fn law_script_is_seen_whole(r: Script)
    ensures
        r.deep_view().id == r.id@,
        r.deep_view().deleted == r.deleted,
        r.deep_view().handle == r.handle,
        r.deep_view().tag == r.tag@,
        r.deep_view().text == r.text@,
{
}

/// The view of a [`Region`] holds all its fields.
pub proof fn law_region_is_seen_whole(r: Region)
    ensures
        r.deep_view().id == r.id@,
        r.deep_view().deleted == r.deleted,
        r.deep_view().handle == r.handle,
        r.deep_view().tag == r.tag@,
        r.deep_view().sleep_creature == r.sleep_creature@,
        are_texts(r.deep_view().sounds, r.sounds@),
{
}

/// The view of a [`Door`] holds all its fields.
pub proof fn law_door_is_seen_whole(r: Door)
    ensures
        r.deep_view().id == r.id@,
        r.deep_view().deleted == r.deleted,
        r.deep_view().handle == r.handle,
        r.deep_view().tag == r.tag@,
        r.deep_view().script == r.script@,
        r.deep_view().open_sound == r.open_sound@,
        r.deep_view().close_sound == r.close_sound@,
{
}

/// The view of a [`ScriptedItem`] holds all its fields.
pub proof fn law_scripted_item_is_seen_whole(r: ScriptedItem)
    ensures
        r.deep_view().id == r.id@,
        r.deep_view().deleted == r.deleted,
        r.deep_view().handle == r.handle,
        r.deep_view().tag == r.tag@,
        r.deep_view().script == r.script@,
{
}

/// The view of a [`EnchantedItem`] holds all its fields.
pub proof fn law_enchanted_item_is_seen_whole(r: EnchantedItem)
    ensures
        r.deep_view().id == r.id@,
        r.deep_view().deleted == r.deleted,
        r.deep_view().handle == r.handle,
        r.deep_view().tag == r.tag@,
        r.deep_view().script == r.script@,
        r.deep_view().enchanting == r.enchanting@,
{
}

/// The view of a [`Container`] holds all its fields.
pub proof fn law_container_is_seen_whole(r: Container)
    ensures
        r.deep_view().id == r.id@,
        r.deep_view().deleted == r.deleted,
        r.deep_view().handle == r.handle,
        r.deep_view().tag == r.tag@,
        r.deep_view().script == r.script@,
        are_texts(r.deep_view().inventory, r.inventory@),
{
}

/// The view of a [`Creature`] holds all its fields.
pub proof fn law_creature_is_seen_whole(r: Creature)
    ensures
        r.deep_view().id == r.id@,
        r.deep_view().deleted == r.deleted,
        r.deep_view().handle == r.handle,
        r.deep_view().tag == r.tag@,
        r.deep_view().script == r.script@,
        are_texts(r.deep_view().inventory, r.inventory@),
        are_texts(r.deep_view().spells, r.spells@),
        r.deep_view().ai_packages.len() == r.ai_packages@.len(),
        forall|k: int|
            0 <= k < r.ai_packages@.len() ==> #[trigger] r.deep_view().ai_packages[k]
                == r.ai_packages@[k].deep_view(),
        r.deep_view().sound == r.sound@,
{
}

/// The view of a [`Bodypart`] holds all its fields.
pub proof fn law_bodypart_is_seen_whole(r: Bodypart)
    ensures
        r.deep_view().id == r.id@,
        r.deep_view().deleted == r.deleted,
        r.deep_view().handle == r.handle,
        r.deep_view().tag == r.tag@,
        r.deep_view().race == r.race@,
{
}

/// The view of a [`Light`] holds all its fields.
pub proof fn law_light_is_seen_whole(r: Light)
    ensures
        r.deep_view().id == r.id@,
        r.deep_view().deleted == r.deleted,
        r.deep_view().handle == r.handle,
        r.deep_view().tag == r.tag@,
        r.deep_view().script == r.script@,
        r.deep_view().sound == r.sound@,
{
}

/// The view of a [`Npc`] holds all its fields.
pub proof fn law_npc_is_seen_whole(r: Npc)
    ensures
        r.deep_view().id == r.id@,
        r.deep_view().deleted == r.deleted,
        r.deep_view().handle == r.handle,
        r.deep_view().tag == r.tag@,
        r.deep_view().script == r.script@,
        are_texts(r.deep_view().inventory, r.inventory@),
        are_texts(r.deep_view().spells, r.spells@),
        r.deep_view().ai_packages.len() == r.ai_packages@.len(),
        forall|k: int|
            0 <= k < r.ai_packages@.len() ==> #[trigger] r.deep_view().ai_packages[k]
                == r.ai_packages@[k].deep_view(),
        r.deep_view().race == r.race@,
        r.deep_view().class == r.class@,
        r.deep_view().faction == r.faction@,
        r.deep_view().head == r.head@,
        r.deep_view().hair == r.hair@,
        r.deep_view().female == r.female,
{
}

/// The view of a [`WornItem`] holds all its fields.
pub proof fn law_worn_item_is_seen_whole(r: WornItem)
    ensures
        r.deep_view().id == r.id@,
        r.deep_view().deleted == r.deleted,
        r.deep_view().handle == r.handle,
        r.deep_view().tag == r.tag@,
        r.deep_view().script == r.script@,
        r.deep_view().enchanting == r.enchanting@,
        r.deep_view().biped_objects.len() == r.biped_objects@.len(),
        forall|k: int|
            0 <= k < r.biped_objects@.len() ==> #[trigger] r.deep_view().biped_objects[k]
                == r.biped_objects@[k].deep_view(),
{
}

/// The view of a [`LeveledItem`] holds all its fields.
pub proof fn law_leveled_item_is_seen_whole(r: LeveledItem)
    ensures
        r.deep_view().id == r.id@,
        r.deep_view().deleted == r.deleted,
        r.deep_view().handle == r.handle,
        r.deep_view().tag == r.tag@,
        are_texts(r.deep_view().items, r.items@),
{
}

/// The view of a [`LeveledCreature`] holds all its fields.
pub proof fn law_leveled_creature_is_seen_whole(r: LeveledCreature)
    ensures
        r.deep_view().id == r.id@,
        r.deep_view().deleted == r.deleted,
        r.deep_view().handle == r.handle,
        r.deep_view().tag == r.tag@,
        are_texts(r.deep_view().creatures, r.creatures@),
{
}

/// The view of a [`Cell`] holds all its fields.
pub proof fn law_cell_is_seen_whole(r: Cell)
    ensures
        r.deep_view().id == r.id@,
        r.deep_view().deleted == r.deleted,
        r.deep_view().handle == r.handle,
        r.deep_view().tag == r.tag@,
        r.deep_view().name == r.name@,
        is_text(r.deep_view().region, r.region),
        r.deep_view().references.len() == r.references@.len(),
        forall|k: int|
            0 <= k < r.references@.len() ==> #[trigger] r.deep_view().references[k]
                == r.references@[k].deep_view(),
{
}

/// The view of a [`Dialogue`] holds all its fields.
pub proof fn law_dialogue_is_seen_whole(r: Dialogue)
    ensures
        r.deep_view().id == r.id@,
        r.deep_view().deleted == r.deleted,
        r.deep_view().handle == r.handle,
        r.deep_view().tag == r.tag@,
        r.deep_view().dialogue_type == r.dialogue_type,
{
}

/// The view of a [`DialogueInfo`] holds all its fields.
pub proof fn law_dialogue_info_is_seen_whole(r: DialogueInfo)
    ensures
        r.deep_view().id == r.id@,
        r.deep_view().deleted == r.deleted,
        r.deep_view().handle == r.handle,
        r.deep_view().tag == r.tag@,
        r.deep_view().prev_id == r.prev_id@,
        r.deep_view().next_id == r.next_id@,
        r.deep_view().speaker_id == r.speaker_id@,
        r.deep_view().speaker_race == r.speaker_race@,
        r.deep_view().speaker_class == r.speaker_class@,
        r.deep_view().speaker_faction == r.speaker_faction@,
        r.deep_view().player_faction == r.player_faction@,
        r.deep_view().speaker_cell == r.speaker_cell@,
        r.deep_view().sound_path == r.sound_path@,
        r.deep_view().text == r.text@,
        r.deep_view().filters.len() == r.filters@.len(),
        forall|k: int|
            0 <= k < r.filters@.len() ==> #[trigger] r.deep_view().filters[k]
                == r.filters@[k].deep_view(),
{
}

/// A record is seen as what it is: its kind, its id, its deleted mark and its tag are those of the
/// record.
pub proof fn law_records_are_seen_by_kind(object: TES3Object)
    ensures
        match object {
            TES3Object::Header(r) => {
                &&& object.deep_view() == ObjectView::Header(r.deep_view())
                &&& object.deep_view().id() == r.id@
                &&& object.deep_view().deleted() == r.deleted
                &&& object.deep_view().tag() == r.tag@
            },
            TES3Object::GameSetting(r) => {
                &&& object.deep_view() == ObjectView::GameSetting(r.deep_view())
                &&& object.deep_view().id() == r.id@
                &&& object.deep_view().deleted() == r.deleted
                &&& object.deep_view().tag() == r.tag@
            },
            TES3Object::GlobalVariable(r) => {
                &&& object.deep_view() == ObjectView::GlobalVariable(r.deep_view())
                &&& object.deep_view().id() == r.id@
                &&& object.deep_view().deleted() == r.deleted
                &&& object.deep_view().tag() == r.tag@
            },
            TES3Object::Class(r) => {
                &&& object.deep_view() == ObjectView::Class(r.deep_view())
                &&& object.deep_view().id() == r.id@
                &&& object.deep_view().deleted() == r.deleted
                &&& object.deep_view().tag() == r.tag@
            },
            TES3Object::Faction(r) => {
                &&& object.deep_view() == ObjectView::Faction(r.deep_view())
                &&& object.deep_view().id() == r.id@
                &&& object.deep_view().deleted() == r.deleted
                &&& object.deep_view().tag() == r.tag@
            },
            TES3Object::Race(r) => {
                &&& object.deep_view() == ObjectView::Race(r.deep_view())
                &&& object.deep_view().id() == r.id@
                &&& object.deep_view().deleted() == r.deleted
                &&& object.deep_view().tag() == r.tag@
            },
            TES3Object::Sound(r) => {
                &&& object.deep_view() == ObjectView::Sound(r.deep_view())
                &&& object.deep_view().id() == r.id@
                &&& object.deep_view().deleted() == r.deleted
                &&& object.deep_view().tag() == r.tag@
            },
            TES3Object::SoundGen(r) => {
                &&& object.deep_view() == ObjectView::SoundGen(r.deep_view())
                &&& object.deep_view().id() == r.id@
                &&& object.deep_view().deleted() == r.deleted
                &&& object.deep_view().tag() == r.tag@
            },
            TES3Object::Skill(r) => {
                &&& object.deep_view() == ObjectView::Skill(r.deep_view())
                &&& object.deep_view().id() == r.id@
                &&& object.deep_view().deleted() == r.deleted
                &&& object.deep_view().tag() == r.tag@
            },
            TES3Object::MagicEffect(r) => {
                &&& object.deep_view() == ObjectView::MagicEffect(r.deep_view())
                &&& object.deep_view().id() == r.id@
                &&& object.deep_view().deleted() == r.deleted
                &&& object.deep_view().tag() == r.tag@
            },
            TES3Object::Script(r) => {
                &&& object.deep_view() == ObjectView::Script(r.deep_view())
                &&& object.deep_view().id() == r.id@
                &&& object.deep_view().deleted() == r.deleted
                &&& object.deep_view().tag() == r.tag@
            },
            TES3Object::Region(r) => {
                &&& object.deep_view() == ObjectView::Region(r.deep_view())
                &&& object.deep_view().id() == r.id@
                &&& object.deep_view().deleted() == r.deleted
                &&& object.deep_view().tag() == r.tag@
            },
            TES3Object::Birthsign(r) => {
                &&& object.deep_view() == ObjectView::Birthsign(r.deep_view())
                &&& object.deep_view().id() == r.id@
                &&& object.deep_view().deleted() == r.deleted
                &&& object.deep_view().tag() == r.tag@
            },
            TES3Object::StartScript(r) => {
                &&& object.deep_view() == ObjectView::StartScript(r.deep_view())
                &&& object.deep_view().id() == r.id@
                &&& object.deep_view().deleted() == r.deleted
                &&& object.deep_view().tag() == r.tag@
            },
            TES3Object::LandscapeTexture(r) => {
                &&& object.deep_view() == ObjectView::LandscapeTexture(r.deep_view())
                &&& object.deep_view().id() == r.id@
                &&& object.deep_view().deleted() == r.deleted
                &&& object.deep_view().tag() == r.tag@
            },
            TES3Object::Spell(r) => {
                &&& object.deep_view() == ObjectView::Spell(r.deep_view())
                &&& object.deep_view().id() == r.id@
                &&& object.deep_view().deleted() == r.deleted
                &&& object.deep_view().tag() == r.tag@
            },
            TES3Object::Static(r) => {
                &&& object.deep_view() == ObjectView::Static(r.deep_view())
                &&& object.deep_view().id() == r.id@
                &&& object.deep_view().deleted() == r.deleted
                &&& object.deep_view().tag() == r.tag@
            },
            TES3Object::Door(r) => {
                &&& object.deep_view() == ObjectView::Door(r.deep_view())
                &&& object.deep_view().id() == r.id@
                &&& object.deep_view().deleted() == r.deleted
                &&& object.deep_view().tag() == r.tag@
            },
            TES3Object::MiscItem(r) => {
                &&& object.deep_view() == ObjectView::MiscItem(r.deep_view())
                &&& object.deep_view().id() == r.id@
                &&& object.deep_view().deleted() == r.deleted
                &&& object.deep_view().tag() == r.tag@
            },
            TES3Object::Weapon(r) => {
                &&& object.deep_view() == ObjectView::Weapon(r.deep_view())
                &&& object.deep_view().id() == r.id@
                &&& object.deep_view().deleted() == r.deleted
                &&& object.deep_view().tag() == r.tag@
            },
            TES3Object::Container(r) => {
                &&& object.deep_view() == ObjectView::Container(r.deep_view())
                &&& object.deep_view().id() == r.id@
                &&& object.deep_view().deleted() == r.deleted
                &&& object.deep_view().tag() == r.tag@
            },
            TES3Object::Creature(r) => {
                &&& object.deep_view() == ObjectView::Creature(r.deep_view())
                &&& object.deep_view().id() == r.id@
                &&& object.deep_view().deleted() == r.deleted
                &&& object.deep_view().tag() == r.tag@
            },
            TES3Object::Bodypart(r) => {
                &&& object.deep_view() == ObjectView::Bodypart(r.deep_view())
                &&& object.deep_view().id() == r.id@
                &&& object.deep_view().deleted() == r.deleted
                &&& object.deep_view().tag() == r.tag@
            },
            TES3Object::Light(r) => {
                &&& object.deep_view() == ObjectView::Light(r.deep_view())
                &&& object.deep_view().id() == r.id@
                &&& object.deep_view().deleted() == r.deleted
                &&& object.deep_view().tag() == r.tag@
            },
            TES3Object::Enchanting(r) => {
                &&& object.deep_view() == ObjectView::Enchanting(r.deep_view())
                &&& object.deep_view().id() == r.id@
                &&& object.deep_view().deleted() == r.deleted
                &&& object.deep_view().tag() == r.tag@
            },
            TES3Object::Npc(r) => {
                &&& object.deep_view() == ObjectView::Npc(r.deep_view())
                &&& object.deep_view().id() == r.id@
                &&& object.deep_view().deleted() == r.deleted
                &&& object.deep_view().tag() == r.tag@
            },
            TES3Object::Armor(r) => {
                &&& object.deep_view() == ObjectView::Armor(r.deep_view())
                &&& object.deep_view().id() == r.id@
                &&& object.deep_view().deleted() == r.deleted
                &&& object.deep_view().tag() == r.tag@
            },
            TES3Object::Clothing(r) => {
                &&& object.deep_view() == ObjectView::Clothing(r.deep_view())
                &&& object.deep_view().id() == r.id@
                &&& object.deep_view().deleted() == r.deleted
                &&& object.deep_view().tag() == r.tag@
            },
            TES3Object::RepairItem(r) => {
                &&& object.deep_view() == ObjectView::RepairItem(r.deep_view())
                &&& object.deep_view().id() == r.id@
                &&& object.deep_view().deleted() == r.deleted
                &&& object.deep_view().tag() == r.tag@
            },
            TES3Object::Activator(r) => {
                &&& object.deep_view() == ObjectView::Activator(r.deep_view())
                &&& object.deep_view().id() == r.id@
                &&& object.deep_view().deleted() == r.deleted
                &&& object.deep_view().tag() == r.tag@
            },
            TES3Object::Apparatus(r) => {
                &&& object.deep_view() == ObjectView::Apparatus(r.deep_view())
                &&& object.deep_view().id() == r.id@
                &&& object.deep_view().deleted() == r.deleted
                &&& object.deep_view().tag() == r.tag@
            },
            TES3Object::Lockpick(r) => {
                &&& object.deep_view() == ObjectView::Lockpick(r.deep_view())
                &&& object.deep_view().id() == r.id@
                &&& object.deep_view().deleted() == r.deleted
                &&& object.deep_view().tag() == r.tag@
            },
            TES3Object::Probe(r) => {
                &&& object.deep_view() == ObjectView::Probe(r.deep_view())
                &&& object.deep_view().id() == r.id@
                &&& object.deep_view().deleted() == r.deleted
                &&& object.deep_view().tag() == r.tag@
            },
            TES3Object::Ingredient(r) => {
                &&& object.deep_view() == ObjectView::Ingredient(r.deep_view())
                &&& object.deep_view().id() == r.id@
                &&& object.deep_view().deleted() == r.deleted
                &&& object.deep_view().tag() == r.tag@
            },
            TES3Object::Book(r) => {
                &&& object.deep_view() == ObjectView::Book(r.deep_view())
                &&& object.deep_view().id() == r.id@
                &&& object.deep_view().deleted() == r.deleted
                &&& object.deep_view().tag() == r.tag@
            },
            TES3Object::Alchemy(r) => {
                &&& object.deep_view() == ObjectView::Alchemy(r.deep_view())
                &&& object.deep_view().id() == r.id@
                &&& object.deep_view().deleted() == r.deleted
                &&& object.deep_view().tag() == r.tag@
            },
            TES3Object::LeveledItem(r) => {
                &&& object.deep_view() == ObjectView::LeveledItem(r.deep_view())
                &&& object.deep_view().id() == r.id@
                &&& object.deep_view().deleted() == r.deleted
                &&& object.deep_view().tag() == r.tag@
            },
            TES3Object::LeveledCreature(r) => {
                &&& object.deep_view() == ObjectView::LeveledCreature(r.deep_view())
                &&& object.deep_view().id() == r.id@
                &&& object.deep_view().deleted() == r.deleted
                &&& object.deep_view().tag() == r.tag@
            },
            TES3Object::Cell(r) => {
                &&& object.deep_view() == ObjectView::Cell(r.deep_view())
                &&& object.deep_view().id() == r.id@
                &&& object.deep_view().deleted() == r.deleted
                &&& object.deep_view().tag() == r.tag@
            },
            TES3Object::Landscape(r) => {
                &&& object.deep_view() == ObjectView::Landscape(r.deep_view())
                &&& object.deep_view().id() == r.id@
                &&& object.deep_view().deleted() == r.deleted
                &&& object.deep_view().tag() == r.tag@
            },
            TES3Object::PathGrid(r) => {
                &&& object.deep_view() == ObjectView::PathGrid(r.deep_view())
                &&& object.deep_view().id() == r.id@
                &&& object.deep_view().deleted() == r.deleted
                &&& object.deep_view().tag() == r.tag@
            },
            TES3Object::Dialogue(r) => {
                &&& object.deep_view() == ObjectView::Dialogue(r.deep_view())
                &&& object.deep_view().id() == r.id@
                &&& object.deep_view().deleted() == r.deleted
                &&& object.deep_view().tag() == r.tag@
            },
            TES3Object::DialogueInfo(r) => {
                &&& object.deep_view() == ObjectView::DialogueInfo(r.deep_view())
                &&& object.deep_view().id() == r.id@
                &&& object.deep_view().deleted() == r.deleted
                &&& object.deep_view().tag() == r.tag@
            },
        },
{
}

/// A plugin is seen record by record, in order.
pub proof fn law_plugins_are_seen_record_by_record(plugin: Plugin)
    ensures
        plugin@.len() == plugin.objects@.len(),
        forall|k: int|
            0 <= k < plugin.objects@.len() ==> #[trigger] plugin@[k]
                == plugin.objects@[k].deep_view(),
{
}

/// An AI package is seen as what it is, with its target and its cell.
pub proof fn law_packages_are_seen_by_kind(package: AiPackage)
    ensures
        match package {
            AiPackage::Travel => package.deep_view() is Travel,
            AiPackage::Wander => package.deep_view() is Wander,
            AiPackage::Escort(p) => package.deep_view() == AiPackageView::Escort(p.deep_view()),
            AiPackage::Follow(p) => package.deep_view() == AiPackageView::Follow(p.deep_view()),
            AiPackage::Activate(p) => package.deep_view() == AiPackageView::Activate(
                p.deep_view(),
            ),
        },
{
}

/// A report of a copy is seen with all that it says.
pub proof fn law_report_is_seen_whole(r: ImportedRecord)
    ensures
        r.deep_view().tag == r.tag@,
        r.deep_view().id == r.id@,
        r.deep_view().master == r.master,
        r.deep_view().foundation == r.foundation,
        r.deep_view().cause.pass == r.cause.pass@,
        r.deep_view().cause.source_type == r.cause.source_type@,
        r.deep_view().cause.source_id == r.cause.source_id@,
        r.deep_view().cause.field == r.cause.field@,
        r.deep_view().notices.len() == r.notices@.len(),
        forall|k: int|
            0 <= k < r.notices@.len() ==> #[trigger] r.deep_view().notices[k]
                == r.notices@[k].deep_view(),
{
}

/// A notice is seen as what it is, with all that it says.
pub proof fn law_notice_is_seen_whole(notice: Notice)
    ensures
        match notice {
            Notice::ActivationTarget { target } => notice.deep_view() == (
            NoticeView::ActivationTarget { target: target@ }),
            Notice::CellReference { id, cell } => notice.deep_view() == (
            NoticeView::CellReference { id: id@, cell: cell@ }),
            Notice::Owner { id } => notice.deep_view() == (NoticeView::Owner { id: id@ }),
            Notice::Line { id, speaker } => notice.deep_view() == (NoticeView::Line {
                id: id@,
                speaker: speaker@,
            }),
        },
{
}

/// A reported actor is seen with all that is reported of it.
pub proof fn law_reported_actor_is_seen_whole(r: ReportedActor)
    ensures
        r.deep_view().tag == r.tag@,
        r.deep_view().id == r.id@,
        r.deep_view().race == r.race@,
        r.deep_view().class == r.class@,
        r.deep_view().sex == r.sex@,
{
}

/// A topic is seen with its head, its kind and all its lines.
pub proof fn law_topic_is_seen_whole(r: DialogueGroup)
    ensures
        r.deep_view().dialogue == r.dialogue.deep_view(),
        r.deep_view().dialogue_type == r.dialogue_type,
        r.deep_view().infos.len() == r.infos@.len(),
        forall|k: int|
            0 <= k < r.infos@.len() ==> #[trigger] r.deep_view().infos[k]
                == r.infos@[k].deep_view(),
{
}

/// Maps of topics, of lists of lines and of reasons are seen entry by entry.
pub proof fn law_maps_are_seen_entry_by_entry(
    topics: Map<Seq<char>, DialogueGroup>,
    lines: Map<Seq<char>, StringHashSet>,
    reasons: Map<Seq<char>, ReasonSet>,
    key: Seq<char>,
)
    ensures
        groups_of(topics).contains_key(key) <==> topics.contains_key(key),
        topics.contains_key(key) ==> groups_of(topics)[key] == topics[key].deep_view(),
        ids_of(lines).contains_key(key) <==> lines.contains_key(key),
        lines.contains_key(key) ==> ids_of(lines)[key] == lines[key]@,
        reasons_of(reasons).contains_key(key) <==> reasons.contains_key(key),
        reasons.contains_key(key) ==> reasons_of(reasons)[key] == reasons[key]@,
{
}

/// An account is seen with all its numbers and all its topics.
pub proof fn law_account_is_seen_whole(r: DialogueAudit, key: Seq<char>)
    ensures
        r@.effective == r.effective_infos,
        r@.owned == r.starwind_owned_infos,
        r@.retained == r.retained_vanilla_infos,
        r@.pruned == r.pruned_vanilla_infos,
        r@.kept.contains_key(key) <==> r.keep_reasons@.contains_key(key),
        r.keep_reasons@.contains_key(key) ==> r@.kept[key] == r.keep_reasons@[key],
        r@.topics.contains_key(key) <==> r.materialized_vanilla_topics@.contains_key(key),
        r.materialized_vanilla_topics@.contains_key(key) ==> {
            let seen = r@.topics[key];
            let held = r.materialized_vanilla_topics@[key];
            &&& seen.live_infos == held.live_infos
            &&& seen.reasons.len() == held.reasons@.len()
            &&& forall|k: int|
                0 <= k < held.reasons@.len() ==> #[trigger] seen.reasons[k] == held.reasons@[k]@
        },
{
}

} // verus!
