//! Copies of records.

use vstd::prelude::*;

use crate::record_views::text_of;
use crate::records::{
    AiActivatePackage, AiEscortPackage, AiFollowPackage, AiPackage, BipedObject, Bodypart, Cell,
    Container, Creature, Dialogue, DialogueInfo, Door, EnchantedItem, Faction, Filter, Header,
    LeveledCreature, LeveledItem, Light, MagicEffect, Npc, PlainRecord, Reference, Region, Script,
    ScriptedItem, SoundGen, SpellHolder, TES3Object, WornItem,
};

verus! {

/// A copy of a list of strings.
fn copy_texts(texts: &Vec<String>) -> (res: Vec<String>)
    ensures
        res.deep_view() == texts.deep_view(),
{
    let res = texts.clone();
    assert(res.deep_view() =~= texts.deep_view());
    res
}

/// A copy of an optional string.
fn copy_text(text: &Option<String>) -> (res: Option<String>)
    ensures
        text_of(res) == text_of(*text),
{
    match text {
        Some(text) => Some(text.clone()),
        None => None,
    }
}

impl Clone for AiPackage {
    fn clone(&self) -> (res: Self)
        ensures
            res.deep_view() == self.deep_view(),
    {
        match self {
            AiPackage::Travel => AiPackage::Travel,
            AiPackage::Wander => AiPackage::Wander,
            AiPackage::Escort(p) => AiPackage::Escort(p.clone()),
            AiPackage::Follow(p) => AiPackage::Follow(p.clone()),
            AiPackage::Activate(p) => AiPackage::Activate(p.clone()),
        }
    }
}

impl Clone for Filter {
    fn clone(&self) -> (res: Self)
        ensures
            res.deep_view() == self.deep_view(),
    {
        Filter {
            id: self.id.clone(),
        }
    }
}

impl Clone for BipedObject {
    fn clone(&self) -> (res: Self)
        ensures
            res.deep_view() == self.deep_view(),
    {
        BipedObject {
            male_bodypart: self.male_bodypart.clone(),
            female_bodypart: self.female_bodypart.clone(),
        }
    }
}

impl Clone for AiEscortPackage {
    fn clone(&self) -> (res: Self)
        ensures
            res.deep_view() == self.deep_view(),
    {
        AiEscortPackage {
            target: self.target.clone(),
            cell: self.cell.clone(),
        }
    }
}

impl Clone for AiFollowPackage {
    fn clone(&self) -> (res: Self)
        ensures
            res.deep_view() == self.deep_view(),
    {
        AiFollowPackage {
            target: self.target.clone(),
            cell: self.cell.clone(),
        }
    }
}

impl Clone for AiActivatePackage {
    fn clone(&self) -> (res: Self)
        ensures
            res.deep_view() == self.deep_view(),
    {
        AiActivatePackage {
            target: self.target.clone(),
        }
    }
}

impl Clone for Reference {
    fn clone(&self) -> (res: Self)
        ensures
            res.deep_view() == self.deep_view(),
    {
        Reference {
            id: self.id.clone(),
            owner: copy_text(&self.owner),
            owner_global: copy_text(&self.owner_global),
            owner_faction: copy_text(&self.owner_faction),
            key: copy_text(&self.key),
            trap: copy_text(&self.trap),
            soul: copy_text(&self.soul),
        }
    }
}

impl Clone for PlainRecord {
    fn clone(&self) -> (res: Self)
        ensures
            res.deep_view() == self.deep_view(),
    {
        PlainRecord {
            id: self.id.clone(),
            deleted: self.deleted,
            handle: self.handle,
            tag: self.tag.clone(),
        }
    }
}

impl Clone for Header {
    fn clone(&self) -> (res: Self)
        ensures
            res.deep_view() == self.deep_view(),
    {
        Header {
            id: self.id.clone(),
            deleted: self.deleted,
            handle: self.handle,
            tag: self.tag.clone(),
            masters: copy_texts(&self.masters),
        }
    }
}

impl Clone for SpellHolder {
    fn clone(&self) -> (res: Self)
        ensures
            res.deep_view() == self.deep_view(),
    {
        SpellHolder {
            id: self.id.clone(),
            deleted: self.deleted,
            handle: self.handle,
            tag: self.tag.clone(),
            spells: copy_texts(&self.spells),
        }
    }
}

impl Clone for Faction {
    fn clone(&self) -> (res: Self)
        ensures
            res.deep_view() == self.deep_view(),
    {
        Faction {
            id: self.id.clone(),
            deleted: self.deleted,
            handle: self.handle,
            tag: self.tag.clone(),
            reactions: copy_texts(&self.reactions),
        }
    }
}

impl Clone for SoundGen {
    fn clone(&self) -> (res: Self)
        ensures
            res.deep_view() == self.deep_view(),
    {
        SoundGen {
            id: self.id.clone(),
            deleted: self.deleted,
            handle: self.handle,
            tag: self.tag.clone(),
            creature: self.creature.clone(),
            sound: self.sound.clone(),
        }
    }
}

impl Clone for MagicEffect {
    fn clone(&self) -> (res: Self)
        ensures
            res.deep_view() == self.deep_view(),
    {
        MagicEffect {
            id: self.id.clone(),
            deleted: self.deleted,
            handle: self.handle,
            tag: self.tag.clone(),
            effect_id: self.effect_id,
            bolt_sound: self.bolt_sound.clone(),
            cast_sound: self.cast_sound.clone(),
            hit_sound: self.hit_sound.clone(),
            area_sound: self.area_sound.clone(),
            cast_visual: self.cast_visual.clone(),
            bolt_visual: self.bolt_visual.clone(),
            hit_visual: self.hit_visual.clone(),
            area_visual: self.area_visual.clone(),
            rest: self.rest,
        }
    }
}

impl Clone for Script {
    fn clone(&self) -> (res: Self)
        ensures
            res.deep_view() == self.deep_view(),
    {
        Script {
            id: self.id.clone(),
            deleted: self.deleted,
            handle: self.handle,
            tag: self.tag.clone(),
            text: self.text.clone(),
        }
    }
}

impl Clone for Region {
    fn clone(&self) -> (res: Self)
        ensures
            res.deep_view() == self.deep_view(),
    {
        Region {
            id: self.id.clone(),
            deleted: self.deleted,
            handle: self.handle,
            tag: self.tag.clone(),
            sleep_creature: self.sleep_creature.clone(),
            sounds: copy_texts(&self.sounds),
        }
    }
}

impl Clone for Door {
    fn clone(&self) -> (res: Self)
        ensures
            res.deep_view() == self.deep_view(),
    {
        Door {
            id: self.id.clone(),
            deleted: self.deleted,
            handle: self.handle,
            tag: self.tag.clone(),
            script: self.script.clone(),
            open_sound: self.open_sound.clone(),
            close_sound: self.close_sound.clone(),
        }
    }
}

impl Clone for ScriptedItem {
    fn clone(&self) -> (res: Self)
        ensures
            res.deep_view() == self.deep_view(),
    {
        ScriptedItem {
            id: self.id.clone(),
            deleted: self.deleted,
            handle: self.handle,
            tag: self.tag.clone(),
            script: self.script.clone(),
        }
    }
}

impl Clone for EnchantedItem {
    fn clone(&self) -> (res: Self)
        ensures
            res.deep_view() == self.deep_view(),
    {
        EnchantedItem {
            id: self.id.clone(),
            deleted: self.deleted,
            handle: self.handle,
            tag: self.tag.clone(),
            script: self.script.clone(),
            enchanting: self.enchanting.clone(),
        }
    }
}

impl Clone for Container {
    fn clone(&self) -> (res: Self)
        ensures
            res.deep_view() == self.deep_view(),
    {
        Container {
            id: self.id.clone(),
            deleted: self.deleted,
            handle: self.handle,
            tag: self.tag.clone(),
            script: self.script.clone(),
            inventory: copy_texts(&self.inventory),
        }
    }
}

impl Clone for Creature {
    fn clone(&self) -> (res: Self)
        ensures
            res.deep_view() == self.deep_view(),
    {
        Creature {
            id: self.id.clone(),
            deleted: self.deleted,
            handle: self.handle,
            tag: self.tag.clone(),
            script: self.script.clone(),
            inventory: copy_texts(&self.inventory),
            spells: copy_texts(&self.spells),
            ai_packages: self.ai_packages.clone(),
            sound: self.sound.clone(),
        }
    }
}

impl Clone for Bodypart {
    fn clone(&self) -> (res: Self)
        ensures
            res.deep_view() == self.deep_view(),
    {
        Bodypart {
            id: self.id.clone(),
            deleted: self.deleted,
            handle: self.handle,
            tag: self.tag.clone(),
            race: self.race.clone(),
        }
    }
}

impl Clone for Light {
    fn clone(&self) -> (res: Self)
        ensures
            res.deep_view() == self.deep_view(),
    {
        Light {
            id: self.id.clone(),
            deleted: self.deleted,
            handle: self.handle,
            tag: self.tag.clone(),
            script: self.script.clone(),
            sound: self.sound.clone(),
        }
    }
}

impl Clone for Npc {
    fn clone(&self) -> (res: Self)
        ensures
            res.deep_view() == self.deep_view(),
    {
        Npc {
            id: self.id.clone(),
            deleted: self.deleted,
            handle: self.handle,
            tag: self.tag.clone(),
            script: self.script.clone(),
            inventory: copy_texts(&self.inventory),
            spells: copy_texts(&self.spells),
            ai_packages: self.ai_packages.clone(),
            race: self.race.clone(),
            class: self.class.clone(),
            faction: self.faction.clone(),
            head: self.head.clone(),
            hair: self.hair.clone(),
            female: self.female,
        }
    }
}

impl Clone for WornItem {
    fn clone(&self) -> (res: Self)
        ensures
            res.deep_view() == self.deep_view(),
    {
        WornItem {
            id: self.id.clone(),
            deleted: self.deleted,
            handle: self.handle,
            tag: self.tag.clone(),
            script: self.script.clone(),
            enchanting: self.enchanting.clone(),
            biped_objects: self.biped_objects.clone(),
        }
    }
}

impl Clone for LeveledItem {
    fn clone(&self) -> (res: Self)
        ensures
            res.deep_view() == self.deep_view(),
    {
        LeveledItem {
            id: self.id.clone(),
            deleted: self.deleted,
            handle: self.handle,
            tag: self.tag.clone(),
            items: copy_texts(&self.items),
        }
    }
}

impl Clone for LeveledCreature {
    fn clone(&self) -> (res: Self)
        ensures
            res.deep_view() == self.deep_view(),
    {
        LeveledCreature {
            id: self.id.clone(),
            deleted: self.deleted,
            handle: self.handle,
            tag: self.tag.clone(),
            creatures: copy_texts(&self.creatures),
        }
    }
}

impl Clone for Cell {
    fn clone(&self) -> (res: Self)
        ensures
            res.deep_view() == self.deep_view(),
    {
        Cell {
            id: self.id.clone(),
            deleted: self.deleted,
            handle: self.handle,
            tag: self.tag.clone(),
            name: self.name.clone(),
            region: copy_text(&self.region),
            references: self.references.clone(),
        }
    }
}

impl Clone for Dialogue {
    fn clone(&self) -> (res: Self)
        ensures
            res.deep_view() == self.deep_view(),
    {
        Dialogue {
            id: self.id.clone(),
            deleted: self.deleted,
            handle: self.handle,
            tag: self.tag.clone(),
            dialogue_type: self.dialogue_type,
        }
    }
}

impl Clone for DialogueInfo {
    fn clone(&self) -> (res: Self)
        ensures
            res.deep_view() == self.deep_view(),
    {
        DialogueInfo {
            id: self.id.clone(),
            deleted: self.deleted,
            handle: self.handle,
            tag: self.tag.clone(),
            prev_id: self.prev_id.clone(),
            next_id: self.next_id.clone(),
            speaker_id: self.speaker_id.clone(),
            speaker_race: self.speaker_race.clone(),
            speaker_class: self.speaker_class.clone(),
            speaker_faction: self.speaker_faction.clone(),
            player_faction: self.player_faction.clone(),
            speaker_cell: self.speaker_cell.clone(),
            sound_path: self.sound_path.clone(),
            text: self.text.clone(),
            filters: self.filters.clone(),
        }
    }
}

impl Clone for TES3Object {
    fn clone(&self) -> (res: Self)
        ensures
            res.deep_view() == self.deep_view(),
    {
        match self {
            TES3Object::Header(r) => TES3Object::Header(r.clone()),
            TES3Object::GameSetting(r) => TES3Object::GameSetting(r.clone()),
            TES3Object::GlobalVariable(r) => TES3Object::GlobalVariable(r.clone()),
            TES3Object::Class(r) => TES3Object::Class(r.clone()),
            TES3Object::Faction(r) => TES3Object::Faction(r.clone()),
            TES3Object::Race(r) => TES3Object::Race(r.clone()),
            TES3Object::Sound(r) => TES3Object::Sound(r.clone()),
            TES3Object::SoundGen(r) => TES3Object::SoundGen(r.clone()),
            TES3Object::Skill(r) => TES3Object::Skill(r.clone()),
            TES3Object::MagicEffect(r) => TES3Object::MagicEffect(r.clone()),
            TES3Object::Script(r) => TES3Object::Script(r.clone()),
            TES3Object::Region(r) => TES3Object::Region(r.clone()),
            TES3Object::Birthsign(r) => TES3Object::Birthsign(r.clone()),
            TES3Object::StartScript(r) => TES3Object::StartScript(r.clone()),
            TES3Object::LandscapeTexture(r) => TES3Object::LandscapeTexture(r.clone()),
            TES3Object::Spell(r) => TES3Object::Spell(r.clone()),
            TES3Object::Static(r) => TES3Object::Static(r.clone()),
            TES3Object::Door(r) => TES3Object::Door(r.clone()),
            TES3Object::MiscItem(r) => TES3Object::MiscItem(r.clone()),
            TES3Object::Weapon(r) => TES3Object::Weapon(r.clone()),
            TES3Object::Container(r) => TES3Object::Container(r.clone()),
            TES3Object::Creature(r) => TES3Object::Creature(r.clone()),
            TES3Object::Bodypart(r) => TES3Object::Bodypart(r.clone()),
            TES3Object::Light(r) => TES3Object::Light(r.clone()),
            TES3Object::Enchanting(r) => TES3Object::Enchanting(r.clone()),
            TES3Object::Npc(r) => TES3Object::Npc(r.clone()),
            TES3Object::Armor(r) => TES3Object::Armor(r.clone()),
            TES3Object::Clothing(r) => TES3Object::Clothing(r.clone()),
            TES3Object::RepairItem(r) => TES3Object::RepairItem(r.clone()),
            TES3Object::Activator(r) => TES3Object::Activator(r.clone()),
            TES3Object::Apparatus(r) => TES3Object::Apparatus(r.clone()),
            TES3Object::Lockpick(r) => TES3Object::Lockpick(r.clone()),
            TES3Object::Probe(r) => TES3Object::Probe(r.clone()),
            TES3Object::Ingredient(r) => TES3Object::Ingredient(r.clone()),
            TES3Object::Book(r) => TES3Object::Book(r.clone()),
            TES3Object::Alchemy(r) => TES3Object::Alchemy(r.clone()),
            TES3Object::LeveledItem(r) => TES3Object::LeveledItem(r.clone()),
            TES3Object::LeveledCreature(r) => TES3Object::LeveledCreature(r.clone()),
            TES3Object::Cell(r) => TES3Object::Cell(r.clone()),
            TES3Object::Landscape(r) => TES3Object::Landscape(r.clone()),
            TES3Object::PathGrid(r) => TES3Object::PathGrid(r.clone()),
            TES3Object::Dialogue(r) => TES3Object::Dialogue(r.clone()),
            TES3Object::DialogueInfo(r) => TES3Object::DialogueInfo(r.clone()),
        }
    }
}

} // verus!
