//! What the records hold, as mathematical values.

use vstd::prelude::*;

use crate::records::{
    AiActivatePackage, AiEscortPackage, AiFollowPackage, AiPackage, BipedObject, Bodypart, Cell,
    Container, Creature, Dialogue, DialogueInfo, DialogueType2, Door, EffectId, EnchantedItem,
    Faction, Filter, Header, LeveledCreature, LeveledItem, Light, MagicEffect, Npc, PlainRecord,
    Plugin, Reference, Region, Script, ScriptedItem, SoundGen, SpellHolder, TES3Object, WornItem,
};

verus! {

/// The text of an optional string.
pub open spec fn text_of(s: Option<String>) -> Option<Seq<char>> {
    match s {
        Some(s) => Some(s@),
        None => None,
    }
}

/// What an [`AiPackage`] holds.
pub enum AiPackageView {
    Travel,
    Wander,
    Escort(AiEscortPackageView),
    Follow(AiFollowPackageView),
    Activate(AiActivatePackageView),
}

impl DeepView for AiPackage {
    type V = AiPackageView;

    open spec fn deep_view(&self) -> AiPackageView {
        match self {
            AiPackage::Travel => AiPackageView::Travel,
            AiPackage::Wander => AiPackageView::Wander,
            AiPackage::Escort(p) => AiPackageView::Escort(p.deep_view()),
            AiPackage::Follow(p) => AiPackageView::Follow(p.deep_view()),
            AiPackage::Activate(p) => AiPackageView::Activate(p.deep_view()),
        }
    }
}

/// What a [`Filter`] holds.
pub struct FilterView {
    pub id: Seq<char>,
}

impl DeepView for Filter {
    type V = FilterView;

    open spec fn deep_view(&self) -> FilterView {
        FilterView {
            id: self.id@,
        }
    }
}

/// What a [`BipedObject`] holds.
pub struct BipedObjectView {
    pub male_bodypart: Seq<char>,
    pub female_bodypart: Seq<char>,
}

impl DeepView for BipedObject {
    type V = BipedObjectView;

    open spec fn deep_view(&self) -> BipedObjectView {
        BipedObjectView {
            male_bodypart: self.male_bodypart@,
            female_bodypart: self.female_bodypart@,
        }
    }
}

/// What a [`AiEscortPackage`] holds.
pub struct AiEscortPackageView {
    pub target: Seq<char>,
    pub cell: Seq<char>,
}

impl DeepView for AiEscortPackage {
    type V = AiEscortPackageView;

    open spec fn deep_view(&self) -> AiEscortPackageView {
        AiEscortPackageView {
            target: self.target@,
            cell: self.cell@,
        }
    }
}

/// What a [`AiFollowPackage`] holds.
pub struct AiFollowPackageView {
    pub target: Seq<char>,
    pub cell: Seq<char>,
}

impl DeepView for AiFollowPackage {
    type V = AiFollowPackageView;

    open spec fn deep_view(&self) -> AiFollowPackageView {
        AiFollowPackageView {
            target: self.target@,
            cell: self.cell@,
        }
    }
}

/// What a [`AiActivatePackage`] holds.
pub struct AiActivatePackageView {
    pub target: Seq<char>,
}

impl DeepView for AiActivatePackage {
    type V = AiActivatePackageView;

    open spec fn deep_view(&self) -> AiActivatePackageView {
        AiActivatePackageView {
            target: self.target@,
        }
    }
}

/// What a [`Reference`] holds.
pub struct ReferenceView {
    pub id: Seq<char>,
    pub owner: Option<Seq<char>>,
    pub owner_global: Option<Seq<char>>,
    pub owner_faction: Option<Seq<char>>,
    pub key: Option<Seq<char>>,
    pub trap: Option<Seq<char>>,
    pub soul: Option<Seq<char>>,
}

impl DeepView for Reference {
    type V = ReferenceView;

    open spec fn deep_view(&self) -> ReferenceView {
        ReferenceView {
            id: self.id@,
            owner: text_of(self.owner),
            owner_global: text_of(self.owner_global),
            owner_faction: text_of(self.owner_faction),
            key: text_of(self.key),
            trap: text_of(self.trap),
            soul: text_of(self.soul),
        }
    }
}

/// What a [`PlainRecord`] holds.
pub struct PlainRecordView {
    pub id: Seq<char>,
    pub deleted: bool,
    pub handle: usize,
    pub tag: Seq<char>,
}

impl DeepView for PlainRecord {
    type V = PlainRecordView;

    open spec fn deep_view(&self) -> PlainRecordView {
        PlainRecordView {
            id: self.id@,
            deleted: self.deleted,
            handle: self.handle,
            tag: self.tag@,
        }
    }
}

/// What a [`Header`] holds.
pub struct HeaderView {
    pub id: Seq<char>,
    pub deleted: bool,
    pub handle: usize,
    pub tag: Seq<char>,
    pub masters: Seq<Seq<char>>,
}

impl DeepView for Header {
    type V = HeaderView;

    open spec fn deep_view(&self) -> HeaderView {
        HeaderView {
            id: self.id@,
            deleted: self.deleted,
            handle: self.handle,
            tag: self.tag@,
            masters: self.masters.deep_view(),
        }
    }
}

/// What a [`SpellHolder`] holds.
pub struct SpellHolderView {
    pub id: Seq<char>,
    pub deleted: bool,
    pub handle: usize,
    pub tag: Seq<char>,
    pub spells: Seq<Seq<char>>,
}

impl DeepView for SpellHolder {
    type V = SpellHolderView;

    open spec fn deep_view(&self) -> SpellHolderView {
        SpellHolderView {
            id: self.id@,
            deleted: self.deleted,
            handle: self.handle,
            tag: self.tag@,
            spells: self.spells.deep_view(),
        }
    }
}

/// What a [`Faction`] holds.
pub struct FactionView {
    pub id: Seq<char>,
    pub deleted: bool,
    pub handle: usize,
    pub tag: Seq<char>,
    pub reactions: Seq<Seq<char>>,
}

impl DeepView for Faction {
    type V = FactionView;

    open spec fn deep_view(&self) -> FactionView {
        FactionView {
            id: self.id@,
            deleted: self.deleted,
            handle: self.handle,
            tag: self.tag@,
            reactions: self.reactions.deep_view(),
        }
    }
}

/// What a [`SoundGen`] holds.
pub struct SoundGenView {
    pub id: Seq<char>,
    pub deleted: bool,
    pub handle: usize,
    pub tag: Seq<char>,
    pub creature: Seq<char>,
    pub sound: Seq<char>,
}

impl DeepView for SoundGen {
    type V = SoundGenView;

    open spec fn deep_view(&self) -> SoundGenView {
        SoundGenView {
            id: self.id@,
            deleted: self.deleted,
            handle: self.handle,
            tag: self.tag@,
            creature: self.creature@,
            sound: self.sound@,
        }
    }
}

/// What a [`MagicEffect`] holds.
pub struct MagicEffectView {
    pub id: Seq<char>,
    pub deleted: bool,
    pub handle: usize,
    pub tag: Seq<char>,
    pub effect_id: EffectId,
    pub bolt_sound: Seq<char>,
    pub cast_sound: Seq<char>,
    pub hit_sound: Seq<char>,
    pub area_sound: Seq<char>,
    pub cast_visual: Seq<char>,
    pub bolt_visual: Seq<char>,
    pub hit_visual: Seq<char>,
    pub area_visual: Seq<char>,
    pub rest: u64,
}

impl DeepView for MagicEffect {
    type V = MagicEffectView;

    open spec fn deep_view(&self) -> MagicEffectView {
        MagicEffectView {
            id: self.id@,
            deleted: self.deleted,
            handle: self.handle,
            tag: self.tag@,
            effect_id: self.effect_id,
            bolt_sound: self.bolt_sound@,
            cast_sound: self.cast_sound@,
            hit_sound: self.hit_sound@,
            area_sound: self.area_sound@,
            cast_visual: self.cast_visual@,
            bolt_visual: self.bolt_visual@,
            hit_visual: self.hit_visual@,
            area_visual: self.area_visual@,
            rest: self.rest,
        }
    }
}

/// What a [`Script`] holds.
pub struct ScriptView {
    pub id: Seq<char>,
    pub deleted: bool,
    pub handle: usize,
    pub tag: Seq<char>,
    pub text: Seq<char>,
}

impl DeepView for Script {
    type V = ScriptView;

    open spec fn deep_view(&self) -> ScriptView {
        ScriptView {
            id: self.id@,
            deleted: self.deleted,
            handle: self.handle,
            tag: self.tag@,
            text: self.text@,
        }
    }
}

/// What a [`Region`] holds.
pub struct RegionView {
    pub id: Seq<char>,
    pub deleted: bool,
    pub handle: usize,
    pub tag: Seq<char>,
    pub sleep_creature: Seq<char>,
    pub sounds: Seq<Seq<char>>,
}

impl DeepView for Region {
    type V = RegionView;

    open spec fn deep_view(&self) -> RegionView {
        RegionView {
            id: self.id@,
            deleted: self.deleted,
            handle: self.handle,
            tag: self.tag@,
            sleep_creature: self.sleep_creature@,
            sounds: self.sounds.deep_view(),
        }
    }
}

/// What a [`Door`] holds.
pub struct DoorView {
    pub id: Seq<char>,
    pub deleted: bool,
    pub handle: usize,
    pub tag: Seq<char>,
    pub script: Seq<char>,
    pub open_sound: Seq<char>,
    pub close_sound: Seq<char>,
}

impl DeepView for Door {
    type V = DoorView;

    open spec fn deep_view(&self) -> DoorView {
        DoorView {
            id: self.id@,
            deleted: self.deleted,
            handle: self.handle,
            tag: self.tag@,
            script: self.script@,
            open_sound: self.open_sound@,
            close_sound: self.close_sound@,
        }
    }
}

/// What a [`ScriptedItem`] holds.
pub struct ScriptedItemView {
    pub id: Seq<char>,
    pub deleted: bool,
    pub handle: usize,
    pub tag: Seq<char>,
    pub script: Seq<char>,
}

impl DeepView for ScriptedItem {
    type V = ScriptedItemView;

    open spec fn deep_view(&self) -> ScriptedItemView {
        ScriptedItemView {
            id: self.id@,
            deleted: self.deleted,
            handle: self.handle,
            tag: self.tag@,
            script: self.script@,
        }
    }
}

/// What a [`EnchantedItem`] holds.
pub struct EnchantedItemView {
    pub id: Seq<char>,
    pub deleted: bool,
    pub handle: usize,
    pub tag: Seq<char>,
    pub script: Seq<char>,
    pub enchanting: Seq<char>,
}

impl DeepView for EnchantedItem {
    type V = EnchantedItemView;

    open spec fn deep_view(&self) -> EnchantedItemView {
        EnchantedItemView {
            id: self.id@,
            deleted: self.deleted,
            handle: self.handle,
            tag: self.tag@,
            script: self.script@,
            enchanting: self.enchanting@,
        }
    }
}

/// What a [`Container`] holds.
pub struct ContainerView {
    pub id: Seq<char>,
    pub deleted: bool,
    pub handle: usize,
    pub tag: Seq<char>,
    pub script: Seq<char>,
    pub inventory: Seq<Seq<char>>,
}

impl DeepView for Container {
    type V = ContainerView;

    open spec fn deep_view(&self) -> ContainerView {
        ContainerView {
            id: self.id@,
            deleted: self.deleted,
            handle: self.handle,
            tag: self.tag@,
            script: self.script@,
            inventory: self.inventory.deep_view(),
        }
    }
}

/// What a [`Creature`] holds.
pub struct CreatureView {
    pub id: Seq<char>,
    pub deleted: bool,
    pub handle: usize,
    pub tag: Seq<char>,
    pub script: Seq<char>,
    pub inventory: Seq<Seq<char>>,
    pub spells: Seq<Seq<char>>,
    pub ai_packages: Seq<AiPackageView>,
    pub sound: Seq<char>,
}

impl DeepView for Creature {
    type V = CreatureView;

    open spec fn deep_view(&self) -> CreatureView {
        CreatureView {
            id: self.id@,
            deleted: self.deleted,
            handle: self.handle,
            tag: self.tag@,
            script: self.script@,
            inventory: self.inventory.deep_view(),
            spells: self.spells.deep_view(),
            ai_packages: self.ai_packages.deep_view(),
            sound: self.sound@,
        }
    }
}

/// What a [`Bodypart`] holds.
pub struct BodypartView {
    pub id: Seq<char>,
    pub deleted: bool,
    pub handle: usize,
    pub tag: Seq<char>,
    pub race: Seq<char>,
}

impl DeepView for Bodypart {
    type V = BodypartView;

    open spec fn deep_view(&self) -> BodypartView {
        BodypartView {
            id: self.id@,
            deleted: self.deleted,
            handle: self.handle,
            tag: self.tag@,
            race: self.race@,
        }
    }
}

/// What a [`Light`] holds.
pub struct LightView {
    pub id: Seq<char>,
    pub deleted: bool,
    pub handle: usize,
    pub tag: Seq<char>,
    pub script: Seq<char>,
    pub sound: Seq<char>,
}

impl DeepView for Light {
    type V = LightView;

    open spec fn deep_view(&self) -> LightView {
        LightView {
            id: self.id@,
            deleted: self.deleted,
            handle: self.handle,
            tag: self.tag@,
            script: self.script@,
            sound: self.sound@,
        }
    }
}

/// What a [`Npc`] holds.
pub struct NpcView {
    pub id: Seq<char>,
    pub deleted: bool,
    pub handle: usize,
    pub tag: Seq<char>,
    pub script: Seq<char>,
    pub inventory: Seq<Seq<char>>,
    pub spells: Seq<Seq<char>>,
    pub ai_packages: Seq<AiPackageView>,
    pub race: Seq<char>,
    pub class: Seq<char>,
    pub faction: Seq<char>,
    pub head: Seq<char>,
    pub hair: Seq<char>,
    pub female: bool,
}

impl DeepView for Npc {
    type V = NpcView;

    open spec fn deep_view(&self) -> NpcView {
        NpcView {
            id: self.id@,
            deleted: self.deleted,
            handle: self.handle,
            tag: self.tag@,
            script: self.script@,
            inventory: self.inventory.deep_view(),
            spells: self.spells.deep_view(),
            ai_packages: self.ai_packages.deep_view(),
            race: self.race@,
            class: self.class@,
            faction: self.faction@,
            head: self.head@,
            hair: self.hair@,
            female: self.female,
        }
    }
}

/// What a [`WornItem`] holds.
pub struct WornItemView {
    pub id: Seq<char>,
    pub deleted: bool,
    pub handle: usize,
    pub tag: Seq<char>,
    pub script: Seq<char>,
    pub enchanting: Seq<char>,
    pub biped_objects: Seq<BipedObjectView>,
}

impl DeepView for WornItem {
    type V = WornItemView;

    open spec fn deep_view(&self) -> WornItemView {
        WornItemView {
            id: self.id@,
            deleted: self.deleted,
            handle: self.handle,
            tag: self.tag@,
            script: self.script@,
            enchanting: self.enchanting@,
            biped_objects: self.biped_objects.deep_view(),
        }
    }
}

/// What a [`LeveledItem`] holds.
pub struct LeveledItemView {
    pub id: Seq<char>,
    pub deleted: bool,
    pub handle: usize,
    pub tag: Seq<char>,
    pub items: Seq<Seq<char>>,
}

impl DeepView for LeveledItem {
    type V = LeveledItemView;

    open spec fn deep_view(&self) -> LeveledItemView {
        LeveledItemView {
            id: self.id@,
            deleted: self.deleted,
            handle: self.handle,
            tag: self.tag@,
            items: self.items.deep_view(),
        }
    }
}

/// What a [`LeveledCreature`] holds.
pub struct LeveledCreatureView {
    pub id: Seq<char>,
    pub deleted: bool,
    pub handle: usize,
    pub tag: Seq<char>,
    pub creatures: Seq<Seq<char>>,
}

impl DeepView for LeveledCreature {
    type V = LeveledCreatureView;

    open spec fn deep_view(&self) -> LeveledCreatureView {
        LeveledCreatureView {
            id: self.id@,
            deleted: self.deleted,
            handle: self.handle,
            tag: self.tag@,
            creatures: self.creatures.deep_view(),
        }
    }
}

/// What a [`Cell`] holds.
pub struct CellView {
    pub id: Seq<char>,
    pub deleted: bool,
    pub handle: usize,
    pub tag: Seq<char>,
    pub name: Seq<char>,
    pub region: Option<Seq<char>>,
    pub references: Seq<ReferenceView>,
}

impl DeepView for Cell {
    type V = CellView;

    open spec fn deep_view(&self) -> CellView {
        CellView {
            id: self.id@,
            deleted: self.deleted,
            handle: self.handle,
            tag: self.tag@,
            name: self.name@,
            region: text_of(self.region),
            references: self.references.deep_view(),
        }
    }
}

/// What a [`Dialogue`] holds.
pub struct DialogueView {
    pub id: Seq<char>,
    pub deleted: bool,
    pub handle: usize,
    pub tag: Seq<char>,
    pub dialogue_type: DialogueType2,
}

impl DeepView for Dialogue {
    type V = DialogueView;

    open spec fn deep_view(&self) -> DialogueView {
        DialogueView {
            id: self.id@,
            deleted: self.deleted,
            handle: self.handle,
            tag: self.tag@,
            dialogue_type: self.dialogue_type,
        }
    }
}

/// What a [`DialogueInfo`] holds.
pub struct DialogueInfoView {
    pub id: Seq<char>,
    pub deleted: bool,
    pub handle: usize,
    pub tag: Seq<char>,
    pub prev_id: Seq<char>,
    pub next_id: Seq<char>,
    pub speaker_id: Seq<char>,
    pub speaker_race: Seq<char>,
    pub speaker_class: Seq<char>,
    pub speaker_faction: Seq<char>,
    pub player_faction: Seq<char>,
    pub speaker_cell: Seq<char>,
    pub sound_path: Seq<char>,
    pub text: Seq<char>,
    pub filters: Seq<FilterView>,
}

impl DeepView for DialogueInfo {
    type V = DialogueInfoView;

    open spec fn deep_view(&self) -> DialogueInfoView {
        DialogueInfoView {
            id: self.id@,
            deleted: self.deleted,
            handle: self.handle,
            tag: self.tag@,
            prev_id: self.prev_id@,
            next_id: self.next_id@,
            speaker_id: self.speaker_id@,
            speaker_race: self.speaker_race@,
            speaker_class: self.speaker_class@,
            speaker_faction: self.speaker_faction@,
            player_faction: self.player_faction@,
            speaker_cell: self.speaker_cell@,
            sound_path: self.sound_path@,
            text: self.text@,
            filters: self.filters.deep_view(),
        }
    }
}

/// What a record of any kind holds.
pub enum ObjectView {
    Header(HeaderView),
    GameSetting(PlainRecordView),
    GlobalVariable(PlainRecordView),
    Class(PlainRecordView),
    Faction(FactionView),
    Race(SpellHolderView),
    Sound(PlainRecordView),
    SoundGen(SoundGenView),
    Skill(PlainRecordView),
    MagicEffect(MagicEffectView),
    Script(ScriptView),
    Region(RegionView),
    Birthsign(SpellHolderView),
    StartScript(PlainRecordView),
    LandscapeTexture(PlainRecordView),
    Spell(PlainRecordView),
    Static(PlainRecordView),
    Door(DoorView),
    MiscItem(ScriptedItemView),
    Weapon(EnchantedItemView),
    Container(ContainerView),
    Creature(CreatureView),
    Bodypart(BodypartView),
    Light(LightView),
    Enchanting(PlainRecordView),
    Npc(NpcView),
    Armor(WornItemView),
    Clothing(WornItemView),
    RepairItem(ScriptedItemView),
    Activator(ScriptedItemView),
    Apparatus(ScriptedItemView),
    Lockpick(ScriptedItemView),
    Probe(ScriptedItemView),
    Ingredient(ScriptedItemView),
    Book(EnchantedItemView),
    Alchemy(ScriptedItemView),
    LeveledItem(LeveledItemView),
    LeveledCreature(LeveledCreatureView),
    Cell(CellView),
    Landscape(PlainRecordView),
    PathGrid(PlainRecordView),
    Dialogue(DialogueView),
    DialogueInfo(DialogueInfoView),
}

impl DeepView for TES3Object {
    type V = ObjectView;

    open spec fn deep_view(&self) -> ObjectView {
        match self {
            TES3Object::Header(r) => ObjectView::Header(r.deep_view()),
            TES3Object::GameSetting(r) => ObjectView::GameSetting(r.deep_view()),
            TES3Object::GlobalVariable(r) => ObjectView::GlobalVariable(r.deep_view()),
            TES3Object::Class(r) => ObjectView::Class(r.deep_view()),
            TES3Object::Faction(r) => ObjectView::Faction(r.deep_view()),
            TES3Object::Race(r) => ObjectView::Race(r.deep_view()),
            TES3Object::Sound(r) => ObjectView::Sound(r.deep_view()),
            TES3Object::SoundGen(r) => ObjectView::SoundGen(r.deep_view()),
            TES3Object::Skill(r) => ObjectView::Skill(r.deep_view()),
            TES3Object::MagicEffect(r) => ObjectView::MagicEffect(r.deep_view()),
            TES3Object::Script(r) => ObjectView::Script(r.deep_view()),
            TES3Object::Region(r) => ObjectView::Region(r.deep_view()),
            TES3Object::Birthsign(r) => ObjectView::Birthsign(r.deep_view()),
            TES3Object::StartScript(r) => ObjectView::StartScript(r.deep_view()),
            TES3Object::LandscapeTexture(r) => ObjectView::LandscapeTexture(r.deep_view()),
            TES3Object::Spell(r) => ObjectView::Spell(r.deep_view()),
            TES3Object::Static(r) => ObjectView::Static(r.deep_view()),
            TES3Object::Door(r) => ObjectView::Door(r.deep_view()),
            TES3Object::MiscItem(r) => ObjectView::MiscItem(r.deep_view()),
            TES3Object::Weapon(r) => ObjectView::Weapon(r.deep_view()),
            TES3Object::Container(r) => ObjectView::Container(r.deep_view()),
            TES3Object::Creature(r) => ObjectView::Creature(r.deep_view()),
            TES3Object::Bodypart(r) => ObjectView::Bodypart(r.deep_view()),
            TES3Object::Light(r) => ObjectView::Light(r.deep_view()),
            TES3Object::Enchanting(r) => ObjectView::Enchanting(r.deep_view()),
            TES3Object::Npc(r) => ObjectView::Npc(r.deep_view()),
            TES3Object::Armor(r) => ObjectView::Armor(r.deep_view()),
            TES3Object::Clothing(r) => ObjectView::Clothing(r.deep_view()),
            TES3Object::RepairItem(r) => ObjectView::RepairItem(r.deep_view()),
            TES3Object::Activator(r) => ObjectView::Activator(r.deep_view()),
            TES3Object::Apparatus(r) => ObjectView::Apparatus(r.deep_view()),
            TES3Object::Lockpick(r) => ObjectView::Lockpick(r.deep_view()),
            TES3Object::Probe(r) => ObjectView::Probe(r.deep_view()),
            TES3Object::Ingredient(r) => ObjectView::Ingredient(r.deep_view()),
            TES3Object::Book(r) => ObjectView::Book(r.deep_view()),
            TES3Object::Alchemy(r) => ObjectView::Alchemy(r.deep_view()),
            TES3Object::LeveledItem(r) => ObjectView::LeveledItem(r.deep_view()),
            TES3Object::LeveledCreature(r) => ObjectView::LeveledCreature(r.deep_view()),
            TES3Object::Cell(r) => ObjectView::Cell(r.deep_view()),
            TES3Object::Landscape(r) => ObjectView::Landscape(r.deep_view()),
            TES3Object::PathGrid(r) => ObjectView::PathGrid(r.deep_view()),
            TES3Object::Dialogue(r) => ObjectView::Dialogue(r.deep_view()),
            TES3Object::DialogueInfo(r) => ObjectView::DialogueInfo(r.deep_view()),
        }
    }
}

impl ObjectView {
    /// The editor id of the record.
    pub open spec fn id(self) -> Seq<char> {
        match self {
            ObjectView::Header(r) => r.id,
            ObjectView::GameSetting(r) => r.id,
            ObjectView::GlobalVariable(r) => r.id,
            ObjectView::Class(r) => r.id,
            ObjectView::Faction(r) => r.id,
            ObjectView::Race(r) => r.id,
            ObjectView::Sound(r) => r.id,
            ObjectView::SoundGen(r) => r.id,
            ObjectView::Skill(r) => r.id,
            ObjectView::MagicEffect(r) => r.id,
            ObjectView::Script(r) => r.id,
            ObjectView::Region(r) => r.id,
            ObjectView::Birthsign(r) => r.id,
            ObjectView::StartScript(r) => r.id,
            ObjectView::LandscapeTexture(r) => r.id,
            ObjectView::Spell(r) => r.id,
            ObjectView::Static(r) => r.id,
            ObjectView::Door(r) => r.id,
            ObjectView::MiscItem(r) => r.id,
            ObjectView::Weapon(r) => r.id,
            ObjectView::Container(r) => r.id,
            ObjectView::Creature(r) => r.id,
            ObjectView::Bodypart(r) => r.id,
            ObjectView::Light(r) => r.id,
            ObjectView::Enchanting(r) => r.id,
            ObjectView::Npc(r) => r.id,
            ObjectView::Armor(r) => r.id,
            ObjectView::Clothing(r) => r.id,
            ObjectView::RepairItem(r) => r.id,
            ObjectView::Activator(r) => r.id,
            ObjectView::Apparatus(r) => r.id,
            ObjectView::Lockpick(r) => r.id,
            ObjectView::Probe(r) => r.id,
            ObjectView::Ingredient(r) => r.id,
            ObjectView::Book(r) => r.id,
            ObjectView::Alchemy(r) => r.id,
            ObjectView::LeveledItem(r) => r.id,
            ObjectView::LeveledCreature(r) => r.id,
            ObjectView::Cell(r) => r.id,
            ObjectView::Landscape(r) => r.id,
            ObjectView::PathGrid(r) => r.id,
            ObjectView::Dialogue(r) => r.id,
            ObjectView::DialogueInfo(r) => r.id,
        }
    }

    /// Whether the record is marked as deleted.
    pub open spec fn deleted(self) -> bool {
        match self {
            ObjectView::Header(r) => r.deleted,
            ObjectView::GameSetting(r) => r.deleted,
            ObjectView::GlobalVariable(r) => r.deleted,
            ObjectView::Class(r) => r.deleted,
            ObjectView::Faction(r) => r.deleted,
            ObjectView::Race(r) => r.deleted,
            ObjectView::Sound(r) => r.deleted,
            ObjectView::SoundGen(r) => r.deleted,
            ObjectView::Skill(r) => r.deleted,
            ObjectView::MagicEffect(r) => r.deleted,
            ObjectView::Script(r) => r.deleted,
            ObjectView::Region(r) => r.deleted,
            ObjectView::Birthsign(r) => r.deleted,
            ObjectView::StartScript(r) => r.deleted,
            ObjectView::LandscapeTexture(r) => r.deleted,
            ObjectView::Spell(r) => r.deleted,
            ObjectView::Static(r) => r.deleted,
            ObjectView::Door(r) => r.deleted,
            ObjectView::MiscItem(r) => r.deleted,
            ObjectView::Weapon(r) => r.deleted,
            ObjectView::Container(r) => r.deleted,
            ObjectView::Creature(r) => r.deleted,
            ObjectView::Bodypart(r) => r.deleted,
            ObjectView::Light(r) => r.deleted,
            ObjectView::Enchanting(r) => r.deleted,
            ObjectView::Npc(r) => r.deleted,
            ObjectView::Armor(r) => r.deleted,
            ObjectView::Clothing(r) => r.deleted,
            ObjectView::RepairItem(r) => r.deleted,
            ObjectView::Activator(r) => r.deleted,
            ObjectView::Apparatus(r) => r.deleted,
            ObjectView::Lockpick(r) => r.deleted,
            ObjectView::Probe(r) => r.deleted,
            ObjectView::Ingredient(r) => r.deleted,
            ObjectView::Book(r) => r.deleted,
            ObjectView::Alchemy(r) => r.deleted,
            ObjectView::LeveledItem(r) => r.deleted,
            ObjectView::LeveledCreature(r) => r.deleted,
            ObjectView::Cell(r) => r.deleted,
            ObjectView::Landscape(r) => r.deleted,
            ObjectView::PathGrid(r) => r.deleted,
            ObjectView::Dialogue(r) => r.deleted,
            ObjectView::DialogueInfo(r) => r.deleted,
        }
    }

    /// The tag by which reports name the kind of the record.
    pub open spec fn tag(self) -> Seq<char> {
        match self {
            ObjectView::Header(r) => r.tag,
            ObjectView::GameSetting(r) => r.tag,
            ObjectView::GlobalVariable(r) => r.tag,
            ObjectView::Class(r) => r.tag,
            ObjectView::Faction(r) => r.tag,
            ObjectView::Race(r) => r.tag,
            ObjectView::Sound(r) => r.tag,
            ObjectView::SoundGen(r) => r.tag,
            ObjectView::Skill(r) => r.tag,
            ObjectView::MagicEffect(r) => r.tag,
            ObjectView::Script(r) => r.tag,
            ObjectView::Region(r) => r.tag,
            ObjectView::Birthsign(r) => r.tag,
            ObjectView::StartScript(r) => r.tag,
            ObjectView::LandscapeTexture(r) => r.tag,
            ObjectView::Spell(r) => r.tag,
            ObjectView::Static(r) => r.tag,
            ObjectView::Door(r) => r.tag,
            ObjectView::MiscItem(r) => r.tag,
            ObjectView::Weapon(r) => r.tag,
            ObjectView::Container(r) => r.tag,
            ObjectView::Creature(r) => r.tag,
            ObjectView::Bodypart(r) => r.tag,
            ObjectView::Light(r) => r.tag,
            ObjectView::Enchanting(r) => r.tag,
            ObjectView::Npc(r) => r.tag,
            ObjectView::Armor(r) => r.tag,
            ObjectView::Clothing(r) => r.tag,
            ObjectView::RepairItem(r) => r.tag,
            ObjectView::Activator(r) => r.tag,
            ObjectView::Apparatus(r) => r.tag,
            ObjectView::Lockpick(r) => r.tag,
            ObjectView::Probe(r) => r.tag,
            ObjectView::Ingredient(r) => r.tag,
            ObjectView::Book(r) => r.tag,
            ObjectView::Alchemy(r) => r.tag,
            ObjectView::LeveledItem(r) => r.tag,
            ObjectView::LeveledCreature(r) => r.tag,
            ObjectView::Cell(r) => r.tag,
            ObjectView::Landscape(r) => r.tag,
            ObjectView::PathGrid(r) => r.tag,
            ObjectView::Dialogue(r) => r.tag,
            ObjectView::DialogueInfo(r) => r.tag,
        }
    }
}

impl View for Plugin {
    type V = Seq<ObjectView>;

    open spec fn view(&self) -> Seq<ObjectView> {
        self.objects.deep_view()
    }
}

impl DeepView for Plugin {
    type V = Seq<ObjectView>;

    open spec fn deep_view(&self) -> Seq<ObjectView> {
        self@
    }
}

impl TES3Object {
    /// The editor id of the record.
    pub fn editor_id(&self) -> (res: &str)
        ensures
            res@ == self.deep_view().id(),
    {
        match self {
            TES3Object::Header(r) => r.id.as_str(),
            TES3Object::GameSetting(r) => r.id.as_str(),
            TES3Object::GlobalVariable(r) => r.id.as_str(),
            TES3Object::Class(r) => r.id.as_str(),
            TES3Object::Faction(r) => r.id.as_str(),
            TES3Object::Race(r) => r.id.as_str(),
            TES3Object::Sound(r) => r.id.as_str(),
            TES3Object::SoundGen(r) => r.id.as_str(),
            TES3Object::Skill(r) => r.id.as_str(),
            TES3Object::MagicEffect(r) => r.id.as_str(),
            TES3Object::Script(r) => r.id.as_str(),
            TES3Object::Region(r) => r.id.as_str(),
            TES3Object::Birthsign(r) => r.id.as_str(),
            TES3Object::StartScript(r) => r.id.as_str(),
            TES3Object::LandscapeTexture(r) => r.id.as_str(),
            TES3Object::Spell(r) => r.id.as_str(),
            TES3Object::Static(r) => r.id.as_str(),
            TES3Object::Door(r) => r.id.as_str(),
            TES3Object::MiscItem(r) => r.id.as_str(),
            TES3Object::Weapon(r) => r.id.as_str(),
            TES3Object::Container(r) => r.id.as_str(),
            TES3Object::Creature(r) => r.id.as_str(),
            TES3Object::Bodypart(r) => r.id.as_str(),
            TES3Object::Light(r) => r.id.as_str(),
            TES3Object::Enchanting(r) => r.id.as_str(),
            TES3Object::Npc(r) => r.id.as_str(),
            TES3Object::Armor(r) => r.id.as_str(),
            TES3Object::Clothing(r) => r.id.as_str(),
            TES3Object::RepairItem(r) => r.id.as_str(),
            TES3Object::Activator(r) => r.id.as_str(),
            TES3Object::Apparatus(r) => r.id.as_str(),
            TES3Object::Lockpick(r) => r.id.as_str(),
            TES3Object::Probe(r) => r.id.as_str(),
            TES3Object::Ingredient(r) => r.id.as_str(),
            TES3Object::Book(r) => r.id.as_str(),
            TES3Object::Alchemy(r) => r.id.as_str(),
            TES3Object::LeveledItem(r) => r.id.as_str(),
            TES3Object::LeveledCreature(r) => r.id.as_str(),
            TES3Object::Cell(r) => r.id.as_str(),
            TES3Object::Landscape(r) => r.id.as_str(),
            TES3Object::PathGrid(r) => r.id.as_str(),
            TES3Object::Dialogue(r) => r.id.as_str(),
            TES3Object::DialogueInfo(r) => r.id.as_str(),
        }
    }

    /// Whether the record is marked as deleted.
    pub fn deleted(&self) -> (res: bool)
        ensures
            res == self.deep_view().deleted(),
    {
        match self {
            TES3Object::Header(r) => r.deleted,
            TES3Object::GameSetting(r) => r.deleted,
            TES3Object::GlobalVariable(r) => r.deleted,
            TES3Object::Class(r) => r.deleted,
            TES3Object::Faction(r) => r.deleted,
            TES3Object::Race(r) => r.deleted,
            TES3Object::Sound(r) => r.deleted,
            TES3Object::SoundGen(r) => r.deleted,
            TES3Object::Skill(r) => r.deleted,
            TES3Object::MagicEffect(r) => r.deleted,
            TES3Object::Script(r) => r.deleted,
            TES3Object::Region(r) => r.deleted,
            TES3Object::Birthsign(r) => r.deleted,
            TES3Object::StartScript(r) => r.deleted,
            TES3Object::LandscapeTexture(r) => r.deleted,
            TES3Object::Spell(r) => r.deleted,
            TES3Object::Static(r) => r.deleted,
            TES3Object::Door(r) => r.deleted,
            TES3Object::MiscItem(r) => r.deleted,
            TES3Object::Weapon(r) => r.deleted,
            TES3Object::Container(r) => r.deleted,
            TES3Object::Creature(r) => r.deleted,
            TES3Object::Bodypart(r) => r.deleted,
            TES3Object::Light(r) => r.deleted,
            TES3Object::Enchanting(r) => r.deleted,
            TES3Object::Npc(r) => r.deleted,
            TES3Object::Armor(r) => r.deleted,
            TES3Object::Clothing(r) => r.deleted,
            TES3Object::RepairItem(r) => r.deleted,
            TES3Object::Activator(r) => r.deleted,
            TES3Object::Apparatus(r) => r.deleted,
            TES3Object::Lockpick(r) => r.deleted,
            TES3Object::Probe(r) => r.deleted,
            TES3Object::Ingredient(r) => r.deleted,
            TES3Object::Book(r) => r.deleted,
            TES3Object::Alchemy(r) => r.deleted,
            TES3Object::LeveledItem(r) => r.deleted,
            TES3Object::LeveledCreature(r) => r.deleted,
            TES3Object::Cell(r) => r.deleted,
            TES3Object::Landscape(r) => r.deleted,
            TES3Object::PathGrid(r) => r.deleted,
            TES3Object::Dialogue(r) => r.deleted,
            TES3Object::DialogueInfo(r) => r.deleted,
        }
    }

    /// The tag by which reports name the kind of the record.
    pub fn tag_str(&self) -> (res: &str)
        ensures
            res@ == self.deep_view().tag(),
    {
        match self {
            TES3Object::Header(r) => r.tag.as_str(),
            TES3Object::GameSetting(r) => r.tag.as_str(),
            TES3Object::GlobalVariable(r) => r.tag.as_str(),
            TES3Object::Class(r) => r.tag.as_str(),
            TES3Object::Faction(r) => r.tag.as_str(),
            TES3Object::Race(r) => r.tag.as_str(),
            TES3Object::Sound(r) => r.tag.as_str(),
            TES3Object::SoundGen(r) => r.tag.as_str(),
            TES3Object::Skill(r) => r.tag.as_str(),
            TES3Object::MagicEffect(r) => r.tag.as_str(),
            TES3Object::Script(r) => r.tag.as_str(),
            TES3Object::Region(r) => r.tag.as_str(),
            TES3Object::Birthsign(r) => r.tag.as_str(),
            TES3Object::StartScript(r) => r.tag.as_str(),
            TES3Object::LandscapeTexture(r) => r.tag.as_str(),
            TES3Object::Spell(r) => r.tag.as_str(),
            TES3Object::Static(r) => r.tag.as_str(),
            TES3Object::Door(r) => r.tag.as_str(),
            TES3Object::MiscItem(r) => r.tag.as_str(),
            TES3Object::Weapon(r) => r.tag.as_str(),
            TES3Object::Container(r) => r.tag.as_str(),
            TES3Object::Creature(r) => r.tag.as_str(),
            TES3Object::Bodypart(r) => r.tag.as_str(),
            TES3Object::Light(r) => r.tag.as_str(),
            TES3Object::Enchanting(r) => r.tag.as_str(),
            TES3Object::Npc(r) => r.tag.as_str(),
            TES3Object::Armor(r) => r.tag.as_str(),
            TES3Object::Clothing(r) => r.tag.as_str(),
            TES3Object::RepairItem(r) => r.tag.as_str(),
            TES3Object::Activator(r) => r.tag.as_str(),
            TES3Object::Apparatus(r) => r.tag.as_str(),
            TES3Object::Lockpick(r) => r.tag.as_str(),
            TES3Object::Probe(r) => r.tag.as_str(),
            TES3Object::Ingredient(r) => r.tag.as_str(),
            TES3Object::Book(r) => r.tag.as_str(),
            TES3Object::Alchemy(r) => r.tag.as_str(),
            TES3Object::LeveledItem(r) => r.tag.as_str(),
            TES3Object::LeveledCreature(r) => r.tag.as_str(),
            TES3Object::Cell(r) => r.tag.as_str(),
            TES3Object::Landscape(r) => r.tag.as_str(),
            TES3Object::PathGrid(r) => r.tag.as_str(),
            TES3Object::Dialogue(r) => r.tag.as_str(),
            TES3Object::DialogueInfo(r) => r.tag.as_str(),
        }
    }
}

} // verus!
