//! The records of a plugin, as far as the rules of this crate read them.
//!
//! Every record has an `id` (its editor id), says whether it is `deleted`, has a `tag` by which
//! reports name its kind, and carries a `handle`: a number by which the caller finds the complete
//! record again. Nothing here reads the handle; a copy of a record keeps it.

use vstd::prelude::*;

verus! {

/// A number for a magic effect of the game: the same for the same effect, and no other's.
pub type EffectId = i32;

/// What a dialogue topic is for.
#[derive(Clone, Copy, Debug, Default, PartialEq, Eq, Structural)]
pub enum DialogueType2 {
    #[default]
    Topic,
    Voice,
    Greeting,
    Persuasion,
    Journal,
}

/// An order that an actor carries out by itself.
#[derive(Debug)]
pub enum AiPackage {
    Travel,
    Wander,
    Escort(AiEscortPackage),
    Follow(AiFollowPackage),
    Activate(AiActivatePackage),
}

/// A condition on a line of dialogue.
#[derive(Debug, Default)]
pub struct Filter {
    pub id: String,
}

/// The body parts that a worn thing shows.
#[derive(Debug, Default)]
pub struct BipedObject {
    pub male_bodypart: String,
    pub female_bodypart: String,
}

/// An order to lead somebody to a cell.
#[derive(Debug, Default)]
pub struct AiEscortPackage {
    pub target: String,
    pub cell: String,
}

/// An order to follow somebody to a cell.
#[derive(Debug, Default)]
pub struct AiFollowPackage {
    pub target: String,
    pub cell: String,
}

/// An order to activate a thing.
#[derive(Debug, Default)]
pub struct AiActivatePackage {
    pub target: String,
}

/// A thing placed in a cell.
#[derive(Debug, Default)]
pub struct Reference {
    pub id: String,
    pub owner: Option<String>,
    pub owner_global: Option<String>,
    pub owner_faction: Option<String>,
    pub key: Option<String>,
    pub trap: Option<String>,
    pub soul: Option<String>,
}

/// A record of which no rule reads more than its id.
#[derive(Debug, Default)]
pub struct PlainRecord {
    pub id: String,
    pub deleted: bool,
    pub handle: usize,
    pub tag: String,
}

/// The head of a plugin, which names the files the plugin builds on.
#[derive(Debug, Default)]
pub struct Header {
    pub id: String,
    pub deleted: bool,
    pub handle: usize,
    pub tag: String,
    /// The names of the master files.
    pub masters: Vec<String>,
}

/// A race or a birthsign, with the spells it grants.
#[derive(Debug, Default)]
pub struct SpellHolder {
    pub id: String,
    pub deleted: bool,
    pub handle: usize,
    pub tag: String,
    pub spells: Vec<String>,
}

/// A faction, with the factions it reacts to.
#[derive(Debug, Default)]
pub struct Faction {
    pub id: String,
    pub deleted: bool,
    pub handle: usize,
    pub tag: String,
    /// The ids of the factions it has a reaction to.
    pub reactions: Vec<String>,
}

/// A sound that a creature makes.
#[derive(Debug, Default)]
pub struct SoundGen {
    pub id: String,
    pub deleted: bool,
    pub handle: usize,
    pub tag: String,
    pub creature: String,
    pub sound: String,
}

/// A magic effect, with the sounds and visuals it plays.
#[derive(Debug, Default)]
pub struct MagicEffect {
    pub id: String,
    pub deleted: bool,
    pub handle: usize,
    pub tag: String,
    pub effect_id: EffectId,
    pub bolt_sound: String,
    pub cast_sound: String,
    pub hit_sound: String,
    pub area_sound: String,
    pub cast_visual: String,
    pub bolt_visual: String,
    pub hit_visual: String,
    pub area_visual: String,
    /// A number for all that the record holds: effects that agree in everything have the same
    /// number, and no others do.
    pub rest: u64,
}

/// A script in the game's own language.
#[derive(Debug, Default)]
pub struct Script {
    pub id: String,
    pub deleted: bool,
    pub handle: usize,
    pub tag: String,
    pub text: String,
}

/// A region of the outside world.
#[derive(Debug, Default)]
pub struct Region {
    pub id: String,
    pub deleted: bool,
    pub handle: usize,
    pub tag: String,
    /// The leveled list that disturbs a sleeper.
    pub sleep_creature: String,
    pub sounds: Vec<String>,
}

/// A door.
#[derive(Debug, Default)]
pub struct Door {
    pub id: String,
    pub deleted: bool,
    pub handle: usize,
    pub tag: String,
    pub script: String,
    pub open_sound: String,
    pub close_sound: String,
}

/// A thing of which the rules read only the script.
#[derive(Debug, Default)]
pub struct ScriptedItem {
    pub id: String,
    pub deleted: bool,
    pub handle: usize,
    pub tag: String,
    pub script: String,
}

/// A weapon or a book.
#[derive(Debug, Default)]
pub struct EnchantedItem {
    pub id: String,
    pub deleted: bool,
    pub handle: usize,
    pub tag: String,
    pub script: String,
    pub enchanting: String,
}

/// A container, with what lies in it.
#[derive(Debug, Default)]
pub struct Container {
    pub id: String,
    pub deleted: bool,
    pub handle: usize,
    pub tag: String,
    pub script: String,
    /// The ids of the items.
    pub inventory: Vec<String>,
}

/// A creature.
#[derive(Debug, Default)]
pub struct Creature {
    pub id: String,
    pub deleted: bool,
    pub handle: usize,
    pub tag: String,
    pub script: String,
    /// The ids of the items.
    pub inventory: Vec<String>,
    pub spells: Vec<String>,
    pub ai_packages: Vec<AiPackage>,
    /// The creature whose sounds it makes.
    pub sound: String,
}

/// A part of a body.
#[derive(Debug, Default)]
pub struct Bodypart {
    pub id: String,
    pub deleted: bool,
    pub handle: usize,
    pub tag: String,
    pub race: String,
}

/// A light.
#[derive(Debug, Default)]
pub struct Light {
    pub id: String,
    pub deleted: bool,
    pub handle: usize,
    pub tag: String,
    pub script: String,
    pub sound: String,
}

/// A person.
#[derive(Debug, Default)]
pub struct Npc {
    pub id: String,
    pub deleted: bool,
    pub handle: usize,
    pub tag: String,
    pub script: String,
    /// The ids of the items.
    pub inventory: Vec<String>,
    pub spells: Vec<String>,
    pub ai_packages: Vec<AiPackage>,
    pub race: String,
    pub class: String,
    pub faction: String,
    pub head: String,
    pub hair: String,
    pub female: bool,
}

/// A piece of armor or clothing.
#[derive(Debug, Default)]
pub struct WornItem {
    pub id: String,
    pub deleted: bool,
    pub handle: usize,
    pub tag: String,
    pub script: String,
    pub enchanting: String,
    pub biped_objects: Vec<BipedObject>,
}

/// A leveled list of items.
#[derive(Debug, Default)]
pub struct LeveledItem {
    pub id: String,
    pub deleted: bool,
    pub handle: usize,
    pub tag: String,
    /// The ids of the items.
    pub items: Vec<String>,
}

/// A leveled list of creatures.
#[derive(Debug, Default)]
pub struct LeveledCreature {
    pub id: String,
    pub deleted: bool,
    pub handle: usize,
    pub tag: String,
    /// The ids of the creatures.
    pub creatures: Vec<String>,
}

/// A place in the world, with the things placed in it.
#[derive(Debug, Default)]
pub struct Cell {
    pub id: String,
    pub deleted: bool,
    pub handle: usize,
    pub tag: String,
    pub name: String,
    pub region: Option<String>,
    /// The placed things, in the order in which they are looked through.
    pub references: Vec<Reference>,
}

/// The head of a dialogue topic; the lines of the topic follow it.
#[derive(Debug)]
pub struct Dialogue {
    pub id: String,
    pub deleted: bool,
    pub handle: usize,
    pub tag: String,
    pub dialogue_type: DialogueType2,
}

/// A line of dialogue.
#[derive(Debug, Default)]
pub struct DialogueInfo {
    pub id: String,
    pub deleted: bool,
    pub handle: usize,
    pub tag: String,
    /// The line before it in its topic; empty for the first.
    pub prev_id: String,
    /// The line behind it in its topic; empty for the last.
    pub next_id: String,
    pub speaker_id: String,
    pub speaker_race: String,
    pub speaker_class: String,
    pub speaker_faction: String,
    pub player_faction: String,
    pub speaker_cell: String,
    pub sound_path: String,
    pub text: String,
    pub filters: Vec<Filter>,
}

impl Default for Dialogue {
    fn default() -> (res: Self)
        ensures
            res.id@ == Seq::<char>::empty(),
            !res.deleted,
            res.handle == 0,
            res.tag@ == Seq::<char>::empty(),
            res.dialogue_type == DialogueType2::Topic,
    {
        Dialogue {
            id: String::new(),
            deleted: false,
            handle: 0,
            tag: String::new(),
            dialogue_type: DialogueType2::Topic,
        }
    }
}

pub type GameSetting = PlainRecord;

pub type GlobalVariable = PlainRecord;

pub type Class = PlainRecord;

pub type Sound = PlainRecord;

pub type Skill = PlainRecord;

pub type StartScript = PlainRecord;

pub type LandscapeTexture = PlainRecord;

pub type Spell = PlainRecord;

pub type Static = PlainRecord;

pub type Enchanting = PlainRecord;

pub type Landscape = PlainRecord;

pub type PathGrid = PlainRecord;

pub type Race = SpellHolder;

pub type Birthsign = SpellHolder;

pub type MiscItem = ScriptedItem;

pub type RepairItem = ScriptedItem;

pub type Activator = ScriptedItem;

pub type Apparatus = ScriptedItem;

pub type Lockpick = ScriptedItem;

pub type Probe = ScriptedItem;

pub type Ingredient = ScriptedItem;

pub type Alchemy = ScriptedItem;

pub type Weapon = EnchantedItem;

pub type Book = EnchantedItem;

pub type Armor = WornItem;

pub type Clothing = WornItem;

/// A record of any kind.
#[derive(Debug)]
pub enum TES3Object {
    Header(Header),
    GameSetting(PlainRecord),
    GlobalVariable(PlainRecord),
    Class(PlainRecord),
    Faction(Faction),
    Race(SpellHolder),
    Sound(PlainRecord),
    SoundGen(SoundGen),
    Skill(PlainRecord),
    MagicEffect(MagicEffect),
    Script(Script),
    Region(Region),
    Birthsign(SpellHolder),
    StartScript(PlainRecord),
    LandscapeTexture(PlainRecord),
    Spell(PlainRecord),
    Static(PlainRecord),
    Door(Door),
    MiscItem(ScriptedItem),
    Weapon(EnchantedItem),
    Container(Container),
    Creature(Creature),
    Bodypart(Bodypart),
    Light(Light),
    Enchanting(PlainRecord),
    Npc(Npc),
    Armor(WornItem),
    Clothing(WornItem),
    RepairItem(ScriptedItem),
    Activator(ScriptedItem),
    Apparatus(ScriptedItem),
    Lockpick(ScriptedItem),
    Probe(ScriptedItem),
    Ingredient(ScriptedItem),
    Book(EnchantedItem),
    Alchemy(ScriptedItem),
    LeveledItem(LeveledItem),
    LeveledCreature(LeveledCreature),
    Cell(Cell),
    Landscape(PlainRecord),
    PathGrid(PlainRecord),
    Dialogue(Dialogue),
    DialogueInfo(DialogueInfo),
}

/// A plugin: its records in the order of the file.
#[derive(Debug, Default)]
pub struct Plugin {
    pub objects: Vec<TES3Object>,
}

} // verus!
