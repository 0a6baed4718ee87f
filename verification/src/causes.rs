//! Why a record is needed: which record names it, and in which field.

use vstd::prelude::*;

use crate::record_views::{
    text_of, AiPackageView, CreatureView, DialogueInfoView, NpcView, ObjectView, ReferenceView,
};
use crate::records::{AiPackage, Cell, Creature, DialogueInfo, Npc, Reference, TES3Object};
use crate::references::{ai_target, ai_targets};
use crate::text::{same, same_id};

verus! {

/// One of the ids is `target`.
pub open spec fn any_same(ids: Seq<Seq<char>>, target: Seq<char>) -> bool {
    exists|i: int| 0 <= i < ids.len() && same(#[trigger] ids[i], target)
}

/// The optional id is given and is `target`.
pub open spec fn some_same(id: Option<Seq<char>>, target: Seq<char>) -> bool {
    id matches Some(id) && same(id, target)
}

/// The field in which a line of dialogue names `target`.
pub open spec fn info_field(r: DialogueInfoView, target: Seq<char>) -> Seq<char> {
    if same(r.speaker_id, target) {
        "speaker_id"@
    } else if same(r.speaker_race, target) {
        "speaker_race"@
    } else if same(r.speaker_class, target) {
        "speaker_class"@
    } else if same(r.speaker_faction, target) {
        "speaker_faction"@
    } else {
        "player_faction"@
    }
}

/// The field in which a placed thing names `target`, if it does.
pub open spec fn placed_field(r: ReferenceView, target: Seq<char>) -> Option<Seq<char>> {
    if same(r.id, target) {
        Some("reference.id"@)
    } else if some_same(r.owner, target) {
        Some("reference.owner"@)
    } else if some_same(r.owner_global, target) {
        Some("reference.owner_global"@)
    } else if some_same(r.owner_faction, target) {
        Some("reference.owner_faction"@)
    } else if some_same(r.key, target) {
        Some("reference.key"@)
    } else if some_same(r.trap, target) {
        Some("reference.trap"@)
    } else if some_same(r.soul, target) {
        Some("reference.soul"@)
    } else {
        None
    }
}

/// The field in which the first placed thing that names `target` names it; the region of the cell
/// if none does.
pub open spec fn cell_field(placed: Seq<ReferenceView>, target: Seq<char>) -> Seq<char>
    decreases placed.len(),
{
    if placed.len() == 0 {
        "region"@
    } else {
        match placed_field(placed[0], target) {
            Some(field) => field,
            None => cell_field(placed.skip(1), target),
        }
    }
}

/// The field in which a person names `target`.
pub open spec fn npc_field(r: NpcView, target: Seq<char>) -> Seq<char> {
    if same(r.script, target) {
        "script"@
    } else if any_same(r.inventory, target) {
        "inventory"@
    } else if any_same(r.spells, target) {
        "spells"@
    } else if any_same(ai_targets(r.ai_packages), target) {
        "ai_package.target"@
    } else if same(r.race, target) {
        "race"@
    } else if same(r.class, target) {
        "class"@
    } else if same(r.faction, target) {
        "faction"@
    } else if same(r.head, target) {
        "head"@
    } else if same(r.hair, target) {
        "hair"@
    } else {
        "dependency"@
    }
}

/// The field in which a creature names `target`.
pub open spec fn creature_field(r: CreatureView, target: Seq<char>) -> Seq<char> {
    if same(r.script, target) {
        "script"@
    } else if any_same(r.inventory, target) {
        "inventory"@
    } else if any_same(r.spells, target) {
        "spells"@
    } else if any_same(ai_targets(r.ai_packages), target) {
        "ai_package.target"@
    } else {
        "sound"@
    }
}

/// The field in which a record names `target`, for the kinds of which fields are told apart.
pub open spec fn field_of(object: ObjectView, target: Seq<char>) -> Seq<char> {
    match object {
        ObjectView::DialogueInfo(r) => info_field(r, target),
        ObjectView::Cell(r) => cell_field(r.references, target),
        ObjectView::Npc(r) => npc_field(r, target),
        ObjectView::Creature(r) => creature_field(r, target),
        _ => "dependency"@,
    }
}

fn has_same(ids: &Vec<String>, target: &str) -> (res: bool)
    ensures
        res == any_same(ids.deep_view(), target@),
{
    let mut i: usize = 0;
    while i < ids.len()
        invariant
            i <= ids@.len(),
            forall|k: int| 0 <= k < i ==> !same(#[trigger] ids.deep_view()[k], target@),
        decreases ids@.len() - i,
    {
        if same_id(ids[i].as_str(), target) {
            assert(same(ids.deep_view()[i as int], target@));
            return true;
        }
        i += 1;
    }
    false
}

fn is_same(id: &Option<String>, target: &str) -> (res: bool)
    ensures
        res == some_same(text_of(*id), target@),
{
    match id {
        Some(id) => same_id(id.as_str(), target),
        None => false,
    }
}

/// An id is in a joined list if and only if it is in one of its parts.
pub proof fn lemma_any_same_add(a: Seq<Seq<char>>, b: Seq<Seq<char>>, target: Seq<char>)
    ensures
        any_same(a + b, target) <==> any_same(a, target) || any_same(b, target),
{
    let both = a + b;
    if any_same(both, target) {
        let i = choose|i: int| 0 <= i < both.len() && same(#[trigger] both[i], target);
        if i < a.len() {
            assert(same(a[i], target));
        } else {
            assert(same(b[i - a.len()], target));
        }
    }
    if any_same(a, target) {
        let i = choose|i: int| 0 <= i < a.len() && same(#[trigger] a[i], target);
        assert(same(both[i], target));
    }
    if any_same(b, target) {
        let i = choose|i: int| 0 <= i < b.len() && same(#[trigger] b[i], target);
        assert(same(both[a.len() + i], target));
    }
}

/// An AI package of the list aims at `target`.
pub open spec fn some_aims(packages: Seq<AiPackageView>, target: Seq<char>) -> bool {
    exists|i: int| 0 <= i < packages.len() && some_same(ai_target(#[trigger] packages[i]), target)
}

/// An id is among the targets of AI packages if and only if one of them aims at it.
pub proof fn lemma_aims(packages: Seq<AiPackageView>, target: Seq<char>)
    ensures
        any_same(ai_targets(packages), target) <==> some_aims(packages, target),
    decreases packages.len(),
{
    if packages.len() > 0 {
        let rest = packages.drop_last();
        let last = packages.last();
        lemma_aims(rest, target);
        match ai_target(last) {
            Some(id) => {
                lemma_any_same_add(ai_targets(rest), seq![id], target);
                assert(any_same(seq![id], target) <==> same(id, target)) by {
                    assert(seq![id][0] == id);
                }
            },
            None => {},
        }
        if some_aims(rest, target) {
            let i = choose|i: int|
                0 <= i < rest.len() && some_same(ai_target(#[trigger] rest[i]), target);
            assert(packages[i] == rest[i]);
        }
        if some_aims(packages, target) {
            let i = choose|i: int|
                0 <= i < packages.len() && some_same(ai_target(#[trigger] packages[i]), target);
            if i < rest.len() {
                assert(rest[i] == packages[i]);
            }
        }
        assert(packages[packages.len() - 1] == last);
    }
}

fn aims_at(packages: &Vec<AiPackage>, target: &str) -> (res: bool)
    ensures
        res == any_same(ai_targets(packages.deep_view()), target@),
{
    let mut i: usize = 0;
    proof {
        lemma_aims(packages.deep_view(), target@);
    }
    while i < packages.len()
        invariant
            i <= packages@.len(),
            any_same(ai_targets(packages.deep_view()), target@) <==> some_aims(
                packages.deep_view(),
                target@,
            ),
            forall|k: int|
                0 <= k < i ==> !some_same(ai_target(#[trigger] packages.deep_view()[k]), target@),
        decreases packages@.len() - i,
    {
        let hit: bool = match &packages[i] {
            AiPackage::Activate(p) => same_id(p.target.as_str(), target),
            AiPackage::Escort(p) => same_id(p.target.as_str(), target),
            AiPackage::Follow(p) => same_id(p.target.as_str(), target),
            AiPackage::Travel => false,
            AiPackage::Wander => false,
        };
        assert(hit == some_same(ai_target(packages.deep_view()[i as int]), target@));
        if hit {
            return true;
        }
        i += 1;
    }
    false
}

/// Names the field in which a record names `target`.
pub fn dependency_field(object: &TES3Object, target: &str) -> (res: &'static str)
    ensures
        res@ == field_of(object.deep_view(), target@),
{
    match object {
        TES3Object::DialogueInfo(record) => dependency_field_dialogue_info(record, target),
        TES3Object::Cell(record) => dependency_field_cell(record, target),
        TES3Object::Npc(record) => dependency_field_npc(record, target),
        TES3Object::Creature(record) => dependency_field_creature(record, target),
        _ => "dependency",
    }
}

/// Names the field in which a line of dialogue names `target`.
pub fn dependency_field_dialogue_info(record: &DialogueInfo, target: &str) -> (res: &'static str)
    ensures
        res@ == info_field(record.deep_view(), target@),
{
    if same_id(record.speaker_id.as_str(), target) {
        "speaker_id"
    } else if same_id(record.speaker_race.as_str(), target) {
        "speaker_race"
    } else if same_id(record.speaker_class.as_str(), target) {
        "speaker_class"
    } else if same_id(record.speaker_faction.as_str(), target) {
        "speaker_faction"
    } else {
        "player_faction"
    }
}

/// Names the field in which a cell names `target`.
pub fn dependency_field_cell(record: &Cell, target: &str) -> (res: &'static str)
    ensures
        res@ == cell_field(record.deep_view().references, target@),
{
    let ghost all = record.deep_view().references;
    let mut i: usize = 0;
    assert(all.skip(0) =~= all);
    while i < record.references.len()
        invariant
            i <= record.references@.len(),
            all == record.references.deep_view(),
            cell_field(all, target@) == cell_field(all.skip(i as int), target@),
        decreases record.references@.len() - i,
    {
        let reference: &Reference = &record.references[i];
        proof {
            assert(all[i as int] == reference.deep_view());
            assert(all.skip(i as int)[0] == all[i as int]);
            assert(all.skip(i as int).skip(1) =~= all.skip(i + 1));
        }
        if same_id(reference.id.as_str(), target) {
            return "reference.id";
        }
        if is_same(&reference.owner, target) {
            return "reference.owner";
        }
        if is_same(&reference.owner_global, target) {
            return "reference.owner_global";
        }
        if is_same(&reference.owner_faction, target) {
            return "reference.owner_faction";
        }
        if is_same(&reference.key, target) {
            return "reference.key";
        }
        if is_same(&reference.trap, target) {
            return "reference.trap";
        }
        if is_same(&reference.soul, target) {
            return "reference.soul";
        }
        i += 1;
    }
    "region"
}

/// Names the field in which a person names `target`.
pub fn dependency_field_npc(record: &Npc, target: &str) -> (res: &'static str)
    ensures
        res@ == npc_field(record.deep_view(), target@),
{
    if same_id(record.script.as_str(), target) {
        "script"
    } else if has_same(&record.inventory, target) {
        "inventory"
    } else if has_same(&record.spells, target) {
        "spells"
    } else if aims_at(&record.ai_packages, target) {
        "ai_package.target"
    } else if same_id(record.race.as_str(), target) {
        "race"
    } else if same_id(record.class.as_str(), target) {
        "class"
    } else if same_id(record.faction.as_str(), target) {
        "faction"
    } else if same_id(record.head.as_str(), target) {
        "head"
    } else if same_id(record.hair.as_str(), target) {
        "hair"
    } else {
        "dependency"
    }
}

/// Names the field in which a creature names `target`.
pub fn dependency_field_creature(record: &Creature, target: &str) -> (res: &'static str)
    ensures
        res@ == creature_field(record.deep_view(), target@),
{
    if same_id(record.script.as_str(), target) {
        "script"
    } else if has_same(&record.inventory, target) {
        "inventory"
    } else if has_same(&record.spells, target) {
        "spells"
    } else if aims_at(&record.ai_packages, target) {
        "ai_package.target"
    } else {
        "sound"
    }
}

/// What a record is called in a report: its id, else its name if it is a cell.
pub open spec fn reported_id(object: ObjectView) -> Seq<char> {
    if object.id().len() > 0 {
        object.id()
    } else {
        match object {
            ObjectView::Cell(r) => r.name,
            _ => "<anonymous>"@,
        }
    }
}

/// Gives the name under which a record is reported.
pub fn source_id(object: &TES3Object) -> (res: String)
    ensures
        res@ == reported_id(object.deep_view()),
{
    let editor_id = object.editor_id();
    if !editor_id.is_empty() {
        return editor_id.to_owned();
    }
    match object {
        TES3Object::Cell(cell) => cell.name.clone(),
        _ => "<anonymous>".to_owned(),
    }
}

} // verus!
