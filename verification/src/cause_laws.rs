//! The field that a cause names does name the record that is needed.

use vstd::prelude::*;

use crate::causes::{
    any_same, cell_field, creature_field, info_field, lemma_any_same_add, npc_field, placed_field,
    some_same,
};
use crate::record_views::{
    CellView, CreatureView, DialogueInfoView, NpcView, ObjectView, ReferenceView,
};
use crate::references::{ai_targets, lowered, optional, placed_ids, references, required_ids};
use crate::text::{lemma_lower_idempotent, same};

verus! {

proof fn lemma_required_is_named(object: ObjectView, id: Seq<char>)
    requires
        required_ids(object).contains(id),
    ensures
        any_same(references(object), id),
{
    let ids = references(object);
    assert(lowered(ids).contains(id));
    let k = choose|k: int| 0 <= k < lowered(ids).len() && lowered(ids)[k] == id;
    lemma_lower_idempotent(ids[k]);
    assert(same(ids[k], id));
}

proof fn lemma_any_same_one(a: Seq<char>, id: Seq<char>)
    ensures
        any_same(seq![a], id) <==> same(a, id),
{
    assert(seq![a][0] == a);
}

/// A need of a line of dialogue that is put down to the player's faction is named there.
pub proof fn law_info_field_names_the_need(r: DialogueInfoView, id: Seq<char>)
    requires
        required_ids(ObjectView::DialogueInfo(r)).contains(id),
        info_field(r, id) == "player_faction"@,
    ensures
        same(r.player_faction, id),
{
    lemma_required_is_named(ObjectView::DialogueInfo(r), id);
    reveal_strlit("player_faction");
    reveal_strlit("speaker_id");
    reveal_strlit("speaker_race");
    reveal_strlit("speaker_class");
    reveal_strlit("speaker_faction");
    assert("player_faction"@.len() == 14);
    assert("speaker_id"@.len() == 10);
    assert("speaker_race"@.len() == 12);
    assert("speaker_class"@.len() == 13);
    assert("speaker_faction"@.len() == 15);
}

/// Every need of a person is put down to a field that names it.
pub proof fn law_npc_field_names_the_need(r: NpcView, id: Seq<char>)
    requires
        required_ids(ObjectView::Npc(r)).contains(id),
    ensures
        npc_field(r, id) != "dependency"@,
{
    lemma_required_is_named(ObjectView::Npc(r), id);
    let a = seq![r.script];
    let b = seq![r.race, r.class, r.faction, r.head, r.hair];
    lemma_any_same_add(a + r.inventory + r.spells + ai_targets(r.ai_packages), b, id);
    lemma_any_same_add(a + r.inventory + r.spells, ai_targets(r.ai_packages), id);
    lemma_any_same_add(a + r.inventory, r.spells, id);
    lemma_any_same_add(a, r.inventory, id);
    lemma_any_same_one(r.script, id);
    reveal_strlit("dependency");
    reveal_strlit("script");
    reveal_strlit("inventory");
    reveal_strlit("spells");
    reveal_strlit("ai_package.target");
    reveal_strlit("race");
    reveal_strlit("class");
    reveal_strlit("faction");
    reveal_strlit("head");
    reveal_strlit("hair");
    assert("dependency"@.len() == 10);
}

/// A need of a creature that is put down to its sound is named there.
pub proof fn law_creature_field_names_the_need(r: CreatureView, id: Seq<char>)
    requires
        required_ids(ObjectView::Creature(r)).contains(id),
        creature_field(r, id) == "sound"@,
    ensures
        same(r.sound, id),
{
    lemma_required_is_named(ObjectView::Creature(r), id);
    let a = seq![r.script];
    lemma_any_same_add(
        a + r.inventory + r.spells + ai_targets(r.ai_packages),
        seq![r.sound],
        id,
    );
    lemma_any_same_add(a + r.inventory + r.spells, ai_targets(r.ai_packages), id);
    lemma_any_same_add(a + r.inventory, r.spells, id);
    lemma_any_same_add(a, r.inventory, id);
    lemma_any_same_one(r.script, id);
    lemma_any_same_one(r.sound, id);
    reveal_strlit("sound");
    reveal_strlit("script");
    reveal_strlit("inventory");
    reveal_strlit("spells");
    reveal_strlit("ai_package.target");
    assert("sound"@.len() == 5);
}

proof fn lemma_placed_field(r: ReferenceView, id: Seq<char>)
    requires
        any_same(placed_ids(r), id),
    ensures
        placed_field(r, id) is Some,
{
    let ids = placed_ids(r);
    let rest1 = optional(r.owner);
    let rest2 = optional(r.owner_global);
    let rest3 = optional(r.owner_faction);
    let rest4 = optional(r.key);
    let rest5 = optional(r.trap);
    let rest6 = optional(r.soul);
    let first = seq![r.id];
    lemma_any_same_add(first + rest1 + rest2 + rest3 + rest4 + rest5, rest6, id);
    lemma_any_same_add(first + rest1 + rest2 + rest3 + rest4, rest5, id);
    lemma_any_same_add(first + rest1 + rest2 + rest3, rest4, id);
    lemma_any_same_add(first + rest1 + rest2, rest3, id);
    lemma_any_same_add(first + rest1, rest2, id);
    lemma_any_same_add(first, rest1, id);
    lemma_any_same_one(r.id, id);
    lemma_any_same_optional(r.owner, id);
    lemma_any_same_optional(r.owner_global, id);
    lemma_any_same_optional(r.owner_faction, id);
    lemma_any_same_optional(r.key, id);
    lemma_any_same_optional(r.trap, id);
    lemma_any_same_optional(r.soul, id);
}

proof fn lemma_any_same_optional(a: Option<Seq<char>>, id: Seq<char>)
    ensures
        any_same(optional(a), id) <==> some_same(a, id),
{
    if let Some(text) = a {
        lemma_any_same_one(text, id);
    }
}

proof fn lemma_cell_field(placed: Seq<ReferenceView>, id: Seq<char>)
    requires
        any_same(placed.flat_map(|p: ReferenceView| placed_ids(p)), id),
    ensures
        cell_field(placed, id).len() > 6,
    decreases placed.len(),
{
    let names = |p: ReferenceView| placed_ids(p);
    if placed.len() == 0 {
        assert(placed.map_values(names) =~= Seq::empty());
        assert(placed.flat_map(names) =~= Seq::empty());
    } else {
        let rest = placed.skip(1);
        assert(placed =~= seq![placed[0]] + rest);
        lemma_flat_map_front(placed);
        lemma_any_same_add(placed_ids(placed[0]), rest.flat_map(names), id);
        lemma_field_lengths();
        if any_same(placed_ids(placed[0]), id) {
            lemma_placed_field(placed[0], id);
        } else {
            lemma_cell_field(rest, id);
        }
    }
}

proof fn lemma_field_lengths()
    ensures
        "reference.id"@.len() == 12,
        "reference.owner"@.len() == 15,
        "reference.owner_global"@.len() == 22,
        "reference.owner_faction"@.len() == 23,
        "reference.key"@.len() == 13,
        "reference.trap"@.len() == 14,
        "reference.soul"@.len() == 14,
        "region"@.len() == 6,
{
    reveal_strlit("reference.id");
    reveal_strlit("reference.owner");
    reveal_strlit("reference.owner_global");
    reveal_strlit("reference.owner_faction");
    reveal_strlit("reference.key");
    reveal_strlit("reference.trap");
    reveal_strlit("reference.soul");
    reveal_strlit("region");
}

proof fn lemma_flat_map_front(placed: Seq<ReferenceView>)
    requires
        placed.len() > 0,
    ensures
        placed.flat_map(|p: ReferenceView| placed_ids(p)) == placed_ids(placed[0]) + placed.skip(
            1,
        ).flat_map(|p: ReferenceView| placed_ids(p)),
{
    let names = |p: ReferenceView| placed_ids(p);
    assert(placed.map_values(names).drop_first() =~= placed.skip(1).map_values(names));
    assert(placed.map_values(names).first() == placed_ids(placed[0]));
}

/// A need of a cell that is put down to its region is named there.
pub proof fn law_cell_field_names_the_need(r: CellView, id: Seq<char>)
    requires
        required_ids(ObjectView::Cell(r)).contains(id),
        cell_field(r.references, id) == "region"@,
    ensures
        some_same(r.region, id),
{
    lemma_required_is_named(ObjectView::Cell(r), id);
    let placed = r.references.flat_map(|p: ReferenceView| placed_ids(p));
    lemma_any_same_add(optional(r.region), placed, id);
    lemma_any_same_optional(r.region, id);
    lemma_field_lengths();
    if any_same(placed, id) {
        lemma_cell_field(r.references, id);
    }
}

} // verus!
