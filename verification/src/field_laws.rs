//! Which field a need is put down to, what a record is called in a report, and what is noticed of
//! it.

use vstd::prelude::*;

use crate::causes::{
    any_same, cell_field, creature_field, field_of, info_field, lemma_aims, npc_field, placed_field,
    reported_id, some_aims, some_same,
};
use crate::closure::{copies_of, ImportView};
use crate::imports::reports_of;
use crate::notices::{notices_of, placed_notices, scan_notices, NoticeView};
use crate::record_views::{
    AiPackageView, CellView, CreatureView, DialogueInfoView, NpcView, ObjectView, ReferenceView,
};
use crate::references::{ai_target, ai_targets};
use crate::text::{lower, same};

verus! {

/// One of the ids is the id given, in any case.
pub open spec fn is_listed(ids: Seq<Seq<char>>, id: Seq<char>) -> bool {
    exists|k: int| 0 <= k < ids.len() && lower(#[trigger] ids[k]) == lower(id)
}

/// One of the packages aims at the id given, in any case.
pub open spec fn is_aimed_at(packages: Seq<AiPackageView>, id: Seq<char>) -> bool {
    exists|k: int|
        0 <= k < packages.len() && (match #[trigger] packages[k] {
            AiPackageView::Escort(p) => lower(p.target) == lower(id),
            AiPackageView::Follow(p) => lower(p.target) == lower(id),
            AiPackageView::Activate(p) => lower(p.target) == lower(id),
            AiPackageView::Travel => false,
            AiPackageView::Wander => false,
        })
}

proof fn lemma_listed(ids: Seq<Seq<char>>, id: Seq<char>)
    ensures
        any_same(ids, id) <==> is_listed(ids, id),
{
    if any_same(ids, id) {
        let k = choose|k: int| 0 <= k < ids.len() && same(#[trigger] ids[k], id);
        assert(lower(ids[k]) == lower(id));
    }
    if is_listed(ids, id) {
        let k = choose|k: int| 0 <= k < ids.len() && lower(#[trigger] ids[k]) == lower(id);
        assert(same(ids[k], id));
    }
}

proof fn lemma_aimed_at(packages: Seq<AiPackageView>, id: Seq<char>)
    ensures
        any_same(ai_targets(packages), id) <==> is_aimed_at(packages, id),
{
    lemma_aims(packages, id);
    if some_aims(packages, id) {
        let k = choose|k: int|
            0 <= k < packages.len() && some_same(ai_target(#[trigger] packages[k]), id);
        assert(some_same(ai_target(packages[k]), id));
    }
    assert forall|k: int|
        0 <= k < packages.len() && (match #[trigger] packages[k] {
            AiPackageView::Escort(p) => lower(p.target) == lower(id),
            AiPackageView::Follow(p) => lower(p.target) == lower(id),
            AiPackageView::Activate(p) => lower(p.target) == lower(id),
            AiPackageView::Travel => false,
            AiPackageView::Wander => false,
        }) implies some_aims(packages, id) by {
        assert(some_same(ai_target(packages[k]), id));
    }
}

/// What a person names is put down to the first of these that names it: script, inventory,
/// spells, AI packages, race, class, faction, head and hair.
pub proof fn law_field_of_a_person(r: NpcView, id: Seq<char>)
    ensures
        field_of(ObjectView::Npc(r), id) == npc_field(r, id),
        ({
            let field = npc_field(r, id);
            let in_script = lower(r.script) == lower(id);
            let in_inventory = is_listed(r.inventory, id);
            let in_spells = is_listed(r.spells, id);
            let in_packages = is_aimed_at(r.ai_packages, id);
            let in_things = in_script || in_inventory || in_spells || in_packages;
            let in_race = lower(r.race) == lower(id);
            let in_class = lower(r.class) == lower(id);
            let in_faction = lower(r.faction) == lower(id);
            let in_head = lower(r.head) == lower(id);
            let in_hair = lower(r.hair) == lower(id);
            &&& in_script ==> field == "script"@
            &&& !in_script && in_inventory ==> field == "inventory"@
            &&& !in_script && !in_inventory && in_spells ==> field == "spells"@
            &&& !in_script && !in_inventory && !in_spells && in_packages ==> field
                == "ai_package.target"@
            &&& !in_things && in_race ==> field == "race"@
            &&& !in_things && !in_race && in_class ==> field == "class"@
            &&& !in_things && !in_race && !in_class && in_faction ==> field == "faction"@
            &&& !in_things && !in_race && !in_class && !in_faction && in_head ==> field == "head"@
            &&& !in_things && !in_race && !in_class && !in_faction && !in_head && in_hair ==> field
                == "hair"@
        }),
{
    lemma_listed(r.inventory, id);
    lemma_listed(r.spells, id);
    lemma_aimed_at(r.ai_packages, id);
}

/// What a creature names is put down to the first of these that names it: script, inventory,
/// spells, AI packages and, where none of them does, the sound.
pub proof fn law_field_of_a_creature(r: CreatureView, id: Seq<char>)
    ensures
        field_of(ObjectView::Creature(r), id) == creature_field(r, id),
        ({
            let field = creature_field(r, id);
            let in_script = lower(r.script) == lower(id);
            let in_inventory = is_listed(r.inventory, id);
            let in_spells = is_listed(r.spells, id);
            let in_packages = is_aimed_at(r.ai_packages, id);
            &&& in_script ==> field == "script"@
            &&& !in_script && in_inventory ==> field == "inventory"@
            &&& !in_script && !in_inventory && in_spells ==> field == "spells"@
            &&& !in_script && !in_inventory && !in_spells && in_packages ==> field
                == "ai_package.target"@
            &&& !in_script && !in_inventory && !in_spells && !in_packages ==> field == "sound"@
        }),
{
    lemma_listed(r.inventory, id);
    lemma_listed(r.spells, id);
    lemma_aimed_at(r.ai_packages, id);
}

/// What a line names is put down to the first of these that names it: the speaker, their race,
/// class and faction and, where none of them does, the faction of the player.
pub proof fn law_field_of_a_line(r: DialogueInfoView, id: Seq<char>)
    ensures
        field_of(ObjectView::DialogueInfo(r), id) == info_field(r, id),
        ({
            let field = info_field(r, id);
            let in_speaker = lower(r.speaker_id) == lower(id);
            let in_race = lower(r.speaker_race) == lower(id);
            let in_class = lower(r.speaker_class) == lower(id);
            let in_faction = lower(r.speaker_faction) == lower(id);
            &&& in_speaker ==> field == "speaker_id"@
            &&& !in_speaker && in_race ==> field == "speaker_race"@
            &&& !in_speaker && !in_race && in_class ==> field == "speaker_class"@
            &&& !in_speaker && !in_race && !in_class && in_faction ==> field == "speaker_faction"@
            &&& !in_speaker && !in_race && !in_class && !in_faction ==> field == "player_faction"@
        }),
{
}

/// The optional id is there and is the id given, in any case.
pub open spec fn is_given(field: Option<Seq<char>>, id: Seq<char>) -> bool {
    match field {
        Some(text) => lower(text) == lower(id),
        None => false,
    }
}

/// The placed thing names the id, in any case.
pub open spec fn is_named_by_placed(p: ReferenceView, id: Seq<char>) -> bool {
    ||| lower(p.id) == lower(id)
    ||| is_given(p.owner, id)
    ||| is_given(p.owner_global, id)
    ||| is_given(p.owner_faction, id)
    ||| is_given(p.key, id)
    ||| is_given(p.trap, id)
    ||| is_given(p.soul, id)
}

/// What a cell names is put down to the first thing placed in it that names it, and there to the
/// first of these that does: what is placed, owner, global variable and faction of the ownership,
/// key, trap and soul.
pub proof fn law_field_of_a_placed_thing(r: CellView, id: Seq<char>, k: int)
    requires
        0 <= k < r.references.len(),
        is_named_by_placed(r.references[k], id),
        forall|j: int| 0 <= j < k ==> !is_named_by_placed(#[trigger] r.references[j], id),
    ensures
        field_of(ObjectView::Cell(r), id) == cell_field(r.references, id),
        ({
            let field = cell_field(r.references, id);
            let p = r.references[k];
            let in_id = lower(p.id) == lower(id);
            let in_owner = is_given(p.owner, id);
            let in_global = is_given(p.owner_global, id);
            let in_faction = is_given(p.owner_faction, id);
            let in_key = is_given(p.key, id);
            let in_trap = is_given(p.trap, id);
            let in_owners = in_owner || in_global || in_faction;
            &&& in_id ==> field == "reference.id"@
            &&& !in_id && in_owner ==> field == "reference.owner"@
            &&& !in_id && !in_owner && in_global ==> field == "reference.owner_global"@
            &&& !in_id && !in_owner && !in_global && in_faction ==> field
                == "reference.owner_faction"@
            &&& !in_id && !in_owners && in_key ==> field == "reference.key"@
            &&& !in_id && !in_owners && !in_key && in_trap ==> field == "reference.trap"@
            &&& !in_id && !in_owners && !in_key && !in_trap ==> field == "reference.soul"@
        }),
{
    lemma_cell_field_at(r.references, id, k);
}

proof fn lemma_cell_field_at(placed: Seq<ReferenceView>, id: Seq<char>, k: int)
    requires
        0 <= k <= placed.len(),
        forall|j: int| 0 <= j < k ==> !is_named_by_placed(#[trigger] placed[j], id),
        k < placed.len() ==> is_named_by_placed(placed[k], id),
    ensures
        k < placed.len() ==> placed_field(placed[k], id) == Some(cell_field(placed, id)),
        k == placed.len() ==> cell_field(placed, id) == "region"@,
    decreases k,
{
    if k > 0 {
        let rest = placed.skip(1);
        assert(!is_named_by_placed(placed[0], id));
        assert forall|j: int| 0 <= j < k - 1 implies !is_named_by_placed(
            #[trigger] rest[j],
            id,
        ) by {
            assert(!is_named_by_placed(placed[j + 1], id));
        }
        if k < placed.len() {
            assert(rest[k - 1] == placed[k]);
        }
        lemma_cell_field_at(rest, id, k - 1);
    }
}

/// What nothing placed in a cell names is put down to the region of the cell; what a record of
/// another kind names is not put down to a field of its own.
pub proof fn law_field_of_other_records(object: ObjectView, id: Seq<char>)
    ensures
        match object {
            ObjectView::Npc(_) => true,
            ObjectView::Creature(_) => true,
            ObjectView::DialogueInfo(_) => true,
            ObjectView::Cell(r) => (forall|j: int|
                0 <= j < r.references.len() ==> !is_named_by_placed(#[trigger] r.references[j], id))
                ==> field_of(object, id) == "region"@,
            _ => field_of(object, id) == "dependency"@,
        },
{
    if let ObjectView::Cell(r) = object {
        if forall|j: int|
            0 <= j < r.references.len() ==> !is_named_by_placed(#[trigger] r.references[j], id) {
            lemma_cell_field_at(r.references, id, r.references.len() as int);
        }
    }
}

/// A record is called by its id; a cell without one by its name, any other record without one is
/// anonymous.
pub proof fn law_records_are_called_by_their_ids(object: ObjectView)
    ensures
        object.id().len() > 0 ==> reported_id(object) == object.id(),
        object.id().len() == 0 ==> match object {
            ObjectView::Cell(r) => reported_id(object) == r.name,
            _ => reported_id(object) == "<anonymous>"@,
        },
{
}

/// There is one report for each copy, in order, which says what the copy is, where it comes from
/// and why it was made.
pub proof fn law_every_copy_is_reported(imports: Seq<ImportView>)
    ensures
        reports_of(imports).len() == imports.len(),
        copies_of(imports).len() == imports.len(),
        forall|k: int|
            0 <= k < imports.len() ==> {
                let report = #[trigger] reports_of(imports)[k];
                &&& report.tag == imports[k].object.tag()
                &&& report.id == imports[k].object.id()
                &&& report.master == imports[k].master
                &&& report.foundation == imports[k].foundation
                &&& report.cause == imports[k].cause
                &&& report.notices == notices_of(imports[k].object)
            },
        forall|k: int|
            0 <= k < imports.len() ==> #[trigger] copies_of(imports)[k] == imports[k].object,
{
}

/// Of a person every AI package that activates something is noticed, in order, and no other.
pub proof fn law_activations_are_noticed(r: NpcView, package: AiPackageView)
    ensures
        r.ai_packages.len() == 0 ==> notices_of(ObjectView::Npc(r)) == Seq::<NoticeView>::empty(),
        ({
            let more = NpcView { ai_packages: r.ai_packages.push(package), ..r };
            match package {
                AiPackageView::Activate(p) => notices_of(ObjectView::Npc(more)) == notices_of(
                    ObjectView::Npc(r),
                ).push(NoticeView::ActivationTarget { target: lower(p.target) }),
                _ => notices_of(ObjectView::Npc(more)) == notices_of(ObjectView::Npc(r)),
            }
        }),
{
    assert(r.ai_packages.push(package).drop_last() =~= r.ai_packages);
}

/// Of a cell every thing placed in it is noticed, in order, each with the owner, the global
/// variable and the faction of its ownership behind it, as far as they are given.
pub proof fn law_placed_things_are_noticed(r: CellView, p: ReferenceView)
    ensures
        r.references.len() == 0 ==> notices_of(ObjectView::Cell(r)) == Seq::<NoticeView>::empty(),
        ({
            let more = CellView { references: r.references.push(p), ..r };
            let old_notices = notices_of(ObjectView::Cell(r));
            let new_notices = notices_of(ObjectView::Cell(more));
            let a = old_notices.len() as int + 1;
            let b = if p.owner is Some {
                a + 1
            } else {
                a
            };
            let c = if p.owner_global is Some {
                b + 1
            } else {
                b
            };
            let d = if p.owner_faction is Some {
                c + 1
            } else {
                c
            };
            &&& new_notices.len() == d
            &&& new_notices.take(a) == old_notices.push(
                NoticeView::CellReference { id: p.id, cell: r.name },
            )
            &&& p.owner matches Some(id) ==> new_notices[a] == (NoticeView::Owner { id: lower(id) })
            &&& p.owner_global matches Some(id) ==> new_notices[b] == (NoticeView::Owner {
                id: lower(id),
            })
            &&& p.owner_faction matches Some(id) ==> new_notices[c] == (NoticeView::Owner {
                id: lower(id),
            })
        }),
{
    let all = r.references.push(p);
    assert(all.drop_last() =~= r.references);
    let more = CellView { references: all, ..r };
    let old_notices = notices_of(ObjectView::Cell(r));
    let new_notices = notices_of(ObjectView::Cell(more));
    assert(new_notices == old_notices + placed_notices(p, r.name));
    assert(placed_notices(p, r.name)[0] == (NoticeView::CellReference { id: p.id, cell: r.name }));
    assert(new_notices.take(old_notices.len() as int + 1) =~= old_notices.push(
        NoticeView::CellReference { id: p.id, cell: r.name },
    ));
}

/// Of a line its id and its speaker are noticed; of records of any other kind nothing is.
pub proof fn law_lines_are_noticed(object: ObjectView)
    ensures
        match object {
            ObjectView::Npc(_) => true,
            ObjectView::Cell(_) => true,
            ObjectView::DialogueInfo(r) => notices_of(object).len() == 1 && notices_of(object)[0]
                == (NoticeView::Line { id: r.id, speaker: lower(r.speaker_id) }),
            _ => notices_of(object).len() == 0,
        },
{
}

/// What is noticed of the records is what is noticed of each in turn that is not deleted; lines of
/// dialogue count only where they are asked for.
pub proof fn law_notices_of_records_add_up(
    objects: Seq<ObjectView>,
    object: ObjectView,
    with_dialogue: bool,
)
    ensures
        scan_notices(Seq::empty(), with_dialogue) == Seq::<NoticeView>::empty(),
        object.deleted() || (!with_dialogue && object is DialogueInfo) ==> scan_notices(
            objects.push(object),
            with_dialogue,
        ) == scan_notices(objects, with_dialogue),
        !object.deleted() && (with_dialogue || !(object is DialogueInfo)) ==> scan_notices(
            objects.push(object),
            with_dialogue,
        ) == scan_notices(objects, with_dialogue) + notices_of(object),
{
    assert(objects.push(object).drop_last() =~= objects);
}

} // verus!
