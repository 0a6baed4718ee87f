//! What is done to a plugin besides copying: stray followers sent home, deleted and doubled records
//! removed, the masters released.

use std::collections::HashSet;

use vstd::hash_set::StringHashSet;
use vstd::prelude::*;

use crate::record_views::{
    AiEscortPackageView, AiFollowPackageView, AiPackageView, CreatureView, HeaderView,
    MagicEffectView, NpcView, ObjectView,
};
use crate::records::{AiPackage, EffectId, MagicEffect, Plugin, TES3Object};
use crate::text::lower;

verus! {

/// The records that are not deleted.
pub open spec fn undeleted(objects: Seq<ObjectView>) -> Seq<ObjectView> {
    objects.filter(|o: ObjectView| !o.deleted())
}

/// Removes the deleted records.
pub fn strip_deleted_records(plugin: &mut Plugin)
    ensures
        final(plugin)@ == undeleted(old(plugin)@),
{
    let ghost all = plugin@;
    let ghost stays = |o: ObjectView| !o.deleted();
    let mut objects: Vec<TES3Object> = Vec::new();
    std::mem::swap(&mut plugin.objects, &mut objects);
    let mut kept: Vec<TES3Object> = Vec::new();
    assert(kept.deep_view() =~= all.take(0).filter(stays));
    for object in rest: objects.into_iter()
        invariant
            rest.seq() == objects@,
            all == objects.deep_view(),
            stays == (|o: ObjectView| !o.deleted()),
            kept.deep_view() == all.take(rest.index()).filter(stays),
    {
        let ghost i = rest.index();
        let ghost before = kept.deep_view();
        proof {
            assert(all[i] == object.deep_view());
            assert(all.take(i + 1) =~= all.take(i).push(all[i]));
            all.take(i).lemma_filter_push(all[i], stays);
        }
        if !object.deleted() {
            kept.push(object);
            assert(kept.deep_view() =~= before.push(all[i]));
        }
    }
    assert(all.take(all.len() as int) =~= all);
    plugin.objects = kept;
}

/// The two effects agree in all that the records hold.
pub open spec fn is_same_effect(a: MagicEffectView, b: MagicEffectView) -> bool {
    a == MagicEffectView { handle: a.handle, ..b }
}

/// One of the records is a magic effect like `effect`.
pub open spec fn has_same_effect(objects: Seq<ObjectView>, effect: MagicEffectView) -> bool {
    exists|i: int|
        0 <= i < objects.len() && (#[trigger] objects[i] matches ObjectView::MagicEffect(other)
            && is_same_effect(other, effect))
}

/// The records without the magic effects that are like one before them.
pub open spec fn without_doubles(objects: Seq<ObjectView>) -> Seq<ObjectView>
    decreases objects.len(),
{
    if objects.len() == 0 {
        Seq::empty()
    } else {
        let kept = without_doubles(objects.drop_last());
        match objects.last() {
            ObjectView::MagicEffect(effect) if has_same_effect(kept, effect) => kept,
            _ => kept.push(objects.last()),
        }
    }
}

/// Whether two magic effects agree in all that the records hold.
fn is_same_magic_effect(a: &MagicEffect, b: &MagicEffect) -> (res: bool)
    ensures
        res == is_same_effect(a.deep_view(), b.deep_view()),
{
    a.id == b.id && a.deleted == b.deleted && a.tag == b.tag && a.effect_id == b.effect_id
        && a.bolt_sound == b.bolt_sound && a.cast_sound == b.cast_sound && a.hit_sound
        == b.hit_sound && a.area_sound == b.area_sound && a.cast_visual == b.cast_visual
        && a.bolt_visual == b.bolt_visual && a.hit_visual == b.hit_visual && a.area_visual
        == b.area_visual && a.rest == b.rest
}

/// Whether one of the records is a magic effect like `effect`.
fn holds_same_effect(objects: &Vec<TES3Object>, effect: &MagicEffect) -> (res: bool)
    ensures
        res == has_same_effect(objects.deep_view(), effect.deep_view()),
{
    let ghost all = objects.deep_view();
    let mut i: usize = 0;
    while i < objects.len()
        invariant
            i <= objects.len(),
            all == objects.deep_view(),
            forall|k: int|
                0 <= k < i ==> (#[trigger] all[k] matches ObjectView::MagicEffect(other)
                    ==> !is_same_effect(other, effect.deep_view())),
        decreases objects.len() - i,
    {
        assert(all[i as int] == objects@[i as int].deep_view());
        if let TES3Object::MagicEffect(other) = &objects[i] {
            if is_same_magic_effect(other, effect) {
                return true;
            }
        }
        i += 1;
    }
    false
}

/// Removes the magic effects that are like one before them in every respect.
pub fn remove_exact_duplicate_magic_effects(plugin: &mut Plugin)
    ensures
        final(plugin)@ == without_doubles(old(plugin)@),
{
    let ghost all = plugin@;
    let mut objects: Vec<TES3Object> = Vec::new();
    std::mem::swap(&mut plugin.objects, &mut objects);
    let mut retained: Vec<TES3Object> = Vec::new();
    assert(retained.deep_view() =~= without_doubles(all.take(0)));
    for object in rest: objects.into_iter()
        invariant
            rest.seq() == objects@,
            all == objects.deep_view(),
            retained.deep_view() == without_doubles(all.take(rest.index())),
    {
        let ghost i = rest.index();
        let ghost before = retained.deep_view();
        proof {
            assert(all[i] == object.deep_view());
            assert(all.take(i + 1).drop_last() =~= all.take(i));
            assert(all.take(i + 1).last() == all[i]);
        }
        let doubled = match &object {
            TES3Object::MagicEffect(effect) => holds_same_effect(&retained, effect),
            _ => false,
        };
        if !doubled {
            retained.push(object);
            assert(retained.deep_view() =~= before.push(all[i]));
        }
    }
    assert(all.take(all.len() as int) =~= all);
    plugin.objects = retained;
}

/// The cell to which an actor is sent whose own is not there.
pub open spec fn home_cell(cell: Seq<char>, defined: Set<Seq<char>>) -> Seq<char> {
    if defined.contains(lower(cell)) {
        cell
    } else {
        "igtestcell"@
    }
}

/// The package with a cell that is there.
pub open spec fn homed_package(package: AiPackageView, defined: Set<Seq<char>>) -> AiPackageView {
    match package {
        AiPackageView::Escort(p) => AiPackageView::Escort(
            AiEscortPackageView { cell: home_cell(p.cell, defined), ..p },
        ),
        AiPackageView::Follow(p) => AiPackageView::Follow(
            AiFollowPackageView { cell: home_cell(p.cell, defined), ..p },
        ),
        _ => package,
    }
}

/// The packages with cells that are there.
pub open spec fn homed_packages(
    packages: Seq<AiPackageView>,
    defined: Set<Seq<char>>,
) -> Seq<AiPackageView> {
    packages.map_values(|p: AiPackageView| homed_package(p, defined))
}

/// The record, if it is an actor, with the cells of its packages there.
pub open spec fn homed_object(object: ObjectView, defined: Set<Seq<char>>) -> ObjectView {
    match object {
        ObjectView::Creature(r) => ObjectView::Creature(
            CreatureView { ai_packages: homed_packages(r.ai_packages, defined), ..r },
        ),
        ObjectView::Npc(r) => ObjectView::Npc(
            NpcView { ai_packages: homed_packages(r.ai_packages, defined), ..r },
        ),
        _ => object,
    }
}

/// The records, in which the packages of actors name cells that are there.
pub open spec fn homed(objects: Seq<ObjectView>, defined: Set<Seq<char>>) -> Seq<ObjectView> {
    objects.map_values(|o: ObjectView| homed_object(o, defined))
}

fn home(cell: &mut String, defined_ids: &StringHashSet)
    ensures
        final(cell)@ == home_cell(old(cell)@, defined_ids@),
{
    let id = cell.as_str().to_ascii_lowercase();
    if !defined_ids.contains(id.as_str()) {
        *cell = "igtestcell".to_owned();
    }
}

fn home_packages(packages: &mut Vec<AiPackage>, defined_ids: &StringHashSet)
    ensures
        final(packages).deep_view() == homed_packages(old(packages).deep_view(), defined_ids@),
{
    let ghost all = packages.deep_view();
    let mut i: usize = 0;
    while i < packages.len()
        invariant
            i <= packages.len(),
            packages.deep_view().len() == all.len(),
            forall|k: int|
                0 <= k < i ==> #[trigger] packages.deep_view()[k] == homed_package(
                    all[k],
                    defined_ids@,
                ),
            forall|k: int| i <= k < all.len() ==> #[trigger] packages.deep_view()[k] == all[k],
        decreases packages.len() - i,
    {
        let ghost before = packages.deep_view();
        assert(before[i as int] == packages@[i as int].deep_view());
        match &mut packages[i] {
            AiPackage::Escort(package) => {
                home(&mut package.cell, defined_ids);
            },
            AiPackage::Follow(package) => {
                home(&mut package.cell, defined_ids);
            },
            _ => {},
        }
        assert(packages.deep_view() =~= before.update(
            i as int,
            homed_package(before[i as int], defined_ids@),
        ));
        i += 1;
    }
    assert(packages.deep_view() =~= homed_packages(all, defined_ids@));
}

/// Sends actors that escort or follow to a cell that is not there to a cell that is.
pub fn send_actors_home(plugin: &mut Plugin, defined_ids: &StringHashSet)
    ensures
        final(plugin)@ == homed(old(plugin)@, defined_ids@),
{
    let ghost all = plugin@;
    let mut i: usize = 0;
    while i < plugin.objects.len()
        invariant
            i <= plugin.objects.len(),
            plugin@.len() == all.len(),
            forall|k: int|
                0 <= k < i ==> #[trigger] plugin@[k] == homed_object(all[k], defined_ids@),
            forall|k: int| i <= k < all.len() ==> #[trigger] plugin@[k] == all[k],
        decreases plugin.objects.len() - i,
    {
        let ghost before = plugin@;
        assert(before[i as int] == plugin.objects@[i as int].deep_view());
        match &mut plugin.objects[i] {
            TES3Object::Creature(creature) => {
                home_packages(&mut creature.ai_packages, defined_ids);
            },
            TES3Object::Npc(npc) => {
                home_packages(&mut npc.ai_packages, defined_ids);
            },
            _ => {},
        }
        assert(plugin@ =~= before.update(
            i as int,
            homed_object(before[i as int], defined_ids@),
        ));
        i += 1;
    }
    assert(plugin@ =~= homed(all, defined_ids@));
}

/// The magic effects that the records define, the deleted ones too.
pub open spec fn defined_effects(objects: Seq<ObjectView>) -> Set<EffectId>
    decreases objects.len(),
{
    if objects.len() == 0 {
        Set::empty()
    } else {
        match objects.last() {
            ObjectView::MagicEffect(effect) => defined_effects(objects.drop_last()).insert(
                effect.effect_id,
            ),
            _ => defined_effects(objects.drop_last()),
        }
    }
}

/// Collects the magic effects that a plugin defines.
pub fn collect_defined_effects(plugin: &Plugin) -> (res: HashSet<EffectId>)
    ensures
        res@ == defined_effects(plugin@),
{
    broadcast use vstd::std_specs::hash::group_hash_axioms;

    let ghost all = plugin@;
    let mut res: HashSet<EffectId> = HashSet::new();
    let mut i: usize = 0;
    assert(res@ =~= defined_effects(all.take(0)));
    while i < plugin.objects.len()
        invariant
            i <= plugin.objects.len(),
            all == plugin@,
            res@ == defined_effects(all.take(i as int)),
        decreases plugin.objects.len() - i,
    {
        proof {
            assert(all[i as int] == plugin.objects@[i as int].deep_view());
            assert(all.take(i + 1).drop_last() =~= all.take(i as int));
            assert(all.take(i + 1).last() == all[i as int]);
        }
        if let TES3Object::MagicEffect(effect) = &plugin.objects[i] {
            res.insert(effect.effect_id);
        }
        i += 1;
    }
    assert(all.take(i as int) =~= all);
    res
}

/// The place of the first header, or the end.
pub open spec fn header_at(objects: Seq<ObjectView>) -> int
    decreases objects.len(),
{
    if objects.len() == 0 || objects[0] is Header {
        0
    } else {
        1 + header_at(objects.skip(1))
    }
}

/// The records, in which the header names no masters.
pub open spec fn without_masters(objects: Seq<ObjectView>) -> Seq<ObjectView> {
    match objects[header_at(objects)] {
        ObjectView::Header(header) if header_at(objects) < objects.len() => objects.update(
            header_at(objects),
            ObjectView::Header(HeaderView { masters: Seq::empty(), ..header }),
        ),
        _ => objects,
    }
}

/// Where the first header stands.
pub proof fn lemma_header_at(objects: Seq<ObjectView>)
    ensures
        0 <= header_at(objects) <= objects.len(),
        header_at(objects) < objects.len() ==> objects[header_at(objects)] is Header,
        forall|k: int| 0 <= k < header_at(objects) ==> !(#[trigger] objects[k] is Header),
    decreases objects.len(),
{
    if objects.len() > 0 && !(objects[0] is Header) {
        let rest = objects.skip(1);
        lemma_header_at(rest);
        assert forall|k: int| 0 <= k < header_at(objects) implies !(
        #[trigger] objects[k] is Header) by {
            if k > 0 {
                assert(rest[k - 1] == objects[k]);
            }
        }
    }
}

/// Makes the header name no masters; says whether there is a header.
pub fn release_masters(plugin: &mut Plugin) -> (res: bool)
    ensures
        final(plugin)@ == without_masters(old(plugin)@),
        res == (header_at(old(plugin)@) < old(plugin)@.len()),
{
    let ghost all = plugin@;
    let mut i: usize = 0;
    proof {
        lemma_header_at(all);
    }
    while i < plugin.objects.len()
        invariant
            i <= plugin.objects.len(),
            plugin@ == all,
            all == old(plugin)@,
            i <= header_at(all) <= all.len(),
            header_at(all) < all.len() ==> all[header_at(all)] is Header,
            forall|k: int| 0 <= k < header_at(all) ==> !(#[trigger] all[k] is Header),
        decreases plugin.objects.len() - i,
    {
        assert(all[i as int] == plugin.objects@[i as int].deep_view());
        if let TES3Object::Header(header) = &mut plugin.objects[i] {
            header.masters = Vec::new();
            assert(plugin@[i as int]->Header_0.masters =~= Seq::empty());
            assert(plugin@ =~= without_masters(all));
            return true;
        }
        assert(plugin@ =~= all);
        i += 1;
    }
    false
}

} // verus!
