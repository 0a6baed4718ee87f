//! What is worth saying of a record while its needs are collected.

use vstd::prelude::*;

use crate::record_views::{text_of, AiPackageView, ObjectView, ReferenceView};
use crate::records::{AiPackage, Cell, Npc, Plugin, Reference, TES3Object};
use crate::references::{is_scanned, scans};
use crate::text::lower;

verus! {

/// A notice of a need.
#[derive(Debug)]
pub enum Notice {
    /// A person activates something.
    ActivationTarget { target: String },
    /// A thing is placed in a cell.
    CellReference { id: String, cell: String },
    /// A placed thing has an owner.
    Owner { id: String },
    /// A line is spoken by someone.
    Line { id: String, speaker: String },
}

/// What a [`Notice`] holds.
pub enum NoticeView {
    ActivationTarget { target: Seq<char> },
    CellReference { id: Seq<char>, cell: Seq<char> },
    Owner { id: Seq<char> },
    Line { id: Seq<char>, speaker: Seq<char> },
}

impl DeepView for Notice {
    type V = NoticeView;

    open spec fn deep_view(&self) -> NoticeView {
        match self {
            Notice::ActivationTarget { target } => NoticeView::ActivationTarget {
                target: target@,
            },
            Notice::CellReference { id, cell } => NoticeView::CellReference {
                id: id@,
                cell: cell@,
            },
            Notice::Owner { id } => NoticeView::Owner { id: id@ },
            Notice::Line { id, speaker } => NoticeView::Line { id: id@, speaker: speaker@ },
        }
    }
}

/// The notices of AI packages.
pub open spec fn package_notices(packages: Seq<AiPackageView>) -> Seq<NoticeView>
    decreases packages.len(),
{
    if packages.len() == 0 {
        Seq::empty()
    } else {
        let before = package_notices(packages.drop_last());
        match packages.last() {
            AiPackageView::Activate(package) => before.push(
                NoticeView::ActivationTarget { target: lower(package.target) },
            ),
            _ => before,
        }
    }
}

/// The notice of an owner, if there is one.
pub open spec fn owner_notice(owner: Option<Seq<char>>) -> Seq<NoticeView> {
    match owner {
        Some(id) => seq![NoticeView::Owner { id: lower(id) }],
        None => Seq::empty(),
    }
}

/// The notices of a placed thing.
pub open spec fn placed_notices(r: ReferenceView, cell: Seq<char>) -> Seq<NoticeView> {
    seq![NoticeView::CellReference { id: r.id, cell }] + owner_notice(r.owner) + owner_notice(
        r.owner_global,
    ) + owner_notice(r.owner_faction)
}

/// The notices of placed things.
pub open spec fn all_placed_notices(placed: Seq<ReferenceView>, cell: Seq<char>) -> Seq<NoticeView>
    decreases placed.len(),
{
    if placed.len() == 0 {
        Seq::empty()
    } else {
        all_placed_notices(placed.drop_last(), cell) + placed_notices(placed.last(), cell)
    }
}

/// The notices of a record.
pub open spec fn notices_of(object: ObjectView) -> Seq<NoticeView> {
    match object {
        ObjectView::Npc(r) => package_notices(r.ai_packages),
        ObjectView::Cell(r) => all_placed_notices(r.references, r.name),
        ObjectView::DialogueInfo(r) => seq![
            NoticeView::Line { id: r.id, speaker: lower(r.speaker_id) },
        ],
        _ => Seq::empty(),
    }
}

/// The notices of the records whose needs count.
pub open spec fn scan_notices(objects: Seq<ObjectView>, with_dialogue: bool) -> Seq<NoticeView>
    decreases objects.len(),
{
    if objects.len() == 0 {
        Seq::empty()
    } else {
        let before = scan_notices(objects.drop_last(), with_dialogue);
        if is_scanned(objects.last(), with_dialogue) {
            before + notices_of(objects.last())
        } else {
            before
        }
    }
}

fn note_packages(npc: &Npc, out: &mut Vec<Notice>)
    ensures
        final(out).deep_view() == old(out).deep_view() + package_notices(
            npc.deep_view().ai_packages,
        ),
{
    let ghost all = npc.deep_view().ai_packages;
    let ghost start = out.deep_view();
    let mut i: usize = 0;
    assert(start + package_notices(all.take(0)) =~= start);
    while i < npc.ai_packages.len()
        invariant
            i <= npc.ai_packages.len(),
            all == npc.deep_view().ai_packages,
            out.deep_view() == start + package_notices(all.take(i as int)),
        decreases npc.ai_packages.len() - i,
    {
        let ghost before = out.deep_view();
        proof {
            assert(all[i as int] == npc.ai_packages@[i as int].deep_view());
            assert(all.take(i + 1).drop_last() =~= all.take(i as int));
            assert(all.take(i + 1).last() == all[i as int]);
        }
        if let AiPackage::Activate(package) = &npc.ai_packages[i] {
            out.push(
                Notice::ActivationTarget { target: package.target.as_str().to_ascii_lowercase() },
            );
            assert(out.deep_view() =~= before.push(
                NoticeView::ActivationTarget { target: lower(package.target@) },
            ));
        }
        assert(out.deep_view() =~= start + package_notices(all.take(i + 1)));
        i += 1;
    }
    assert(all.take(i as int) =~= all);
}

fn note_owner(owner: &Option<String>, out: &mut Vec<Notice>)
    ensures
        final(out).deep_view() == old(out).deep_view() + owner_notice(text_of(*owner)),
{
    let ghost before = out.deep_view();
    if let Some(id) = owner {
        out.push(Notice::Owner { id: id.as_str().to_ascii_lowercase() });
    }
    assert(out.deep_view() =~= before + owner_notice(text_of(*owner)));
}

fn note_placed(reference: &Reference, cell: &str, out: &mut Vec<Notice>)
    ensures
        final(out).deep_view() == old(out).deep_view() + placed_notices(
            reference.deep_view(),
            cell@,
        ),
{
    let ghost before = out.deep_view();
    out.push(Notice::CellReference { id: reference.id.clone(), cell: cell.to_owned() });
    assert(out.deep_view() =~= before + seq![
        NoticeView::CellReference { id: reference.id@, cell: cell@ },
    ]);
    note_owner(&reference.owner, out);
    note_owner(&reference.owner_global, out);
    note_owner(&reference.owner_faction, out);
    assert(out.deep_view() =~= before + placed_notices(reference.deep_view(), cell@));
}

fn note_cell(cell: &Cell, out: &mut Vec<Notice>)
    ensures
        final(out).deep_view() == old(out).deep_view() + all_placed_notices(
            cell.deep_view().references,
            cell.name@,
        ),
{
    let ghost all = cell.deep_view().references;
    let ghost start = out.deep_view();
    let mut i: usize = 0;
    assert(start + all_placed_notices(all.take(0), cell.name@) =~= start);
    while i < cell.references.len()
        invariant
            i <= cell.references.len(),
            all == cell.deep_view().references,
            out.deep_view() == start + all_placed_notices(all.take(i as int), cell.name@),
        decreases cell.references.len() - i,
    {
        proof {
            assert(all[i as int] == cell.references@[i as int].deep_view());
            assert(all.take(i + 1).drop_last() =~= all.take(i as int));
            assert(all.take(i + 1).last() == all[i as int]);
        }
        note_placed(&cell.references[i], cell.name.as_str(), out);
        assert(out.deep_view() =~= start + all_placed_notices(all.take(i + 1), cell.name@));
        i += 1;
    }
    assert(all.take(i as int) =~= all);
}

/// Collects the notices of a record.
pub fn collect_notices(object: &TES3Object) -> (res: Vec<Notice>)
    ensures
        res.deep_view() == notices_of(object.deep_view()),
{
    let mut out: Vec<Notice> = Vec::new();
    assert(out.deep_view() =~= Seq::empty());
    match object {
        TES3Object::Npc(npc) => {
            note_packages(npc, &mut out);
        },
        TES3Object::Cell(cell) => {
            note_cell(cell, &mut out);
        },
        TES3Object::DialogueInfo(info) => {
            out.push(
                Notice::Line {
                    id: info.id.clone(),
                    speaker: info.speaker_id.as_str().to_ascii_lowercase(),
                },
            );
        },
        _ => {},
    }
    assert(out.deep_view() =~= notices_of(object.deep_view()));
    out
}

/// Collects the notices of the records of a plugin whose needs count.
pub fn collect_scan_notices(plugin: &Plugin, include_dialogue_dependencies: bool) -> (res: Vec<
    Notice,
>)
    ensures
        res.deep_view() == scan_notices(plugin@, include_dialogue_dependencies),
{
    let ghost all = plugin@;
    let mut out: Vec<Notice> = Vec::new();
    let mut i: usize = 0;
    assert(out.deep_view() =~= scan_notices(all.take(0), include_dialogue_dependencies));
    while i < plugin.objects.len()
        invariant
            i <= plugin.objects.len(),
            all == plugin@,
            out.deep_view() == scan_notices(all.take(i as int), include_dialogue_dependencies),
        decreases plugin.objects.len() - i,
    {
        let object: &TES3Object = &plugin.objects[i];
        let ghost before = out.deep_view();
        proof {
            assert(all[i as int] == object.deep_view());
            assert(all.take(i + 1).drop_last() =~= all.take(i as int));
            assert(all.take(i + 1).last() == all[i as int]);
        }
        if scans(object, include_dialogue_dependencies) {
            let mut more = collect_notices(object);
            let ghost added = more.deep_view();
            out.append(&mut more);
            assert(out.deep_view() =~= before + added);
        }
        i += 1;
    }
    assert(all.take(i as int) =~= all);
    out
}

} // verus!
