//! The whole way of a plugin that is cut loose from its masters.

use std::collections::HashSet;

use vstd::hash_set::StringHashSet;
use vstd::prelude::*;

use crate::audit::DialogueAudit;
use crate::cleanup::{
    collect_defined_effects, defined_effects, header_at, homed, release_masters,
    remove_exact_duplicate_magic_effects, send_actors_home, strip_deleted_records, undeleted,
    without_doubles, without_masters,
};
use crate::closure::{completed, copies_of, FoundationView};
use crate::imports::{
    add_vanilla_refs, add_vanilla_refs_without_dialogue, reports_of, ImportedRecord,
};
use crate::line_counts::record_count;
use crate::live_topics::are_scripts_splittable;
use crate::notices::{collect_scan_notices, scan_notices, Notice};
use crate::population::{all_reported, report_dialogue_population, ReportedActor};
use crate::rebuild::{decouple_dialogue_infos, decoupled, decoupled_account};
use crate::record_views::ObjectView;
use crate::records::{EffectId, Plugin};
use crate::references::{collect_defined_ids, defined_ids};
use crate::vanilla_index::masters_of;

verus! {

/// What came of the first pass: what was worth saying of the records, those that were copied, the
/// actors that may speak, and all that is defined by now.
pub struct Preparation {
    pub notices: Vec<Notice>,
    pub imports: Vec<ImportedRecord>,
    pub population: Vec<ReportedActor>,
    pub defined_ids: StringHashSet,
    pub defined_effects: HashSet<EffectId>,
}

/// What came of the second pass: the account of the dialogue, what was worth saying of the records,
/// those that were copied, and whether there was a header to take the masters from.
#[derive(Debug)]
pub struct Completion {
    pub audit: DialogueAudit,
    pub notices: Vec<Notice>,
    pub imports: Vec<ImportedRecord>,
    pub has_header: bool,
}

/// The first pass. What only lines of dialogue need is left out, so that lines which the masters
/// would drop do not bring their speakers along.
pub open spec fn first_pass(
    objects: Seq<ObjectView>,
    masters: Seq<Seq<ObjectView>>,
) -> FoundationView {
    completed(
        objects,
        masters,
        false,
        defined_ids(objects),
        defined_effects(objects),
        "pre-dialogue"@,
    )
}

/// The records after the first pass.
pub open spec fn prepared(objects: Seq<ObjectView>, masters: Seq<Seq<ObjectView>>) -> Seq<
    ObjectView,
> {
    let after = first_pass(objects, masters);
    homed(objects + copies_of(after.work.imports), after.work.defined)
}

/// Copies what a plugin needs from its masters, but for what only dialogue needs, and sends actors
/// home.
pub fn prepare_plugin(plugin: &mut Plugin, base_plugins: &[Plugin]) -> (res: Preparation)
    ensures
        ({
            let masters = masters_of(base_plugins@);
            let after = first_pass(old(plugin)@, masters);
            &&& final(plugin)@ == prepared(old(plugin)@, masters)
            &&& res.notices.deep_view() == scan_notices(old(plugin)@, false)
            &&& res.imports.deep_view() == reports_of(after.work.imports)
            &&& res.population.deep_view() == all_reported(final(plugin)@)
            &&& res.defined_ids@ == after.work.defined
            &&& res.defined_effects@ == after.effects
        }),
{
    let mut defined_ids = collect_defined_ids(plugin);
    let mut defined_effects = collect_defined_effects(plugin);
    let notices = collect_scan_notices(plugin, false);
    let imports = add_vanilla_refs_without_dialogue(
        plugin,
        base_plugins,
        &mut defined_ids,
        &mut defined_effects,
        "pre-dialogue",
    );
    send_actors_home(plugin, &defined_ids);
    let population = report_dialogue_population(plugin);
    Preparation { notices, imports, population, defined_ids, defined_effects }
}

/// The second pass, over the records with their dialogue written anew.
pub open spec fn second_pass(
    objects: Seq<ObjectView>,
    masters: Seq<Seq<ObjectView>>,
    defined: Set<Seq<char>>,
    effects: Set<EffectId>,
) -> FoundationView {
    completed(decoupled(objects, masters), masters, true, defined, effects, "post-dialogue"@)
}

/// All records that there are after the second pass.
pub open spec fn gathered(
    objects: Seq<ObjectView>,
    masters: Seq<Seq<ObjectView>>,
    defined: Set<Seq<char>>,
    effects: Set<EffectId>,
) -> Seq<ObjectView> {
    decoupled(objects, masters) + copies_of(
        second_pass(objects, masters, defined, effects).work.imports,
    )
}

/// The records of the plugin in the end.
pub open spec fn finished(
    objects: Seq<ObjectView>,
    masters: Seq<Seq<ObjectView>>,
    defined: Set<Seq<char>>,
    effects: Set<EffectId>,
) -> Seq<ObjectView> {
    without_masters(without_doubles(undeleted(gathered(objects, masters, defined, effects))))
}

/// Writes the dialogue of a plugin anew, copies what it needs by now, removes what is deleted or
/// doubled, and releases the masters.
pub fn finish_plugin(
    plugin: &mut Plugin,
    base_plugins: &[Plugin],
    defined_ids: &mut StringHashSet,
    defined_effects: &mut HashSet<EffectId>,
) -> (res: Completion)
    requires
        are_scripts_splittable(old(plugin)@),
        record_count(old(plugin)@, masters_of(base_plugins@)) <= usize::MAX,
    ensures
        ({
            let masters = masters_of(base_plugins@);
            let defined = old(defined_ids)@;
            let effects = old(defined_effects)@;
            let after = second_pass(old(plugin)@, masters, defined, effects);
            let cleaned = without_doubles(
                undeleted(gathered(old(plugin)@, masters, defined, effects)),
            );
            &&& final(plugin)@ == finished(old(plugin)@, masters, defined, effects)
            &&& final(defined_ids)@ == after.work.defined
            &&& final(defined_effects)@ == after.effects
            &&& res.audit.wf()
            &&& res.audit@ == decoupled_account(old(plugin)@, masters)
            &&& res.notices.deep_view() == scan_notices(decoupled(old(plugin)@, masters), true)
            &&& res.imports.deep_view() == reports_of(after.work.imports)
            &&& res.has_header == (header_at(cleaned) < cleaned.len())
        }),
{
    let audit = decouple_dialogue_infos(plugin, base_plugins);
    let notices = collect_scan_notices(plugin, true);
    // The lines that were kept may need records that nothing needed before.
    let imports = add_vanilla_refs(
        plugin,
        base_plugins,
        defined_ids,
        defined_effects,
        "post-dialogue",
    );
    strip_deleted_records(plugin);
    remove_exact_duplicate_magic_effects(plugin);
    let has_header = release_masters(plugin);
    Completion { audit, notices, imports, has_header }
}

} // verus!
