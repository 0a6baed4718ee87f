//! Cuts a Morrowind plugin loose from its master files.

pub mod audit;
pub mod cause_laws;
pub mod causes;
pub mod cleanup;
pub mod cleanup_laws;
pub mod closure;
pub mod closure_laws;
pub mod copies;
pub mod copying_laws;
pub mod dialogue_group;
pub mod dialogue_laws;
pub mod dialogue_records;
pub mod field_laws;
pub mod finishing_laws;
pub mod group_laws;
pub mod id_map;
pub mod ids;
pub mod imports;
pub mod keeping_laws;
pub mod line_counts;
pub mod live_infos;
pub mod live_topics;
pub mod merging_laws;
pub mod need_laws;
pub mod notices;
pub mod operand_laws;
pub mod order_laws;
pub mod pending;
pub mod population;
pub mod prevailing_laws;
pub mod rebuild;
pub mod rebuild_laws;
pub mod rebuilding_laws;
pub mod record_laws;
pub mod record_views;
pub mod records;
pub mod reference_laws;
pub mod references;
pub mod release;
pub mod release_laws;
pub mod scan_laws;
pub mod scripts;
pub mod speech_laws;
pub mod standalone_laws;
pub mod step_laws;
pub mod text;
pub mod tidying_laws;
pub mod topic_reasons;
pub mod trace_laws;
pub mod vanilla_index;
pub mod view_laws;
pub mod wording_laws;
