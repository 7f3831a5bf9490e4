//! Reconciles two directories of media files: a source folder with
//! arbitrarily named files and a target folder whose files carry the
//! desired names.  Entries are gathered and naturally sorted, paired by
//! position, renamed to the target names when the names are similar
//! enough, and finally copied over the target files.
//!
//! The decision logic is pure: everything the filesystem or the operator
//! contributes (does a file exist, how similar are two names, what did a
//! prompt answer) enters as a plain value, so every decision is stated in
//! a contract and checked.

mod config;
mod copier;
mod gather;
mod natural;
mod pairer;

pub use config::Args;
pub use config::FileEntry;
pub use natural::cmp_safe;
pub use natural::nat_leq;
pub use natural::nat_order_total;
pub use natural::nat_order_transitive;
pub use natural::sorted_by_nat;
pub use natural::sort_entries;
pub use gather::gather;
pub use gather::ext_of;
pub use gather::spec_ext;
pub use gather::keeps;
pub use gather::kept_names;
pub use gather::lower_of;
pub use config::names_of;
pub use config::strings_view;
pub use pairer::PairDecision;
pub use pairer::PairEnv;
pub use pairer::PairReport;
pub use pairer::RenameOp;
pub use pairer::decide_pair;
pub use pairer::decision_included;
pub use pairer::decision_renames;
pub use pairer::pair_needs_prompt;
pub use pairer::rename_files;
pub use pairer::spec_decide;
pub use pairer::spec_included;
pub use pairer::intends_rename;
pub use pairer::spec_needs_prompt;
pub use pairer::decision_at;
pub use pairer::entry_views;
pub use pairer::included_views;
pub use pairer::intended_renames;
pub use pairer::performed_renames;
pub use pairer::rename_op_views;
pub use pairer::lemma_answer_irrelevant;
pub use copier::is_close;
pub use copier::spec_is_close;
pub use copier::duration_millis;
pub use copier::spec_duration_millis;
pub use copier::wf_duration;
pub use copier::DURATION_CLOSE_MILLIS;
pub use copier::CopyEnv;
pub use copier::CopyOutcome;
pub use copier::CopyOp;
pub use copier::CopyReport;
pub use copier::decide_copy;
pub use copier::copy_files;
pub use copier::copy_needs_duration_prompt;
pub use copier::copy_needs_overwrite_prompt;
pub use copier::spec_copy_outcome;
pub use copier::spec_duration_mismatch;
pub use copier::outcome_at;
pub use copier::copy_op_views;
pub use copier::performed_copies;
pub use copier::reported_copies;
pub use copier::lemma_copier_dry_run;
pub use pairer::lemma_output_matches_targets;
pub use pairer::lemma_pairer_idempotent;
pub use pairer::lemma_pairer_boundary;
pub use pairer::lemma_pairer_dry_run;
