//! The flows behind the commands: updates, packs, audits, removal, reading and
//! installing of extensions.

pub mod audit;
pub mod audit_laws;
pub mod binding;
pub mod binding_laws;
pub mod finishing;
pub mod install_laws;
pub mod content;
pub mod content_laws;
pub mod deploy;
pub mod deploy_laws;
pub mod lookup;
pub mod lookup_laws;
pub mod outcome_laws;
pub mod refusal_laws;
pub mod removal;
pub mod removal_laws;
pub mod update_laws;
pub mod updates;
