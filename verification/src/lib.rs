//! Incident postmortem documents: rendering, editing and searching markdown
//! incident files, with every text transformation specified over character
//! sequences.

pub mod text;
pub mod timestamp;
pub mod templates;
pub mod search;
pub mod cli;
pub mod server;
pub mod properties;
pub mod status_laws;
