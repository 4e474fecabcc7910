//! Editor-side logic of the DevScribe code editor: text layout, input
//! decisions, and the row planning behind its panels.
pub mod text;
pub mod wrap;
pub mod input;
pub mod json;
pub mod chat;
pub mod diff;
pub mod paths;
pub mod search;
pub mod sidebar;
pub mod status;
pub mod settings;
pub mod glyphs;
pub mod layout;
pub mod signature;
pub mod peek;
pub mod sessions;
pub mod ruler;
