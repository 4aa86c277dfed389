//! A small catalog of labeled emoticon records ("kaomoji"), loaded from a
//! JSON configuration and filtered by an incremental, literal-substring
//! search.
pub mod config;
pub mod json;
pub mod matcher;
pub mod record;
pub mod store;
pub mod text;
