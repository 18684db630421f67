pub mod text;
pub mod json;
pub mod ini;
pub mod canonical;
pub mod options;
pub mod paths;
pub mod config;
pub mod tkcl;
pub mod profile;
pub mod mods;
pub mod conflicts;
pub mod merge_cache;
pub mod rom;
pub mod rsdb;
pub mod byml_keys;
pub mod builder;
pub mod folder;
pub mod packs;
pub mod gamedata;
pub mod merger;
pub mod control;
pub mod install;
pub mod engine;
pub mod cache;
pub mod progress;
pub mod byml_merge;
pub mod byml_changelog;

pub use progress::Stage;
