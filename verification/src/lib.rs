//! Verified core of the EKUKE investigation workbench: the entity graph
//! model, text extraction of indicators, plugin argument handling, merge
//! planning of plugin results, search snippets and assistant decisions.

pub mod text;
pub mod ids;
pub mod entity;
pub mod collect;
pub mod paths;
pub mod plugin;
pub mod merge;
pub mod case;
pub mod config;
pub mod db;
pub mod ai;
pub mod search;
