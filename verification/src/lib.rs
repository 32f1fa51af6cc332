//! Editing Neverwinter Nights modules: ERF containers, the resources and
//! workspaces of a module, the checks and edits on its areas, dialogues,
//! journals, factions, blueprints and walkmeshes, and generated maps.
pub mod bytes;
pub mod erf_format;
pub mod error;
pub mod resource;
pub mod erf_write;
pub mod erf_read;
pub mod erf_laws;
pub mod erf_order_law;
pub mod text;
pub mod digest;
pub mod mapgen;
pub mod map_laws;
pub mod paths;
pub mod sync;
pub mod profiles;
pub mod area;
pub mod area_structure;
pub mod inventory;
pub mod dialogue;
pub mod timeline;
pub mod faction;
pub mod journal;
pub mod ai;
pub mod deploy;
pub mod git;
pub mod module_info;
pub mod workspace;
pub mod profile_store;
pub mod instances;
pub mod blueprint;
pub mod walkmesh_topology;
pub mod commands;
pub mod module_build;
