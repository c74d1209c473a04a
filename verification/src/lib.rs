pub mod error;
pub mod text;
pub mod pattern;
pub mod vfs_rules;
pub mod hwbp;
pub mod mem;
pub mod slices;
pub mod laws;
pub mod patch1337;
pub mod vfs;
pub mod patch_data;
pub mod font;
pub mod fetch;
pub mod interner;
pub mod worker;
pub mod pe;
pub mod codegen;
pub mod resource;
pub mod hooks;
pub mod veh;
pub mod constants;
pub mod templates;
pub mod registration;
pub mod text_tables;
pub mod image;
pub mod template_tokens;
pub mod detour;

