//! A console for inspecting and driving a running game: the command-line
//! grammar, the autocompletion and history engines, the registries that the
//! console keeps, lockdown mode, and the generated command reference.

pub mod text;
pub mod expr;
pub mod sorting;
pub mod autocomplete;
pub mod history;
pub mod numbers;
pub mod names;
pub mod registry;
pub mod bindings;
pub mod logfilter;
pub mod docs;
pub mod lockdown;
pub mod plot;
pub mod commands;
pub mod suggestions;
