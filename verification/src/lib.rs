//! Core logic of the Overseer game companion.

pub mod bits;
pub mod career;
pub mod guard;
pub mod json;
pub mod msgpack;
pub mod names;
pub mod order;
pub mod performance;
pub mod plurals;
pub mod proxy;
pub mod race;
pub mod race_director;
pub mod race_export;
pub mod race_field;
pub mod race_reveal;
pub mod reset;
pub mod response_hook;
pub mod runtime;
pub mod settings;
pub mod sidecar;
pub mod skip;
pub mod sql;
pub mod startup_probe;
pub mod template;
pub mod text;
pub mod tools;
pub mod tt_il2cpp;
pub mod ui_input;
pub mod ui_tempo;
pub mod uma_bridge;
pub mod umas;
pub mod watchdog;
