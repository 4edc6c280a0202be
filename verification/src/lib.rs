//! Observer-side core of memsol: the attention graph of compositor windows and
//! workspaces, the compositor event grammar, `/proc` memory parsing, and the
//! discrete bookkeeping behind attention learning.

pub mod attention;
pub mod context;
pub mod hyprland;
pub mod keyed;
pub mod learning;
pub mod model;
pub mod telemetry;
pub mod text;
