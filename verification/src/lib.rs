//! Chart attribute readers, annotation placement, and the packaging of the
//! WebAssembly build, with their contracts proved.

pub mod annot;
pub mod assets;
pub mod axis;
pub mod binary64;
pub mod bundle;
pub mod chart_text;
pub mod package;
pub mod size;
pub mod strs;
pub mod values;
