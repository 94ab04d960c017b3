//! What "done" means for an ikigai module, as one test: the module recipe's
//! checkable rules, walked over every endpoint a kernel binds.
mod checks;
pub mod fixture;
pub mod laws;
pub mod model;
pub mod pairs;
pub mod probe;
pub mod rdf;
pub mod statics;
pub mod suite;
pub mod report;
pub mod template;
pub mod text;
pub mod walk;

pub use checks::{Check, Checks};
pub use model::{ActionSpec, ArgSpec, Description, Entry, InputSource, Verb};
