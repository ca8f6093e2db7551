//! Substitution of `{{variable}}` placeholders in text.
//!
//! A placeholder is two opening braces, a name and two closing braces,
//! with optional whitespace round the name. Names are compared without
//! regard to the case of their letters. [`extract_variables`] finds the
//! names, [`parse_substitution`] and [`reconcile`] settle the values,
//! and [`process_content`] puts the values in.

pub mod engine;
pub mod entry;
pub mod extractor;
pub mod laws;
pub mod pipeline;
pub mod reconciler;
pub mod substitutions;
pub mod syntax;
pub mod text;
pub mod variables;

pub use engine::process_content;
pub use entry::{parse_substitution, ParseError};
pub use extractor::extract_variables;
pub use pipeline::{collect_substitutions, run, Error, Outcome};
pub use reconciler::{get_single_substitution, reconcile, ReconcileError};
pub use substitutions::Substitutions;
pub use variables::VariableSet;
