//! Converts a script annotated with `#%%` cell-delimiter comments into a
//! notebook document: an ordered list of code, markdown and raw cells plus
//! kernel and language metadata.

use vstd::prelude::*;

pub mod language;
pub mod notebook;
pub mod paths;
pub mod scan;
pub mod text;

verus! {

pub use crate::language::Language;
pub use crate::language::LanguageParseError;
pub use crate::notebook::Python2Ipynb;

} // verus!
