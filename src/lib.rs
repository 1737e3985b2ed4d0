//! Position-wise amino-acid difference tables between a reference protein
//! and a set of query proteins.

pub mod residue;
pub mod text;
pub mod valid_range;
pub mod codon_table;
pub mod registry;
pub mod diff;
pub mod format;

pub use codon_table::AmbiguityCodonTable;
pub use diff::{DiffRow, DiffTableBuilder};
pub use format::{render, LineEnding, OutputConfig, OutputFormat};
pub use registry::{SequenceRecord, SequenceRegistry, TranslatedRecord};
pub use valid_range::{get_valid_range, EmptySequenceError, ValidRange};
