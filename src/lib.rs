//! Splits a delimited table into one output file per value of a chosen column.
//!
//! The library holds the logic of the split: choosing a delimiter,
//! classifying and projecting records, batching the input, grouping a batch
//! by category, encoding output lines, building safe output paths and
//! deciding when a header line is due. Reading the input, opening files and
//! running workers is left to the caller.
use vstd::prelude::*;

pub mod chunker;
pub mod delimiter;
pub mod encode;
pub mod partition;
pub mod path;
pub mod record;
pub mod registry;

pub use chunker::{Chunker, RecordShapeError};
pub use delimiter::{Delimiter, DelimiterParseError};
pub use encode::{encode_header, encode_record, encode_rows, prepare_batch, EncodedGroup};
pub use partition::{partition, CategoryGroup};
pub use path::{create_category_path, extract_file_name, CategoryPath, PathSafetyError};
pub use record::{
    classify, find_column, get_category, get_header_indexes, get_headers, project_record,
    ConfigError, RecordProcessingContext,
};
pub use registry::WriterRegistry;

verus! {

} // verus!
