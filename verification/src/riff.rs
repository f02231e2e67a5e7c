//! The chunk codec: length-prefixed strings and dictionaries, chunk headers,
//! chunk search, the typed chunk records and the scene tree they spell out.
pub mod chunk;
pub mod dict;
pub mod records;
pub mod span;
pub mod tree;

pub use dict::Dict;
pub use dict::VoxString;
pub use chunk::chunk_name;
pub use chunk::find_chunk;
pub use chunk::num_of_chunks;
pub use chunk::write_chunk;
pub use records::nTRN;
pub use records::Rotation;
pub use records::nGRP;
pub use records::nSHP;
pub use records::LAYR;
pub use records::MATL;
pub use crate::convert::i32_from_vec;
pub use tree::add_node_children;
pub use tree::nodes_from_chunks;
pub use tree::parse_string;
