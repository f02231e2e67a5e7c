//! A codec for the chunk-based VOX scene file format.
//!
//! The crate parses a byte buffer into models, a palette, layers and a scene
//! graph of placement nodes, and turns that state back into bytes. Every
//! function states what it reads or emits over a mathematical model of the
//! wire format, and the proofs tie the readers to the writers.
pub mod color;
pub mod convert;
pub mod copy;
pub mod decimal;
pub mod error;
pub mod layer;
pub mod loader;
pub mod model;
pub mod node;
pub mod riff;
pub mod roundtrip;
pub mod seqs;
pub mod text;
pub mod theorems;
pub mod voxel;
pub mod voxfile;
pub mod voxobject;

pub use error::DecodeError;
pub use error::DomainError;
pub use error::EncodeError;
pub use color::Color;
pub use voxel::Voxel;
pub use model::Model;
pub use voxfile::VoxFile;
pub use voxobject::Voxobject;
