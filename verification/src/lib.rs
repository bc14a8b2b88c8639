#![allow(unused_imports)]

pub mod bits;
pub mod config;
pub mod content;
pub mod errors;
pub mod sampler;
pub mod tree;

pub use bits::{generate_bit, generate_byte, GenByteResult};
pub use config::{validate_config, ItemConfig, Probability, RngConfig};
pub use content::{generate_file_content, generate_file_name};
pub use errors::{GenError, WrongConfigDataError};
pub use tree::{generate_file, ResolvedItem};
