//! Parsing of the tagged descriptor records found in verified-boot metadata.
//!
//! Every parser here is bounds-checked and proved never to read outside its
//! input; every view it returns borrows from that input.
mod error;
mod hashtree;
mod util;

pub use error::{DescriptorError, DescriptorResult};
pub use hashtree::{
    HashtreeDescriptor, HashtreeDescriptorFlags, HashtreeHeader, HASHTREE_HEADER_SIZE,
    HASH_ALGORITHM_OFFSET, HASH_ALGORITHM_WIDTH,
};
pub use util::{
    nul_terminated_text, parse_descriptor, split_slice, utf8_text, DescriptorHeader,
    ParsedDescriptor, DESCRIPTOR_PREFIX_SIZE,
};
