//! Decoding of the image data section of Photoshop PSD and PSB documents: the
//! merged composite stored at the end of the file.

use vstd::prelude::*;

pub mod psd_channel;
pub mod sections;

pub use psd_channel::PsdChannelCompression;
pub use sections::file_header_section::PsdVersion;
pub use sections::image_data_section::{ChannelBytes, ImageDataSection, ImageDataSectionError};
pub use sections::PsdCursor;

verus! {

/// The number of bits that each channel sample of a document occupies.
#[derive(Debug, Clone, Copy, PartialEq, Eq)]
pub enum PsdDepth {
    One,
    Eight,
    Sixteen,
    ThirtyTwo,
}

} // verus!
