use vstd::prelude::*;

verus! {

/// How the bytes of a channel are compressed.
#[derive(Debug, Clone, Copy, PartialEq, Eq)]
pub enum PsdChannelCompression {
    /// Code 0: uncompressed planar samples.
    RawData,
    /// Code 1: PackBits run-length encoding, one scanline at a time.
    RleCompressed,
    /// Code 2: ZIP without prediction.
    ZipWithoutPrediction,
    /// Code 3: ZIP with prediction.
    ZipWithPrediction,
}

impl PsdChannelCompression {
    /// The compression method that a two-byte code names, if any.
    pub open spec fn spec_new(compression: u16) -> Option<PsdChannelCompression> {
        if compression == 0 {
            Some(PsdChannelCompression::RawData)
        } else if compression == 1 {
            Some(PsdChannelCompression::RleCompressed)
        } else if compression == 2 {
            Some(PsdChannelCompression::ZipWithoutPrediction)
        } else if compression == 3 {
            Some(PsdChannelCompression::ZipWithPrediction)
        } else {
            None
        }
    }

    /// Create a compression method from its code; codes above 3 name none.
    pub fn new(compression: u16) -> (res: Option<PsdChannelCompression>)
        ensures
            res == Self::spec_new(compression),
            res is Some <==> compression <= 3,
    {
        match compression {
            0 => Some(PsdChannelCompression::RawData),
            1 => Some(PsdChannelCompression::RleCompressed),
            2 => Some(PsdChannelCompression::ZipWithoutPrediction),
            3 => Some(PsdChannelCompression::ZipWithPrediction),
            _ => None,
        }
    }
}

} // verus!
