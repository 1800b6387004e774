//! What a decoded DTED file consists of.
use crate::primitives::{Angle, AxisElement};
use vstd::prelude::*;

verus! {

/// Length in bytes of the Data Set Identification block.
pub const DT2_DSI_RECORD_LENGTH: usize = 648;

/// Length in bytes of the Accuracy Description block.
pub const DT2_ACC_RECORD_LENGTH: usize = 2700;

/// The fixed byte strings by which the format marks its blocks and fields.
#[derive(Debug, Clone, Copy, PartialEq, Eq, Structural)]
pub enum RecognitionSentinel {
    /// Start of the User Header Label: the letters `UHL` and the digit `1`.
    UHL,
    /// Start of a data record: the single byte `0xAA`.
    DATA,
    /// A numeric field whose value is not available: the letters `NA`.
    NA,
}

impl RecognitionSentinel {
    /// The bytes of the sentinel.
    pub open spec fn bytes(self) -> Seq<u8> {
        match self {
            RecognitionSentinel::UHL => seq![0x55u8, 0x48u8, 0x4Cu8, 0x31u8],
            RecognitionSentinel::DATA => seq![0xAAu8],
            RecognitionSentinel::NA => seq![0x4Eu8, 0x41u8],
        }
    }

    /// The bytes of the sentinel.
    pub fn value(&self) -> (r: &'static [u8])
        ensures
            r@ == self.bytes(),
    {
        match self {
            RecognitionSentinel::UHL => {
                let s: &'static [u8; 4] = &[0x55u8, 0x48u8, 0x4Cu8, 0x31u8];
                s.as_slice()
            },
            RecognitionSentinel::DATA => {
                let s: &'static [u8; 1] = &[0xAAu8];
                s.as_slice()
            },
            RecognitionSentinel::NA => {
                let s: &'static [u8; 2] = &[0x4Eu8, 0x41u8];
                s.as_slice()
            },
        }
    }
}

/// The User Header Label: where the grid lies and how large it is.
#[derive(Debug, Clone, Copy, PartialEq, Eq)]
pub struct RawDTEDHeader {
    /// Latitude and longitude of the grid's south-west corner.
    pub origin: AxisElement<Angle>,
    /// Distance between grid points, in tenths of a second of arc.
    pub interval_secs_x_10: AxisElement<u32>,
    /// Absolute vertical accuracy in metres; `None` where the file gives it
    /// as not available.
    pub accuracy: Option<u32>,
    /// Number of grid points: `lon` lines of longitude, each with `lat`
    /// points of latitude.
    pub count: AxisElement<u32>,
}

/// One data record: the elevations along a line of longitude.
#[derive(Debug, Clone, PartialEq, Eq)]
pub struct RawDTEDRecord {
    /// Sequence number of the record, 24 bits wide.
    pub blk_count: u32,
    /// Index of this line of longitude.
    pub lon_count: u16,
    /// Index of the first point of latitude.
    pub lat_count: u16,
    /// Elevations in metres, from south to north.
    pub elevations: Vec<i16>,
}

/// A data record as a mathematical value.
pub struct RecordView {
    pub blk_count: u32,
    pub lon_count: u16,
    pub lat_count: u16,
    pub elevations: Seq<i16>,
}

impl RecordView {
    /// The block counter fits in its 24 bits.
    pub open spec fn well_formed(self) -> bool {
        self.blk_count <= 0xFF_FFFF
    }
}

impl View for RawDTEDRecord {
    type V = RecordView;

    open spec fn view(&self) -> RecordView {
        RecordView {
            blk_count: self.blk_count,
            lon_count: self.lon_count,
            lat_count: self.lat_count,
            elevations: self.elevations@,
        }
    }
}

/// The records of a vector, each as a mathematical value.
pub open spec fn record_views(records: Seq<RawDTEDRecord>) -> Seq<RecordView> {
    Seq::new(records.len(), |i: int| records[i]@)
}

/// An auxiliary block of the file, kept as the bytes it was read from.
#[derive(Debug, Clone, PartialEq, Eq)]
pub struct RawDTEDBlock {
    pub bytes: Vec<u8>,
}

/// A decoded file: the header and one record for each line of longitude.
#[derive(Debug, Clone, PartialEq, Eq)]
pub struct RawDTEDFile {
    /// The User Header Label.
    pub header: RawDTEDHeader,
    /// The data records, from west to east.
    pub data: Vec<RawDTEDRecord>,
    /// The Data Set Identification block.  The decoder skips the block and
    /// leaves this empty.
    pub dsi_record: Option<RawDTEDBlock>,
    /// The Accuracy Description block.  The decoder skips the block and
    /// leaves this empty.
    pub acc_record: Option<RawDTEDBlock>,
}

/// A decoded file as a mathematical value.
pub struct FileView {
    pub header: RawDTEDHeader,
    pub data: Seq<RecordView>,
    pub dsi_record: Option<Seq<u8>>,
    pub acc_record: Option<Seq<u8>>,
}

impl FileView {
    /// The file holds the grid that its header describes: one well-formed
    /// record for each line of longitude, and in each record one sample for
    /// each point of latitude.
    pub open spec fn well_formed(self) -> bool {
        &&& self.data.len() == self.header.count.lon
        &&& forall|i: int|
            0 <= i < self.data.len() ==> {
                &&& (#[trigger] self.data[i]).well_formed()
                &&& self.data[i].elevations.len() == self.header.count.lat
            }
    }
}

impl View for RawDTEDFile {
    type V = FileView;

    open spec fn view(&self) -> FileView {
        FileView {
            header: self.header,
            data: record_views(self.data@),
            dsi_record: match self.dsi_record {
                Some(b) => Some(b.bytes@),
                None => None,
            },
            acc_record: match self.acc_record {
                Some(b) => Some(b.bytes@),
                None => None,
            },
        }
    }
}

} // verus!
