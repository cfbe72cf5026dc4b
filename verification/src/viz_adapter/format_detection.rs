//! Data format detection: by file extension, then by magic bytes.

use vstd::prelude::*;

verus! {

#[derive(Debug, Clone, Copy, PartialEq, Eq, Structural)]
pub enum DataFormat {
    Csv,
    Nohlcv,
}

/// The format a file extension names, if it names one.
pub open spec fn spec_format_of_extension(ext: Seq<char>) -> Option<DataFormat> {
    if ext == "csv"@ {
        Some(DataFormat::Csv)
    } else if ext == "nohlcv"@ {
        Some(DataFormat::Nohlcv)
    } else {
        None
    }
}

/// The format a file extension names: `csv` or `nohlcv`.
pub fn format_of_extension(ext: &str) -> (r: Option<DataFormat>)
    ensures
        r == spec_format_of_extension(ext@),
{
    let e = String::from_str(ext);
    let csv = String::from_str("csv");
    let nohlcv = String::from_str("nohlcv");
    if e == csv {
        Some(DataFormat::Csv)
    } else if e == nohlcv {
        Some(DataFormat::Nohlcv)
    } else {
        None
    }
}

/// The format a file's first four bytes show: "NOHL" marks a `.nohlcv`
/// file; anything else is taken for CSV.
pub fn format_of_magic(buffer: &[u8; 4]) -> (r: DataFormat)
    ensures
        r == if buffer@ == crate::nohlcv_decoder::spec_nohlcv_magic() {
            DataFormat::Nohlcv
        } else {
            DataFormat::Csv
        },
{
    if buffer[0] == 78 && buffer[1] == 79 && buffer[2] == 72 && buffer[3] == 76 {
        assert(buffer@ =~= crate::nohlcv_decoder::spec_nohlcv_magic());
        DataFormat::Nohlcv
    } else {
        assert(buffer@ != crate::nohlcv_decoder::spec_nohlcv_magic()) by {
            if buffer@ == crate::nohlcv_decoder::spec_nohlcv_magic() {
                assert(buffer@[0] == 78 && buffer@[1] == 79 && buffer@[2] == 72 && buffer@[3] == 76);
            }
        }
        DataFormat::Csv
    }
}

} // verus!
