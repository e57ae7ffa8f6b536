//! Decoder for DST embroidery stitch files: header metadata, the stitch
//! opcode state machine, absolute coordinates, bounds and statistics.
pub mod codec;
pub mod header;
pub mod parser;
pub mod types;

pub use codec::{decode_dx, decode_dy, get_bit};
pub use header::parse_header;
pub use parser::{parse_dst, DstError};
pub use types::{Bounds, Pattern, PatternMetadata, Statistics, Stitch, StitchCommand};
