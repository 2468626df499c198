//! Reading the wire format: the chunked byte buffer and the decoders.
pub mod buf;
pub mod de;
pub mod streaming;
