//! A pipeline of reversible byte-stream encodings with byte-exact
//! round-trip recovery.  The two original codecs — a multi-alphabet
//! Unicode bit-packing steganographic codec and a 16-point
//! quadrature-amplitude-modulation audio codec — are implemented and
//! proved here down to the bit level; the peer stages (raw pixel
//! extraction, document-metadata embedding, stream compression) delegate
//! their container work to external codec libraries and are specified by
//! contract.  The orchestrator applies the stages in order to encode and
//! in exactly the reverse order to decode.

pub mod bits;
pub mod cli;
pub mod error;
pub mod image_data;
pub mod lzma;
pub mod naming;
pub mod pipeline;
pub mod pipeline_builder;
pub mod transform;
pub mod transforms;
pub mod utf8;
