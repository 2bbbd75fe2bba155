//! A compact, self-describing binary serialization format for schema-less
//! data: integers, floats (carried bit-exactly), booleans, unit, null, byte
//! arrays, strings, sequences and maps.
//!
//! The crate provides the codec core: the bit-level wire format, the
//! header-and-body structure, and the streaming encoder and decoder that
//! translate between an in-memory value tree and a byte stream.
//!
//! The wire format itself is stated mathematically in [`wire`], and the
//! encoder and decoder are verified against it. The central laws live
//! there as proof functions: decoding inverts encoding
//! ([`wire::lemma_enc_dec_value`], [`wire::lemma_enc_dec_header`]),
//! skipping consumes exactly what decoding would
//! ([`wire::lemma_skip_equivalence`]), and the scalar encodings are bounded
//! ([`wire::lemma_length_bounds`]). Integer identity is width-independent
//! ([`value::lemma_int_value_canonical_identity`]).

mod binary;
mod decoder;
mod encoder;
mod error;
mod header;
mod io;
mod marker;
mod value;
pub mod wire;

pub use binary::BytesSlice;
pub use binary::BytesSliceIter;
pub use decoder::Decoder;
pub use decoder::decode_from_slice;
pub use encoder::Encoder;
pub use encoder::EncoderConfig;
pub use encoder::encode_to_vec;
pub use error::Error;
pub use error::ErrorCode;
pub use header::BoolHeader;
pub use header::BytesHeader;
pub use header::CompactIntHeader;
pub use header::CompactMapHeader;
pub use header::CompactSeqHeader;
pub use header::CompactStringHeader;
pub use header::ExtendedIntHeader;
pub use header::ExtendedMapHeader;
pub use header::ExtendedSeqHeader;
pub use header::ExtendedStringHeader;
pub use header::FloatHeader;
pub use header::Header;
pub use header::IntHeader;
pub use header::MapHeader;
pub use header::NullHeader;
pub use header::SeqHeader;
pub use header::StringHeader;
pub use header::UnitHeader;
pub use io::Read;
pub use io::Reference;
pub use io::SliceReader;
pub use io::VecReader;
pub use io::VecWriter;
pub use io::Write;
pub use marker::Marker;
pub use marker::MarkerMismatch;
pub use value::BoolValue;
pub use value::BytesValue;
pub use value::FloatValue;
pub use value::IntValue;
pub use value::MapValue;
pub use value::NullValue;
pub use value::SeqValue;
pub use value::StringValue;
pub use value::UnitValue;
pub use value::Value;
pub use value::ValueSpec;
pub use value::lemma_deep_view_pairs;
pub use value::lemma_deep_view_seq;
pub use value::lemma_int_value_canonical_identity;
pub use value::lemma_wf_pairs;
pub use value::lemma_wf_seq;
