//! Streaming decoder for newline-delimited JSON records.
//!
//! A byte stream arrives in arbitrarily sliced chunks; each newline-delimited
//! line (and a final unterminated line) is one JSON object. Every object is
//! resolved against a closed, ordered list of candidate record shapes — an
//! untagged union discriminated only by which fields are present — and the
//! first shape whose field requirements it satisfies, in declared order,
//! yields a typed record. Blank lines are skipped; a frame that is not JSON,
//! a frame matching no shape, and a failing source each end the session.
//!
//! The decoder does no I/O: the caller feeds chunks in and polls records
//! out, and every session is proved to refine `decode_stream`, the meaning
//! of the concatenated bytes — so chunk boundaries cannot affect the result.

use vstd::prelude::*;

mod decoder;
mod json;
mod shape;
mod variants;

pub use decoder::{
    all_ws, chunks_view, class_step, class_stream, decode_all, decode_stream, flatten_chunks,
    is_ws, lemma_blank_line_skipped, lemma_chunking_transparent,
    lemma_trailing_newline_irrelevant, poll_spec, prepended, records_view, scan_nl, stream_cons,
    Phase, PollStep, StepSpec, StreamEnd, StreamEndSpec, StreamSpec, StreamingRecordDecoder,
};
pub use json::{json_parse, value_rep, JsonSpec};
pub use shape::{
    classify_frame_spec, decode_field, decode_inner_field, decode_scalar, decode_variant,
    field_ok, first_match, first_match_from, inner_field_ok, lemma_first_match_from_props,
    lemma_first_match_is, lemma_no_match_unrecognized, lemma_resolution_order, obj_fields_ok,
    rfc3339_ok, scalar_matches, shapes_view, type_matches, variant_matches, DecodeError,
    DecodedRecord, ErrorSpec, FieldReq, FieldReqSpec, FieldType, FieldTypeSpec, FieldValue,
    FieldValueSpec, FrameClassSpec, InnerField, InnerFieldSpec, RecordField, RecordFieldSpec,
    RecordSpec, ScalarField, ScalarFieldSpec, ScalarType, ScalarValue, ScalarValueSpec,
    VariantShape, VariantShapeSpec,
};
pub use variants::{chat_variants, chat_variants_spec, generate_variants, generate_variants_spec};

verus! {

/// Sum of two machine-sized integers.
pub fn add(left: usize, right: usize) -> (r: usize)
    requires
        left + right <= usize::MAX,
    ensures
        r == left + right,
{
    left + right
}

} // verus!
