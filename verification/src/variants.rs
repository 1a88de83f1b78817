//! Ready-made variant lists for model-server response streams, where each
//! frame is either a terminal summary (model, creation time, evaluation
//! count, done flag) or an in-progress frame carrying generated content. In
//! both lists the terminal shape is declared first: a frame satisfying both
//! shapes resolves to the terminal one.

use vstd::prelude::*;
use crate::shape::{
    shapes_view, FieldReq, FieldReqSpec, FieldType, FieldTypeSpec, ScalarField, ScalarFieldSpec,
    ScalarType, VariantShape, VariantShapeSpec,
};

verus! {

/// The shapes of a chat stream: a terminal `done` frame, then a `data` frame
/// whose `message` object carries a role, a content text and optional
/// images. The creation time is kept as plain text.
pub open spec fn chat_variants_spec() -> Seq<VariantShapeSpec> {
    seq![
        VariantShapeSpec {
            name: "done"@,
            fields: seq![
                FieldReqSpec {
                    key: "model"@,
                    ty: FieldTypeSpec::Scalar(ScalarType::Str),
                    required: true,
                },
                FieldReqSpec {
                    key: "created_at"@,
                    ty: FieldTypeSpec::Scalar(ScalarType::Str),
                    required: true,
                },
                FieldReqSpec {
                    key: "eval_count"@,
                    ty: FieldTypeSpec::Scalar(ScalarType::UInt),
                    required: true,
                },
                FieldReqSpec {
                    key: "done"@,
                    ty: FieldTypeSpec::Scalar(ScalarType::Bool),
                    required: true,
                },
            ],
        },
        VariantShapeSpec {
            name: "data"@,
            fields: seq![
                FieldReqSpec {
                    key: "model"@,
                    ty: FieldTypeSpec::Scalar(ScalarType::Str),
                    required: true,
                },
                FieldReqSpec {
                    key: "created_at"@,
                    ty: FieldTypeSpec::Scalar(ScalarType::Str),
                    required: true,
                },
                FieldReqSpec {
                    key: "message"@,
                    ty: FieldTypeSpec::Object(
                        seq![
                            ScalarFieldSpec { key: "role"@, ty: ScalarType::Str, required: true },
                            ScalarFieldSpec {
                                key: "content"@,
                                ty: ScalarType::Str,
                                required: true,
                            },
                            ScalarFieldSpec {
                                key: "images"@,
                                ty: ScalarType::Str,
                                required: false,
                            },
                        ],
                    ),
                    required: true,
                },
                FieldReqSpec {
                    key: "done"@,
                    ty: FieldTypeSpec::Scalar(ScalarType::Bool),
                    required: true,
                },
            ],
        },
    ]
}

/// The shapes of a generate stream: a terminal `done` frame, then a `data`
/// frame whose `response` field carries the generated text. The creation
/// time must be an RFC 3339 date-time.
pub open spec fn generate_variants_spec() -> Seq<VariantShapeSpec> {
    seq![
        VariantShapeSpec {
            name: "done"@,
            fields: seq![
                FieldReqSpec {
                    key: "model"@,
                    ty: FieldTypeSpec::Scalar(ScalarType::Str),
                    required: true,
                },
                FieldReqSpec {
                    key: "created_at"@,
                    ty: FieldTypeSpec::Scalar(ScalarType::Timestamp),
                    required: true,
                },
                FieldReqSpec {
                    key: "eval_count"@,
                    ty: FieldTypeSpec::Scalar(ScalarType::UInt),
                    required: true,
                },
                FieldReqSpec {
                    key: "done"@,
                    ty: FieldTypeSpec::Scalar(ScalarType::Bool),
                    required: true,
                },
            ],
        },
        VariantShapeSpec {
            name: "data"@,
            fields: seq![
                FieldReqSpec {
                    key: "model"@,
                    ty: FieldTypeSpec::Scalar(ScalarType::Str),
                    required: true,
                },
                FieldReqSpec {
                    key: "created_at"@,
                    ty: FieldTypeSpec::Scalar(ScalarType::Timestamp),
                    required: true,
                },
                FieldReqSpec {
                    key: "response"@,
                    ty: FieldTypeSpec::Scalar(ScalarType::Str),
                    required: true,
                },
                FieldReqSpec {
                    key: "done"@,
                    ty: FieldTypeSpec::Scalar(ScalarType::Bool),
                    required: true,
                },
            ],
        },
    ]
}

/// One top-level field requirement under the given key.
fn field(key: &str, ty: FieldType, required: bool) -> (r: FieldReq)
    ensures
        r@ == (FieldReqSpec { key: key@, ty: ty@, required }),
{
    FieldReq { key: String::from_str(key), ty, required }
}

/// One nested-object field requirement under the given key.
fn scalar_field(key: &str, ty: ScalarType, required: bool) -> (r: ScalarField)
    ensures
        r@ == (ScalarFieldSpec { key: key@, ty, required }),
{
    ScalarField { key: String::from_str(key), ty, required }
}

/// Builds the chat variant list, terminal shape first.
pub fn chat_variants() -> (r: Vec<VariantShape>)
    ensures
        shapes_view(r@) == chat_variants_spec(),
{
    let mut done_fields: Vec<FieldReq> = Vec::new();
    done_fields.push(field("model", FieldType::Scalar(ScalarType::Str), true));
    done_fields.push(field("created_at", FieldType::Scalar(ScalarType::Str), true));
    done_fields.push(field("eval_count", FieldType::Scalar(ScalarType::UInt), true));
    done_fields.push(field("done", FieldType::Scalar(ScalarType::Bool), true));
    let done = VariantShape { name: String::from_str("done"), fields: done_fields };

    let mut message_fields: Vec<ScalarField> = Vec::new();
    message_fields.push(scalar_field("role", ScalarType::Str, true));
    message_fields.push(scalar_field("content", ScalarType::Str, true));
    message_fields.push(scalar_field("images", ScalarType::Str, false));

    let mut data_fields: Vec<FieldReq> = Vec::new();
    data_fields.push(field("model", FieldType::Scalar(ScalarType::Str), true));
    data_fields.push(field("created_at", FieldType::Scalar(ScalarType::Str), true));
    data_fields.push(field("message", FieldType::Object(message_fields), true));
    data_fields.push(field("done", FieldType::Scalar(ScalarType::Bool), true));
    let data = VariantShape { name: String::from_str("data"), fields: data_fields };

    let mut r: Vec<VariantShape> = Vec::new();
    r.push(done);
    r.push(data);
    proof {
        assert(shapes_view(r@) =~~= chat_variants_spec());
    }
    r
}

/// Builds the generate variant list, terminal shape first.
pub fn generate_variants() -> (r: Vec<VariantShape>)
    ensures
        shapes_view(r@) == generate_variants_spec(),
{
    let mut done_fields: Vec<FieldReq> = Vec::new();
    done_fields.push(field("model", FieldType::Scalar(ScalarType::Str), true));
    done_fields.push(field("created_at", FieldType::Scalar(ScalarType::Timestamp), true));
    done_fields.push(field("eval_count", FieldType::Scalar(ScalarType::UInt), true));
    done_fields.push(field("done", FieldType::Scalar(ScalarType::Bool), true));
    let done = VariantShape { name: String::from_str("done"), fields: done_fields };

    let mut data_fields: Vec<FieldReq> = Vec::new();
    data_fields.push(field("model", FieldType::Scalar(ScalarType::Str), true));
    data_fields.push(field("created_at", FieldType::Scalar(ScalarType::Timestamp), true));
    data_fields.push(field("response", FieldType::Scalar(ScalarType::Str), true));
    data_fields.push(field("done", FieldType::Scalar(ScalarType::Bool), true));
    let data = VariantShape { name: String::from_str("data"), fields: data_fields };

    let mut r: Vec<VariantShape> = Vec::new();
    r.push(done);
    r.push(data);
    proof {
        assert(shapes_view(r@) =~~= generate_variants_spec());
    }
    r
}

} // verus!
