//! Record shapes and their resolution: an ordered list of candidate variants,
//! each with a required-field set, matched in declared order against a parsed
//! JSON object, and the decoding of the matching variant's fields into typed
//! values.

use vstd::prelude::*;
use crate::json;
use crate::json::{JsonSpec, json_parse, value_rep};

verus! {

/// A scalar field type a variant can require.
#[derive(Clone, Copy, PartialEq, Eq, Structural, Debug)]
pub enum ScalarType {
    /// Any JSON string.
    Str,
    /// A JSON number that is a non-negative integer representable in a `u64`.
    UInt,
    /// A JSON boolean.
    Bool,
    /// A JSON string holding an RFC 3339 date-time.
    Timestamp,
}

/// One field of a nested object shape.
pub struct ScalarField {
    pub key: String,
    pub ty: ScalarType,
    pub required: bool,
}

/// The type a top-level field is declared with: a scalar, or a nested object
/// with its own field set.
pub enum FieldType {
    Scalar(ScalarType),
    Object(Vec<ScalarField>),
}

/// One top-level field of a variant. An optional field may be absent or
/// JSON-null; a required one must be present with a matching value.
pub struct FieldReq {
    pub key: String,
    pub ty: FieldType,
    pub required: bool,
}

/// One candidate record shape of the closed, ordered variant set.
pub struct VariantShape {
    pub name: String,
    pub fields: Vec<FieldReq>,
}

// Mathematical views of the shape types.

#[verifier::ext_equal]
pub struct ScalarFieldSpec {
    pub key: Seq<char>,
    pub ty: ScalarType,
    pub required: bool,
}

#[verifier::ext_equal]
pub enum FieldTypeSpec {
    Scalar(ScalarType),
    Object(Seq<ScalarFieldSpec>),
}

#[verifier::ext_equal]
pub struct FieldReqSpec {
    pub key: Seq<char>,
    pub ty: FieldTypeSpec,
    pub required: bool,
}

#[verifier::ext_equal]
pub struct VariantShapeSpec {
    pub name: Seq<char>,
    pub fields: Seq<FieldReqSpec>,
}

impl View for ScalarField {
    type V = ScalarFieldSpec;

    open spec fn view(&self) -> ScalarFieldSpec {
        ScalarFieldSpec { key: self.key@, ty: self.ty, required: self.required }
    }
}

impl View for FieldType {
    type V = FieldTypeSpec;

    open spec fn view(&self) -> FieldTypeSpec {
        match self {
            FieldType::Scalar(s) => FieldTypeSpec::Scalar(*s),
            FieldType::Object(fs) => FieldTypeSpec::Object(
                fs@.map_values(|f: ScalarField| f@),
            ),
        }
    }
}

impl View for FieldReq {
    type V = FieldReqSpec;

    open spec fn view(&self) -> FieldReqSpec {
        FieldReqSpec { key: self.key@, ty: self.ty@, required: self.required }
    }
}

impl View for VariantShape {
    type V = VariantShapeSpec;

    open spec fn view(&self) -> VariantShapeSpec {
        VariantShapeSpec { name: self.name@, fields: self.fields@.map_values(|f: FieldReq| f@) }
    }
}

/// The view of a whole variant list.
pub open spec fn shapes_view(shapes: Seq<VariantShape>) -> Seq<VariantShapeSpec> {
    shapes.map_values(|v: VariantShape| v@)
}

/// Whether the characters form an RFC 3339 date-time; what `chrono` accepts.
pub uninterp spec fn rfc3339_ok(s: Seq<char>) -> bool;

/// Relies on `chrono::DateTime::<chrono::FixedOffset>::parse_from_rfc3339`:
/// acceptance depends on the characters alone.
#[verifier::external_body]
pub(crate) fn is_rfc3339(s: &str) -> (r: bool)
    ensures
        r == rfc3339_ok(s@),
{
    chrono::DateTime::<chrono::FixedOffset>::parse_from_rfc3339(s).is_ok()
}

// Matching: which JSON values satisfy a declared type, a field requirement,
// and a whole variant.

/// Whether a JSON value is compatible with a scalar type.
pub open spec fn scalar_matches(t: ScalarType, j: JsonSpec) -> bool {
    match t {
        ScalarType::Str => j is Str,
        ScalarType::UInt => j matches JsonSpec::Num(o) && o is Some,
        ScalarType::Bool => j is Bool,
        ScalarType::Timestamp => j matches JsonSpec::Str(s) && rfc3339_ok(s),
    }
}

/// Whether an object (given as its field map) satisfies one nested-object
/// field requirement: present and type-compatible if required; absent, null
/// or type-compatible if optional.
pub open spec fn inner_field_ok(f: ScalarFieldSpec, m: Map<Seq<char>, JsonSpec>) -> bool {
    if m.contains_key(f.key) {
        (!f.required && m[f.key] is Null) || scalar_matches(f.ty, m[f.key])
    } else {
        !f.required
    }
}

/// Whether a JSON value is an object whose fields satisfy every requirement
/// in `fs`.
pub open spec fn obj_fields_ok(fs: Seq<ScalarFieldSpec>, j: JsonSpec) -> bool {
    &&& j is Obj
    &&& forall|i: int| 0 <= i < fs.len() ==> #[trigger] inner_field_ok(fs[i], j->Obj_0)
}

/// Whether a JSON value is compatible with a declared field type.
pub open spec fn type_matches(t: FieldTypeSpec, j: JsonSpec) -> bool {
    match t {
        FieldTypeSpec::Scalar(s) => scalar_matches(s, j),
        FieldTypeSpec::Object(fs) => obj_fields_ok(fs, j),
    }
}

/// Whether an object satisfies one top-level field requirement.
pub open spec fn field_ok(f: FieldReqSpec, m: Map<Seq<char>, JsonSpec>) -> bool {
    if m.contains_key(f.key) {
        (!f.required && m[f.key] is Null) || type_matches(f.ty, m[f.key])
    } else {
        !f.required
    }
}

/// Whether a JSON value satisfies a whole variant: it is an object and every
/// declared field requirement holds of it.
pub open spec fn variant_matches(v: VariantShapeSpec, j: JsonSpec) -> bool {
    &&& j is Obj
    &&& forall|i: int| 0 <= i < v.fields.len() ==> #[trigger] field_ok(v.fields[i], j->Obj_0)
}

/// The first variant, from position `i` on in declared order, that the value
/// satisfies.
pub open spec fn first_match_from(shapes: Seq<VariantShapeSpec>, j: JsonSpec, i: int) -> Option<
    int,
>
    decreases shapes.len() - i,
{
    if i < 0 || i >= shapes.len() {
        None
    } else if variant_matches(shapes[i], j) {
        Some(i)
    } else {
        first_match_from(shapes, j, i + 1)
    }
}

/// The first variant in declared order that the value satisfies; the
/// disambiguation rule for the untagged union.
pub open spec fn first_match(shapes: Seq<VariantShapeSpec>, j: JsonSpec) -> Option<int> {
    first_match_from(shapes, j, 0)
}

// Decoded records and their views.

/// A decoded scalar value. A timestamp keeps its verbatim text, already
/// checked to be an RFC 3339 date-time.
pub enum ScalarValue {
    Str(String),
    UInt(u64),
    Bool(bool),
    Time(String),
}

/// One decoded field of a nested object; `None` when the optional field was
/// absent or null.
pub struct InnerField {
    pub key: String,
    pub value: Option<ScalarValue>,
}

/// One decoded top-level field value.
pub enum FieldValue {
    Scalar(ScalarValue),
    Object(Vec<InnerField>),
    /// An optional field that was absent or null.
    Missing,
}

/// One decoded top-level field, under its declared key.
pub struct RecordField {
    pub key: String,
    pub value: FieldValue,
}

/// The output of a successful classification: the resolved variant (by
/// position and name) and its decoded fields, one per declared field.
pub struct DecodedRecord {
    pub variant: usize,
    pub name: String,
    pub fields: Vec<RecordField>,
}

#[verifier::ext_equal]
pub enum ScalarValueSpec {
    Str(Seq<char>),
    UInt(u64),
    Bool(bool),
    Time(Seq<char>),
}

#[verifier::ext_equal]
pub struct InnerFieldSpec {
    pub key: Seq<char>,
    pub value: Option<ScalarValueSpec>,
}

#[verifier::ext_equal]
pub enum FieldValueSpec {
    Scalar(ScalarValueSpec),
    Object(Seq<InnerFieldSpec>),
    Missing,
}

#[verifier::ext_equal]
pub struct RecordFieldSpec {
    pub key: Seq<char>,
    pub value: FieldValueSpec,
}

#[verifier::ext_equal]
pub struct RecordSpec {
    pub variant: int,
    pub name: Seq<char>,
    pub fields: Seq<RecordFieldSpec>,
}

impl View for ScalarValue {
    type V = ScalarValueSpec;

    open spec fn view(&self) -> ScalarValueSpec {
        match self {
            ScalarValue::Str(s) => ScalarValueSpec::Str(s@),
            ScalarValue::UInt(u) => ScalarValueSpec::UInt(*u),
            ScalarValue::Bool(b) => ScalarValueSpec::Bool(*b),
            ScalarValue::Time(s) => ScalarValueSpec::Time(s@),
        }
    }
}

impl View for InnerField {
    type V = InnerFieldSpec;

    open spec fn view(&self) -> InnerFieldSpec {
        InnerFieldSpec {
            key: self.key@,
            value: match self.value {
                Some(s) => Some(s@),
                None => None,
            },
        }
    }
}

impl View for FieldValue {
    type V = FieldValueSpec;

    open spec fn view(&self) -> FieldValueSpec {
        match self {
            FieldValue::Scalar(s) => FieldValueSpec::Scalar(s@),
            FieldValue::Object(fs) => FieldValueSpec::Object(
                fs@.map_values(|f: InnerField| f@),
            ),
            FieldValue::Missing => FieldValueSpec::Missing,
        }
    }
}

impl View for RecordField {
    type V = RecordFieldSpec;

    open spec fn view(&self) -> RecordFieldSpec {
        RecordFieldSpec { key: self.key@, value: self.value@ }
    }
}

impl View for DecodedRecord {
    type V = RecordSpec;

    open spec fn view(&self) -> RecordSpec {
        RecordSpec {
            variant: self.variant as int,
            name: self.name@,
            fields: self.fields@.map_values(|f: RecordField| f@),
        }
    }
}

// Decoding: what value each declared field of a matching variant maps to.

/// The decoded value of a scalar field; meaningful under `scalar_matches`.
pub open spec fn decode_scalar(t: ScalarType, j: JsonSpec) -> ScalarValueSpec {
    match (t, j) {
        (ScalarType::Str, JsonSpec::Str(s)) => ScalarValueSpec::Str(s),
        (ScalarType::UInt, JsonSpec::Num(Some(u))) => ScalarValueSpec::UInt(u),
        (ScalarType::Bool, JsonSpec::Bool(b)) => ScalarValueSpec::Bool(b),
        (ScalarType::Timestamp, JsonSpec::Str(s)) => ScalarValueSpec::Time(s),
        _ => arbitrary(),
    }
}

/// The decoded value of one nested-object field.
pub open spec fn decode_inner_field(f: ScalarFieldSpec, m: Map<Seq<char>, JsonSpec>) -> InnerFieldSpec {
    InnerFieldSpec {
        key: f.key,
        value: if m.contains_key(f.key) && !(m[f.key] is Null) {
            Some(decode_scalar(f.ty, m[f.key]))
        } else {
            None
        },
    }
}

/// The decoded value of one top-level field of an object.
pub open spec fn decode_field(f: FieldReqSpec, m: Map<Seq<char>, JsonSpec>) -> FieldValueSpec {
    if m.contains_key(f.key) && !(m[f.key] is Null) {
        match (f.ty, m[f.key]) {
            (FieldTypeSpec::Scalar(s), v) => FieldValueSpec::Scalar(decode_scalar(s, v)),
            (FieldTypeSpec::Object(fs), JsonSpec::Obj(im)) => FieldValueSpec::Object(
                fs.map_values(|g: ScalarFieldSpec| decode_inner_field(g, im)),
            ),
            _ => arbitrary(),
        }
    } else {
        FieldValueSpec::Missing
    }
}

/// The record a matching variant decodes an object to.
pub open spec fn decode_variant(
    v: VariantShapeSpec,
    variant: int,
    m: Map<Seq<char>, JsonSpec>,
) -> RecordSpec {
    RecordSpec {
        variant,
        name: v.name,
        fields: v.fields.map_values(
            |f: FieldReqSpec| RecordFieldSpec { key: f.key, value: decode_field(f, m) },
        ),
    }
}

// Errors and frame classification.

/// Why a decode session ended short of a clean end-of-stream.
pub enum DecodeError {
    /// The byte source itself failed.
    SourceError,
    /// A frame's bytes are not valid JSON; carries the raw frame bytes.
    MalformedFrame(Vec<u8>),
    /// Valid JSON that satisfies no declared variant; carries the parsed value.
    UnrecognizedShape(serde_json::Value),
}

#[verifier::ext_equal]
pub enum ErrorSpec {
    Source,
    Malformed(Seq<u8>),
    Unrecognized(JsonSpec),
}

impl View for DecodeError {
    type V = ErrorSpec;

    open spec fn view(&self) -> ErrorSpec {
        match self {
            DecodeError::SourceError => ErrorSpec::Source,
            DecodeError::MalformedFrame(b) => ErrorSpec::Malformed(b@),
            DecodeError::UnrecognizedShape(v) => ErrorSpec::Unrecognized(value_rep(*v)),
        }
    }
}

/// What one non-blank frame classifies to.
#[verifier::ext_equal]
pub enum FrameClassSpec {
    Record(RecordSpec),
    Malformed(Seq<u8>),
    Unrecognized(JsonSpec),
}

/// The classification of one non-blank frame: parse it, resolve the first
/// matching variant in declared order, and decode its fields; `Malformed` when
/// the bytes are not JSON, `Unrecognized` when no variant matches.
pub open spec fn classify_frame_spec(
    shapes: Seq<VariantShapeSpec>,
    frame: Seq<u8>,
) -> FrameClassSpec {
    match json_parse(frame) {
        None => FrameClassSpec::Malformed(frame),
        Some(j) => match first_match(shapes, j) {
            Some(i) => match j {
                JsonSpec::Obj(m) => FrameClassSpec::Record(decode_variant(shapes[i], i, m)),
                _ => FrameClassSpec::Unrecognized(j),
            },
            None => FrameClassSpec::Unrecognized(j),
        },
    }
}

/// A found first match satisfies its variant, is preceded only by
/// non-matching variants, and implies the value is an object.
pub proof fn lemma_first_match_from_props(shapes: Seq<VariantShapeSpec>, j: JsonSpec, i: int)
    requires
        0 <= i <= shapes.len(),
    ensures
        match first_match_from(shapes, j, i) {
            Some(k) => i <= k < shapes.len() && variant_matches(shapes[k], j) && (j is Obj)
                && forall|l: int| i <= l < k ==> !variant_matches(#[trigger] shapes[l], j),
            None => forall|l: int| i <= l < shapes.len() ==> !variant_matches(
                #[trigger] shapes[l],
                j,
            ),
        },
    decreases shapes.len() - i,
{
    if i < shapes.len() {
        if variant_matches(shapes[i], j) {
        } else {
            lemma_first_match_from_props(shapes, j, i + 1);
        }
    }
}

/// A variant that matches, preceded only by variants that do not, is the
/// resolved one.
pub proof fn lemma_first_match_is(shapes: Seq<VariantShapeSpec>, j: JsonSpec, i: int)
    requires
        0 <= i < shapes.len(),
        variant_matches(shapes[i], j),
        forall|l: int| 0 <= l < i ==> !variant_matches(#[trigger] shapes[l], j),
    ensures
        first_match(shapes, j) == Some(i),
{
    lemma_first_match_is_from(shapes, j, 0, i);
}

/// Variant resolution is order-sensitive and deterministic: whenever some
/// variant satisfies the value, the resolved variant is the first such one in
/// declared order — in particular, a value satisfying two variants always
/// resolves to the one declared earlier.
pub proof fn lemma_resolution_order(shapes: Seq<VariantShapeSpec>, j: JsonSpec, i: int)
    requires
        0 <= i < shapes.len(),
        variant_matches(shapes[i], j),
    ensures
        first_match(shapes, j) matches Some(k) && k <= i && variant_matches(shapes[k], j),
{
    lemma_first_match_from_props(shapes, j, 0);
    if let Some(k) = first_match(shapes, j) {
        if k > i {
            assert(!variant_matches(shapes[i], j));
        }
    }
}

/// A parsed value that satisfies no declared variant classifies to
/// `Unrecognized`, never to a defaulted record.
pub proof fn lemma_no_match_unrecognized(shapes: Seq<VariantShapeSpec>, frame: Seq<u8>, j: JsonSpec)
    requires
        json_parse(frame) == Some(j),
        forall|i: int| 0 <= i < shapes.len() ==> !variant_matches(#[trigger] shapes[i], j),
    ensures
        classify_frame_spec(shapes, frame) == FrameClassSpec::Unrecognized(j),
{
    lemma_first_match_from_props(shapes, j, 0);
}

proof fn lemma_first_match_is_from(shapes: Seq<VariantShapeSpec>, j: JsonSpec, s: int, i: int)
    requires
        0 <= s <= i < shapes.len(),
        variant_matches(shapes[i], j),
        forall|l: int| s <= l < i ==> !variant_matches(#[trigger] shapes[l], j),
    ensures
        first_match_from(shapes, j, s) == Some(i),
    decreases i - s,
{
    if s < i {
        lemma_first_match_is_from(shapes, j, s + 1, i);
    }
}

// Executable matching.

/// Whether the value is compatible with a scalar type.
fn scalar_matches_exec(t: &ScalarType, w: &serde_json::Value) -> (r: bool)
    ensures
        r == scalar_matches(*t, value_rep(*w)),
{
    match t {
        ScalarType::Str => json::value_as_str(w).is_some(),
        ScalarType::UInt => json::value_as_u64(w).is_some(),
        ScalarType::Bool => json::value_as_bool(w).is_some(),
        ScalarType::Timestamp => match json::value_as_str(w) {
            Some(s) => is_rfc3339(s),
            None => false,
        },
    }
}

/// Whether the object behind `v` satisfies one nested-object field.
fn inner_field_ok_exec(f: &ScalarField, v: &serde_json::Value) -> (r: bool)
    requires
        value_rep(*v) is Obj,
    ensures
        r == inner_field_ok(f@, value_rep(*v)->Obj_0),
{
    match json::value_get(v, &f.key) {
        None => !f.required,
        Some(w) => {
            if !f.required && json::value_is_null(w) {
                true
            } else {
                scalar_matches_exec(&f.ty, w)
            }
        },
    }
}

/// Whether the value is compatible with a declared field type.
fn type_matches_exec(t: &FieldType, w: &serde_json::Value) -> (r: bool)
    ensures
        r == type_matches(t@, value_rep(*w)),
{
    match t {
        FieldType::Scalar(s) => scalar_matches_exec(s, w),
        FieldType::Object(fs) => {
            if !json::value_is_object(w) {
                return false;
            }
            let ghost fspec = fs@.map_values(|f: ScalarField| f@);
            assert(t@ == FieldTypeSpec::Object(fspec));
            let mut i: usize = 0;
            while i < fs.len()
                invariant
                    0 <= i <= fs.len(),
                    t@ == FieldTypeSpec::Object(fspec),
                    value_rep(*w) is Obj,
                    fspec == fs@.map_values(|f: ScalarField| f@),
                    forall|k: int| 0 <= k < i ==> #[trigger] inner_field_ok(
                        fspec[k],
                        value_rep(*w)->Obj_0,
                    ),
                decreases fs.len() - i,
            {
                if !inner_field_ok_exec(&fs[i], w) {
                    assert(fspec[i as int] == fs[i as int]@);
                    return false;
                }
                assert(fspec[i as int] == fs[i as int]@);
                i += 1;
            }
            true
        },
    }
}

/// Whether the object behind `v` satisfies one top-level field requirement.
fn field_ok_exec(f: &FieldReq, v: &serde_json::Value) -> (r: bool)
    requires
        value_rep(*v) is Obj,
    ensures
        r == field_ok(f@, value_rep(*v)->Obj_0),
{
    match json::value_get(v, &f.key) {
        None => !f.required,
        Some(w) => {
            if !f.required && json::value_is_null(w) {
                true
            } else {
                type_matches_exec(&f.ty, w)
            }
        },
    }
}

/// Whether the value satisfies a whole variant.
fn variant_matches_exec(shape: &VariantShape, v: &serde_json::Value) -> (r: bool)
    ensures
        r == variant_matches(shape@, value_rep(*v)),
{
    if !json::value_is_object(v) {
        return false;
    }
    let mut i: usize = 0;
    while i < shape.fields.len()
        invariant
            0 <= i <= shape.fields.len(),
            value_rep(*v) is Obj,
            forall|k: int| 0 <= k < i ==> #[trigger] field_ok(
                shape@.fields[k],
                value_rep(*v)->Obj_0,
            ),
        decreases shape.fields.len() - i,
    {
        if !field_ok_exec(&shape.fields[i], v) {
            assert(shape@.fields[i as int] == shape.fields[i as int]@);
            return false;
        }
        i += 1;
    }
    true
}

/// The position of the first variant in declared order that the value
/// satisfies.
fn find_first_match(shapes: &Vec<VariantShape>, v: &serde_json::Value) -> (r: Option<usize>)
    ensures
        match r {
            Some(i) => i < shapes@.len() && first_match(shapes_view(shapes@), value_rep(*v))
                == Some(i as int),
            None => first_match(shapes_view(shapes@), value_rep(*v)) is None,
        },
{
    let ghost sv = shapes_view(shapes@);
    let ghost j = value_rep(*v);
    let mut i: usize = 0;
    while i < shapes.len()
        invariant
            0 <= i <= shapes.len(),
            sv == shapes_view(shapes@),
            j == value_rep(*v),
            forall|k: int| 0 <= k < i ==> !variant_matches(#[trigger] sv[k], j),
        decreases shapes.len() - i,
    {
        if variant_matches_exec(&shapes[i], v) {
            proof {
                assert(sv[i as int] == shapes@[i as int]@);
                lemma_first_match_is(sv, j, i as int);
            }
            return Some(i);
        }
        assert(sv[i as int] == shapes@[i as int]@);
        i += 1;
    }
    proof {
        lemma_first_match_from_props(sv, j, 0);
    }
    None
}

// Executable decoding.

/// Copies a string.
fn copy_string(s: &String) -> (r: String)
    ensures
        r@ == s@,
{
    String::from_str(s.as_str())
}

/// The decoded value of a scalar field.
fn decode_scalar_exec(t: &ScalarType, w: &serde_json::Value) -> (r: ScalarValue)
    requires
        scalar_matches(*t, value_rep(*w)),
    ensures
        r@ == decode_scalar(*t, value_rep(*w)),
{
    match t {
        ScalarType::Str => ScalarValue::Str(String::from_str(json::value_as_str(w).unwrap())),
        ScalarType::UInt => ScalarValue::UInt(json::value_as_u64(w).unwrap()),
        ScalarType::Bool => ScalarValue::Bool(json::value_as_bool(w).unwrap()),
        ScalarType::Timestamp => ScalarValue::Time(
            String::from_str(json::value_as_str(w).unwrap()),
        ),
    }
}

/// The decoded value of one nested-object field of the object behind `v`.
fn decode_inner_exec(f: &ScalarField, v: &serde_json::Value) -> (r: InnerField)
    requires
        value_rep(*v) is Obj,
        inner_field_ok(f@, value_rep(*v)->Obj_0),
    ensures
        r@ == decode_inner_field(f@, value_rep(*v)->Obj_0),
{
    let value = match json::value_get(v, &f.key) {
        None => None,
        Some(w) => {
            if json::value_is_null(w) {
                None
            } else {
                Some(decode_scalar_exec(&f.ty, w))
            }
        },
    };
    InnerField { key: copy_string(&f.key), value }
}

/// The decoded value of one top-level field of the object behind `v`.
fn decode_field_exec(f: &FieldReq, v: &serde_json::Value) -> (r: FieldValue)
    requires
        value_rep(*v) is Obj,
        field_ok(f@, value_rep(*v)->Obj_0),
    ensures
        r@ == decode_field(f@, value_rep(*v)->Obj_0),
{
    match json::value_get(v, &f.key) {
        None => FieldValue::Missing,
        Some(w) => {
            if json::value_is_null(w) {
                FieldValue::Missing
            } else {
                match &f.ty {
                    FieldType::Scalar(s) => FieldValue::Scalar(decode_scalar_exec(s, w)),
                    FieldType::Object(fs) => {
                        let ghost im = value_rep(*w)->Obj_0;
                        let ghost fspec = fs@.map_values(|g: ScalarField| g@);
                        proof {
                            assert(f@.ty == FieldTypeSpec::Object(fspec));
                            assert(type_matches(f@.ty, value_rep(*w)));
                        }
                        let mut out: Vec<InnerField> = Vec::new();
                        let mut i: usize = 0;
                        while i < fs.len()
                            invariant
                                0 <= i <= fs.len(),
                                value_rep(*w) is Obj,
                                im == value_rep(*w)->Obj_0,
                                fspec == fs@.map_values(|g: ScalarField| g@),
                                type_matches(FieldTypeSpec::Object(fspec), value_rep(*w)),
                                out@.len() == i,
                                forall|k: int| 0 <= k < i ==> out@[k]@ == decode_inner_field(
                                    #[trigger] fspec[k],
                                    im,
                                ),
                            decreases fs.len() - i,
                        {
                            assert(fspec[i as int] == fs[i as int]@);
                            let inner = decode_inner_exec(&fs[i], w);
                            out.push(inner);
                            i += 1;
                        }
                        proof {
                            assert(out@.map_values(|g: InnerField| g@) =~= fs@.map_values(
                                |g: ScalarField| g@,
                            ).map_values(|g: ScalarFieldSpec| decode_inner_field(g, im)));
                        }
                        FieldValue::Object(out)
                    },
                }
            }
        },
    }
}

/// The record the resolved variant decodes the object behind `v` to.
fn decode_variant_exec(shape: &VariantShape, variant: usize, v: &serde_json::Value) -> (r:
    DecodedRecord)
    requires
        variant_matches(shape@, value_rep(*v)),
    ensures
        r@ == decode_variant(shape@, variant as int, value_rep(*v)->Obj_0),
{
    let ghost m = value_rep(*v)->Obj_0;
    let mut fields: Vec<RecordField> = Vec::new();
    let mut i: usize = 0;
    while i < shape.fields.len()
        invariant
            0 <= i <= shape.fields.len(),
            value_rep(*v) is Obj,
            m == value_rep(*v)->Obj_0,
            variant_matches(shape@, value_rep(*v)),
            fields@.len() == i,
            forall|k: int| 0 <= k < i ==> fields@[k]@ == (RecordFieldSpec {
                key: shape@.fields[k].key,
                value: decode_field(#[trigger] shape@.fields[k], m),
            }),
        decreases shape.fields.len() - i,
    {
        assert(shape@.fields[i as int] == shape.fields[i as int]@);
        let value = decode_field_exec(&shape.fields[i], v);
        let field = RecordField { key: copy_string(&shape.fields[i].key), value };
        fields.push(field);
        i += 1;
    }
    let record = DecodedRecord { variant, name: copy_string(&shape.name), fields };
    proof {
        assert(record@.fields =~= decode_variant(shape@, variant as int, m).fields);
        assert(record@ =~= decode_variant(shape@, variant as int, m));
    }
    record
}

/// Classifies one non-blank frame: parses it, resolves the first matching
/// variant in declared order, and decodes its fields; `MalformedFrame` with
/// the raw bytes when the frame is not JSON, `UnrecognizedShape` with the
/// parsed value when no variant matches.
pub(crate) fn classify_frame(shapes: &Vec<VariantShape>, frame: Vec<u8>) -> (r: Result<
    DecodedRecord,
    DecodeError,
>)
    ensures
        match classify_frame_spec(shapes_view(shapes@), frame@) {
            FrameClassSpec::Record(rs) => r matches Ok(rec) && rec@ == rs,
            FrameClassSpec::Malformed(b) => r matches Err(e) && e@ == ErrorSpec::Malformed(b),
            FrameClassSpec::Unrecognized(j) => r matches Err(e) && e@ == ErrorSpec::Unrecognized(
                j,
            ),
        },
{
    let ghost sv = shapes_view(shapes@);
    match json::parse_frame(&frame) {
        None => Err(DecodeError::MalformedFrame(frame)),
        Some(v) => {
            match find_first_match(shapes, &v) {
                None => Err(DecodeError::UnrecognizedShape(v)),
                Some(i) => {
                    proof {
                        lemma_first_match_from_props(sv, value_rep(v), 0);
                        assert(sv[i as int] == shapes@[i as int]@);
                    }
                    Ok(decode_variant_exec(&shapes[i], i, &v))
                },
            }
        },
    }
}

} // verus!
