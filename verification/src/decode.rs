//! The structural decoder: a shape-driven recursive traversal. Given a
//! requested shape, it consumes a children window at the current depth,
//! descending one prefix level for nested shapes and delegating to the atom
//! decoder for leaves. No shape is guessed speculatively; the first mismatch
//! aborts the whole decode.

use vstd::prelude::*;
use crate::atom;
use crate::atom::{classify_atom_s, classify_scalar_s, Atom, AtomErrModel, AtomModel, ScalarAtom};
use crate::error::{DeserializerError, ErrModel, Span};
use crate::line::spec_parse;
use crate::text::{all_digits, all_digits_s, content_lines_from, content_lines_s, split_lines,
    split_lines_s};
use crate::window::{
    lemma_next_no_line_lost, s_next, s_peek, s_value_of_line, sat_add, sat_add_s, LexerChildren,
    WindowModel,
};

verus! {

// ---------------------------------------------------------------------------
// Values
// ---------------------------------------------------------------------------

/// A fully decoded value: an atom, a sequence, or a map of string keys to
/// values in source order. A decoded tagged union is a one-entry map from
/// the discriminant to its payload; a unit variant is its discriminant as a
/// string atom.
#[derive(Debug, PartialEq, Eq)]
pub enum Value {
    Atom(Atom),
    Sequence(Vec<Value>),
    Mapping(Vec<(String, Value)>),
}

/// The ghost shape of a decoded value.
pub ghost enum ValueModel {
    Atom(AtomModel),
    Sequence(Seq<ValueModel>),
    Mapping(Seq<(Seq<char>, ValueModel)>),
}

/// The ghost shape of a decoded value, computed recursively.
pub open spec fn value_model(v: Value) -> ValueModel
    decreases v,
{
    match v {
        Value::Atom(a) => ValueModel::Atom(a@),
        Value::Sequence(vs) => ValueModel::Sequence(
            Seq::new(
                vs@.len(),
                |i: int|
                    if 0 <= i < vs@.len() {
                        value_model(vs@[i])
                    } else {
                        arbitrary()
                    },
            ),
        ),
        Value::Mapping(es) => ValueModel::Mapping(
            Seq::new(
                es@.len(),
                |i: int|
                    if 0 <= i < es@.len() {
                        (es@[i].0@, value_model(es@[i].1))
                    } else {
                        arbitrary()
                    },
            ),
        ),
    }
}

impl View for Value {
    type V = ValueModel;

    open spec fn view(&self) -> ValueModel {
        value_model(*self)
    }
}

impl DeepView for Value {
    type V = ValueModel;

    open spec fn deep_view(&self) -> ValueModel {
        value_model(*self)
    }
}

/// The ghost view of decoded map entries.
pub open spec fn map_items_view(v: Seq<(String, Value)>) -> Seq<(Seq<char>, ValueModel)> {
    Seq::new(v.len(), |i: int| (v[i].0@, v[i].1.view()))
}

// ---------------------------------------------------------------------------
// Shapes
// ---------------------------------------------------------------------------

/// The target shape a caller requests: a scalar kind, a sequence, a tuple,
/// a map or struct, a tagged union, or `Any` for untyped inference.
#[derive(Debug, PartialEq, Eq)]
pub enum Shape {
    /// Infer the shape: digits-keyed groups become sequences, other keyed
    /// groups become maps, leaves become atoms.
    Any,
    Bool,
    Int,
    Float,
    Str,
    /// A parenthesized tuple literal, one scalar shape per element.
    Tuple(Vec<Shape>),
    /// A group of digit-keyed elements, one shape for all.
    Sequence(Box<Shape>),
    /// A group of named fields, one shape for all values.
    Mapping(Box<Shape>),
    /// A group of named fields with declared shapes. Unknown fields are
    /// captured into the result when `capture_unknown` is set, silently
    /// skipped otherwise; absent optional fields are no error.
    Struct { fields: Vec<Field>, capture_unknown: bool },
    /// A tagged union: the discriminant is the next path segment (or the
    /// value text for a unit variant), dispatching to a declared payload.
    Union(Vec<Variant>),
}

/// One declared struct field.
#[derive(Debug, PartialEq, Eq)]
pub struct Field {
    pub name: String,
    pub shape: Shape,
    pub required: bool,
}

/// One declared union variant.
#[derive(Debug, PartialEq, Eq)]
pub struct Variant {
    pub name: String,
    pub payload: Payload,
}

/// The payload kind of a union variant.
#[derive(Debug, PartialEq, Eq)]
pub enum Payload {
    Unit,
    Newtype(Box<Shape>),
    Tuple(Vec<Shape>),
    Struct(Vec<Field>, bool),
}

/// The ghost shape of a `Shape`.
pub ghost enum ShapeModel {
    Any,
    Bool,
    Int,
    Float,
    Str,
    Tuple(Seq<ShapeModel>),
    Sequence(Box<ShapeModel>),
    Mapping(Box<ShapeModel>),
    Struct { fields: Seq<FieldModel>, capture_unknown: bool },
    Union(Seq<VariantModel>),
}

/// The ghost shape of a `Field`.
pub ghost struct FieldModel {
    pub name: Seq<char>,
    pub shape: ShapeModel,
    pub required: bool,
}

/// The ghost shape of a `Variant`.
pub ghost struct VariantModel {
    pub name: Seq<char>,
    pub payload: PayloadModel,
}

/// The ghost shape of a `Payload`.
pub ghost enum PayloadModel {
    Unit,
    Newtype(Box<ShapeModel>),
    Tuple(Seq<ShapeModel>),
    Struct(Seq<FieldModel>, bool),
}

/// The ghost shape of a `Shape`, computed recursively.
pub open spec fn shape_model(s: Shape) -> ShapeModel
    decreases s,
{
    match s {
        Shape::Any => ShapeModel::Any,
        Shape::Bool => ShapeModel::Bool,
        Shape::Int => ShapeModel::Int,
        Shape::Float => ShapeModel::Float,
        Shape::Str => ShapeModel::Str,
        Shape::Tuple(v) => ShapeModel::Tuple(
            Seq::new(
                v@.len(),
                |i: int|
                    if 0 <= i < v@.len() {
                        shape_model(v@[i])
                    } else {
                        arbitrary()
                    },
            ),
        ),
        Shape::Sequence(b) => ShapeModel::Sequence(Box::new(shape_model(*b))),
        Shape::Mapping(b) => ShapeModel::Mapping(Box::new(shape_model(*b))),
        Shape::Struct { fields, capture_unknown } => ShapeModel::Struct {
            fields: Seq::new(
                fields@.len(),
                |i: int|
                    if 0 <= i < fields@.len() {
                        field_model(fields@[i])
                    } else {
                        arbitrary()
                    },
            ),
            capture_unknown: capture_unknown,
        },
        Shape::Union(v) => ShapeModel::Union(
            Seq::new(
                v@.len(),
                |i: int|
                    if 0 <= i < v@.len() {
                        variant_model(v@[i])
                    } else {
                        arbitrary()
                    },
            ),
        ),
    }
}

/// The ghost shape of a `Field`, computed recursively.
pub open spec fn field_model(f: Field) -> FieldModel
    decreases f,
{
    FieldModel { name: f.name@, shape: shape_model(f.shape), required: f.required }
}

/// The ghost shape of a `Variant`, computed recursively.
pub open spec fn variant_model(v: Variant) -> VariantModel
    decreases v,
{
    VariantModel { name: v.name@, payload: payload_model(v.payload) }
}

/// The ghost shape of a `Payload`, computed recursively.
pub open spec fn payload_model(p: Payload) -> PayloadModel
    decreases p,
{
    match p {
        Payload::Unit => PayloadModel::Unit,
        Payload::Newtype(b) => PayloadModel::Newtype(Box::new(shape_model(*b))),
        Payload::Tuple(v) => PayloadModel::Tuple(
            Seq::new(
                v@.len(),
                |i: int|
                    if 0 <= i < v@.len() {
                        shape_model(v@[i])
                    } else {
                        arbitrary()
                    },
            ),
        ),
        Payload::Struct(fields, cap) => PayloadModel::Struct(
            Seq::new(
                fields@.len(),
                |i: int|
                    if 0 <= i < fields@.len() {
                        field_model(fields@[i])
                    } else {
                        arbitrary()
                    },
            ),
            cap,
        ),
    }
}

impl View for Shape {
    type V = ShapeModel;

    open spec fn view(&self) -> ShapeModel {
        shape_model(*self)
    }
}

impl View for Field {
    type V = FieldModel;

    open spec fn view(&self) -> FieldModel {
        field_model(*self)
    }
}

impl View for Variant {
    type V = VariantModel;

    open spec fn view(&self) -> VariantModel {
        variant_model(*self)
    }
}

impl View for Payload {
    type V = PayloadModel;

    open spec fn view(&self) -> PayloadModel {
        payload_model(*self)
    }
}

// ---------------------------------------------------------------------------
// Error texts
// ---------------------------------------------------------------------------

/// The nesting budget ran out.
pub open spec fn depth_msg() -> Seq<char> {
    "nesting depth budget exhausted"@
}

fn depth_error() -> (e: DeserializerError)
    ensures
        e@ == ErrModel::Custom(depth_msg()),
{
    DeserializerError::Custom(String::from_str("nesting depth budget exhausted"))
}

/// A tuple literal carries fewer elements than its shape asks for.
pub open spec fn tuple_len_msg() -> Seq<char> {
    "tuple literal has too few elements"@
}

/// A nested shape stands inside a tuple literal.
pub open spec fn tuple_shape_msg() -> Seq<char> {
    "a nested shape cannot stand inside a tuple literal"@
}

/// No declared variant carries the discriminant found.
pub open spec fn unknown_variant_msg() -> Seq<char> {
    "unknown union variant"@
}

/// A unit variant stands above deeper path segments.
pub open spec fn unit_payload_msg() -> Seq<char> {
    "a unit variant carries no payload"@
}

/// A payload-carrying variant stands on a plain value line.
pub open spec fn needs_payload_msg() -> Seq<char> {
    "this union variant expects a payload"@
}

/// The group ended before every positional element was seen.
pub open spec fn pos_missing_msg() -> Seq<char> {
    "the group ends before the tuple shape is filled"@
}

/// The group holds more elements than the positional shape declares.
pub open spec fn pos_extra_msg() -> Seq<char> {
    "the group holds more elements than the tuple shape"@
}

/// A required field never appeared in its group.
pub open spec fn missing_field_msg() -> Seq<char> {
    "missing required field "@
}

// ---------------------------------------------------------------------------
// The specification decoder
// ---------------------------------------------------------------------------

/// `next` followed by extracting the value node.
pub open spec fn s_value(m: WindowModel) -> (WindowModel, Option<Seq<char>>) {
    let (m1, r) = s_next(m);
    (
        m1,
        match r {
            None => None,
            Some(l) => s_value_of_line(l),
        },
    )
}

/// Descending one prefix level: the depth saturates, the prefix clears.
pub open spec fn s_inc(m: WindowModel) -> WindowModel {
    WindowModel {
        level: if m.level + 1 > u8::MAX {
            u8::MAX as int
        } else {
            m.level + 1
        },
        prefix: None,
        ..m
    }
}

/// Returning one prefix level: the depth saturates at zero, the prefix
/// clears.
pub open spec fn s_dec(m: WindowModel) -> WindowModel {
    WindowModel {
        level: if m.level - 1 < 0 {
            0
        } else {
            m.level - 1
        },
        prefix: None,
        ..m
    }
}

/// The group at this depth is exhausted.
pub open spec fn s_finished(m: WindowModel) -> bool {
    m.pos > 0 && s_peek(m) is None
}

/// Decoding one scalar text against a scalar shape. `Any` classifies; the
/// typed shapes demand their literal form, with the error span covering the
/// text.
pub open spec fn s_decode_scalar_text(t: Seq<char>, sh: ShapeModel) -> Result<
    ValueModel,
    ErrModel,
> {
    let sp = Span { start: 0, end: t.len() as usize };
    match sh {
        ShapeModel::Any => Ok(ValueModel::Atom(AtomModel::Scalar(classify_scalar_s(t)))),
        ShapeModel::Bool => match atom::bool_lit_value_s(t) {
            Some(b) => Ok(ValueModel::Atom(AtomModel::Scalar(atom::ScalarModel::Bool(b)))),
            None => Err(ErrModel::Atom(AtomErrModel::ExpectedBool(sp))),
        },
        ShapeModel::Int => if atom::is_int_lit_s(t) && atom::fits_i64(atom::int_value_s(t)) {
            Ok(ValueModel::Atom(AtomModel::Scalar(atom::ScalarModel::Int(atom::int_value_s(t)))))
        } else {
            Err(ErrModel::Atom(AtomErrModel::ExpectedInteger(sp)))
        },
        ShapeModel::Float => if atom::is_float_lit_s(t) {
            Ok(ValueModel::Atom(AtomModel::Scalar(atom::ScalarModel::Float(t))))
        } else {
            Err(ErrModel::Atom(AtomErrModel::ExpectedFloat(sp)))
        },
        ShapeModel::Str => Ok(ValueModel::Atom(AtomModel::Scalar(atom::ScalarModel::Str(t)))),
        _ => Err(ErrModel::Custom(tuple_shape_msg())),
    }
}

/// Decoding the pieces of a tuple literal against element shapes, from
/// index `i` on; extra pieces are ignored.
pub open spec fn s_decode_pieces(
    pieces: Seq<Seq<char>>,
    shapes: Seq<ShapeModel>,
    i: int,
) -> Result<Seq<ValueModel>, ErrModel>
    decreases shapes.len() - i,
{
    if i < 0 || i >= shapes.len() {
        Ok(Seq::empty())
    } else {
        match s_decode_scalar_text(pieces[i], shapes[i]) {
            Err(e) => Err(e),
            Ok(v) => match s_decode_pieces(pieces, shapes, i + 1) {
                Err(e) => Err(e),
                Ok(rest) => Ok(seq![v] + rest),
            },
        }
    }
}

/// Decoding a whole tuple literal text against element shapes.
pub open spec fn s_decode_tuple_text(t: Seq<char>, shapes: Seq<ShapeModel>) -> Result<
    ValueModel,
    ErrModel,
> {
    if t.len() == 0 || t[0] != '(' {
        Err(ErrModel::Atom(AtomErrModel::ExpectedTupleStart(Span { start: 0, end: 0 })))
    } else if !(t.len() >= 2 && t[t.len() - 1] == ')') {
        Err(
            ErrModel::Atom(
                AtomErrModel::ExpectedTupleEnd {
                    start: Span { start: 0, end: 0 },
                    expected_end: Span { start: t.len() as usize, end: t.len() as usize },
                },
            ),
        )
    } else {
        let pieces = atom::tuple_elems_s(t);
        if pieces.len() < shapes.len() {
            Err(ErrModel::Custom(tuple_len_msg()))
        } else {
            match s_decode_pieces(pieces, shapes, 0) {
                Err(e) => Err(e),
                Ok(vals) => Ok(ValueModel::Sequence(vals)),
            }
        }
    }
}

/// The declared field named `name`, if any (first match).
pub open spec fn s_find_field(fields: Seq<FieldModel>, name: Seq<char>) -> Option<FieldModel>
    decreases fields.len(),
{
    if fields.len() == 0 {
        None
    } else if fields[0].name == name {
        Some(fields[0])
    } else {
        s_find_field(fields.drop_first(), name)
    }
}

/// Does some decoded entry carry this key?
pub open spec fn s_has_key(items: Seq<(Seq<char>, ValueModel)>, name: Seq<char>) -> bool {
    exists|i: int| 0 <= i < items.len() && items[i].0 == name
}

/// The first required field that no entry carries, if any.
pub open spec fn s_missing_required(
    fields: Seq<FieldModel>,
    items: Seq<(Seq<char>, ValueModel)>,
) -> Option<Seq<char>>
    decreases fields.len(),
{
    if fields.len() == 0 {
        None
    } else if fields[0].required && !s_has_key(items, fields[0].name) {
        Some(fields[0].name)
    } else {
        s_missing_required(fields.drop_first(), items)
    }
}

/// The declared variant named `name`, if any (first match).
pub open spec fn s_find_variant(variants: Seq<VariantModel>, name: Seq<char>) -> Option<
    VariantModel,
>
    decreases variants.len(),
{
    if variants.len() == 0 {
        None
    } else if variants[0].name == name {
        Some(variants[0])
    } else {
        s_find_variant(variants.drop_first(), name)
    }
}

/// Decoding one value of shape `sh` at the window's current depth.
pub open spec fn s_decode_value(m: WindowModel, sh: ShapeModel, fuel: nat) -> (
    WindowModel,
    Result<ValueModel, ErrModel>,
)
    decreases fuel, 3int,
{
    match sh {
        ShapeModel::Any => match s_peek(m) {
            None => (m, Err(ErrModel::ExpectedKeyValuePair)),
            Some(line) => match spec_parse(line) {
                None => (m, Err(ErrModel::ExpectedKeyValuePair)),
                Some((k, v)) => if k.len() == 0 {
                    // A leaf: the atom is classified from the value text,
                    // and the line is left for the caller to step past.
                    (m, Ok(ValueModel::Atom(classify_atom_s(v))))
                } else if all_digits_s(k) {
                    match s_decode_seq_items(m, ShapeModel::Any, fuel) {
                        (m1, Err(e)) => (m1, Err(e)),
                        (m1, Ok(items)) => (m1, Ok(ValueModel::Sequence(items))),
                    }
                } else {
                    match s_decode_map_items(m, ShapeModel::Any, fuel) {
                        (m1, Err(e)) => (m1, Err(e)),
                        (m1, Ok(items)) => (m1, Ok(ValueModel::Mapping(items))),
                    }
                },
            },
        },
        ShapeModel::Bool | ShapeModel::Int | ShapeModel::Float | ShapeModel::Str => {
            let (m1, t) = s_value(m);
            match t {
                None => (m1, Err(ErrModel::ExpectedValueNode)),
                Some(t) => (m1, s_decode_scalar_text(t, sh)),
            }
        },
        ShapeModel::Tuple(shapes) => {
            let (m1, t) = s_value(m);
            match t {
                None => (m1, Err(ErrModel::ExpectedValueNode)),
                Some(t) => (m1, s_decode_tuple_text(t, shapes)),
            }
        },
        ShapeModel::Sequence(elem) => match s_decode_seq_items(m, *elem, fuel) {
            (m1, Err(e)) => (m1, Err(e)),
            (m1, Ok(items)) => (m1, Ok(ValueModel::Sequence(items))),
        },
        ShapeModel::Mapping(vs) => match s_decode_map_items(m, *vs, fuel) {
            (m1, Err(e)) => (m1, Err(e)),
            (m1, Ok(items)) => (m1, Ok(ValueModel::Mapping(items))),
        },
        ShapeModel::Struct { fields, capture_unknown } => {
            match s_decode_struct_items(m, fields, capture_unknown, fuel) {
                (m1, Err(e)) => (m1, Err(e)),
                (m1, Ok(items)) => match s_missing_required(fields, items) {
                    Some(name) => (m1, Err(ErrModel::Custom(missing_field_msg() + name))),
                    None => (m1, Ok(ValueModel::Mapping(items))),
                },
            }
        },
        ShapeModel::Union(variants) => s_decode_union(m, variants, fuel),
    }
}

/// Decoding the elements of a sequence group: each line's index segment
/// must be all-digit text; elements come in source line order, never
/// re-ordered by the index's numeric value. Each element owns its own
/// depth delta and restores it on return, on success and on failure alike.
pub open spec fn s_decode_seq_items(m: WindowModel, elem: ShapeModel, fuel: nat) -> (
    WindowModel,
    Result<Seq<ValueModel>, ErrModel>,
)
    decreases fuel, 0int,
{
    if fuel == 0 {
        (m, Err(ErrModel::Custom(depth_msg())))
    } else if s_finished(m) {
        (m, Ok(Seq::empty()))
    } else {
        let (m1, id) = s_value(m);
        match id {
            None => (m1, Err(ErrModel::ExpectedValueNode)),
            Some(ident) => if !all_digits_s(ident) {
                (
                    m1,
                    Err(
                        ErrModel::ExpectedSequenece(
                            Span { start: m1.lo as usize, end: m1.hi as usize },
                        ),
                    ),
                )
            } else {
                let (m3, rv) = s_decode_value(s_inc(m1), elem, (fuel - 1) as nat);
                // The depth delta is restored and the entry stepped past,
                // whatever the nested decode's outcome.
                let (m5, _) = s_next(s_dec(m3));
                match rv {
                    Err(e) => (m5, Err(e)),
                    Ok(v) => match s_decode_seq_items(m5, elem, (fuel - 1) as nat) {
                        (m6, Err(e)) => (m6, Err(e)),
                        (m6, Ok(rest)) => (m6, Ok(seq![v] + rest)),
                    },
                }
            },
        }
    }
}

/// Decoding the entries of a map group: each line's first remaining path
/// segment names the field; the nested value is decoded one level deeper.
/// Each entry owns its own depth delta and restores it on return, on
/// success and on failure alike.
pub open spec fn s_decode_map_items(m: WindowModel, vs: ShapeModel, fuel: nat) -> (
    WindowModel,
    Result<Seq<(Seq<char>, ValueModel)>, ErrModel>,
)
    decreases fuel, 0int,
{
    if fuel == 0 {
        (m, Err(ErrModel::Custom(depth_msg())))
    } else if s_finished(m) {
        (m, Ok(Seq::empty()))
    } else {
        let (m1, id) = s_value(m);
        match id {
            None => (m1, Err(ErrModel::ExpectedValueNode)),
            Some(ident) => {
                let (m3, rv) = s_decode_value(s_inc(m1), vs, (fuel - 1) as nat);
                // The depth delta is restored and the entry stepped past,
                // whatever the nested decode's outcome.
                let (m5, _) = s_next(s_dec(m3));
                match rv {
                    Err(e) => (m5, Err(e)),
                    Ok(v) => match s_decode_map_items(m5, vs, (fuel - 1) as nat) {
                        (m6, Err(e)) => (m6, Err(e)),
                        (m6, Ok(rest)) => (m6, Ok(seq![(ident, v)] + rest)),
                    },
                }
            },
        }
    }
}

/// Decoding the entries of a struct group: declared fields by their shapes;
/// unknown fields are decoded as `Any` and kept only under
/// `capture_unknown`.
pub open spec fn s_decode_struct_items(
    m: WindowModel,
    fields: Seq<FieldModel>,
    capture_unknown: bool,
    fuel: nat,
) -> (WindowModel, Result<Seq<(Seq<char>, ValueModel)>, ErrModel>)
    decreases fuel, 0int,
{
    if fuel == 0 {
        (m, Err(ErrModel::Custom(depth_msg())))
    } else if s_finished(m) {
        (m, Ok(Seq::empty()))
    } else {
        let (m1, id) = s_value(m);
        match id {
            None => (m1, Err(ErrModel::ExpectedValueNode)),
            Some(ident) => {
                let known = s_find_field(fields, ident);
                let sh = match known {
                    Some(f) => f.shape,
                    None => ShapeModel::Any,
                };
                let (m3, rv) = s_decode_value(s_inc(m1), sh, (fuel - 1) as nat);
                // The depth delta is restored and the entry stepped past,
                // whatever the nested decode's outcome.
                let (m5, _) = s_next(s_dec(m3));
                match rv {
                    Err(e) => (m5, Err(e)),
                    Ok(v) => match s_decode_struct_items(
                        m5,
                        fields,
                        capture_unknown,
                        (fuel - 1) as nat,
                    ) {
                        (m6, Err(e)) => (m6, Err(e)),
                        (m6, Ok(rest)) => if known is Some || capture_unknown {
                            (m6, Ok(seq![(ident, v)] + rest))
                        } else {
                            (m6, Ok(rest))
                        },
                    },
                }
            },
        }
    }
}

/// Decoding a group as positional elements (a tuple spread across grouped
/// lines): the index text is consumed and discarded, the `idx`-th shape
/// decodes the nested value.
pub open spec fn s_decode_pos_items(
    m: WindowModel,
    shapes: Seq<ShapeModel>,
    idx: int,
    fuel: nat,
) -> (WindowModel, Result<Seq<ValueModel>, ErrModel>)
    decreases fuel, 0int,
{
    if fuel == 0 {
        (m, Err(ErrModel::Custom(depth_msg())))
    } else if s_finished(m) {
        if idx >= shapes.len() {
            (m, Ok(Seq::empty()))
        } else {
            (m, Err(ErrModel::Custom(pos_missing_msg())))
        }
    } else if idx >= shapes.len() {
        (m, Err(ErrModel::Custom(pos_extra_msg())))
    } else {
        let (m1, id) = s_value(m);
        match id {
            None => (m1, Err(ErrModel::ExpectedValueNode)),
            Some(_) => {
                let (m3, rv) = s_decode_value(s_inc(m1), shapes[idx], (fuel - 1) as nat);
                // The depth delta is restored and the entry stepped past,
                // whatever the nested decode's outcome.
                let (m5, _) = s_next(s_dec(m3));
                match rv {
                    Err(e) => (m5, Err(e)),
                    Ok(v) => match s_decode_pos_items(m5, shapes, idx + 1, (fuel - 1) as nat) {
                        (m6, Err(e)) => (m6, Err(e)),
                        (m6, Ok(rest)) => (m6, Ok(seq![v] + rest)),
                    },
                }
            },
        }
    }
}

/// Decoding a newtype payload: one nested value a level deeper, keyed by
/// the discriminant.
pub open spec fn s_decode_newtype(m1: WindowModel, disc: Seq<char>, b: ShapeModel, fuel: nat) -> (
    WindowModel,
    Result<ValueModel, ErrModel>,
)
    decreases fuel, 0int,
{
    if fuel == 0 {
        (m1, Err(ErrModel::Custom(depth_msg())))
    } else {
        let (m3, rv) = s_decode_value(s_inc(m1), b, (fuel - 1) as nat);
        // The depth delta is restored and the payload's group stepped past,
        // whatever the nested decode's outcome.
        let (m5, _) = s_next(s_dec(m3));
        match rv {
            Err(e) => (m5, Err(e)),
            Ok(v) => (m5, Ok(ValueModel::Mapping(seq![(disc, v)]))),
        }
    }
}

/// Decoding a tuple payload: positional elements a level deeper, keyed by
/// the discriminant.
pub open spec fn s_decode_tuple_payload(
    m1: WindowModel,
    disc: Seq<char>,
    shapes: Seq<ShapeModel>,
    fuel: nat,
) -> (WindowModel, Result<ValueModel, ErrModel>)
    decreases fuel, 0int,
{
    if fuel == 0 {
        (m1, Err(ErrModel::Custom(depth_msg())))
    } else {
        let (m3, rv) = s_decode_pos_items(s_inc(m1), shapes, 0, (fuel - 1) as nat);
        // The depth delta is restored and the payload's group stepped past,
        // whatever the nested decode's outcome.
        let (m5, _) = s_next(s_dec(m3));
        match rv {
            Err(e) => (m5, Err(e)),
            Ok(items) => (m5, Ok(ValueModel::Mapping(seq![(disc, ValueModel::Sequence(items))]))),
        }
    }
}

/// Decoding a struct payload: named fields a level deeper, keyed by the
/// discriminant; required fields must all appear.
pub open spec fn s_decode_struct_payload(
    m1: WindowModel,
    disc: Seq<char>,
    fields: Seq<FieldModel>,
    cap: bool,
    fuel: nat,
) -> (WindowModel, Result<ValueModel, ErrModel>)
    decreases fuel, 0int,
{
    if fuel == 0 {
        (m1, Err(ErrModel::Custom(depth_msg())))
    } else {
        let (m3, rv) = s_decode_struct_items(s_inc(m1), fields, cap, (fuel - 1) as nat);
        // The depth delta is restored and the payload's group stepped past,
        // whatever the nested decode's outcome — a missing required field
        // included.
        let (m5, _) = s_next(s_dec(m3));
        match rv {
            Err(e) => (m5, Err(e)),
            Ok(items) => match s_missing_required(fields, items) {
                Some(name) => (m5, Err(ErrModel::Custom(missing_field_msg() + name))),
                None => (m5, Ok(ValueModel::Mapping(seq![(disc, ValueModel::Mapping(items))]))),
            },
        }
    }
}

/// Decoding the payload of a matched union variant. A discriminant that
/// stands alone (`key_empty`) admits only a unit variant; deeper segments
/// dispatch to the declared payload shape one level down.
pub open spec fn s_decode_dispatch(
    m1: WindowModel,
    disc: Seq<char>,
    key_empty: bool,
    payload: PayloadModel,
    fuel: nat,
) -> (WindowModel, Result<ValueModel, ErrModel>)
    decreases fuel, 1int,
{
    if fuel == 0 {
        (m1, Err(ErrModel::Custom(depth_msg())))
    } else if key_empty {
        match payload {
            PayloadModel::Unit => (
                m1,
                Ok(ValueModel::Atom(AtomModel::Scalar(atom::ScalarModel::Str(disc)))),
            ),
            _ => (m1, Err(ErrModel::Custom(needs_payload_msg()))),
        }
    } else {
        match payload {
            PayloadModel::Unit => (m1, Err(ErrModel::Custom(unit_payload_msg()))),
            PayloadModel::Newtype(b) => s_decode_newtype(m1, disc, *b, fuel),
            PayloadModel::Tuple(shapes) => s_decode_tuple_payload(m1, disc, shapes, fuel),
            PayloadModel::Struct(fields, cap) => s_decode_struct_payload(
                m1,
                disc,
                fields,
                cap,
                fuel,
            ),
        }
    }
}

/// Decoding a tagged union: the discriminant is the next path segment, or
/// the value text when no deeper segments follow (a unit variant).
pub open spec fn s_decode_union(m: WindowModel, variants: Seq<VariantModel>, fuel: nat) -> (
    WindowModel,
    Result<ValueModel, ErrModel>,
)
    decreases fuel, 2int,
{
    if fuel == 0 {
        (m, Err(ErrModel::Custom(depth_msg())))
    } else {
        match s_peek(m) {
            None => (m, Err(ErrModel::ExpectedKeyValuePair)),
            Some(line) => match spec_parse(line) {
                None => (m, Err(ErrModel::ExpectedKeyValuePair)),
                Some((k, _)) => {
                    let (m1, d) = s_value(m);
                    match d {
                        None => (m1, Err(ErrModel::ExpectedValueNode)),
                        Some(disc) => match s_find_variant(variants, disc) {
                            None => (m1, Err(ErrModel::Custom(unknown_variant_msg()))),
                            Some(var) => s_decode_dispatch(
                                m1,
                                disc,
                                k.len() == 0,
                                var.payload,
                                fuel,
                            ),
                        },
                    }
                },
            },
        }
    }
}

// ---------------------------------------------------------------------------
// The depth discipline
// ---------------------------------------------------------------------------
//
// Each recursive call owns its own depth delta and restores the window to
// its pre-call depth on return, on success and on failure alike. The depth
// counter saturates at its bounds, so the law is stated below the
// saturating boundary: the nesting budget keeps the counter under its
// ceiling.

/// `s_decode_value` returns the window at its entry depth, whatever the
/// outcome.
pub proof fn lemma_decode_value_level(m: WindowModel, sh: ShapeModel, fuel: nat)
    requires
        0 <= m.level,
        m.level + fuel <= u8::MAX,
    ensures
        s_decode_value(m, sh, fuel).0.level == m.level,
    decreases fuel, 3int,
{
    match sh {
        ShapeModel::Any => {
            match s_peek(m) {
                None => {},
                Some(line) => match spec_parse(line) {
                    None => {},
                    Some((k, v)) => if k.len() == 0 {
                    } else if all_digits_s(k) {
                        lemma_seq_items_level(m, ShapeModel::Any, fuel);
                    } else {
                        lemma_map_items_level(m, ShapeModel::Any, fuel);
                    },
                },
            }
        },
        ShapeModel::Bool | ShapeModel::Int | ShapeModel::Float | ShapeModel::Str
            | ShapeModel::Tuple(_) => {
            lemma_next_no_line_lost(m);
        },
        ShapeModel::Sequence(elem) => {
            lemma_seq_items_level(m, *elem, fuel);
        },
        ShapeModel::Mapping(vs) => {
            lemma_map_items_level(m, *vs, fuel);
        },
        ShapeModel::Struct { fields, capture_unknown } => {
            lemma_struct_items_level(m, fields, capture_unknown, fuel);
        },
        ShapeModel::Union(variants) => {
            lemma_union_level(m, variants, fuel);
        },
    }
}

/// One entry step — descend, decode, restore, step past — returns the
/// window at the entry depth, whatever the nested outcome.
proof fn lemma_entry_step_level(m1: WindowModel, sh: ShapeModel, fuel: nat)
    requires
        0 <= m1.level,
        m1.level + 1 + fuel <= u8::MAX,
    ensures
        ({
            let (m3, _) = s_decode_value(s_inc(m1), sh, fuel);
            s_next(s_dec(m3)).0.level == m1.level
        }),
    decreases fuel, 4int,
{
    let m2 = s_inc(m1);
    assert(m2.level == m1.level + 1);
    lemma_decode_value_level(m2, sh, fuel);
    let (m3, _) = s_decode_value(m2, sh, fuel);
    assert(s_dec(m3).level == m1.level);
    lemma_next_no_line_lost(s_dec(m3));
}

/// `s_decode_seq_items` returns the window at its entry depth, whatever
/// the outcome.
pub proof fn lemma_seq_items_level(m: WindowModel, elem: ShapeModel, fuel: nat)
    requires
        0 <= m.level,
        m.level + fuel <= u8::MAX,
    ensures
        s_decode_seq_items(m, elem, fuel).0.level == m.level,
    decreases fuel, 0int,
{
    if fuel == 0 || s_finished(m) {
    } else {
        let (m1, id) = s_value(m);
        lemma_next_no_line_lost(m);
        match id {
            None => {},
            Some(ident) => if !all_digits_s(ident) {
            } else {
                lemma_entry_step_level(m1, elem, (fuel - 1) as nat);
                let (m3, rv) = s_decode_value(s_inc(m1), elem, (fuel - 1) as nat);
                let (m5, _) = s_next(s_dec(m3));
                match rv {
                    Err(_) => {},
                    Ok(_) => {
                        lemma_seq_items_level(m5, elem, (fuel - 1) as nat);
                    },
                }
            },
        }
    }
}

/// `s_decode_map_items` returns the window at its entry depth, whatever
/// the outcome.
pub proof fn lemma_map_items_level(m: WindowModel, vs: ShapeModel, fuel: nat)
    requires
        0 <= m.level,
        m.level + fuel <= u8::MAX,
    ensures
        s_decode_map_items(m, vs, fuel).0.level == m.level,
    decreases fuel, 0int,
{
    if fuel == 0 || s_finished(m) {
    } else {
        let (m1, id) = s_value(m);
        lemma_next_no_line_lost(m);
        match id {
            None => {},
            Some(_) => {
                lemma_entry_step_level(m1, vs, (fuel - 1) as nat);
                let (m3, rv) = s_decode_value(s_inc(m1), vs, (fuel - 1) as nat);
                let (m5, _) = s_next(s_dec(m3));
                match rv {
                    Err(_) => {},
                    Ok(_) => {
                        lemma_map_items_level(m5, vs, (fuel - 1) as nat);
                    },
                }
            },
        }
    }
}

/// `s_decode_struct_items` returns the window at its entry depth, whatever
/// the outcome.
pub proof fn lemma_struct_items_level(
    m: WindowModel,
    fields: Seq<FieldModel>,
    capture_unknown: bool,
    fuel: nat,
)
    requires
        0 <= m.level,
        m.level + fuel <= u8::MAX,
    ensures
        s_decode_struct_items(m, fields, capture_unknown, fuel).0.level == m.level,
    decreases fuel, 0int,
{
    if fuel == 0 || s_finished(m) {
    } else {
        let (m1, id) = s_value(m);
        lemma_next_no_line_lost(m);
        match id {
            None => {},
            Some(ident) => {
                let sh = match s_find_field(fields, ident) {
                    Some(f) => f.shape,
                    None => ShapeModel::Any,
                };
                lemma_entry_step_level(m1, sh, (fuel - 1) as nat);
                let (m3, rv) = s_decode_value(s_inc(m1), sh, (fuel - 1) as nat);
                let (m5, _) = s_next(s_dec(m3));
                match rv {
                    Err(_) => {},
                    Ok(_) => {
                        lemma_struct_items_level(m5, fields, capture_unknown, (fuel - 1) as nat);
                    },
                }
            },
        }
    }
}

/// `s_decode_pos_items` returns the window at its entry depth, whatever
/// the outcome.
pub proof fn lemma_pos_items_level(m: WindowModel, shapes: Seq<ShapeModel>, idx: int, fuel: nat)
    requires
        0 <= m.level,
        m.level + fuel <= u8::MAX,
    ensures
        s_decode_pos_items(m, shapes, idx, fuel).0.level == m.level,
    decreases fuel, 0int,
{
    if fuel == 0 || s_finished(m) || idx >= shapes.len() {
    } else {
        let (m1, id) = s_value(m);
        lemma_next_no_line_lost(m);
        match id {
            None => {},
            Some(_) => {
                lemma_entry_step_level(m1, shapes[idx], (fuel - 1) as nat);
                let (m3, rv) = s_decode_value(s_inc(m1), shapes[idx], (fuel - 1) as nat);
                let (m5, _) = s_next(s_dec(m3));
                match rv {
                    Err(_) => {},
                    Ok(_) => {
                        lemma_pos_items_level(m5, shapes, idx + 1, (fuel - 1) as nat);
                    },
                }
            },
        }
    }
}

/// `s_decode_union` returns the window at its entry depth, whatever the
/// outcome.
pub proof fn lemma_union_level(m: WindowModel, variants: Seq<VariantModel>, fuel: nat)
    requires
        0 <= m.level,
        m.level + fuel <= u8::MAX,
    ensures
        s_decode_union(m, variants, fuel).0.level == m.level,
    decreases fuel, 2int,
{
    if fuel == 0 {
    } else {
        match s_peek(m) {
            None => {},
            Some(line) => match spec_parse(line) {
                None => {},
                Some((k, _)) => {
                    let (m1, d) = s_value(m);
                    lemma_next_no_line_lost(m);
                    match d {
                        None => {},
                        Some(disc) => match s_find_variant(variants, disc) {
                            None => {},
                            Some(var) => {
                                lemma_dispatch_level(m1, disc, k.len() == 0, var.payload, fuel);
                            },
                        },
                    }
                },
            },
        }
    }
}

/// `s_decode_dispatch` returns the window at its entry depth, whatever the
/// outcome.
pub proof fn lemma_dispatch_level(
    m1: WindowModel,
    disc: Seq<char>,
    key_empty: bool,
    payload: PayloadModel,
    fuel: nat,
)
    requires
        0 <= m1.level,
        m1.level + fuel <= u8::MAX,
    ensures
        s_decode_dispatch(m1, disc, key_empty, payload, fuel).0.level == m1.level,
    decreases fuel, 1int,
{
    if fuel == 0 || key_empty {
    } else {
        match payload {
            PayloadModel::Unit => {},
            PayloadModel::Newtype(b) => {
                lemma_entry_step_level(m1, *b, (fuel - 1) as nat);
            },
            PayloadModel::Tuple(shapes) => {
                let m2 = s_inc(m1);
                lemma_pos_items_level(m2, shapes, 0, (fuel - 1) as nat);
                let (m3, _) = s_decode_pos_items(m2, shapes, 0, (fuel - 1) as nat);
                lemma_next_no_line_lost(s_dec(m3));
            },
            PayloadModel::Struct(fields, cap) => {
                let m2 = s_inc(m1);
                lemma_struct_items_level(m2, fields, cap, (fuel - 1) as nat);
                let (m3, _) = s_decode_struct_items(m2, fields, cap, (fuel - 1) as nat);
                lemma_next_no_line_lost(s_dec(m3));
            },
        }
    }
}

// ---------------------------------------------------------------------------
// Result views and view helpers
// ---------------------------------------------------------------------------

/// The ghost view of a decode result.
pub open spec fn res_value(r: Result<Value, DeserializerError>) -> Result<ValueModel, ErrModel> {
    match r {
        Ok(v) => Ok(v@),
        Err(e) => Err(e@),
    }
}

/// The ghost view of a decoded-elements result.
pub open spec fn res_values(r: Result<Vec<Value>, DeserializerError>) -> Result<
    Seq<ValueModel>,
    ErrModel,
> {
    match r {
        Ok(v) => Ok(v.deep_view()),
        Err(e) => Err(e@),
    }
}

/// The ghost view of a decoded-entries result.
pub open spec fn res_items(r: Result<Vec<(String, Value)>, DeserializerError>) -> Result<
    Seq<(Seq<char>, ValueModel)>,
    ErrModel,
> {
    match r {
        Ok(v) => Ok(map_items_view(v@)),
        Err(e) => Err(e@),
    }
}

/// The ghost view of a shape list.
pub open spec fn shapes_view(v: Seq<Shape>) -> Seq<ShapeModel> {
    Seq::new(v.len(), |i: int| v[i].view())
}

/// The ghost view of a field list.
pub open spec fn fields_view(v: Seq<Field>) -> Seq<FieldModel> {
    Seq::new(v.len(), |i: int| v[i].view())
}

/// The ghost view of a variant list.
pub open spec fn variants_view(v: Seq<Variant>) -> Seq<VariantModel> {
    Seq::new(v.len(), |i: int| v[i].view())
}

// ---------------------------------------------------------------------------
// The executable decoder
// ---------------------------------------------------------------------------

/// Decodes one scalar text against a scalar shape.
pub fn decode_scalar_text(t: &str, sh: &Shape) -> (r: Result<Value, DeserializerError>)
    ensures
        res_value(r) == s_decode_scalar_text(t@, sh@),
{
    match sh {
        Shape::Any => Ok(Value::Atom(Atom::Scalar(atom::classify_scalar(t)))),
        Shape::Bool => match atom::parse_bool(t) {
            Ok(b) => Ok(Value::Atom(Atom::Scalar(ScalarAtom::Bool(b)))),
            Err(e) => Err(DeserializerError::ParseAtomError(e)),
        },
        Shape::Int => match atom::parse_i64(t) {
            Ok(x) => Ok(Value::Atom(Atom::Scalar(ScalarAtom::Int(x)))),
            Err(e) => Err(DeserializerError::ParseAtomError(e)),
        },
        Shape::Float => match atom::parse_float(t) {
            Ok(txt) => Ok(Value::Atom(Atom::Scalar(ScalarAtom::Float(txt)))),
            Err(e) => Err(DeserializerError::ParseAtomError(e)),
        },
        Shape::Str => Ok(Value::Atom(Atom::Scalar(ScalarAtom::Str(t.to_owned())))),
        _ => Err(
            DeserializerError::Custom(
                String::from_str("a nested shape cannot stand inside a tuple literal"),
            ),
        ),
    }
}

/// Decodes tuple pieces against element shapes, from index `i` on.
fn decode_pieces(pieces: &Vec<String>, shapes: &Vec<Shape>, i: usize) -> (r: Result<
    Vec<Value>,
    DeserializerError,
>)
    requires
        i <= shapes.len(),
        shapes.len() <= pieces.len(),
    ensures
        res_values(r) == s_decode_pieces(pieces.deep_view(), shapes_view(shapes@), i as int),
    decreases shapes.len() - i,
{
    if i == shapes.len() {
        let out: Vec<Value> = Vec::new();
        assert(out.deep_view() =~= Seq::<ValueModel>::empty());
        Ok(out)
    } else {
        let v = match decode_scalar_text(pieces[i].as_str(), &shapes[i]) {
            Err(e) => {
                return Err(e);
            },
            Ok(v) => v,
        };
        let mut rest = match decode_pieces(pieces, shapes, i + 1) {
            Err(e) => {
                return Err(e);
            },
            Ok(r) => r,
        };
        let ghost prev = rest.deep_view();
        let ghost vm = v@;
        rest.insert(0, v);
        proof {
            assert(rest.deep_view() =~= seq![vm] + prev);
        }
        Ok(rest)
    }
}

/// Decodes a whole tuple literal text against element shapes.
pub fn decode_tuple_text(t: &str, shapes: &Vec<Shape>) -> (r: Result<Value, DeserializerError>)
    ensures
        res_value(r) == s_decode_tuple_text(t@, shapes_view(shapes@)),
{
    match atom::parse_tuple_elems(t) {
        Err(e) => Err(DeserializerError::ParseAtomError(e)),
        Ok(pieces) => {
            if pieces.len() < shapes.len() {
                Err(
                    DeserializerError::Custom(
                        String::from_str("tuple literal has too few elements"),
                    ),
                )
            } else {
                match decode_pieces(&pieces, shapes, 0) {
                    Err(e) => Err(e),
                    Ok(vals) => {
                        proof {
                            lemma_seq_value_view(vals);
                        }
                        Ok(Value::Sequence(vals))
                    },
                }
            }
        },
    }
}

/// The index of the first declared field named `name`, from `from` on.
fn find_field_from(fields: &Vec<Field>, name: &String, from: usize) -> (r: Option<usize>)
    requires
        from <= fields.len(),
    ensures
        match r {
            Some(i) => from <= i < fields.len() && s_find_field(
                fields_view(fields@).skip(from as int),
                name@,
            ) == Some(fields@[i as int].view()),
            None => s_find_field(fields_view(fields@).skip(from as int), name@) is None,
        },
    decreases fields.len() - from,
{
    if from == fields.len() {
        assert(fields_view(fields@).skip(from as int) =~= Seq::<FieldModel>::empty());
        None
    } else {
        proof {
            assert(fields_view(fields@).skip(from as int).drop_first() =~= fields_view(
                fields@,
            ).skip(from + 1));
        }
        if fields[from].name == *name {
            Some(from)
        } else {
            find_field_from(fields, name, from + 1)
        }
    }
}

/// Does some decoded entry carry this key?
fn has_key(items: &Vec<(String, Value)>, name: &String) -> (r: bool)
    ensures
        r == s_has_key(map_items_view(items@), name@),
{
    let mut i: usize = 0;
    while i < items.len()
        invariant
            0 <= i <= items.len(),
            forall|j: int| 0 <= j < i ==> map_items_view(items@)[j].0 != name@,
        decreases items.len() - i,
    {
        if items[i].0 == *name {
            assert(map_items_view(items@)[i as int].0 == name@);
            return true;
        }
        i = i + 1;
    }
    false
}

/// The first required field that no entry carries, from `from` on.
fn missing_required_from(fields: &Vec<Field>, items: &Vec<(String, Value)>, from: usize) -> (r:
    Option<String>)
    requires
        from <= fields.len(),
    ensures
        match r {
            Some(n) => s_missing_required(
                fields_view(fields@).skip(from as int),
                map_items_view(items@),
            ) == Some(n@),
            None => s_missing_required(
                fields_view(fields@).skip(from as int),
                map_items_view(items@),
            ) is None,
        },
    decreases fields.len() - from,
{
    if from == fields.len() {
        assert(fields_view(fields@).skip(from as int) =~= Seq::<FieldModel>::empty());
        None
    } else {
        proof {
            assert(fields_view(fields@).skip(from as int).drop_first() =~= fields_view(
                fields@,
            ).skip(from + 1));
        }
        if fields[from].required && !has_key(items, &fields[from].name) {
            Some(fields[from].name.clone())
        } else {
            missing_required_from(fields, items, from + 1)
        }
    }
}

/// The index of the first declared variant named `name`, from `from` on.
fn find_variant_from(variants: &Vec<Variant>, name: &String, from: usize) -> (r: Option<usize>)
    requires
        from <= variants.len(),
    ensures
        match r {
            Some(i) => from <= i < variants.len() && s_find_variant(
                variants_view(variants@).skip(from as int),
                name@,
            ) == Some(variants@[i as int].view()),
            None => s_find_variant(variants_view(variants@).skip(from as int), name@) is None,
        },
    decreases variants.len() - from,
{
    if from == variants.len() {
        assert(variants_view(variants@).skip(from as int) =~= Seq::<VariantModel>::empty());
        None
    } else {
        proof {
            assert(variants_view(variants@).skip(from as int).drop_first() =~= variants_view(
                variants@,
            ).skip(from + 1));
        }
        if variants[from].name == *name {
            Some(from)
        } else {
            find_variant_from(variants, name, from + 1)
        }
    }
}

/// Decodes one value of shape `shape` at the window's current depth, as
/// `s_decode_value` describes.
#[verifier::rlimit(60)]
pub fn decode_value(w: &mut LexerChildren, shape: &Shape, fuel: usize) -> (r: Result<
    Value,
    DeserializerError,
>)
    requires
        old(w).wf(),
    ensures
        final(w).wf(),
        final(w)@ == s_decode_value(old(w)@, shape@, fuel as nat).0,
        res_value(r) == s_decode_value(old(w)@, shape@, fuel as nat).1,
    decreases fuel, 3int,
{
    match shape {
        Shape::Any => {
            let kv = match w.peek_key_value() {
                Err(e) => {
                    return Err(e);
                },
                Ok(kv) => kv,
            };
            if kv.key.as_str().unicode_len() == 0 {
                Ok(Value::Atom(atom::from_str(kv.value.as_str())))
            } else if all_digits(kv.key.as_str()) {
                match decode_seq_items(w, &Shape::Any, fuel) {
                    Err(e) => Err(e),
                    Ok(items) => {
                        proof {
                            lemma_seq_value_view(items);
                        }
                        Ok(Value::Sequence(items))
                    },
                }
            } else {
                match decode_map_items(w, &Shape::Any, fuel) {
                    Err(e) => Err(e),
                    Ok(items) => {
                        proof {
                            lemma_map_value_view(items);
                        }
                        Ok(Value::Mapping(items))
                    },
                }
            }
        },
        Shape::Bool | Shape::Int | Shape::Float | Shape::Str => {
            let t = match w.value() {
                Err(e) => {
                    return Err(e);
                },
                Ok(t) => t,
            };
            decode_scalar_text(t.as_str(), shape)
        },
        Shape::Tuple(shapes) => {
            proof {
                assert(shape@ is Tuple);
                assert(shape@->Tuple_0.len() == shapes@.len());
                assert forall|i: int|
                    0 <= i < shapes@.len() implies shape@->Tuple_0[i] == shapes_view(
                    shapes@,
                )[i] by {
                    assert(shape@->Tuple_0[i] == shape_model(shapes@[i]));
                    assert(shapes_view(shapes@)[i] == shapes@[i]@);
                }
                assert(shape@->Tuple_0 =~= shapes_view(shapes@));
                assert(shape@ == ShapeModel::Tuple(shapes_view(shapes@)));
            }
            let t = match w.value() {
                Err(e) => {
                    return Err(e);
                },
                Ok(t) => t,
            };
            decode_tuple_text(t.as_str(), shapes)
        },
        Shape::Sequence(b) => {
            match decode_seq_items(w, &**b, fuel) {
                Err(e) => Err(e),
                Ok(items) => {
                    proof {
                        assert(Value::Sequence(items)@->Sequence_0 =~= items.deep_view());
                        assert(Value::Sequence(items)@ == ValueModel::Sequence(
                            items.deep_view(),
                        ));
                    }
                    Ok(Value::Sequence(items))
                },
            }
        },
        Shape::Mapping(b) => {
            match decode_map_items(w, &**b, fuel) {
                Err(e) => Err(e),
                Ok(items) => {
                    proof {
                        assert(Value::Mapping(items)@->Mapping_0 =~= map_items_view(items@));
                        assert(Value::Mapping(items)@ == ValueModel::Mapping(
                            map_items_view(items@),
                        ));
                    }
                    Ok(Value::Mapping(items))
                },
            }
        },
        Shape::Struct { fields, capture_unknown } => {
            proof {
                assert(shape@ is Struct);
                assert(shape@->Struct_fields.len() == fields@.len());
                assert forall|i: int|
                    0 <= i < fields@.len() implies shape@->Struct_fields[i] == fields_view(
                    fields@,
                )[i] by {
                    assert(shape@->Struct_fields[i] == field_model(fields@[i]));
                    assert(fields_view(fields@)[i] == fields@[i]@);
                }
                assert(shape@->Struct_fields =~= fields_view(fields@));
                assert(shape@ == (ShapeModel::Struct {
                    fields: fields_view(fields@),
                    capture_unknown: *capture_unknown,
                }));
            }
            let items = match decode_struct_items(w, fields, *capture_unknown, fuel) {
                Err(e) => {
                    return Err(e);
                },
                Ok(items) => items,
            };
            match missing_required_from(fields, &items, 0) {
                Some(name) => {
                    proof {
                        assert(fields_view(fields@).skip(0) =~= fields_view(fields@));
                    }
                    let mut msg = String::from_str("missing required field ");
                    msg.append(name.as_str());
                    Err(DeserializerError::Custom(msg))
                },
                None => {
                    proof {
                        assert(fields_view(fields@).skip(0) =~= fields_view(fields@));
                        lemma_map_value_view(items);
                    }
                    Ok(Value::Mapping(items))
                },
            }
        },
        Shape::Union(variants) => {
            proof {
                assert(shape@ is Union);
                assert(shape@->Union_0.len() == variants@.len());
                assert forall|i: int|
                    0 <= i < variants@.len() implies shape@->Union_0[i] == variants_view(
                    variants@,
                )[i] by {
                    assert(shape@->Union_0[i] == variant_model(variants@[i]));
                    assert(variants_view(variants@)[i] == variants@[i]@);
                }
                assert(shape@->Union_0 =~= variants_view(variants@));
                assert(shape@ == ShapeModel::Union(variants_view(variants@)));
            }
            decode_union(w, variants, fuel)
        },
    }
}

/// Decodes the elements of a sequence group, as `s_decode_seq_items`
/// describes: index segments must be all-digit text, elements come in
/// source line order, and the depth delta is restored whatever the
/// outcome.
#[verifier::rlimit(100)]
#[verifier::spinoff_prover]
pub fn decode_seq_items(w: &mut LexerChildren, elem: &Shape, fuel: usize) -> (r: Result<
    Vec<Value>,
    DeserializerError,
>)
    requires
        old(w).wf(),
    ensures
        final(w).wf(),
        final(w)@ == s_decode_seq_items(old(w)@, elem@, fuel as nat).0,
        res_values(r) == s_decode_seq_items(old(w)@, elem@, fuel as nat).1,
    decreases fuel, 0int,
{
    if fuel == 0 {
        return Err(depth_error());
    }
    if w.is_finished() {
        let out: Vec<Value> = Vec::new();
        assert(out.deep_view() =~= Seq::<ValueModel>::empty());
        return Ok(out);
    }
    let ident = match w.value() {
        Err(e) => {
            return Err(e);
        },
        Ok(t) => t,
    };
    if !all_digits(ident.as_str()) {
        let off = w.byte_offset();
        return Err(DeserializerError::ExpectedSequenece {
            unexpected: Span { start: off.0, end: off.1 },
        });
    }
    w.increment_prefix_level();
    let nested = decode_value(w, elem, fuel - 1);
    // The depth delta is restored and the entry stepped past, whatever the
    // nested decode's outcome.
    w.decrement_prefix_level();
    w.next();
    let v = match nested {
        Err(e) => {
            return Err(e);
        },
        Ok(v) => v,
    };
    let mut rest = match decode_seq_items(w, elem, fuel - 1) {
        Err(e) => {
            return Err(e);
        },
        Ok(r) => r,
    };
    let ghost prev = rest.deep_view();
    let ghost vm = v@;
    rest.insert(0, v);
    proof {
        assert(rest.deep_view() =~= seq![vm] + prev);
    }
    Ok(rest)
}

/// Decodes the entries of a map group, as `s_decode_map_items` describes;
/// the depth delta is restored whatever the outcome.
#[verifier::rlimit(100)]
#[verifier::spinoff_prover]
pub fn decode_map_items(w: &mut LexerChildren, vs: &Shape, fuel: usize) -> (r: Result<
    Vec<(String, Value)>,
    DeserializerError,
>)
    requires
        old(w).wf(),
    ensures
        final(w).wf(),
        final(w)@ == s_decode_map_items(old(w)@, vs@, fuel as nat).0,
        res_items(r) == s_decode_map_items(old(w)@, vs@, fuel as nat).1,
    decreases fuel, 0int,
{
    if fuel == 0 {
        return Err(depth_error());
    }
    if w.is_finished() {
        let out: Vec<(String, Value)> = Vec::new();
        assert(map_items_view(out@) =~= Seq::<(Seq<char>, ValueModel)>::empty());
        return Ok(out);
    }
    let ident = match w.value() {
        Err(e) => {
            return Err(e);
        },
        Ok(t) => t,
    };
    w.increment_prefix_level();
    let nested = decode_value(w, vs, fuel - 1);
    // The depth delta is restored and the entry stepped past, whatever the
    // nested decode's outcome.
    w.decrement_prefix_level();
    w.next();
    let v = match nested {
        Err(e) => {
            return Err(e);
        },
        Ok(v) => v,
    };
    let mut rest = match decode_map_items(w, vs, fuel - 1) {
        Err(e) => {
            return Err(e);
        },
        Ok(r) => r,
    };
    let ghost prev = map_items_view(rest@);
    let ghost im = ident@;
    let ghost vm = v@;
    rest.insert(0, (ident, v));
    proof {
        assert(map_items_view(rest@) =~= seq![(im, vm)] + prev);
    }
    Ok(rest)
}

/// Decodes the entries of a struct group, as `s_decode_struct_items`
/// describes: declared fields by their shapes, unknown fields captured or
/// skipped.
#[verifier::rlimit(100)]
#[verifier::spinoff_prover]
pub fn decode_struct_items(
    w: &mut LexerChildren,
    fields: &Vec<Field>,
    capture_unknown: bool,
    fuel: usize,
) -> (r: Result<Vec<(String, Value)>, DeserializerError>)
    requires
        old(w).wf(),
    ensures
        final(w).wf(),
        final(w)@ == s_decode_struct_items(
            old(w)@,
            fields_view(fields@),
            capture_unknown,
            fuel as nat,
        ).0,
        res_items(r) == s_decode_struct_items(
            old(w)@,
            fields_view(fields@),
            capture_unknown,
            fuel as nat,
        ).1,
    decreases fuel, 0int,
{
    if fuel == 0 {
        return Err(depth_error());
    }
    if w.is_finished() {
        let out: Vec<(String, Value)> = Vec::new();
        assert(map_items_view(out@) =~= Seq::<(Seq<char>, ValueModel)>::empty());
        return Ok(out);
    }
    let ident = match w.value() {
        Err(e) => {
            return Err(e);
        },
        Ok(t) => t,
    };
    let known = find_field_from(fields, &ident, 0);
    proof {
        assert(fields_view(fields@).skip(0) =~= fields_view(fields@));
    }
    w.increment_prefix_level();
    let nested = match known {
        Some(fi) => decode_value(w, &fields[fi].shape, fuel - 1),
        None => decode_value(w, &Shape::Any, fuel - 1),
    };
    // The depth delta is restored and the entry stepped past, whatever the
    // nested decode's outcome.
    w.decrement_prefix_level();
    w.next();
    let v = match nested {
        Err(e) => {
            return Err(e);
        },
        Ok(v) => v,
    };
    let mut rest = match decode_struct_items(w, fields, capture_unknown, fuel - 1) {
        Err(e) => {
            return Err(e);
        },
        Ok(r) => r,
    };
    if known.is_some() || capture_unknown {
        let ghost prev = map_items_view(rest@);
        let ghost im = ident@;
        let ghost vm = v@;
        rest.insert(0, (ident, v));
        proof {
            assert(map_items_view(rest@) =~= seq![(im, vm)] + prev);
        }
    }
    Ok(rest)
}

/// Decodes a group as positional elements, as `s_decode_pos_items`
/// describes: the index text is consumed and discarded.
#[verifier::rlimit(100)]
#[verifier::spinoff_prover]
pub fn decode_pos_items(
    w: &mut LexerChildren,
    shapes: &Vec<Shape>,
    idx: usize,
    fuel: usize,
) -> (r: Result<Vec<Value>, DeserializerError>)
    requires
        old(w).wf(),
        idx <= shapes.len(),
    ensures
        final(w).wf(),
        final(w)@ == s_decode_pos_items(
            old(w)@,
            shapes_view(shapes@),
            idx as int,
            fuel as nat,
        ).0,
        res_values(r) == s_decode_pos_items(
            old(w)@,
            shapes_view(shapes@),
            idx as int,
            fuel as nat,
        ).1,
    decreases fuel, 0int,
{
    if fuel == 0 {
        return Err(depth_error());
    }
    if w.is_finished() {
        if idx == shapes.len() {
            let out: Vec<Value> = Vec::new();
            assert(out.deep_view() =~= Seq::<ValueModel>::empty());
            return Ok(out);
        } else {
            return Err(
                DeserializerError::Custom(
                    String::from_str("the group ends before the tuple shape is filled"),
                ),
            );
        }
    }
    if idx == shapes.len() {
        return Err(
            DeserializerError::Custom(
                String::from_str("the group holds more elements than the tuple shape"),
            ),
        );
    }
    match w.value() {
        Err(e) => {
            return Err(e);
        },
        Ok(_) => {},
    }
    w.increment_prefix_level();
    let nested = decode_value(w, &shapes[idx], fuel - 1);
    // The depth delta is restored and the entry stepped past, whatever the
    // nested decode's outcome.
    w.decrement_prefix_level();
    w.next();
    let v = match nested {
        Err(e) => {
            return Err(e);
        },
        Ok(v) => v,
    };
    let mut rest = match decode_pos_items(w, shapes, idx + 1, fuel - 1) {
        Err(e) => {
            return Err(e);
        },
        Ok(r) => r,
    };
    let ghost prev = rest.deep_view();
    let ghost vm = v@;
    rest.insert(0, v);
    proof {
        assert(rest.deep_view() =~= seq![vm] + prev);
    }
    Ok(rest)
}

/// Decodes a newtype payload, as `s_decode_newtype` describes.
fn decode_newtype(w: &mut LexerChildren, disc: String, b: &Shape, fuel: usize) -> (r: Result<
    Value,
    DeserializerError,
>)
    requires
        old(w).wf(),
        fuel >= 1,
    ensures
        final(w).wf(),
        final(w)@ == s_decode_newtype(old(w)@, disc@, b@, fuel as nat).0,
        res_value(r) == s_decode_newtype(old(w)@, disc@, b@, fuel as nat).1,
    decreases fuel, 0int,
{
    w.increment_prefix_level();
    let nested = decode_value(w, b, fuel - 1);
    // The depth delta is restored and the payload's group stepped past,
    // whatever the nested decode's outcome.
    w.decrement_prefix_level();
    w.next();
    let v = match nested {
        Err(e) => {
            return Err(e);
        },
        Ok(v) => v,
    };
    let mut entries: Vec<(String, Value)> = Vec::new();
    let ghost dm = disc@;
    let ghost vm = v@;
    entries.push((disc, v));
    proof {
        assert(map_items_view(entries@) =~= seq![(dm, vm)]);
        lemma_map_value_view(entries);
    }
    Ok(Value::Mapping(entries))
}

/// Decodes a tuple payload, as `s_decode_tuple_payload` describes.
fn decode_tuple_payload(
    w: &mut LexerChildren,
    disc: String,
    shapes: &Vec<Shape>,
    fuel: usize,
) -> (r: Result<Value, DeserializerError>)
    requires
        old(w).wf(),
        fuel >= 1,
    ensures
        final(w).wf(),
        final(w)@ == s_decode_tuple_payload(
            old(w)@,
            disc@,
            shapes_view(shapes@),
            fuel as nat,
        ).0,
        res_value(r) == s_decode_tuple_payload(
            old(w)@,
            disc@,
            shapes_view(shapes@),
            fuel as nat,
        ).1,
    decreases fuel, 0int,
{
    w.increment_prefix_level();
    let nested = decode_pos_items(w, shapes, 0, fuel - 1);
    // The depth delta is restored and the payload's group stepped past,
    // whatever the nested decode's outcome.
    w.decrement_prefix_level();
    w.next();
    let items = match nested {
        Err(e) => {
            return Err(e);
        },
        Ok(v) => v,
    };
    let mut entries: Vec<(String, Value)> = Vec::new();
    let ghost dm = disc@;
    let ghost items_m = items.deep_view();
    proof {
        lemma_seq_value_view(items);
    }
    entries.push((disc, Value::Sequence(items)));
    proof {
        assert(map_items_view(entries@) =~= seq![(dm, ValueModel::Sequence(items_m))]);
        lemma_map_value_view(entries);
    }
    Ok(Value::Mapping(entries))
}

/// Decodes a struct payload, as `s_decode_struct_payload` describes.
fn decode_struct_payload(
    w: &mut LexerChildren,
    disc: String,
    fields: &Vec<Field>,
    cap: bool,
    fuel: usize,
) -> (r: Result<Value, DeserializerError>)
    requires
        old(w).wf(),
        fuel >= 1,
    ensures
        final(w).wf(),
        final(w)@ == s_decode_struct_payload(
            old(w)@,
            disc@,
            fields_view(fields@),
            cap,
            fuel as nat,
        ).0,
        res_value(r) == s_decode_struct_payload(
            old(w)@,
            disc@,
            fields_view(fields@),
            cap,
            fuel as nat,
        ).1,
    decreases fuel, 0int,
{
    w.increment_prefix_level();
    let nested = decode_struct_items(w, fields, cap, fuel - 1);
    // The depth delta is restored and the payload's group stepped past,
    // whatever the outcome — a missing required field included.
    w.decrement_prefix_level();
    w.next();
    let items = match nested {
        Err(e) => {
            return Err(e);
        },
        Ok(v) => v,
    };
    match missing_required_from(fields, &items, 0) {
        Some(name) => {
            proof {
                assert(fields_view(fields@).skip(0) =~= fields_view(fields@));
            }
            let mut msg = String::from_str("missing required field ");
            msg.append(name.as_str());
            Err(DeserializerError::Custom(msg))
        },
        None => {
            proof {
                assert(fields_view(fields@).skip(0) =~= fields_view(fields@));
            }
            let mut entries: Vec<(String, Value)> = Vec::new();
            let ghost dm = disc@;
            let ghost items_m = map_items_view(items@);
            proof {
                lemma_map_value_view(items);
            }
            entries.push((disc, Value::Mapping(items)));
            proof {
                assert(map_items_view(entries@) =~= seq![(dm, ValueModel::Mapping(items_m))]);
                lemma_map_value_view(entries);
            }
            Ok(Value::Mapping(entries))
        },
    }
}

/// Decodes a matched union variant's payload, as `s_decode_dispatch`
/// describes.
#[verifier::rlimit(100)]
#[verifier::spinoff_prover]
fn decode_dispatch(
    w: &mut LexerChildren,
    disc: String,
    key_empty: bool,
    payload: &Payload,
    fuel: usize,
) -> (r: Result<Value, DeserializerError>)
    requires
        old(w).wf(),
        fuel >= 1,
    ensures
        final(w).wf(),
        final(w)@ == s_decode_dispatch(old(w)@, disc@, key_empty, payload@, fuel as nat).0,
        res_value(r) == s_decode_dispatch(old(w)@, disc@, key_empty, payload@, fuel as nat).1,
    decreases fuel, 1int,
{
    if key_empty {
        match payload {
            Payload::Unit => Ok(Value::Atom(Atom::Scalar(ScalarAtom::Str(disc)))),
            _ => Err(
                DeserializerError::Custom(
                    String::from_str("this union variant expects a payload"),
                ),
            ),
        }
    } else {
        match payload {
            Payload::Unit => Err(
                DeserializerError::Custom(String::from_str("a unit variant carries no payload")),
            ),
            Payload::Newtype(b) => decode_newtype(w, disc, &**b, fuel),
            Payload::Tuple(shapes) => {
                proof {
                    assert(payload@ is Tuple);
                    assert(payload@->Tuple_0.len() == shapes@.len());
                    assert forall|i: int|
                        0 <= i < shapes@.len() implies payload@->Tuple_0[i] == shapes_view(
                        shapes@,
                    )[i] by {
                        assert(payload@->Tuple_0[i] == shape_model(shapes@[i]));
                        assert(shapes_view(shapes@)[i] == shapes@[i]@);
                    }
                    assert(payload@->Tuple_0 =~= shapes_view(shapes@));
                    assert(payload@ == PayloadModel::Tuple(shapes_view(shapes@)));
                }
                decode_tuple_payload(w, disc, shapes, fuel)
            },
            Payload::Struct(fields, cap) => {
                proof {
                    assert(payload@ is Struct);
                    assert(payload@->Struct_0.len() == fields@.len());
                    assert forall|i: int|
                        0 <= i < fields@.len() implies payload@->Struct_0[i] == fields_view(
                        fields@,
                    )[i] by {
                        assert(payload@->Struct_0[i] == field_model(fields@[i]));
                        assert(fields_view(fields@)[i] == fields@[i]@);
                    }
                    assert(payload@->Struct_0 =~= fields_view(fields@));
                    assert(payload@ == PayloadModel::Struct(fields_view(fields@), *cap));
                }
                decode_struct_payload(w, disc, fields, *cap, fuel)
            },
        }
    }
}

/// Decodes a tagged union, as `s_decode_union` describes.
pub fn decode_union(w: &mut LexerChildren, variants: &Vec<Variant>, fuel: usize) -> (r: Result<
    Value,
    DeserializerError,
>)
    requires
        old(w).wf(),
    ensures
        final(w).wf(),
        final(w)@ == s_decode_union(old(w)@, variants_view(variants@), fuel as nat).0,
        res_value(r) == s_decode_union(old(w)@, variants_view(variants@), fuel as nat).1,
    decreases fuel, 2int,
{
    if fuel == 0 {
        return Err(depth_error());
    }
    let kv = match w.peek_key_value() {
        Err(e) => {
            return Err(e);
        },
        Ok(kv) => kv,
    };
    let key_empty = kv.key.as_str().unicode_len() == 0;
    let disc = match w.value() {
        Err(e) => {
            return Err(e);
        },
        Ok(t) => t,
    };
    let vi = match find_variant_from(variants, &disc, 0) {
        None => {
            proof {
                assert(variants_view(variants@).skip(0) =~= variants_view(variants@));
            }
            return Err(DeserializerError::Custom(String::from_str("unknown union variant")));
        },
        Some(i) => i,
    };
    proof {
        assert(variants_view(variants@).skip(0) =~= variants_view(variants@));
    }
    decode_dispatch(w, disc, key_empty, &variants[vi].payload, fuel)
}

/// Wrapping decoded elements as a sequence value matches the model.
pub proof fn lemma_seq_value_view(vals: Vec<Value>)
    ensures
        Value::Sequence(vals)@ == ValueModel::Sequence(vals.deep_view()),
{
    let vm = Value::Sequence(vals)@;
    assert(vm is Sequence);
    assert(vm->Sequence_0.len() == vals@.len());
    assert(vals.deep_view().len() == vals@.len());
    assert forall|i: int| 0 <= i < vals@.len() implies vm->Sequence_0[i] == vals.deep_view()[i]
        by {
        assert(vm->Sequence_0[i] == vals@[i].view());
        assert(vals.deep_view()[i] == vals@[i].deep_view());
    }
    assert(vm->Sequence_0 =~= vals.deep_view());
}

/// Wrapping decoded entries as a mapping value matches the model.
pub proof fn lemma_map_value_view(items: Vec<(String, Value)>)
    ensures
        Value::Mapping(items)@ == ValueModel::Mapping(map_items_view(items@)),
{
    let vm = Value::Mapping(items)@;
    assert(vm is Mapping);
    assert(vm->Mapping_0.len() == items@.len());
    assert(map_items_view(items@).len() == items@.len());
    assert forall|i: int| 0 <= i < items@.len() implies vm->Mapping_0[i] == map_items_view(
        items@,
    )[i] by {
        assert(vm->Mapping_0[i] == (items@[i].0@, items@[i].1.view()));
        assert(map_items_view(items@)[i] == (items@[i].0@, items@[i].1.view()));
    }
    assert(vm->Mapping_0 =~= map_items_view(items@));
}

/// An out-of-place token for a boolean yields `ExpectedBool` with a span
/// exactly covering the token.
pub proof fn lemma_bool_error_span(t: Seq<char>)
    requires
        atom::bool_lit_value_s(t) is None,
    ensures
        s_decode_scalar_text(t, ShapeModel::Bool) == Err::<ValueModel, ErrModel>(
            ErrModel::Atom(
                AtomErrModel::ExpectedBool(Span { start: 0, end: t.len() as usize }),
            ),
        ),
{
}



// ---------------------------------------------------------------------------
// Entry points
// ---------------------------------------------------------------------------

/// The nesting budget granted to a decode over these lines: ample for every
/// group and every level the lines can name, since one line supports at most
/// one descent per key character.
pub open spec fn s_fuel_for(lines: Seq<Seq<char>>) -> int
    decreases lines.len(),
{
    if lines.len() == 0 {
        64
    } else {
        sat_add_s(s_fuel_for(lines.drop_first()), sat_add_s(lines[0].len() as int, 2))
    }
}

/// Computes the nesting budget, from line `from` on.
fn fuel_from(lines: &Vec<String>, from: usize) -> (r: usize)
    requires
        from <= lines.len(),
    ensures
        r as int == s_fuel_for(lines.deep_view().skip(from as int)),
    decreases lines.len() - from,
{
    if from == lines.len() {
        assert(lines.deep_view().skip(from as int) =~= Seq::<Seq<char>>::empty());
        64
    } else {
        proof {
            assert(lines.deep_view().skip(from as int).drop_first() =~= lines.deep_view().skip(
                from + 1,
            ));
        }
        let rest = fuel_from(lines, from + 1);
        sat_add(rest, sat_add(lines[from].as_str().unicode_len(), 2))
    }
}

/// What decoding a line sequence against a shape yields: a fresh window at
/// depth 0 over the lines, decoded with the full budget.
pub open spec fn s_decode_lines(lines: Seq<Seq<char>>, sh: ShapeModel) -> Result<
    ValueModel,
    ErrModel,
> {
    let m = WindowModel {
        lines,
        pos: 0,
        level: 0,
        prefix: None,
        lo: 0,
        hi: 0,
    };
    s_decode_value(m, sh, s_fuel_for(lines) as nat).1
}

/// Decodes an already-filtered line sequence against a target shape: the
/// core entry of the structural decoder.
pub fn decode_lines(lines: Vec<String>, shape: &Shape) -> (r: Result<Value, DeserializerError>)
    ensures
        res_value(r) == s_decode_lines(lines.deep_view(), shape@),
{
    proof {
        assert(lines.deep_view().skip(0) =~= lines.deep_view());
    }
    let fuel = fuel_from(&lines, 0);
    let mut w = LexerChildren::new(lines);
    decode_value(&mut w, shape, fuel)
}

/// What decoding a whole text against a shape yields: the text split into
/// lines, comment and blank lines dropped, then decoded.
pub open spec fn s_decode_str(s: Seq<char>, sh: ShapeModel) -> Result<ValueModel, ErrModel> {
    s_decode_lines(content_lines_s(split_lines_s(s)), sh)
}

/// Decodes a whole text against a target shape. Lines that are blank, or
/// whose first non-whitespace character is `#`, are comments and are
/// dropped before decoding.
pub fn decode_str(s: &str, shape: &Shape) -> (r: Result<Value, DeserializerError>)
    ensures
        res_value(r) == s_decode_str(s@, shape@),
{
    let raw = split_lines(s);
    proof {
        assert(raw.deep_view().skip(0) =~= raw.deep_view());
    }
    let content = content_lines_from(&raw, 0);
    decode_lines(content, shape)
}

/// Decodes a whole text with the shape inferred from the lines themselves:
/// digits-keyed groups become sequences, other keyed groups become maps,
/// leaves become atoms.
pub fn from_str(s: &str) -> (r: Result<Value, DeserializerError>)
    ensures
        res_value(r) == s_decode_str(s@, ShapeModel::Any),
{
    decode_str(s, &Shape::Any)
}

} // verus!
