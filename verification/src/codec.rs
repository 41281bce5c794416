//! Binary snapshot codec.
//!
//! A document payload is a fixed-order, length-prefixed encoding: integers
//! are big-endian, strings are a `u32` byte length followed by the UTF-8
//! bytes, lists are a `u32` element count followed by the elements, optional
//! values carry a one-byte presence marker.  A snapshot of the whole store is
//! a `u32` entry count followed by `(id, payload)` entries, each length
//! prefixed the same way.
//!
//! Every encoder is specified by a spec-level byte sequence (`enc_*`); every
//! decoder is specified by a spec-level parser (`dec_*`) that consumes a
//! prefix of the input and returns the rest.  The round-trip lemmas prove
//! that the parsers invert the encoders.

use vstd::prelude::*;
use vstd::utf8::{decode_utf8, encode_utf8, valid_utf8};

use crate::error::StoreError;
use crate::model::{
    ClassDef, ClassDefView, Document, DocumentView, Field, FieldView, Multiplicity, Operation,
    OperationView, RelationEdge, RelationEdgeView, RelationKind, Visibility,
};

verus! {

/// Largest value that fits a `u32` length prefix.
pub open spec fn max_len() -> int {
    0xFFFF_FFFF
}

// ---------------------------------------------------------------------------
// Primitive encoders (spec level)
// ---------------------------------------------------------------------------

/// Big-endian bytes of a `u32`.
pub open spec fn enc_u32(x: u32) -> Seq<u8> {
    seq![(x >> 24) as u8, (x >> 16) as u8, (x >> 8) as u8, x as u8]
}

/// Big-endian bytes of a `u64`.
pub open spec fn enc_u64(x: u64) -> Seq<u8> {
    seq![
        (x >> 56) as u8,
        (x >> 48) as u8,
        (x >> 40) as u8,
        (x >> 32) as u8,
        (x >> 24) as u8,
        (x >> 16) as u8,
        (x >> 8) as u8,
        x as u8,
    ]
}

/// A signed timestamp is carried as its two's-complement `u64`.
pub open spec fn enc_i64(x: i64) -> Seq<u8> {
    enc_u64(x as u64)
}

/// One byte for an optional bool: absent, false, true.
pub open spec fn enc_opt_bool(b: Option<bool>) -> Seq<u8> {
    match b {
        Option::None => seq![0u8],
        Option::Some(false) => seq![1u8],
        Option::Some(true) => seq![2u8],
    }
}

/// Code of a visibility value.
pub open spec fn vis_code(v: Visibility) -> u8 {
    match v {
        Visibility::NonModifier => 0,
        Visibility::Public => 1,
        Visibility::Private => 2,
        Visibility::Protected => 3,
    }
}

/// One byte for a required visibility.
pub open spec fn enc_vis(v: Visibility) -> Seq<u8> {
    seq![vis_code(v)]
}

/// One byte for an optional visibility: codes 0 to 3, or 4 for absent.
pub open spec fn enc_opt_vis(v: Option<Visibility>) -> Seq<u8> {
    match v {
        Option::None => seq![4u8],
        Option::Some(w) => seq![vis_code(w)],
    }
}

/// Code of a relation kind.
pub open spec fn rel_code(r: RelationKind) -> u8 {
    match r {
        RelationKind::NoRelation => 0,
        RelationKind::Inheritance => 1,
        RelationKind::Implementation => 2,
        RelationKind::Association => 3,
        RelationKind::Aggregation => 4,
        RelationKind::Composition => 5,
    }
}

/// One byte for a relation kind.
pub open spec fn enc_rel(r: RelationKind) -> Seq<u8> {
    seq![rel_code(r)]
}

/// A string: `u32` byte length, then the UTF-8 bytes.
pub open spec fn enc_str(s: Seq<char>) -> Seq<u8> {
    enc_u32(encode_utf8(s).len() as u32) + encode_utf8(s)
}

/// The length prefix of a string must fit a `u32`.
pub open spec fn str_encodable(s: Seq<char>) -> bool {
    encode_utf8(s).len() <= max_len()
}

/// An optional string: presence marker, then the string.
pub open spec fn enc_opt_str(s: Option<Seq<char>>) -> Seq<u8> {
    match s {
        Option::None => seq![0u8],
        Option::Some(t) => seq![1u8] + enc_str(t),
    }
}

pub open spec fn opt_str_encodable(s: Option<Seq<char>>) -> bool {
    match s {
        Option::None => true,
        Option::Some(t) => str_encodable(t),
    }
}

/// An optional `u32`: presence marker, then the value.
pub open spec fn enc_opt_u32(x: Option<u32>) -> Seq<u8> {
    match x {
        Option::None => seq![0u8],
        Option::Some(v) => seq![1u8] + enc_u32(v),
    }
}

/// A multiplicity: lower bound, then optional upper bound.
pub open spec fn enc_mult(m: Multiplicity) -> Seq<u8> {
    enc_u32(m.lower) + enc_opt_u32(m.upper)
}

/// An optional multiplicity: presence marker, then the value.
pub open spec fn enc_opt_mult(m: Option<Multiplicity>) -> Seq<u8> {
    match m {
        Option::None => seq![0u8],
        Option::Some(v) => seq![1u8] + enc_mult(v),
    }
}

// ---------------------------------------------------------------------------
// Primitive parsers (spec level)
// ---------------------------------------------------------------------------

/// Big-endian recombination of four bytes.
pub open spec fn u32_of_bytes(b0: u8, b1: u8, b2: u8, b3: u8) -> u32 {
    (((b0 as u32) << 24) | ((b1 as u32) << 16) | ((b2 as u32) << 8) | (b3 as u32)) as u32
}

/// Big-endian recombination of eight bytes.
pub open spec fn u64_of_bytes(b0: u8, b1: u8, b2: u8, b3: u8, b4: u8, b5: u8, b6: u8, b7: u8) -> u64 {
    (((b0 as u64) << 56) | ((b1 as u64) << 48) | ((b2 as u64) << 40) | ((b3 as u64) << 32)
        | ((b4 as u64) << 24) | ((b5 as u64) << 16) | ((b6 as u64) << 8) | (b7 as u64)) as u64
}

pub open spec fn dec_u32(b: Seq<u8>) -> Option<(u32, Seq<u8>)> {
    if b.len() >= 4 {
        Option::Some((u32_of_bytes(b[0], b[1], b[2], b[3]), b.skip(4)))
    } else {
        Option::None
    }
}

pub open spec fn dec_u64(b: Seq<u8>) -> Option<(u64, Seq<u8>)> {
    if b.len() >= 8 {
        Option::Some(
            (u64_of_bytes(b[0], b[1], b[2], b[3], b[4], b[5], b[6], b[7]), b.skip(8)),
        )
    } else {
        Option::None
    }
}

pub open spec fn dec_i64(b: Seq<u8>) -> Option<(i64, Seq<u8>)> {
    match dec_u64(b) {
        Option::Some((x, rest)) => Option::Some((x as i64, rest)),
        Option::None => Option::None,
    }
}

pub open spec fn dec_opt_bool(b: Seq<u8>) -> Option<(Option<bool>, Seq<u8>)> {
    if b.len() >= 1 {
        if b[0] == 0 {
            Option::Some((Option::None, b.skip(1)))
        } else if b[0] == 1 {
            Option::Some((Option::Some(false), b.skip(1)))
        } else if b[0] == 2 {
            Option::Some((Option::Some(true), b.skip(1)))
        } else {
            Option::None
        }
    } else {
        Option::None
    }
}

/// The visibility with the given code, if any.
pub open spec fn vis_of_code(c: u8) -> Option<Visibility> {
    if c == 0 {
        Option::Some(Visibility::NonModifier)
    } else if c == 1 {
        Option::Some(Visibility::Public)
    } else if c == 2 {
        Option::Some(Visibility::Private)
    } else if c == 3 {
        Option::Some(Visibility::Protected)
    } else {
        Option::None
    }
}

pub open spec fn dec_vis(b: Seq<u8>) -> Option<(Visibility, Seq<u8>)> {
    if b.len() >= 1 {
        match vis_of_code(b[0]) {
            Option::Some(v) => Option::Some((v, b.skip(1))),
            Option::None => Option::None,
        }
    } else {
        Option::None
    }
}

pub open spec fn dec_opt_vis(b: Seq<u8>) -> Option<(Option<Visibility>, Seq<u8>)> {
    if b.len() >= 1 {
        if b[0] == 4 {
            Option::Some((Option::None, b.skip(1)))
        } else {
            match vis_of_code(b[0]) {
                Option::Some(v) => Option::Some((Option::Some(v), b.skip(1))),
                Option::None => Option::None,
            }
        }
    } else {
        Option::None
    }
}

/// The relation kind with the given code, if any.
pub open spec fn rel_of_code(c: u8) -> Option<RelationKind> {
    if c == 0 {
        Option::Some(RelationKind::NoRelation)
    } else if c == 1 {
        Option::Some(RelationKind::Inheritance)
    } else if c == 2 {
        Option::Some(RelationKind::Implementation)
    } else if c == 3 {
        Option::Some(RelationKind::Association)
    } else if c == 4 {
        Option::Some(RelationKind::Aggregation)
    } else if c == 5 {
        Option::Some(RelationKind::Composition)
    } else {
        Option::None
    }
}

pub open spec fn dec_rel(b: Seq<u8>) -> Option<(RelationKind, Seq<u8>)> {
    if b.len() >= 1 {
        match rel_of_code(b[0]) {
            Option::Some(r) => Option::Some((r, b.skip(1))),
            Option::None => Option::None,
        }
    } else {
        Option::None
    }
}

pub open spec fn dec_str(b: Seq<u8>) -> Option<(Seq<char>, Seq<u8>)> {
    match dec_u32(b) {
        Option::Some((n, b1)) => if n as int <= b1.len() && valid_utf8(b1.take(n as int)) {
            Option::Some((decode_utf8(b1.take(n as int)), b1.skip(n as int)))
        } else {
            Option::None
        },
        Option::None => Option::None,
    }
}

pub open spec fn dec_opt_str(b: Seq<u8>) -> Option<(Option<Seq<char>>, Seq<u8>)> {
    if b.len() >= 1 {
        if b[0] == 0 {
            Option::Some((Option::None, b.skip(1)))
        } else if b[0] == 1 {
            match dec_str(b.skip(1)) {
                Option::Some((s, rest)) => Option::Some((Option::Some(s), rest)),
                Option::None => Option::None,
            }
        } else {
            Option::None
        }
    } else {
        Option::None
    }
}

pub open spec fn dec_opt_u32(b: Seq<u8>) -> Option<(Option<u32>, Seq<u8>)> {
    if b.len() >= 1 {
        if b[0] == 0 {
            Option::Some((Option::None, b.skip(1)))
        } else if b[0] == 1 {
            match dec_u32(b.skip(1)) {
                Option::Some((x, rest)) => Option::Some((Option::Some(x), rest)),
                Option::None => Option::None,
            }
        } else {
            Option::None
        }
    } else {
        Option::None
    }
}

pub open spec fn dec_mult(b: Seq<u8>) -> Option<(Multiplicity, Seq<u8>)> {
    match dec_u32(b) {
        Option::Some((lower, b1)) => match dec_opt_u32(b1) {
            Option::Some((upper, rest)) => Option::Some((Multiplicity { lower, upper }, rest)),
            Option::None => Option::None,
        },
        Option::None => Option::None,
    }
}

pub open spec fn dec_opt_mult(b: Seq<u8>) -> Option<(Option<Multiplicity>, Seq<u8>)> {
    if b.len() >= 1 {
        if b[0] == 0 {
            Option::Some((Option::None, b.skip(1)))
        } else if b[0] == 1 {
            match dec_mult(b.skip(1)) {
                Option::Some((m, rest)) => Option::Some((Option::Some(m), rest)),
                Option::None => Option::None,
            }
        } else {
            Option::None
        }
    } else {
        Option::None
    }
}

// ---------------------------------------------------------------------------
// Primitive round-trip lemmas
// ---------------------------------------------------------------------------

proof fn lemma_u32_bits_round(x: u32)
    ensures
        u32_of_bytes((x >> 24) as u8, (x >> 16) as u8, (x >> 8) as u8, x as u8) == x,
{
    assert((((((x >> 24) as u8) as u32) << 24) | ((((x >> 16) as u8) as u32) << 16) | ((((x
        >> 8) as u8) as u32) << 8) | ((x as u8) as u32)) as u32 == x) by (bit_vector);
}

proof fn lemma_u64_bits_round(x: u64)
    ensures
        u64_of_bytes(
            (x >> 56) as u8,
            (x >> 48) as u8,
            (x >> 40) as u8,
            (x >> 32) as u8,
            (x >> 24) as u8,
            (x >> 16) as u8,
            (x >> 8) as u8,
            x as u8,
        ) == x,
{
    assert((((((x >> 56) as u8) as u64) << 56) | ((((x >> 48) as u8) as u64) << 48) | ((((x
        >> 40) as u8) as u64) << 40) | ((((x >> 32) as u8) as u64) << 32) | ((((x
        >> 24) as u8) as u64) << 24) | ((((x >> 16) as u8) as u64) << 16) | ((((x
        >> 8) as u8) as u64) << 8) | ((x as u8) as u64)) as u64 == x) by (bit_vector);
}

proof fn lemma_i64_cast_round(x: i64)
    ensures
        ((x as u64) as i64) == x,
{
    assert(((x as u64) as i64) == x) by (bit_vector);
}

pub proof fn lemma_dec_enc_u32(x: u32, rest: Seq<u8>)
    ensures
        dec_u32(enc_u32(x) + rest) == Option::Some((x, rest)),
{
    let b = enc_u32(x) + rest;
    lemma_u32_bits_round(x);
    assert(b.skip(4) =~= rest);
    assert(b[0] == (x >> 24) as u8);
    assert(b[1] == (x >> 16) as u8);
    assert(b[2] == (x >> 8) as u8);
    assert(b[3] == x as u8);
}

pub proof fn lemma_dec_enc_u64(x: u64, rest: Seq<u8>)
    ensures
        dec_u64(enc_u64(x) + rest) == Option::Some((x, rest)),
{
    let b = enc_u64(x) + rest;
    lemma_u64_bits_round(x);
    assert(b.skip(8) =~= rest);
    assert(b[0] == (x >> 56) as u8);
    assert(b[1] == (x >> 48) as u8);
    assert(b[2] == (x >> 40) as u8);
    assert(b[3] == (x >> 32) as u8);
    assert(b[4] == (x >> 24) as u8);
    assert(b[5] == (x >> 16) as u8);
    assert(b[6] == (x >> 8) as u8);
    assert(b[7] == x as u8);
}

pub proof fn lemma_dec_enc_i64(x: i64, rest: Seq<u8>)
    ensures
        dec_i64(enc_i64(x) + rest) == Option::Some((x, rest)),
{
    lemma_dec_enc_u64(x as u64, rest);
    lemma_i64_cast_round(x);
}

pub proof fn lemma_dec_enc_str(s: Seq<char>, rest: Seq<u8>)
    requires
        str_encodable(s),
    ensures
        dec_str(enc_str(s) + rest) == Option::Some((s, rest)),
{
    let u = encode_utf8(s);
    let n = u.len() as u32;
    let b = enc_str(s) + rest;
    assert(b =~= enc_u32(n) + (u + rest));
    lemma_dec_enc_u32(n, u + rest);
    let b1 = u + rest;
    assert(b1.take(n as int) =~= u);
    assert(b1.skip(n as int) =~= rest);
    vstd::utf8::encode_utf8_valid_utf8(s);
    vstd::utf8::encode_utf8_decode_utf8(s);
}

pub proof fn lemma_dec_enc_opt_str(s: Option<Seq<char>>, rest: Seq<u8>)
    requires
        opt_str_encodable(s),
    ensures
        dec_opt_str(enc_opt_str(s) + rest) == Option::Some((s, rest)),
{
    match s {
        Option::None => {
            let b = enc_opt_str(s) + rest;
            assert(b.skip(1) =~= rest);
        },
        Option::Some(t) => {
            let b = enc_opt_str(s) + rest;
            assert(b[0] == 1);
            assert(b.skip(1) =~= enc_str(t) + rest);
            lemma_dec_enc_str(t, rest);
        },
    }
}

pub proof fn lemma_dec_enc_opt_bool(x: Option<bool>, rest: Seq<u8>)
    ensures
        dec_opt_bool(enc_opt_bool(x) + rest) == Option::Some((x, rest)),
{
    let b = enc_opt_bool(x) + rest;
    assert(b.skip(1) =~= rest);
}

pub proof fn lemma_dec_enc_vis(v: Visibility, rest: Seq<u8>)
    ensures
        dec_vis(enc_vis(v) + rest) == Option::Some((v, rest)),
{
    let b = enc_vis(v) + rest;
    assert(b.skip(1) =~= rest);
}

pub proof fn lemma_dec_enc_opt_vis(v: Option<Visibility>, rest: Seq<u8>)
    ensures
        dec_opt_vis(enc_opt_vis(v) + rest) == Option::Some((v, rest)),
{
    let b = enc_opt_vis(v) + rest;
    assert(b.skip(1) =~= rest);
}

pub proof fn lemma_dec_enc_rel(r: RelationKind, rest: Seq<u8>)
    ensures
        dec_rel(enc_rel(r) + rest) == Option::Some((r, rest)),
{
    let b = enc_rel(r) + rest;
    assert(b.skip(1) =~= rest);
}

pub proof fn lemma_dec_enc_opt_u32(x: Option<u32>, rest: Seq<u8>)
    ensures
        dec_opt_u32(enc_opt_u32(x) + rest) == Option::Some((x, rest)),
{
    match x {
        Option::None => {
            let b = enc_opt_u32(x) + rest;
            assert(b.skip(1) =~= rest);
        },
        Option::Some(v) => {
            let b = enc_opt_u32(x) + rest;
            assert(b[0] == 1);
            assert(b.skip(1) =~= enc_u32(v) + rest);
            lemma_dec_enc_u32(v, rest);
        },
    }
}

pub proof fn lemma_dec_enc_mult(m: Multiplicity, rest: Seq<u8>)
    ensures
        dec_mult(enc_mult(m) + rest) == Option::Some((m, rest)),
{
    let b = enc_mult(m) + rest;
    assert(b =~= enc_u32(m.lower) + (enc_opt_u32(m.upper) + rest));
    lemma_dec_enc_u32(m.lower, enc_opt_u32(m.upper) + rest);
    lemma_dec_enc_opt_u32(m.upper, rest);
}

pub proof fn lemma_dec_enc_opt_mult(m: Option<Multiplicity>, rest: Seq<u8>)
    ensures
        dec_opt_mult(enc_opt_mult(m) + rest) == Option::Some((m, rest)),
{
    match m {
        Option::None => {
            let b = enc_opt_mult(m) + rest;
            assert(b.skip(1) =~= rest);
        },
        Option::Some(v) => {
            let b = enc_opt_mult(m) + rest;
            assert(b[0] == 1);
            assert(b.skip(1) =~= enc_mult(v) + rest);
            lemma_dec_enc_mult(v, rest);
        },
    }
}

// ---------------------------------------------------------------------------
// Composite encoders (spec level)
// ---------------------------------------------------------------------------

#[verifier::opaque]
pub open spec fn enc_field(f: FieldView) -> Seq<u8> {
    enc_str(f.name) + enc_str(f.field_type) + enc_opt_vis(f.visibility) + enc_opt_bool(f.is_static)
}

pub open spec fn field_encodable(f: FieldView) -> bool {
    str_encodable(f.name) && str_encodable(f.field_type)
}

pub open spec fn enc_fields(s: Seq<FieldView>) -> Seq<u8>
    decreases s.len(),
{
    if s.len() == 0 {
        Seq::empty()
    } else {
        enc_field(s[0]) + enc_fields(s.drop_first())
    }
}

pub open spec fn fields_encodable(s: Seq<FieldView>) -> bool {
    s.len() <= max_len() && forall|i: int| 0 <= i < s.len() ==> field_encodable(#[trigger] s[i])
}

#[verifier::opaque]
pub open spec fn enc_operation(m: OperationView) -> Seq<u8> {
    enc_str(m.name) + enc_str(m.return_type) + enc_vis(m.visibility) + enc_opt_bool(m.is_abstract)
        + enc_opt_bool(m.is_static) + enc_u32(m.parameters.len() as u32) + enc_fields(m.parameters)
}

pub open spec fn operation_encodable(m: OperationView) -> bool {
    str_encodable(m.name) && str_encodable(m.return_type) && fields_encodable(m.parameters)
}

pub open spec fn enc_operations(s: Seq<OperationView>) -> Seq<u8>
    decreases s.len(),
{
    if s.len() == 0 {
        Seq::empty()
    } else {
        enc_operation(s[0]) + enc_operations(s.drop_first())
    }
}

pub open spec fn operations_encodable(s: Seq<OperationView>) -> bool {
    s.len() <= max_len() && forall|i: int| 0 <= i < s.len() ==> operation_encodable(#[trigger] s[i])
}

#[verifier::opaque]
pub open spec fn enc_edge(e: RelationEdgeView) -> Seq<u8> {
    enc_str(e.target_class_id) + enc_rel(e.relation) + enc_opt_mult(e.multiplicity_p)
        + enc_opt_mult(e.multiplicity_c) + enc_opt_str(e.role_name_p) + enc_opt_str(e.role_name_c)
}

pub open spec fn edge_encodable(e: RelationEdgeView) -> bool {
    str_encodable(e.target_class_id) && opt_str_encodable(e.role_name_p) && opt_str_encodable(
        e.role_name_c,
    )
}

pub open spec fn enc_edges(s: Seq<RelationEdgeView>) -> Seq<u8>
    decreases s.len(),
{
    if s.len() == 0 {
        Seq::empty()
    } else {
        enc_edge(s[0]) + enc_edges(s.drop_first())
    }
}

pub open spec fn edges_encodable(s: Seq<RelationEdgeView>) -> bool {
    s.len() <= max_len() && forall|i: int| 0 <= i < s.len() ==> edge_encodable(#[trigger] s[i])
}

/// Optional relation list: presence marker, then count and elements.
pub open spec fn enc_opt_edges(s: Option<Seq<RelationEdgeView>>) -> Seq<u8> {
    match s {
        Option::None => seq![0u8],
        Option::Some(v) => seq![1u8] + enc_u32(v.len() as u32) + enc_edges(v),
    }
}

pub open spec fn opt_edges_encodable(s: Option<Seq<RelationEdgeView>>) -> bool {
    match s {
        Option::None => true,
        Option::Some(v) => edges_encodable(v),
    }
}

#[verifier::opaque]
pub open spec fn enc_class(c: ClassDefView) -> Seq<u8> {
    enc_str(c.id) + enc_str(c.name) + enc_u32(c.attributes.len() as u32) + enc_fields(c.attributes)
        + enc_u32(c.methods.len() as u32) + enc_operations(c.methods) + enc_opt_edges(c.relations)
}

pub open spec fn class_encodable(c: ClassDefView) -> bool {
    str_encodable(c.id) && str_encodable(c.name) && fields_encodable(c.attributes)
        && operations_encodable(c.methods) && opt_edges_encodable(c.relations)
}

pub open spec fn enc_classes(s: Seq<ClassDefView>) -> Seq<u8>
    decreases s.len(),
{
    if s.len() == 0 {
        Seq::empty()
    } else {
        enc_class(s[0]) + enc_classes(s.drop_first())
    }
}

pub open spec fn classes_encodable(s: Seq<ClassDefView>) -> bool {
    s.len() <= max_len() && forall|i: int| 0 <= i < s.len() ==> class_encodable(#[trigger] s[i])
}

/// The whole per-document payload.
#[verifier::opaque]
pub open spec fn enc_document(d: DocumentView) -> Seq<u8> {
    enc_str(d.id) + enc_str(d.name) + enc_i64(d.created_at) + enc_i64(d.last_modified) + enc_u32(
        d.classes.len() as u32,
    ) + enc_classes(d.classes)
}

pub open spec fn document_encodable(d: DocumentView) -> bool {
    str_encodable(d.id) && str_encodable(d.name) && classes_encodable(d.classes)
}

// ---------------------------------------------------------------------------
// Composite parsers (spec level)
// ---------------------------------------------------------------------------

#[verifier::opaque]
pub open spec fn dec_field(b: Seq<u8>) -> Option<(FieldView, Seq<u8>)> {
    match dec_str(b) {
        Option::Some((name, b1)) => match dec_str(b1) {
            Option::Some((field_type, b2)) => match dec_opt_vis(b2) {
                Option::Some((visibility, b3)) => match dec_opt_bool(b3) {
                    Option::Some((is_static, rest)) => Option::Some(
                        (FieldView { name, field_type, visibility, is_static }, rest),
                    ),
                    Option::None => Option::None,
                },
                Option::None => Option::None,
            },
            Option::None => Option::None,
        },
        Option::None => Option::None,
    }
}

pub open spec fn dec_fields(b: Seq<u8>, n: nat) -> Option<(Seq<FieldView>, Seq<u8>)>
    decreases n,
{
    if n == 0 {
        Option::Some((Seq::empty(), b))
    } else {
        match dec_field(b) {
            Option::Some((f, b1)) => match dec_fields(b1, (n - 1) as nat) {
                Option::Some((s, rest)) => Option::Some((seq![f] + s, rest)),
                Option::None => Option::None,
            },
            Option::None => Option::None,
        }
    }
}

#[verifier::opaque]
pub open spec fn dec_operation(b: Seq<u8>) -> Option<(OperationView, Seq<u8>)> {
    match dec_str(b) {
        Option::Some((name, b1)) => match dec_str(b1) {
            Option::Some((return_type, b2)) => match dec_vis(b2) {
                Option::Some((visibility, b3)) => match dec_opt_bool(b3) {
                    Option::Some((is_abstract, b4)) => match dec_opt_bool(b4) {
                        Option::Some((is_static, b5)) => match dec_u32(b5) {
                            Option::Some((n, b6)) => match dec_fields(b6, n as nat) {
                                Option::Some((parameters, rest)) => Option::Some(
                                    (
                                        OperationView {
                                            name,
                                            return_type,
                                            visibility,
                                            is_abstract,
                                            is_static,
                                            parameters,
                                        },
                                        rest,
                                    ),
                                ),
                                Option::None => Option::None,
                            },
                            Option::None => Option::None,
                        },
                        Option::None => Option::None,
                    },
                    Option::None => Option::None,
                },
                Option::None => Option::None,
            },
            Option::None => Option::None,
        },
        Option::None => Option::None,
    }
}

pub open spec fn dec_operations(b: Seq<u8>, n: nat) -> Option<(Seq<OperationView>, Seq<u8>)>
    decreases n,
{
    if n == 0 {
        Option::Some((Seq::empty(), b))
    } else {
        match dec_operation(b) {
            Option::Some((m, b1)) => match dec_operations(b1, (n - 1) as nat) {
                Option::Some((s, rest)) => Option::Some((seq![m] + s, rest)),
                Option::None => Option::None,
            },
            Option::None => Option::None,
        }
    }
}

#[verifier::opaque]
pub open spec fn dec_edge(b: Seq<u8>) -> Option<(RelationEdgeView, Seq<u8>)> {
    match dec_str(b) {
        Option::Some((target_class_id, b1)) => match dec_rel(b1) {
            Option::Some((relation, b2)) => match dec_opt_mult(b2) {
                Option::Some((multiplicity_p, b3)) => match dec_opt_mult(b3) {
                    Option::Some((multiplicity_c, b4)) => match dec_opt_str(b4) {
                        Option::Some((role_name_p, b5)) => match dec_opt_str(b5) {
                            Option::Some((role_name_c, rest)) => Option::Some(
                                (
                                    RelationEdgeView {
                                        target_class_id,
                                        relation,
                                        multiplicity_p,
                                        multiplicity_c,
                                        role_name_p,
                                        role_name_c,
                                    },
                                    rest,
                                ),
                            ),
                            Option::None => Option::None,
                        },
                        Option::None => Option::None,
                    },
                    Option::None => Option::None,
                },
                Option::None => Option::None,
            },
            Option::None => Option::None,
        },
        Option::None => Option::None,
    }
}

pub open spec fn dec_edges(b: Seq<u8>, n: nat) -> Option<(Seq<RelationEdgeView>, Seq<u8>)>
    decreases n,
{
    if n == 0 {
        Option::Some((Seq::empty(), b))
    } else {
        match dec_edge(b) {
            Option::Some((e, b1)) => match dec_edges(b1, (n - 1) as nat) {
                Option::Some((s, rest)) => Option::Some((seq![e] + s, rest)),
                Option::None => Option::None,
            },
            Option::None => Option::None,
        }
    }
}

pub open spec fn dec_opt_edges(b: Seq<u8>) -> Option<(Option<Seq<RelationEdgeView>>, Seq<u8>)> {
    if b.len() >= 1 {
        if b[0] == 0 {
            Option::Some((Option::None, b.skip(1)))
        } else if b[0] == 1 {
            match dec_u32(b.skip(1)) {
                Option::Some((n, b1)) => match dec_edges(b1, n as nat) {
                    Option::Some((s, rest)) => Option::Some((Option::Some(s), rest)),
                    Option::None => Option::None,
                },
                Option::None => Option::None,
            }
        } else {
            Option::None
        }
    } else {
        Option::None
    }
}

#[verifier::opaque]
pub open spec fn dec_class(b: Seq<u8>) -> Option<(ClassDefView, Seq<u8>)> {
    match dec_str(b) {
        Option::Some((id, b1)) => match dec_str(b1) {
            Option::Some((name, b2)) => match dec_u32(b2) {
                Option::Some((na, b3)) => match dec_fields(b3, na as nat) {
                    Option::Some((attributes, b4)) => match dec_u32(b4) {
                        Option::Some((nm, b5)) => match dec_operations(b5, nm as nat) {
                            Option::Some((methods, b6)) => match dec_opt_edges(b6) {
                                Option::Some((relations, rest)) => Option::Some(
                                    (
                                        ClassDefView { id, name, attributes, methods, relations },
                                        rest,
                                    ),
                                ),
                                Option::None => Option::None,
                            },
                            Option::None => Option::None,
                        },
                        Option::None => Option::None,
                    },
                    Option::None => Option::None,
                },
                Option::None => Option::None,
            },
            Option::None => Option::None,
        },
        Option::None => Option::None,
    }
}

pub open spec fn dec_classes(b: Seq<u8>, n: nat) -> Option<(Seq<ClassDefView>, Seq<u8>)>
    decreases n,
{
    if n == 0 {
        Option::Some((Seq::empty(), b))
    } else {
        match dec_class(b) {
            Option::Some((c, b1)) => match dec_classes(b1, (n - 1) as nat) {
                Option::Some((s, rest)) => Option::Some((seq![c] + s, rest)),
                Option::None => Option::None,
            },
            Option::None => Option::None,
        }
    }
}

#[verifier::opaque]
pub open spec fn dec_document(b: Seq<u8>) -> Option<(DocumentView, Seq<u8>)> {
    match dec_str(b) {
        Option::Some((id, b1)) => match dec_str(b1) {
            Option::Some((name, b2)) => match dec_i64(b2) {
                Option::Some((created_at, b3)) => match dec_i64(b3) {
                    Option::Some((last_modified, b4)) => match dec_u32(b4) {
                        Option::Some((n, b5)) => match dec_classes(b5, n as nat) {
                            Option::Some((classes, rest)) => Option::Some(
                                (
                                    DocumentView {
                                        id,
                                        name,
                                        created_at,
                                        last_modified,
                                        classes,
                                    },
                                    rest,
                                ),
                            ),
                            Option::None => Option::None,
                        },
                        Option::None => Option::None,
                    },
                    Option::None => Option::None,
                },
                Option::None => Option::None,
            },
            Option::None => Option::None,
        },
        Option::None => Option::None,
    }
}

/// A payload parses as a document exactly when the whole input is consumed.
pub open spec fn parse_document(b: Seq<u8>) -> Option<DocumentView> {
    match dec_document(b) {
        Option::Some((d, rest)) => if rest.len() == 0 {
            Option::Some(d)
        } else {
            Option::None
        },
        Option::None => Option::None,
    }
}

// ---------------------------------------------------------------------------
// Composite round-trip lemmas
// ---------------------------------------------------------------------------

#[verifier::rlimit(100)]
pub proof fn lemma_dec_enc_field(f: FieldView, rest: Seq<u8>)
    requires
        field_encodable(f),
    ensures
        dec_field(enc_field(f) + rest) == Option::Some((f, rest)),
{
    reveal(enc_field);
    reveal(dec_field);
    let a1 = enc_str(f.name);
    let a2 = enc_str(f.field_type);
    let a3 = enc_opt_vis(f.visibility);
    let a4 = enc_opt_bool(f.is_static);
    let r3 = a4 + rest;
    let r2 = a3 + r3;
    let r1 = a2 + r2;
    assert(enc_field(f) + rest == a1 + r1) by {
        vstd::seq_lib::lemma_concat_associative(a1 + a2 + a3, a4, rest);
        vstd::seq_lib::lemma_concat_associative(a1 + a2, a3, r3);
        vstd::seq_lib::lemma_concat_associative(a1, a2, r2);
    }
    assert(dec_str(a1 + r1) == Option::Some((f.name, r1))) by {
        lemma_dec_enc_str(f.name, r1);
    }
    assert(dec_str(r1) == Option::Some((f.field_type, r2))) by {
        lemma_dec_enc_str(f.field_type, r2);
    }
    assert(dec_opt_vis(r2) == Option::Some((f.visibility, r3))) by {
        lemma_dec_enc_opt_vis(f.visibility, r3);
    }
    assert(dec_opt_bool(r3) == Option::Some((f.is_static, rest))) by {
        lemma_dec_enc_opt_bool(f.is_static, rest);
    }
}

#[verifier::rlimit(100)]
pub proof fn lemma_dec_enc_fields(s: Seq<FieldView>, rest: Seq<u8>)
    requires
        forall|i: int| 0 <= i < s.len() ==> field_encodable(#[trigger] s[i]),
    ensures
        dec_fields(enc_fields(s) + rest, s.len() as nat) == Option::Some((s, rest)),
    decreases s.len(),
{
    if s.len() == 0 {
        assert(enc_fields(s) + rest =~= rest);
        assert(dec_fields(rest, 0) == Option::Some((Seq::<FieldView>::empty(), rest)));
        assert(s =~= Seq::<FieldView>::empty());
    } else {
        let tail = s.drop_first();
        let b_tail = enc_fields(tail) + rest;
        let b = enc_fields(s) + rest;
        assert(b == enc_field(s[0]) + b_tail) by {
            vstd::seq_lib::lemma_concat_associative(enc_field(s[0]), enc_fields(tail), rest);
        }
        assert(dec_field(b) == Option::Some((s[0], b_tail))) by {
            lemma_dec_enc_field(s[0], b_tail);
        }
        assert(dec_fields(b_tail, tail.len() as nat) == Option::Some((tail, rest))) by {
            lemma_dec_enc_fields(tail, rest);
        }
        assert(seq![s[0]] + tail =~= s);
        assert(dec_fields(b, s.len() as nat) == Option::Some((s, rest)));
    }
}

#[verifier::rlimit(100)]
pub proof fn lemma_dec_enc_operation(m: OperationView, rest: Seq<u8>)
    requires
        operation_encodable(m),
    ensures
        dec_operation(enc_operation(m) + rest) == Option::Some((m, rest)),
{
    reveal(enc_operation);
    reveal(dec_operation);
    let a1 = enc_str(m.name);
    let a2 = enc_str(m.return_type);
    let a3 = enc_vis(m.visibility);
    let a4 = enc_opt_bool(m.is_abstract);
    let a5 = enc_opt_bool(m.is_static);
    let a6 = enc_u32(m.parameters.len() as u32);
    let a7 = enc_fields(m.parameters);
    let r6 = a7 + rest;
    let r5 = a6 + r6;
    let r4 = a5 + r5;
    let r3 = a4 + r4;
    let r2 = a3 + r3;
    let r1 = a2 + r2;
    assert(enc_operation(m) + rest == a1 + r1) by {
        vstd::seq_lib::lemma_concat_associative(a1 + a2 + a3 + a4 + a5 + a6, a7, rest);
        vstd::seq_lib::lemma_concat_associative(a1 + a2 + a3 + a4 + a5, a6, r6);
        vstd::seq_lib::lemma_concat_associative(a1 + a2 + a3 + a4, a5, r5);
        vstd::seq_lib::lemma_concat_associative(a1 + a2 + a3, a4, r4);
        vstd::seq_lib::lemma_concat_associative(a1 + a2, a3, r3);
        vstd::seq_lib::lemma_concat_associative(a1, a2, r2);
    }
    assert(dec_str(a1 + r1) == Option::Some((m.name, r1))) by {
        lemma_dec_enc_str(m.name, r1);
    }
    assert(dec_str(r1) == Option::Some((m.return_type, r2))) by {
        lemma_dec_enc_str(m.return_type, r2);
    }
    assert(dec_vis(r2) == Option::Some((m.visibility, r3))) by {
        lemma_dec_enc_vis(m.visibility, r3);
    }
    assert(dec_opt_bool(r3) == Option::Some((m.is_abstract, r4))) by {
        lemma_dec_enc_opt_bool(m.is_abstract, r4);
    }
    assert(dec_opt_bool(r4) == Option::Some((m.is_static, r5))) by {
        lemma_dec_enc_opt_bool(m.is_static, r5);
    }
    assert(dec_u32(r5) == Option::Some((m.parameters.len() as u32, r6))) by {
        lemma_dec_enc_u32(m.parameters.len() as u32, r6);
    }
    assert(dec_fields(r6, m.parameters.len() as nat) == Option::Some((m.parameters, rest))) by {
        lemma_dec_enc_fields(m.parameters, rest);
    }
}

#[verifier::rlimit(100)]
pub proof fn lemma_dec_enc_operations(s: Seq<OperationView>, rest: Seq<u8>)
    requires
        forall|i: int| 0 <= i < s.len() ==> operation_encodable(#[trigger] s[i]),
    ensures
        dec_operations(enc_operations(s) + rest, s.len() as nat) == Option::Some((s, rest)),
    decreases s.len(),
{
    if s.len() == 0 {
        assert(enc_operations(s) + rest =~= rest);
        assert(s =~= Seq::<OperationView>::empty());
    } else {
        let tail = s.drop_first();
        let b_tail = enc_operations(tail) + rest;
        let b = enc_operations(s) + rest;
        assert(b == enc_operation(s[0]) + b_tail) by {
            vstd::seq_lib::lemma_concat_associative(enc_operation(s[0]), enc_operations(tail), rest);
        }
        assert(dec_operation(b) == Option::Some((s[0], b_tail))) by {
            lemma_dec_enc_operation(s[0], b_tail);
        }
        assert(dec_operations(b_tail, tail.len() as nat) == Option::Some((tail, rest))) by {
            lemma_dec_enc_operations(tail, rest);
        }
        assert(seq![s[0]] + tail =~= s);
        assert(dec_operations(b, s.len() as nat) == Option::Some((s, rest)));
    }
}

#[verifier::rlimit(100)]
pub proof fn lemma_dec_enc_edge(e: RelationEdgeView, rest: Seq<u8>)
    requires
        edge_encodable(e),
    ensures
        dec_edge(enc_edge(e) + rest) == Option::Some((e, rest)),
{
    reveal(enc_edge);
    reveal(dec_edge);
    let a1 = enc_str(e.target_class_id);
    let a2 = enc_rel(e.relation);
    let a3 = enc_opt_mult(e.multiplicity_p);
    let a4 = enc_opt_mult(e.multiplicity_c);
    let a5 = enc_opt_str(e.role_name_p);
    let a6 = enc_opt_str(e.role_name_c);
    let r5 = a6 + rest;
    let r4 = a5 + r5;
    let r3 = a4 + r4;
    let r2 = a3 + r3;
    let r1 = a2 + r2;
    assert(enc_edge(e) + rest == a1 + r1) by {
        vstd::seq_lib::lemma_concat_associative(a1 + a2 + a3 + a4 + a5, a6, rest);
        vstd::seq_lib::lemma_concat_associative(a1 + a2 + a3 + a4, a5, r5);
        vstd::seq_lib::lemma_concat_associative(a1 + a2 + a3, a4, r4);
        vstd::seq_lib::lemma_concat_associative(a1 + a2, a3, r3);
        vstd::seq_lib::lemma_concat_associative(a1, a2, r2);
    }
    assert(dec_str(a1 + r1) == Option::Some((e.target_class_id, r1))) by {
        lemma_dec_enc_str(e.target_class_id, r1);
    }
    assert(dec_rel(r1) == Option::Some((e.relation, r2))) by {
        lemma_dec_enc_rel(e.relation, r2);
    }
    assert(dec_opt_mult(r2) == Option::Some((e.multiplicity_p, r3))) by {
        lemma_dec_enc_opt_mult(e.multiplicity_p, r3);
    }
    assert(dec_opt_mult(r3) == Option::Some((e.multiplicity_c, r4))) by {
        lemma_dec_enc_opt_mult(e.multiplicity_c, r4);
    }
    assert(dec_opt_str(r4) == Option::Some((e.role_name_p, r5))) by {
        lemma_dec_enc_opt_str(e.role_name_p, r5);
    }
    assert(dec_opt_str(r5) == Option::Some((e.role_name_c, rest))) by {
        lemma_dec_enc_opt_str(e.role_name_c, rest);
    }
}

#[verifier::rlimit(100)]
pub proof fn lemma_dec_enc_edges(s: Seq<RelationEdgeView>, rest: Seq<u8>)
    requires
        forall|i: int| 0 <= i < s.len() ==> edge_encodable(#[trigger] s[i]),
    ensures
        dec_edges(enc_edges(s) + rest, s.len() as nat) == Option::Some((s, rest)),
    decreases s.len(),
{
    if s.len() == 0 {
        assert(enc_edges(s) + rest =~= rest);
        assert(s =~= Seq::<RelationEdgeView>::empty());
    } else {
        let tail = s.drop_first();
        let b_tail = enc_edges(tail) + rest;
        let b = enc_edges(s) + rest;
        assert(b == enc_edge(s[0]) + b_tail) by {
            vstd::seq_lib::lemma_concat_associative(enc_edge(s[0]), enc_edges(tail), rest);
        }
        assert(dec_edge(b) == Option::Some((s[0], b_tail))) by {
            lemma_dec_enc_edge(s[0], b_tail);
        }
        assert(dec_edges(b_tail, tail.len() as nat) == Option::Some((tail, rest))) by {
            lemma_dec_enc_edges(tail, rest);
        }
        assert(seq![s[0]] + tail =~= s);
        assert(dec_edges(b, s.len() as nat) == Option::Some((s, rest)));
    }
}

pub proof fn lemma_dec_enc_opt_edges(s: Option<Seq<RelationEdgeView>>, rest: Seq<u8>)
    requires
        opt_edges_encodable(s),
    ensures
        dec_opt_edges(enc_opt_edges(s) + rest) == Option::Some((s, rest)),
{
    match s {
        Option::None => {
            let b = enc_opt_edges(s) + rest;
            assert(b.skip(1) =~= rest);
        },
        Option::Some(v) => {
            let b = enc_opt_edges(s) + rest;
            assert(b[0] == 1);
            assert(b.skip(1) =~= enc_u32(v.len() as u32) + (enc_edges(v) + rest));
            lemma_dec_enc_u32(v.len() as u32, enc_edges(v) + rest);
            lemma_dec_enc_edges(v, rest);
        },
    }
}

#[verifier::rlimit(100)]
pub proof fn lemma_dec_enc_class(c: ClassDefView, rest: Seq<u8>)
    requires
        class_encodable(c),
    ensures
        dec_class(enc_class(c) + rest) == Option::Some((c, rest)),
{
    reveal(enc_class);
    reveal(dec_class);
    let a1 = enc_str(c.id);
    let a2 = enc_str(c.name);
    let a3 = enc_u32(c.attributes.len() as u32);
    let a4 = enc_fields(c.attributes);
    let a5 = enc_u32(c.methods.len() as u32);
    let a6 = enc_operations(c.methods);
    let a7 = enc_opt_edges(c.relations);
    let r6 = a7 + rest;
    let r5 = a6 + r6;
    let r4 = a5 + r5;
    let r3 = a4 + r4;
    let r2 = a3 + r3;
    let r1 = a2 + r2;
    assert(enc_class(c) + rest == a1 + r1) by {
        vstd::seq_lib::lemma_concat_associative(a1 + a2 + a3 + a4 + a5 + a6, a7, rest);
        vstd::seq_lib::lemma_concat_associative(a1 + a2 + a3 + a4 + a5, a6, r6);
        vstd::seq_lib::lemma_concat_associative(a1 + a2 + a3 + a4, a5, r5);
        vstd::seq_lib::lemma_concat_associative(a1 + a2 + a3, a4, r4);
        vstd::seq_lib::lemma_concat_associative(a1 + a2, a3, r3);
        vstd::seq_lib::lemma_concat_associative(a1, a2, r2);
    }
    assert(dec_str(a1 + r1) == Option::Some((c.id, r1))) by {
        lemma_dec_enc_str(c.id, r1);
    }
    assert(dec_str(r1) == Option::Some((c.name, r2))) by {
        lemma_dec_enc_str(c.name, r2);
    }
    assert(dec_u32(r2) == Option::Some((c.attributes.len() as u32, r3))) by {
        lemma_dec_enc_u32(c.attributes.len() as u32, r3);
    }
    assert(dec_fields(r3, c.attributes.len() as nat) == Option::Some((c.attributes, r4))) by {
        lemma_dec_enc_fields(c.attributes, r4);
    }
    assert(dec_u32(r4) == Option::Some((c.methods.len() as u32, r5))) by {
        lemma_dec_enc_u32(c.methods.len() as u32, r5);
    }
    assert(dec_operations(r5, c.methods.len() as nat) == Option::Some((c.methods, r6))) by {
        lemma_dec_enc_operations(c.methods, r6);
    }
    assert(dec_opt_edges(r6) == Option::Some((c.relations, rest))) by {
        lemma_dec_enc_opt_edges(c.relations, rest);
    }
}

#[verifier::rlimit(100)]
pub proof fn lemma_dec_enc_classes(s: Seq<ClassDefView>, rest: Seq<u8>)
    requires
        forall|i: int| 0 <= i < s.len() ==> class_encodable(#[trigger] s[i]),
    ensures
        dec_classes(enc_classes(s) + rest, s.len() as nat) == Option::Some((s, rest)),
    decreases s.len(),
{
    if s.len() == 0 {
        assert(enc_classes(s) + rest =~= rest);
        assert(s =~= Seq::<ClassDefView>::empty());
    } else {
        let tail = s.drop_first();
        let b_tail = enc_classes(tail) + rest;
        let b = enc_classes(s) + rest;
        assert(b == enc_class(s[0]) + b_tail) by {
            vstd::seq_lib::lemma_concat_associative(enc_class(s[0]), enc_classes(tail), rest);
        }
        assert(dec_class(b) == Option::Some((s[0], b_tail))) by {
            lemma_dec_enc_class(s[0], b_tail);
        }
        assert(dec_classes(b_tail, tail.len() as nat) == Option::Some((tail, rest))) by {
            lemma_dec_enc_classes(tail, rest);
        }
        assert(seq![s[0]] + tail =~= s);
        assert(dec_classes(b, s.len() as nat) == Option::Some((s, rest)));
    }
}

#[verifier::rlimit(100)]
pub proof fn lemma_dec_enc_document(d: DocumentView, rest: Seq<u8>)
    requires
        document_encodable(d),
    ensures
        dec_document(enc_document(d) + rest) == Option::Some((d, rest)),
{
    reveal(enc_document);
    reveal(dec_document);
    let a1 = enc_str(d.id);
    let a2 = enc_str(d.name);
    let a3 = enc_i64(d.created_at);
    let a4 = enc_i64(d.last_modified);
    let a5 = enc_u32(d.classes.len() as u32);
    let a6 = enc_classes(d.classes);
    let r5 = a6 + rest;
    let r4 = a5 + r5;
    let r3 = a4 + r4;
    let r2 = a3 + r3;
    let r1 = a2 + r2;
    assert(enc_document(d) + rest == a1 + r1) by {
        vstd::seq_lib::lemma_concat_associative(a1 + a2 + a3 + a4 + a5, a6, rest);
        vstd::seq_lib::lemma_concat_associative(a1 + a2 + a3 + a4, a5, r5);
        vstd::seq_lib::lemma_concat_associative(a1 + a2 + a3, a4, r4);
        vstd::seq_lib::lemma_concat_associative(a1 + a2, a3, r3);
        vstd::seq_lib::lemma_concat_associative(a1, a2, r2);
    }
    assert(dec_str(a1 + r1) == Option::Some((d.id, r1))) by {
        lemma_dec_enc_str(d.id, r1);
    }
    assert(dec_str(r1) == Option::Some((d.name, r2))) by {
        lemma_dec_enc_str(d.name, r2);
    }
    assert(dec_i64(r2) == Option::Some((d.created_at, r3))) by {
        lemma_dec_enc_i64(d.created_at, r3);
    }
    assert(dec_i64(r3) == Option::Some((d.last_modified, r4))) by {
        lemma_dec_enc_i64(d.last_modified, r4);
    }
    assert(dec_u32(r4) == Option::Some((d.classes.len() as u32, r5))) by {
        lemma_dec_enc_u32(d.classes.len() as u32, r5);
    }
    assert(dec_classes(r5, d.classes.len() as nat) == Option::Some((d.classes, rest))) by {
        lemma_dec_enc_classes(d.classes, rest);
    }
}

/// A payload that came out of the encoder parses back to the same document.
pub proof fn lemma_parse_enc_document(d: DocumentView)
    requires
        document_encodable(d),
    ensures
        parse_document(enc_document(d)) == Option::Some(d),
{
    lemma_dec_enc_document(d, Seq::empty());
    assert(enc_document(d) + Seq::<u8>::empty() =~= enc_document(d));
}

// ---------------------------------------------------------------------------
// Snapshot of the whole store (spec level)
// ---------------------------------------------------------------------------

/// One snapshot entry: the id as a length-prefixed UTF-8 string, then the
/// length-prefixed document payload.
pub open spec fn enc_entry(k: Seq<char>, d: DocumentView) -> Seq<u8> {
    enc_str(k) + enc_u32(enc_document(d).len() as u32) + enc_document(d)
}

pub open spec fn entry_encodable(k: Seq<char>, d: DocumentView) -> bool {
    str_encodable(k) && document_encodable(d) && enc_document(d).len() <= max_len()
}

pub open spec fn enc_entries(s: Seq<(Seq<char>, DocumentView)>) -> Seq<u8>
    decreases s.len(),
{
    if s.len() == 0 {
        Seq::empty()
    } else {
        enc_entry(s[0].0, s[0].1) + enc_entries(s.drop_first())
    }
}

pub open spec fn snapshot_encodable(s: Seq<(Seq<char>, DocumentView)>) -> bool {
    s.len() <= max_len() && forall|i: int|
        0 <= i < s.len() ==> entry_encodable((#[trigger] s[i]).0, s[i].1)
}

/// The whole snapshot blob: entry count, then the entries.
pub open spec fn enc_snapshot(s: Seq<(Seq<char>, DocumentView)>) -> Seq<u8> {
    enc_u32(s.len() as u32) + enc_entries(s)
}

#[verifier::opaque]
pub open spec fn dec_entry(b: Seq<u8>) -> Option<((Seq<char>, DocumentView), Seq<u8>)> {
    match dec_str(b) {
        Option::Some((k, b1)) => match dec_u32(b1) {
            Option::Some((n, b2)) => if n as int <= b2.len() {
                match parse_document(b2.take(n as int)) {
                    Option::Some(d) => Option::Some(((k, d), b2.skip(n as int))),
                    Option::None => Option::None,
                }
            } else {
                Option::None
            },
            Option::None => Option::None,
        },
        Option::None => Option::None,
    }
}

pub open spec fn dec_entries(b: Seq<u8>, n: nat) -> Option<
    (Seq<(Seq<char>, DocumentView)>, Seq<u8>),
>
    decreases n,
{
    if n == 0 {
        Option::Some((Seq::empty(), b))
    } else {
        match dec_entry(b) {
            Option::Some((e, b1)) => match dec_entries(b1, (n - 1) as nat) {
                Option::Some((s, rest)) => Option::Some((seq![e] + s, rest)),
                Option::None => Option::None,
            },
            Option::None => Option::None,
        }
    }
}

/// A snapshot blob parses exactly when all bytes are consumed; an empty blob
/// is an empty store, not an error.
pub open spec fn parse_snapshot(b: Seq<u8>) -> Option<Seq<(Seq<char>, DocumentView)>> {
    if b.len() == 0 {
        Option::Some(Seq::empty())
    } else {
        match dec_u32(b) {
            Option::Some((n, b1)) => match dec_entries(b1, n as nat) {
                Option::Some((s, rest)) => if rest.len() == 0 {
                    Option::Some(s)
                } else {
                    Option::None
                },
                Option::None => Option::None,
            },
            Option::None => Option::None,
        }
    }
}

#[verifier::rlimit(100)]
pub proof fn lemma_dec_enc_entry(k: Seq<char>, d: DocumentView, rest: Seq<u8>)
    requires
        entry_encodable(k, d),
    ensures
        dec_entry(enc_entry(k, d) + rest) == Option::Some(((k, d), rest)),
{
    reveal(dec_entry);
    let p = enc_document(d);
    let r2 = p + rest;
    let r1 = enc_u32(p.len() as u32) + r2;
    assert(enc_entry(k, d) + rest == enc_str(k) + r1) by {
        vstd::seq_lib::lemma_concat_associative(
            enc_str(k) + enc_u32(p.len() as u32),
            p,
            rest,
        );
        vstd::seq_lib::lemma_concat_associative(enc_str(k), enc_u32(p.len() as u32), p + rest);
    }
    assert(dec_str(enc_str(k) + r1) == Option::Some((k, r1))) by {
        lemma_dec_enc_str(k, r1);
    }
    assert(dec_u32(r1) == Option::Some((p.len() as u32, r2))) by {
        lemma_dec_enc_u32(p.len() as u32, r2);
    }
    assert(r2.take(p.len() as int) =~= p);
    assert(r2.skip(p.len() as int) =~= rest);
    assert(parse_document(p) == Option::Some(d)) by {
        lemma_parse_enc_document(d);
    }
}

#[verifier::rlimit(100)]
pub proof fn lemma_dec_enc_entries(s: Seq<(Seq<char>, DocumentView)>, rest: Seq<u8>)
    requires
        forall|i: int| 0 <= i < s.len() ==> entry_encodable((#[trigger] s[i]).0, s[i].1),
    ensures
        dec_entries(enc_entries(s) + rest, s.len() as nat) == Option::Some((s, rest)),
    decreases s.len(),
{
    if s.len() == 0 {
        assert(enc_entries(s) + rest =~= rest);
        assert(s =~= Seq::<(Seq<char>, DocumentView)>::empty());
    } else {
        let tail = s.drop_first();
        let b_tail = enc_entries(tail) + rest;
        let b = enc_entries(s) + rest;
        assert(b == enc_entry(s[0].0, s[0].1) + b_tail) by {
            vstd::seq_lib::lemma_concat_associative(
                enc_entry(s[0].0, s[0].1),
                enc_entries(tail),
                rest,
            );
        }
        assert(dec_entry(b) == Option::Some((s[0], b_tail))) by {
            lemma_dec_enc_entry(s[0].0, s[0].1, b_tail);
            assert((s[0].0, s[0].1) == s[0]);
        }
        assert(dec_entries(b_tail, tail.len() as nat) == Option::Some((tail, rest))) by {
            lemma_dec_enc_entries(tail, rest);
        }
        assert(seq![s[0]] + tail =~= s);
        assert(dec_entries(b, s.len() as nat) == Option::Some((s, rest)));
    }
}

/// A snapshot blob that came out of the encoder parses back to the same
/// entry sequence: the codec loses nothing of the store.
pub proof fn lemma_parse_enc_snapshot(s: Seq<(Seq<char>, DocumentView)>)
    requires
        snapshot_encodable(s),
    ensures
        parse_snapshot(enc_snapshot(s)) == Option::Some(s),
{
    let b = enc_snapshot(s);
    assert(b.len() >= 4);
    assert(dec_u32(b) == Option::Some((s.len() as u32, enc_entries(s)))) by {
        lemma_dec_enc_u32(s.len() as u32, enc_entries(s));
    }
    assert(dec_entries(enc_entries(s) + Seq::<u8>::empty(), s.len() as nat) == Option::Some(
        (s, Seq::<u8>::empty()),
    )) by {
        lemma_dec_enc_entries(s, Seq::empty());
    }
    assert(enc_entries(s) + Seq::<u8>::empty() =~= enc_entries(s));
}

// ---------------------------------------------------------------------------
// Executable encoders
// ---------------------------------------------------------------------------

fn write_u32(buf: &mut Vec<u8>, x: u32)
    ensures
        final(buf)@ == old(buf)@ + enc_u32(x),
{
    buf.push((x >> 24) as u8);
    buf.push((x >> 16) as u8);
    buf.push((x >> 8) as u8);
    buf.push(x as u8);
    proof {
        assert(buf@ =~= old(buf)@ + enc_u32(x));
    }
}

fn write_u64(buf: &mut Vec<u8>, x: u64)
    ensures
        final(buf)@ == old(buf)@ + enc_u64(x),
{
    buf.push((x >> 56) as u8);
    buf.push((x >> 48) as u8);
    buf.push((x >> 40) as u8);
    buf.push((x >> 32) as u8);
    buf.push((x >> 24) as u8);
    buf.push((x >> 16) as u8);
    buf.push((x >> 8) as u8);
    buf.push(x as u8);
    proof {
        assert(buf@ =~= old(buf)@ + enc_u64(x));
    }
}

fn write_i64(buf: &mut Vec<u8>, x: i64)
    ensures
        final(buf)@ == old(buf)@ + enc_i64(x),
{
    write_u64(buf, x as u64);
}

fn write_bytes(buf: &mut Vec<u8>, bs: &[u8])
    ensures
        final(buf)@ == old(buf)@ + bs@,
{
    proof {
        assert(buf@ =~= old(buf)@ + bs@.take(0));
    }
    let mut i: usize = 0;
    while i < bs.len()
        invariant
            i <= bs@.len(),
            buf@ == old(buf)@ + bs@.take(i as int),
        decreases bs@.len() - i as int,
    {
        buf.push(bs[i]);
        proof {
            assert(buf@ =~= old(buf)@ + bs@.take(i as int + 1));
        }
        i = i + 1;
    }
    proof {
        assert(bs@.take(bs@.len() as int) =~= bs@);
    }
}

fn write_str(buf: &mut Vec<u8>, s: &String) -> (ok: bool)
    ensures
        ok ==> final(buf)@ == old(buf)@ + enc_str(s@) && str_encodable(s@),
        !ok ==> !str_encodable(s@),
{
    let bs: &[u8] = s.as_str().as_bytes();
    if bs.len() > u32::MAX as usize {
        return false;
    }
    write_u32(buf, bs.len() as u32);
    write_bytes(buf, bs);
    proof {
        assert(buf@ =~= old(buf)@ + enc_str(s@));
    }
    true
}

fn write_opt_str(buf: &mut Vec<u8>, s: &Option<String>) -> (ok: bool)
    ensures
        ok ==> final(buf)@ == old(buf)@ + enc_opt_str(s.deep_view()) && opt_str_encodable(
            s.deep_view(),
        ),
        !ok ==> !opt_str_encodable(s.deep_view()),
{
    match s {
        Option::None => {
            buf.push(0);
            proof {
                assert(buf@ =~= old(buf)@ + enc_opt_str(s.deep_view()));
            }
            true
        },
        Option::Some(t) => {
            buf.push(1);
            if !write_str(buf, t) {
                return false;
            }
            proof {
                assert(buf@ =~= old(buf)@ + enc_opt_str(s.deep_view()));
            }
            true
        },
    }
}

fn write_opt_bool(buf: &mut Vec<u8>, b: Option<bool>)
    ensures
        final(buf)@ == old(buf)@ + enc_opt_bool(b),
{
    match b {
        Option::None => buf.push(0),
        Option::Some(false) => buf.push(1),
        Option::Some(true) => buf.push(2),
    }
    proof {
        assert(buf@ =~= old(buf)@ + enc_opt_bool(b));
    }
}

/// The byte code of a visibility.
pub fn visibility_code(v: Visibility) -> (c: u8)
    ensures
        c == vis_code(v),
{
    match v {
        Visibility::NonModifier => 0,
        Visibility::Public => 1,
        Visibility::Private => 2,
        Visibility::Protected => 3,
    }
}

/// The byte code of a relation kind.
pub fn relation_code(r: RelationKind) -> (c: u8)
    ensures
        c == rel_code(r),
{
    match r {
        RelationKind::NoRelation => 0,
        RelationKind::Inheritance => 1,
        RelationKind::Implementation => 2,
        RelationKind::Association => 3,
        RelationKind::Aggregation => 4,
        RelationKind::Composition => 5,
    }
}

fn write_vis(buf: &mut Vec<u8>, v: Visibility)
    ensures
        final(buf)@ == old(buf)@ + enc_vis(v),
{
    let c = visibility_code(v);
    buf.push(c);
    proof {
        assert(buf@ =~= old(buf)@ + enc_vis(v));
    }
}

fn write_opt_vis(buf: &mut Vec<u8>, v: Option<Visibility>)
    ensures
        final(buf)@ == old(buf)@ + enc_opt_vis(v),
{
    match v {
        Option::None => buf.push(4),
        Option::Some(w) => {
            let c = visibility_code(w);
            buf.push(c);
        },
    }
    proof {
        assert(buf@ =~= old(buf)@ + enc_opt_vis(v));
    }
}

fn write_rel(buf: &mut Vec<u8>, r: RelationKind)
    ensures
        final(buf)@ == old(buf)@ + enc_rel(r),
{
    let c = relation_code(r);
    buf.push(c);
    proof {
        assert(buf@ =~= old(buf)@ + enc_rel(r));
    }
}

fn write_opt_u32(buf: &mut Vec<u8>, x: Option<u32>)
    ensures
        final(buf)@ == old(buf)@ + enc_opt_u32(x),
{
    match x {
        Option::None => {
            buf.push(0);
        },
        Option::Some(v) => {
            buf.push(1);
            write_u32(buf, v);
        },
    }
    proof {
        assert(buf@ =~= old(buf)@ + enc_opt_u32(x));
    }
}

fn write_opt_mult(buf: &mut Vec<u8>, m: Option<Multiplicity>)
    ensures
        final(buf)@ == old(buf)@ + enc_opt_mult(m),
{
    match m {
        Option::None => {
            buf.push(0);
        },
        Option::Some(v) => {
            buf.push(1);
            write_u32(buf, v.lower);
            write_opt_u32(buf, v.upper);
        },
    }
    proof {
        assert(buf@ =~= old(buf)@ + enc_opt_mult(m));
    }
}

fn write_field(buf: &mut Vec<u8>, f: &Field) -> (ok: bool)
    ensures
        ok ==> final(buf)@ == old(buf)@ + enc_field(f@) && field_encodable(f@),
        !ok ==> !field_encodable(f@),
{
    if !write_str(buf, &f.name) {
        return false;
    }
    if !write_str(buf, &f.field_type) {
        return false;
    }
    write_opt_vis(buf, f.visibility);
    write_opt_bool(buf, f.is_static);
    proof {
        reveal(enc_field);
        assert(buf@ =~= old(buf)@ + enc_field(f@));
    }
    true
}

fn write_fields_from(buf: &mut Vec<u8>, v: &Vec<Field>, i: usize) -> (ok: bool)
    requires
        i as int <= v@.len(),
    ensures
        ok ==> final(buf)@ == old(buf)@ + enc_fields(v.deep_view().skip(i as int)) && (forall|
            j: int,
        |
            i as int <= j < v@.len() ==> field_encodable(#[trigger] v.deep_view()[j])),
        !ok ==> exists|j: int|
            i as int <= j < v@.len() && !field_encodable(#[trigger] v.deep_view()[j]),
    decreases v@.len() - i as int,
{
    if i < v.len() {
        if !write_field(buf, &v[i]) {
            proof {
                assert(!field_encodable(v.deep_view()[i as int]));
            }
            return false;
        }
        if !write_fields_from(buf, v, i + 1) {
            return false;
        }
        proof {
            let dv = v.deep_view();
            assert(dv.skip(i as int).drop_first() =~= dv.skip(i as int + 1));
            assert(dv.skip(i as int)[0] == dv[i as int]);
            vstd::seq_lib::lemma_concat_associative(
                enc_field(dv[i as int]),
                enc_fields(dv.skip(i as int + 1)),
                Seq::empty(),
            );
            assert(buf@ =~= old(buf)@ + enc_fields(dv.skip(i as int)));
        }
        true
    } else {
        proof {
            assert(v.deep_view().skip(i as int) =~= Seq::<FieldView>::empty());
            assert(buf@ =~= old(buf)@ + enc_fields(v.deep_view().skip(i as int)));
        }
        true
    }
}

/// Writes the element count, then the fields.
fn write_fields(buf: &mut Vec<u8>, v: &Vec<Field>) -> (ok: bool)
    ensures
        ok ==> final(buf)@ == old(buf)@ + enc_u32(v@.len() as u32) + enc_fields(v.deep_view())
            && fields_encodable(v.deep_view()),
        !ok ==> !fields_encodable(v.deep_view()),
{
    if v.len() > u32::MAX as usize {
        return false;
    }
    write_u32(buf, v.len() as u32);
    if !write_fields_from(buf, v, 0) {
        return false;
    }
    proof {
        assert(v.deep_view().skip(0) =~= v.deep_view());
    }
    true
}

fn write_operation(buf: &mut Vec<u8>, m: &Operation) -> (ok: bool)
    ensures
        ok ==> final(buf)@ == old(buf)@ + enc_operation(m@) && operation_encodable(m@),
        !ok ==> !operation_encodable(m@),
{
    if !write_str(buf, &m.name) {
        return false;
    }
    if !write_str(buf, &m.return_type) {
        return false;
    }
    write_vis(buf, m.visibility);
    write_opt_bool(buf, m.is_abstract);
    write_opt_bool(buf, m.is_static);
    if !write_fields(buf, &m.parameters) {
        return false;
    }
    proof {
        reveal(enc_operation);
        assert(buf@ =~= old(buf)@ + enc_operation(m@));
    }
    true
}

fn write_operations_from(buf: &mut Vec<u8>, v: &Vec<Operation>, i: usize) -> (ok: bool)
    requires
        i as int <= v@.len(),
    ensures
        ok ==> final(buf)@ == old(buf)@ + enc_operations(v.deep_view().skip(i as int)) && (forall|
            j: int,
        |
            i as int <= j < v@.len() ==> operation_encodable(#[trigger] v.deep_view()[j])),
        !ok ==> exists|j: int|
            i as int <= j < v@.len() && !operation_encodable(#[trigger] v.deep_view()[j]),
    decreases v@.len() - i as int,
{
    if i < v.len() {
        if !write_operation(buf, &v[i]) {
            proof {
                assert(!operation_encodable(v.deep_view()[i as int]));
            }
            return false;
        }
        if !write_operations_from(buf, v, i + 1) {
            return false;
        }
        proof {
            let dv = v.deep_view();
            assert(dv.skip(i as int).drop_first() =~= dv.skip(i as int + 1));
            assert(dv.skip(i as int)[0] == dv[i as int]);
            assert(buf@ =~= old(buf)@ + enc_operations(dv.skip(i as int)));
        }
        true
    } else {
        proof {
            assert(v.deep_view().skip(i as int) =~= Seq::<OperationView>::empty());
            assert(buf@ =~= old(buf)@ + enc_operations(v.deep_view().skip(i as int)));
        }
        true
    }
}

/// Writes the element count, then the operations.
fn write_operations(buf: &mut Vec<u8>, v: &Vec<Operation>) -> (ok: bool)
    ensures
        ok ==> final(buf)@ == old(buf)@ + enc_u32(v@.len() as u32) + enc_operations(v.deep_view())
            && operations_encodable(v.deep_view()),
        !ok ==> !operations_encodable(v.deep_view()),
{
    if v.len() > u32::MAX as usize {
        return false;
    }
    write_u32(buf, v.len() as u32);
    if !write_operations_from(buf, v, 0) {
        return false;
    }
    proof {
        assert(v.deep_view().skip(0) =~= v.deep_view());
    }
    true
}

fn write_edge(buf: &mut Vec<u8>, e: &RelationEdge) -> (ok: bool)
    ensures
        ok ==> final(buf)@ == old(buf)@ + enc_edge(e@) && edge_encodable(e@),
        !ok ==> !edge_encodable(e@),
{
    if !write_str(buf, &e.target_class_id) {
        return false;
    }
    write_rel(buf, e.relation);
    write_opt_mult(buf, e.multiplicity_p);
    write_opt_mult(buf, e.multiplicity_c);
    if !write_opt_str(buf, &e.role_name_p) {
        return false;
    }
    if !write_opt_str(buf, &e.role_name_c) {
        return false;
    }
    proof {
        reveal(enc_edge);
        assert(buf@ =~= old(buf)@ + enc_edge(e@));
    }
    true
}

fn write_edges_from(buf: &mut Vec<u8>, v: &Vec<RelationEdge>, i: usize) -> (ok: bool)
    requires
        i as int <= v@.len(),
    ensures
        ok ==> final(buf)@ == old(buf)@ + enc_edges(v.deep_view().skip(i as int)) && (forall|
            j: int,
        |
            i as int <= j < v@.len() ==> edge_encodable(#[trigger] v.deep_view()[j])),
        !ok ==> exists|j: int|
            i as int <= j < v@.len() && !edge_encodable(#[trigger] v.deep_view()[j]),
    decreases v@.len() - i as int,
{
    if i < v.len() {
        if !write_edge(buf, &v[i]) {
            proof {
                assert(!edge_encodable(v.deep_view()[i as int]));
            }
            return false;
        }
        if !write_edges_from(buf, v, i + 1) {
            return false;
        }
        proof {
            let dv = v.deep_view();
            assert(dv.skip(i as int).drop_first() =~= dv.skip(i as int + 1));
            assert(dv.skip(i as int)[0] == dv[i as int]);
            assert(buf@ =~= old(buf)@ + enc_edges(dv.skip(i as int)));
        }
        true
    } else {
        proof {
            assert(v.deep_view().skip(i as int) =~= Seq::<RelationEdgeView>::empty());
            assert(buf@ =~= old(buf)@ + enc_edges(v.deep_view().skip(i as int)));
        }
        true
    }
}

fn write_opt_edges(buf: &mut Vec<u8>, v: &Option<Vec<RelationEdge>>) -> (ok: bool)
    ensures
        ok ==> final(buf)@ == old(buf)@ + enc_opt_edges(v.deep_view()) && opt_edges_encodable(
            v.deep_view(),
        ),
        !ok ==> !opt_edges_encodable(v.deep_view()),
{
    match v {
        Option::None => {
            buf.push(0);
            proof {
                assert(buf@ =~= old(buf)@ + enc_opt_edges(v.deep_view()));
            }
            true
        },
        Option::Some(edges) => {
            buf.push(1);
            if edges.len() > u32::MAX as usize {
                return false;
            }
            write_u32(buf, edges.len() as u32);
            if !write_edges_from(buf, edges, 0) {
                return false;
            }
            proof {
                assert(edges.deep_view().skip(0) =~= edges.deep_view());
                assert(buf@ =~= old(buf)@ + enc_opt_edges(v.deep_view()));
            }
            true
        },
    }
}

fn write_class(buf: &mut Vec<u8>, c: &ClassDef) -> (ok: bool)
    ensures
        ok ==> final(buf)@ == old(buf)@ + enc_class(c@) && class_encodable(c@),
        !ok ==> !class_encodable(c@),
{
    if !write_str(buf, &c.id) {
        return false;
    }
    if !write_str(buf, &c.name) {
        return false;
    }
    if !write_fields(buf, &c.attributes) {
        return false;
    }
    if !write_operations(buf, &c.methods) {
        return false;
    }
    if !write_opt_edges(buf, &c.relations) {
        return false;
    }
    proof {
        reveal(enc_class);
        assert(buf@ =~= old(buf)@ + enc_class(c@));
    }
    true
}

fn write_classes_from(buf: &mut Vec<u8>, v: &Vec<ClassDef>, i: usize) -> (ok: bool)
    requires
        i as int <= v@.len(),
    ensures
        ok ==> final(buf)@ == old(buf)@ + enc_classes(v.deep_view().skip(i as int)) && (forall|
            j: int,
        |
            i as int <= j < v@.len() ==> class_encodable(#[trigger] v.deep_view()[j])),
        !ok ==> exists|j: int|
            i as int <= j < v@.len() && !class_encodable(#[trigger] v.deep_view()[j]),
    decreases v@.len() - i as int,
{
    if i < v.len() {
        if !write_class(buf, &v[i]) {
            proof {
                assert(!class_encodable(v.deep_view()[i as int]));
            }
            return false;
        }
        if !write_classes_from(buf, v, i + 1) {
            return false;
        }
        proof {
            let dv = v.deep_view();
            assert(dv.skip(i as int).drop_first() =~= dv.skip(i as int + 1));
            assert(dv.skip(i as int)[0] == dv[i as int]);
            assert(buf@ =~= old(buf)@ + enc_classes(dv.skip(i as int)));
        }
        true
    } else {
        proof {
            assert(v.deep_view().skip(i as int) =~= Seq::<ClassDefView>::empty());
            assert(buf@ =~= old(buf)@ + enc_classes(v.deep_view().skip(i as int)));
        }
        true
    }
}

fn write_document(buf: &mut Vec<u8>, d: &Document) -> (ok: bool)
    ensures
        ok ==> final(buf)@ == old(buf)@ + enc_document(d@) && document_encodable(d@),
        !ok ==> !document_encodable(d@),
{
    if !write_str(buf, &d.id) {
        return false;
    }
    if !write_str(buf, &d.name) {
        return false;
    }
    write_i64(buf, d.created_at);
    write_i64(buf, d.last_modified);
    if d.classes.len() > u32::MAX as usize {
        return false;
    }
    write_u32(buf, d.classes.len() as u32);
    if !write_classes_from(buf, &d.classes, 0) {
        return false;
    }
    proof {
        reveal(enc_document);
        assert(d.classes.deep_view().skip(0) =~= d.classes.deep_view());
        assert(buf@ =~= old(buf)@ + enc_document(d@));
    }
    true
}

/// Encodes one document to its payload bytes.  Fails with `InvalidArgument`
/// only when a string or list is too long for its `u32` length prefix.
pub fn encode_document(d: &Document) -> (r: Result<Vec<u8>, StoreError>)
    ensures
        match r {
            Result::Ok(b) => b@ == enc_document(d@) && document_encodable(d@),
            Result::Err(e) => e == StoreError::InvalidArgument && !document_encodable(d@),
        },
{
    let mut buf: Vec<u8> = Vec::new();
    if !write_document(&mut buf, d) {
        return Result::Err(StoreError::InvalidArgument);
    }
    proof {
        assert(buf@ =~= enc_document(d@));
    }
    Result::Ok(buf)
}

fn write_entries_from(buf: &mut Vec<u8>, v: &Vec<(String, Document)>, i: usize) -> (ok: bool)
    requires
        i as int <= v@.len(),
    ensures
        ok ==> final(buf)@ == old(buf)@ + enc_entries(v.deep_view().skip(i as int)) && (forall|
            j: int,
        |
            i as int <= j < v@.len() ==> entry_encodable(
                (#[trigger] v.deep_view()[j]).0,
                v.deep_view()[j].1,
            )),
        !ok ==> exists|j: int|
            i as int <= j < v@.len() && !entry_encodable(
                (#[trigger] v.deep_view()[j]).0,
                v.deep_view()[j].1,
            ),
    decreases v@.len() - i as int,
{
    if i < v.len() {
        let entry = &v[i];
        if !write_str(buf, &entry.0) {
            proof {
                assert(!entry_encodable(v.deep_view()[i as int].0, v.deep_view()[i as int].1));
            }
            return false;
        }
        let payload = match encode_document(&entry.1) {
            Result::Ok(p) => p,
            Result::Err(_) => {
                proof {
                    assert(!entry_encodable(v.deep_view()[i as int].0, v.deep_view()[i as int].1));
                }
                return false;
            },
        };
        if payload.len() > u32::MAX as usize {
            proof {
                assert(!entry_encodable(v.deep_view()[i as int].0, v.deep_view()[i as int].1));
            }
            return false;
        }
        write_u32(buf, payload.len() as u32);
        write_bytes(buf, payload.as_slice());
        if !write_entries_from(buf, v, i + 1) {
            return false;
        }
        proof {
            let dv = v.deep_view();
            assert(dv.skip(i as int).drop_first() =~= dv.skip(i as int + 1));
            assert(dv.skip(i as int)[0] == dv[i as int]);
            assert((dv[i as int].0, dv[i as int].1) == dv[i as int]);
            assert(buf@ =~= old(buf)@ + enc_entries(dv.skip(i as int)));
        }
        true
    } else {
        proof {
            assert(v.deep_view().skip(i as int) =~= Seq::<(Seq<char>, DocumentView)>::empty());
            assert(buf@ =~= old(buf)@ + enc_entries(v.deep_view().skip(i as int)));
        }
        true
    }
}

/// Encodes a whole store snapshot, handed over as `(id, document)` entries,
/// to one blob.  Fails with `InvalidArgument` only when a string, list or
/// payload is too long for its `u32` length prefix.
pub fn encode_snapshot(entries: &Vec<(String, Document)>) -> (r: Result<Vec<u8>, StoreError>)
    ensures
        match r {
            Result::Ok(b) => b@ == enc_snapshot(entries.deep_view()) && snapshot_encodable(
                entries.deep_view(),
            ),
            Result::Err(e) => e == StoreError::InvalidArgument && !snapshot_encodable(
                entries.deep_view(),
            ),
        },
{
    let mut buf: Vec<u8> = Vec::new();
    if entries.len() > u32::MAX as usize {
        return Result::Err(StoreError::InvalidArgument);
    }
    write_u32(&mut buf, entries.len() as u32);
    if !write_entries_from(&mut buf, entries, 0) {
        return Result::Err(StoreError::InvalidArgument);
    }
    proof {
        assert(entries.deep_view().skip(0) =~= entries.deep_view());
        assert(buf@ =~= enc_snapshot(entries.deep_view()));
    }
    Result::Ok(buf)
}

// ---------------------------------------------------------------------------
// Executable decoders
// ---------------------------------------------------------------------------

/// Relies on `String::from_utf8` of std: it succeeds exactly on valid UTF-8
/// input and returns the string whose encoding is that input, as vstd's
/// `valid_utf8` and `decode_utf8` state it.
#[verifier::external_body]
fn string_from_utf8(bytes: Vec<u8>) -> (r: Option<String>)
    ensures
        match r {
            Option::Some(s) => valid_utf8(bytes@) && s@ == decode_utf8(bytes@),
            Option::None => !valid_utf8(bytes@),
        },
{
    match String::from_utf8(bytes) {
        Ok(s) => Option::Some(s),
        Err(_) => Option::None,
    }
}

fn read_u32(bytes: &Vec<u8>, pos: &mut usize) -> (r: Result<u32, StoreError>)
    requires
        *old(pos) <= bytes@.len(),
    ensures
        match r {
            Result::Ok(x) => *old(pos) <= *final(pos) <= bytes@.len() && dec_u32(
                bytes@.skip(*old(pos) as int),
            ) == Option::Some((x, bytes@.skip(*final(pos) as int))),
            Result::Err(e) => e == StoreError::CorruptSnapshot && dec_u32(
                bytes@.skip(*old(pos) as int),
            ) is None,
        },
{
    if bytes.len() - *pos < 4 {
        return Result::Err(StoreError::CorruptSnapshot);
    }
    let b0 = bytes[*pos];
    let b1 = bytes[*pos + 1];
    let b2 = bytes[*pos + 2];
    let b3 = bytes[*pos + 3];
    let x = ((b0 as u32) << 24) | ((b1 as u32) << 16) | ((b2 as u32) << 8) | (b3 as u32);
    *pos = *pos + 4;
    proof {
        let s = bytes@.skip(*old(pos) as int);
        assert(s.skip(4) =~= bytes@.skip(*pos as int));
        assert(s[0] == b0 && s[1] == b1 && s[2] == b2 && s[3] == b3);
    }
    Result::Ok(x)
}

fn read_u64(bytes: &Vec<u8>, pos: &mut usize) -> (r: Result<u64, StoreError>)
    requires
        *old(pos) <= bytes@.len(),
    ensures
        match r {
            Result::Ok(x) => *old(pos) <= *final(pos) <= bytes@.len() && dec_u64(
                bytes@.skip(*old(pos) as int),
            ) == Option::Some((x, bytes@.skip(*final(pos) as int))),
            Result::Err(e) => e == StoreError::CorruptSnapshot && dec_u64(
                bytes@.skip(*old(pos) as int),
            ) is None,
        },
{
    if bytes.len() - *pos < 8 {
        return Result::Err(StoreError::CorruptSnapshot);
    }
    let b0 = bytes[*pos];
    let b1 = bytes[*pos + 1];
    let b2 = bytes[*pos + 2];
    let b3 = bytes[*pos + 3];
    let b4 = bytes[*pos + 4];
    let b5 = bytes[*pos + 5];
    let b6 = bytes[*pos + 6];
    let b7 = bytes[*pos + 7];
    let x = ((b0 as u64) << 56) | ((b1 as u64) << 48) | ((b2 as u64) << 40) | ((b3 as u64) << 32)
        | ((b4 as u64) << 24) | ((b5 as u64) << 16) | ((b6 as u64) << 8) | (b7 as u64);
    *pos = *pos + 8;
    proof {
        let s = bytes@.skip(*old(pos) as int);
        assert(s.skip(8) =~= bytes@.skip(*pos as int));
        assert(s[0] == b0 && s[1] == b1 && s[2] == b2 && s[3] == b3 && s[4] == b4 && s[5] == b5
            && s[6] == b6 && s[7] == b7);
    }
    Result::Ok(x)
}

fn read_i64(bytes: &Vec<u8>, pos: &mut usize) -> (r: Result<i64, StoreError>)
    requires
        *old(pos) <= bytes@.len(),
    ensures
        match r {
            Result::Ok(x) => *old(pos) <= *final(pos) <= bytes@.len() && dec_i64(
                bytes@.skip(*old(pos) as int),
            ) == Option::Some((x, bytes@.skip(*final(pos) as int))),
            Result::Err(e) => e == StoreError::CorruptSnapshot && dec_i64(
                bytes@.skip(*old(pos) as int),
            ) is None,
        },
{
    match read_u64(bytes, pos) {
        Result::Ok(x) => Result::Ok(x as i64),
        Result::Err(e) => Result::Err(e),
    }
}

fn read_byte(bytes: &Vec<u8>, pos: &mut usize) -> (r: Result<u8, StoreError>)
    requires
        *old(pos) <= bytes@.len(),
    ensures
        match r {
            Result::Ok(x) => *old(pos) + 1 == *final(pos) && *final(pos) <= bytes@.len() && bytes@.skip(
                *old(pos) as int,
            ).len() >= 1 && x == bytes@.skip(*old(pos) as int)[0] && bytes@.skip(
                *old(pos) as int,
            ).skip(1) == bytes@.skip(*final(pos) as int),
            Result::Err(e) => e == StoreError::CorruptSnapshot && bytes@.skip(
                *old(pos) as int,
            ).len() == 0,
        },
{
    if bytes.len() - *pos < 1 {
        return Result::Err(StoreError::CorruptSnapshot);
    }
    let b = bytes[*pos];
    *pos = *pos + 1;
    proof {
        let s = bytes@.skip(*old(pos) as int);
        assert(s.skip(1) =~= bytes@.skip(*pos as int));
        assert(s[0] == b);
    }
    Result::Ok(b)
}

fn read_bytes(bytes: &Vec<u8>, pos: &mut usize, n: usize) -> (r: Result<Vec<u8>, StoreError>)
    requires
        *old(pos) <= bytes@.len(),
    ensures
        match r {
            Result::Ok(v) => {
                &&& *old(pos) + n == *final(pos)
                &&& *final(pos) <= bytes@.len()
                &&& v@ == bytes@.skip(*old(pos) as int).take(n as int)
                &&& bytes@.skip(*old(pos) as int).skip(n as int) == bytes@.skip(*final(pos) as int)
            },
            Result::Err(e) => e == StoreError::CorruptSnapshot && bytes@.skip(
                *old(pos) as int,
            ).len() < n as int,
        },
{
    if bytes.len() - *pos < n {
        return Result::Err(StoreError::CorruptSnapshot);
    }
    let mut v: Vec<u8> = Vec::new();
    let start: usize = *pos;
    let mut i: usize = 0;
    while i < n
        invariant
            i <= n,
            start + n <= bytes@.len(),
            bytes@.len() <= usize::MAX as int,
            v@ == bytes@.subrange(start as int, start as int + i as int),
        decreases n - i,
    {
        v.push(bytes[start + i]);
        proof {
            assert(v@ =~= bytes@.subrange(start as int, start as int + i as int + 1));
        }
        i = i + 1;
    }
    *pos = start + n;
    proof {
        let s = bytes@.skip(start as int);
        assert(v@ =~= s.take(n as int));
        assert(s.skip(n as int) =~= bytes@.skip(*pos as int));
    }
    Result::Ok(v)
}

fn read_str(bytes: &Vec<u8>, pos: &mut usize) -> (r: Result<String, StoreError>)
    requires
        *old(pos) <= bytes@.len(),
    ensures
        match r {
            Result::Ok(s) => *old(pos) <= *final(pos) <= bytes@.len() && dec_str(
                bytes@.skip(*old(pos) as int),
            ) == Option::Some((s@, bytes@.skip(*final(pos) as int))),
            Result::Err(e) => e == StoreError::CorruptSnapshot && dec_str(
                bytes@.skip(*old(pos) as int),
            ) is None,
        },
{
    let n = match read_u32(bytes, pos) {
        Result::Ok(n) => n,
        Result::Err(e) => {
            return Result::Err(e);
        },
    };
    let ghost mid = *pos;
    let bs = match read_bytes(bytes, pos, n as usize) {
        Result::Ok(bs) => bs,
        Result::Err(e) => {
            return Result::Err(e);
        },
    };
    let ghost taken = bs@;
    match string_from_utf8(bs) {
        Option::Some(s) => {
            proof {
                assert(bytes@.skip(mid as int).take(n as int) == taken);
            }
            Result::Ok(s)
        },
        Option::None => Result::Err(StoreError::CorruptSnapshot),
    }
}

fn read_opt_str(bytes: &Vec<u8>, pos: &mut usize) -> (r: Result<Option<String>, StoreError>)
    requires
        *old(pos) <= bytes@.len(),
    ensures
        match r {
            Result::Ok(s) => *old(pos) <= *final(pos) <= bytes@.len() && dec_opt_str(
                bytes@.skip(*old(pos) as int),
            ) == Option::Some((s.deep_view(), bytes@.skip(*final(pos) as int))),
            Result::Err(e) => e == StoreError::CorruptSnapshot && dec_opt_str(
                bytes@.skip(*old(pos) as int),
            ) is None,
        },
{
    let marker = match read_byte(bytes, pos) {
        Result::Ok(b) => b,
        Result::Err(e) => {
            return Result::Err(e);
        },
    };
    if marker == 0 {
        Result::Ok(Option::None)
    } else if marker == 1 {
        match read_str(bytes, pos) {
            Result::Ok(s) => Result::Ok(Option::Some(s)),
            Result::Err(e) => Result::Err(e),
        }
    } else {
        Result::Err(StoreError::CorruptSnapshot)
    }
}

fn read_opt_bool(bytes: &Vec<u8>, pos: &mut usize) -> (r: Result<Option<bool>, StoreError>)
    requires
        *old(pos) <= bytes@.len(),
    ensures
        match r {
            Result::Ok(b) => *old(pos) <= *final(pos) <= bytes@.len() && dec_opt_bool(
                bytes@.skip(*old(pos) as int),
            ) == Option::Some((b, bytes@.skip(*final(pos) as int))),
            Result::Err(e) => e == StoreError::CorruptSnapshot && dec_opt_bool(
                bytes@.skip(*old(pos) as int),
            ) is None,
        },
{
    let marker = match read_byte(bytes, pos) {
        Result::Ok(b) => b,
        Result::Err(e) => {
            return Result::Err(e);
        },
    };
    if marker == 0 {
        Result::Ok(Option::None)
    } else if marker == 1 {
        Result::Ok(Option::Some(false))
    } else if marker == 2 {
        Result::Ok(Option::Some(true))
    } else {
        Result::Err(StoreError::CorruptSnapshot)
    }
}

fn read_vis(bytes: &Vec<u8>, pos: &mut usize) -> (r: Result<Visibility, StoreError>)
    requires
        *old(pos) <= bytes@.len(),
    ensures
        match r {
            Result::Ok(v) => *old(pos) <= *final(pos) <= bytes@.len() && dec_vis(
                bytes@.skip(*old(pos) as int),
            ) == Option::Some((v, bytes@.skip(*final(pos) as int))),
            Result::Err(e) => e == StoreError::CorruptSnapshot && dec_vis(
                bytes@.skip(*old(pos) as int),
            ) is None,
        },
{
    let marker = match read_byte(bytes, pos) {
        Result::Ok(b) => b,
        Result::Err(e) => {
            return Result::Err(e);
        },
    };
    if marker == 0 {
        Result::Ok(Visibility::NonModifier)
    } else if marker == 1 {
        Result::Ok(Visibility::Public)
    } else if marker == 2 {
        Result::Ok(Visibility::Private)
    } else if marker == 3 {
        Result::Ok(Visibility::Protected)
    } else {
        Result::Err(StoreError::CorruptSnapshot)
    }
}

fn read_opt_vis(bytes: &Vec<u8>, pos: &mut usize) -> (r: Result<Option<Visibility>, StoreError>)
    requires
        *old(pos) <= bytes@.len(),
    ensures
        match r {
            Result::Ok(v) => *old(pos) <= *final(pos) <= bytes@.len() && dec_opt_vis(
                bytes@.skip(*old(pos) as int),
            ) == Option::Some((v, bytes@.skip(*final(pos) as int))),
            Result::Err(e) => e == StoreError::CorruptSnapshot && dec_opt_vis(
                bytes@.skip(*old(pos) as int),
            ) is None,
        },
{
    let marker = match read_byte(bytes, pos) {
        Result::Ok(b) => b,
        Result::Err(e) => {
            return Result::Err(e);
        },
    };
    if marker == 4 {
        Result::Ok(Option::None)
    } else if marker == 0 {
        Result::Ok(Option::Some(Visibility::NonModifier))
    } else if marker == 1 {
        Result::Ok(Option::Some(Visibility::Public))
    } else if marker == 2 {
        Result::Ok(Option::Some(Visibility::Private))
    } else if marker == 3 {
        Result::Ok(Option::Some(Visibility::Protected))
    } else {
        Result::Err(StoreError::CorruptSnapshot)
    }
}

fn read_rel(bytes: &Vec<u8>, pos: &mut usize) -> (r: Result<RelationKind, StoreError>)
    requires
        *old(pos) <= bytes@.len(),
    ensures
        match r {
            Result::Ok(v) => *old(pos) <= *final(pos) <= bytes@.len() && dec_rel(
                bytes@.skip(*old(pos) as int),
            ) == Option::Some((v, bytes@.skip(*final(pos) as int))),
            Result::Err(e) => e == StoreError::CorruptSnapshot && dec_rel(
                bytes@.skip(*old(pos) as int),
            ) is None,
        },
{
    let marker = match read_byte(bytes, pos) {
        Result::Ok(b) => b,
        Result::Err(e) => {
            return Result::Err(e);
        },
    };
    if marker == 0 {
        Result::Ok(RelationKind::NoRelation)
    } else if marker == 1 {
        Result::Ok(RelationKind::Inheritance)
    } else if marker == 2 {
        Result::Ok(RelationKind::Implementation)
    } else if marker == 3 {
        Result::Ok(RelationKind::Association)
    } else if marker == 4 {
        Result::Ok(RelationKind::Aggregation)
    } else if marker == 5 {
        Result::Ok(RelationKind::Composition)
    } else {
        Result::Err(StoreError::CorruptSnapshot)
    }
}

fn read_opt_u32(bytes: &Vec<u8>, pos: &mut usize) -> (r: Result<Option<u32>, StoreError>)
    requires
        *old(pos) <= bytes@.len(),
    ensures
        match r {
            Result::Ok(v) => *old(pos) <= *final(pos) <= bytes@.len() && dec_opt_u32(
                bytes@.skip(*old(pos) as int),
            ) == Option::Some((v, bytes@.skip(*final(pos) as int))),
            Result::Err(e) => e == StoreError::CorruptSnapshot && dec_opt_u32(
                bytes@.skip(*old(pos) as int),
            ) is None,
        },
{
    let marker = match read_byte(bytes, pos) {
        Result::Ok(b) => b,
        Result::Err(e) => {
            return Result::Err(e);
        },
    };
    if marker == 0 {
        Result::Ok(Option::None)
    } else if marker == 1 {
        match read_u32(bytes, pos) {
            Result::Ok(x) => Result::Ok(Option::Some(x)),
            Result::Err(e) => Result::Err(e),
        }
    } else {
        Result::Err(StoreError::CorruptSnapshot)
    }
}

fn read_opt_mult(bytes: &Vec<u8>, pos: &mut usize) -> (r: Result<
    Option<Multiplicity>,
    StoreError,
>)
    requires
        *old(pos) <= bytes@.len(),
    ensures
        match r {
            Result::Ok(v) => *old(pos) <= *final(pos) <= bytes@.len() && dec_opt_mult(
                bytes@.skip(*old(pos) as int),
            ) == Option::Some((v, bytes@.skip(*final(pos) as int))),
            Result::Err(e) => e == StoreError::CorruptSnapshot && dec_opt_mult(
                bytes@.skip(*old(pos) as int),
            ) is None,
        },
{
    let marker = match read_byte(bytes, pos) {
        Result::Ok(b) => b,
        Result::Err(e) => {
            return Result::Err(e);
        },
    };
    if marker == 0 {
        Result::Ok(Option::None)
    } else if marker == 1 {
        let lower = match read_u32(bytes, pos) {
            Result::Ok(x) => x,
            Result::Err(e) => {
                return Result::Err(e);
            },
        };
        let upper = match read_opt_u32(bytes, pos) {
            Result::Ok(x) => x,
            Result::Err(e) => {
                return Result::Err(e);
            },
        };
        Result::Ok(Option::Some(Multiplicity { lower, upper }))
    } else {
        Result::Err(StoreError::CorruptSnapshot)
    }
}

// ---------------------------------------------------------------------------
// Composite executable decoders
// ---------------------------------------------------------------------------

fn decode_field_at(bytes: &Vec<u8>, pos: &mut usize) -> (r: Result<Field, StoreError>)
    requires
        *old(pos) <= bytes@.len(),
    ensures
        match r {
            Result::Ok(f) => *old(pos) <= *final(pos) <= bytes@.len() && dec_field(
                bytes@.skip(*old(pos) as int),
            ) == Option::Some((f@, bytes@.skip(*final(pos) as int))),
            Result::Err(e) => e == StoreError::CorruptSnapshot && dec_field(
                bytes@.skip(*old(pos) as int),
            ) is None,
        },
{
    proof {
        reveal(dec_field);
    }
    let name = match read_str(bytes, pos) {
        Result::Ok(s) => s,
        Result::Err(e) => {
            return Result::Err(e);
        },
    };
    let field_type = match read_str(bytes, pos) {
        Result::Ok(s) => s,
        Result::Err(e) => {
            return Result::Err(e);
        },
    };
    let visibility = match read_opt_vis(bytes, pos) {
        Result::Ok(v) => v,
        Result::Err(e) => {
            return Result::Err(e);
        },
    };
    let is_static = match read_opt_bool(bytes, pos) {
        Result::Ok(b) => b,
        Result::Err(e) => {
            return Result::Err(e);
        },
    };
    Result::Ok(Field { name, field_type, visibility, is_static })
}

fn decode_fields_at(bytes: &Vec<u8>, pos: &mut usize, n: u32) -> (r: Result<Vec<Field>, StoreError>)
    requires
        *old(pos) <= bytes@.len(),
    ensures
        match r {
            Result::Ok(v) => *old(pos) <= *final(pos) <= bytes@.len() && dec_fields(
                bytes@.skip(*old(pos) as int),
                n as nat,
            ) == Option::Some((v.deep_view(), bytes@.skip(*final(pos) as int))),
            Result::Err(e) => e == StoreError::CorruptSnapshot && dec_fields(
                bytes@.skip(*old(pos) as int),
                n as nat,
            ) is None,
        },
    decreases n,
{
    if n == 0 {
        let v: Vec<Field> = Vec::new();
        proof {
            assert(v.deep_view() =~= Seq::<FieldView>::empty());
        }
        Result::Ok(v)
    } else {
        let f = match decode_field_at(bytes, pos) {
            Result::Ok(f) => f,
            Result::Err(e) => {
                return Result::Err(e);
            },
        };
        let mut v = match decode_fields_at(bytes, pos, n - 1) {
            Result::Ok(v) => v,
            Result::Err(e) => {
                return Result::Err(e);
            },
        };
        let ghost tail_dv = v.deep_view();
        v.insert(0, f);
        proof {
            assert(v.deep_view() =~= seq![f@] + tail_dv);
        }
        Result::Ok(v)
    }
}

fn decode_operation_at(bytes: &Vec<u8>, pos: &mut usize) -> (r: Result<Operation, StoreError>)
    requires
        *old(pos) <= bytes@.len(),
    ensures
        match r {
            Result::Ok(m) => *old(pos) <= *final(pos) <= bytes@.len() && dec_operation(
                bytes@.skip(*old(pos) as int),
            ) == Option::Some((m@, bytes@.skip(*final(pos) as int))),
            Result::Err(e) => e == StoreError::CorruptSnapshot && dec_operation(
                bytes@.skip(*old(pos) as int),
            ) is None,
        },
{
    proof {
        reveal(dec_operation);
    }
    let name = match read_str(bytes, pos) {
        Result::Ok(s) => s,
        Result::Err(e) => {
            return Result::Err(e);
        },
    };
    let return_type = match read_str(bytes, pos) {
        Result::Ok(s) => s,
        Result::Err(e) => {
            return Result::Err(e);
        },
    };
    let visibility = match read_vis(bytes, pos) {
        Result::Ok(v) => v,
        Result::Err(e) => {
            return Result::Err(e);
        },
    };
    let is_abstract = match read_opt_bool(bytes, pos) {
        Result::Ok(b) => b,
        Result::Err(e) => {
            return Result::Err(e);
        },
    };
    let is_static = match read_opt_bool(bytes, pos) {
        Result::Ok(b) => b,
        Result::Err(e) => {
            return Result::Err(e);
        },
    };
    let n = match read_u32(bytes, pos) {
        Result::Ok(n) => n,
        Result::Err(e) => {
            return Result::Err(e);
        },
    };
    let parameters = match decode_fields_at(bytes, pos, n) {
        Result::Ok(v) => v,
        Result::Err(e) => {
            return Result::Err(e);
        },
    };
    Result::Ok(Operation { name, return_type, visibility, is_abstract, is_static, parameters })
}

fn decode_operations_at(bytes: &Vec<u8>, pos: &mut usize, n: u32) -> (r: Result<
    Vec<Operation>,
    StoreError,
>)
    requires
        *old(pos) <= bytes@.len(),
    ensures
        match r {
            Result::Ok(v) => *old(pos) <= *final(pos) <= bytes@.len() && dec_operations(
                bytes@.skip(*old(pos) as int),
                n as nat,
            ) == Option::Some((v.deep_view(), bytes@.skip(*final(pos) as int))),
            Result::Err(e) => e == StoreError::CorruptSnapshot && dec_operations(
                bytes@.skip(*old(pos) as int),
                n as nat,
            ) is None,
        },
    decreases n,
{
    if n == 0 {
        let v: Vec<Operation> = Vec::new();
        proof {
            assert(v.deep_view() =~= Seq::<OperationView>::empty());
        }
        Result::Ok(v)
    } else {
        let m = match decode_operation_at(bytes, pos) {
            Result::Ok(m) => m,
            Result::Err(e) => {
                return Result::Err(e);
            },
        };
        let mut v = match decode_operations_at(bytes, pos, n - 1) {
            Result::Ok(v) => v,
            Result::Err(e) => {
                return Result::Err(e);
            },
        };
        let ghost tail_dv = v.deep_view();
        v.insert(0, m);
        proof {
            assert(v.deep_view() =~= seq![m@] + tail_dv);
        }
        Result::Ok(v)
    }
}

fn decode_edge_at(bytes: &Vec<u8>, pos: &mut usize) -> (r: Result<RelationEdge, StoreError>)
    requires
        *old(pos) <= bytes@.len(),
    ensures
        match r {
            Result::Ok(e) => *old(pos) <= *final(pos) <= bytes@.len() && dec_edge(
                bytes@.skip(*old(pos) as int),
            ) == Option::Some((e@, bytes@.skip(*final(pos) as int))),
            Result::Err(e) => e == StoreError::CorruptSnapshot && dec_edge(
                bytes@.skip(*old(pos) as int),
            ) is None,
        },
{
    proof {
        reveal(dec_edge);
    }
    let target_class_id = match read_str(bytes, pos) {
        Result::Ok(s) => s,
        Result::Err(e) => {
            return Result::Err(e);
        },
    };
    let relation = match read_rel(bytes, pos) {
        Result::Ok(v) => v,
        Result::Err(e) => {
            return Result::Err(e);
        },
    };
    let multiplicity_p = match read_opt_mult(bytes, pos) {
        Result::Ok(v) => v,
        Result::Err(e) => {
            return Result::Err(e);
        },
    };
    let multiplicity_c = match read_opt_mult(bytes, pos) {
        Result::Ok(v) => v,
        Result::Err(e) => {
            return Result::Err(e);
        },
    };
    let role_name_p = match read_opt_str(bytes, pos) {
        Result::Ok(v) => v,
        Result::Err(e) => {
            return Result::Err(e);
        },
    };
    let role_name_c = match read_opt_str(bytes, pos) {
        Result::Ok(v) => v,
        Result::Err(e) => {
            return Result::Err(e);
        },
    };
    Result::Ok(
        RelationEdge {
            target_class_id,
            relation,
            multiplicity_p,
            multiplicity_c,
            role_name_p,
            role_name_c,
        },
    )
}

fn decode_edges_at(bytes: &Vec<u8>, pos: &mut usize, n: u32) -> (r: Result<
    Vec<RelationEdge>,
    StoreError,
>)
    requires
        *old(pos) <= bytes@.len(),
    ensures
        match r {
            Result::Ok(v) => *old(pos) <= *final(pos) <= bytes@.len() && dec_edges(
                bytes@.skip(*old(pos) as int),
                n as nat,
            ) == Option::Some((v.deep_view(), bytes@.skip(*final(pos) as int))),
            Result::Err(e) => e == StoreError::CorruptSnapshot && dec_edges(
                bytes@.skip(*old(pos) as int),
                n as nat,
            ) is None,
        },
    decreases n,
{
    if n == 0 {
        let v: Vec<RelationEdge> = Vec::new();
        proof {
            assert(v.deep_view() =~= Seq::<RelationEdgeView>::empty());
        }
        Result::Ok(v)
    } else {
        let e = match decode_edge_at(bytes, pos) {
            Result::Ok(e) => e,
            Result::Err(e) => {
                return Result::Err(e);
            },
        };
        let mut v = match decode_edges_at(bytes, pos, n - 1) {
            Result::Ok(v) => v,
            Result::Err(e) => {
                return Result::Err(e);
            },
        };
        let ghost tail_dv = v.deep_view();
        v.insert(0, e);
        proof {
            assert(v.deep_view() =~= seq![e@] + tail_dv);
        }
        Result::Ok(v)
    }
}

fn decode_opt_edges_at(bytes: &Vec<u8>, pos: &mut usize) -> (r: Result<
    Option<Vec<RelationEdge>>,
    StoreError,
>)
    requires
        *old(pos) <= bytes@.len(),
    ensures
        match r {
            Result::Ok(v) => *old(pos) <= *final(pos) <= bytes@.len() && dec_opt_edges(
                bytes@.skip(*old(pos) as int),
            ) == Option::Some((v.deep_view(), bytes@.skip(*final(pos) as int))),
            Result::Err(e) => e == StoreError::CorruptSnapshot && dec_opt_edges(
                bytes@.skip(*old(pos) as int),
            ) is None,
        },
{
    let marker = match read_byte(bytes, pos) {
        Result::Ok(b) => b,
        Result::Err(e) => {
            return Result::Err(e);
        },
    };
    if marker == 0 {
        Result::Ok(Option::None)
    } else if marker == 1 {
        let n = match read_u32(bytes, pos) {
            Result::Ok(n) => n,
            Result::Err(e) => {
                return Result::Err(e);
            },
        };
        match decode_edges_at(bytes, pos, n) {
            Result::Ok(v) => Result::Ok(Option::Some(v)),
            Result::Err(e) => Result::Err(e),
        }
    } else {
        Result::Err(StoreError::CorruptSnapshot)
    }
}

fn decode_class_at(bytes: &Vec<u8>, pos: &mut usize) -> (r: Result<ClassDef, StoreError>)
    requires
        *old(pos) <= bytes@.len(),
    ensures
        match r {
            Result::Ok(c) => *old(pos) <= *final(pos) <= bytes@.len() && dec_class(
                bytes@.skip(*old(pos) as int),
            ) == Option::Some((c@, bytes@.skip(*final(pos) as int))),
            Result::Err(e) => e == StoreError::CorruptSnapshot && dec_class(
                bytes@.skip(*old(pos) as int),
            ) is None,
        },
{
    proof {
        reveal(dec_class);
    }
    let id = match read_str(bytes, pos) {
        Result::Ok(s) => s,
        Result::Err(e) => {
            return Result::Err(e);
        },
    };
    let name = match read_str(bytes, pos) {
        Result::Ok(s) => s,
        Result::Err(e) => {
            return Result::Err(e);
        },
    };
    let na = match read_u32(bytes, pos) {
        Result::Ok(n) => n,
        Result::Err(e) => {
            return Result::Err(e);
        },
    };
    let attributes = match decode_fields_at(bytes, pos, na) {
        Result::Ok(v) => v,
        Result::Err(e) => {
            return Result::Err(e);
        },
    };
    let nm = match read_u32(bytes, pos) {
        Result::Ok(n) => n,
        Result::Err(e) => {
            return Result::Err(e);
        },
    };
    let methods = match decode_operations_at(bytes, pos, nm) {
        Result::Ok(v) => v,
        Result::Err(e) => {
            return Result::Err(e);
        },
    };
    let relations = match decode_opt_edges_at(bytes, pos) {
        Result::Ok(v) => v,
        Result::Err(e) => {
            return Result::Err(e);
        },
    };
    Result::Ok(ClassDef { id, name, attributes, methods, relations })
}

fn decode_classes_at(bytes: &Vec<u8>, pos: &mut usize, n: u32) -> (r: Result<
    Vec<ClassDef>,
    StoreError,
>)
    requires
        *old(pos) <= bytes@.len(),
    ensures
        match r {
            Result::Ok(v) => *old(pos) <= *final(pos) <= bytes@.len() && dec_classes(
                bytes@.skip(*old(pos) as int),
                n as nat,
            ) == Option::Some((v.deep_view(), bytes@.skip(*final(pos) as int))),
            Result::Err(e) => e == StoreError::CorruptSnapshot && dec_classes(
                bytes@.skip(*old(pos) as int),
                n as nat,
            ) is None,
        },
    decreases n,
{
    if n == 0 {
        let v: Vec<ClassDef> = Vec::new();
        proof {
            assert(v.deep_view() =~= Seq::<ClassDefView>::empty());
        }
        Result::Ok(v)
    } else {
        let c = match decode_class_at(bytes, pos) {
            Result::Ok(c) => c,
            Result::Err(e) => {
                return Result::Err(e);
            },
        };
        let mut v = match decode_classes_at(bytes, pos, n - 1) {
            Result::Ok(v) => v,
            Result::Err(e) => {
                return Result::Err(e);
            },
        };
        let ghost tail_dv = v.deep_view();
        v.insert(0, c);
        proof {
            assert(v.deep_view() =~= seq![c@] + tail_dv);
        }
        Result::Ok(v)
    }
}

fn decode_document_at(bytes: &Vec<u8>, pos: &mut usize) -> (r: Result<Document, StoreError>)
    requires
        *old(pos) <= bytes@.len(),
    ensures
        match r {
            Result::Ok(d) => *old(pos) <= *final(pos) <= bytes@.len() && dec_document(
                bytes@.skip(*old(pos) as int),
            ) == Option::Some((d@, bytes@.skip(*final(pos) as int))),
            Result::Err(e) => e == StoreError::CorruptSnapshot && dec_document(
                bytes@.skip(*old(pos) as int),
            ) is None,
        },
{
    proof {
        reveal(dec_document);
    }
    let id = match read_str(bytes, pos) {
        Result::Ok(s) => s,
        Result::Err(e) => {
            return Result::Err(e);
        },
    };
    let name = match read_str(bytes, pos) {
        Result::Ok(s) => s,
        Result::Err(e) => {
            return Result::Err(e);
        },
    };
    let created_at = match read_i64(bytes, pos) {
        Result::Ok(x) => x,
        Result::Err(e) => {
            return Result::Err(e);
        },
    };
    let last_modified = match read_i64(bytes, pos) {
        Result::Ok(x) => x,
        Result::Err(e) => {
            return Result::Err(e);
        },
    };
    let n = match read_u32(bytes, pos) {
        Result::Ok(n) => n,
        Result::Err(e) => {
            return Result::Err(e);
        },
    };
    let classes = match decode_classes_at(bytes, pos, n) {
        Result::Ok(v) => v,
        Result::Err(e) => {
            return Result::Err(e);
        },
    };
    Result::Ok(Document { id, name, created_at, last_modified, classes })
}

/// Decodes one document payload; the whole input must be consumed.
/// Fails with `CorruptSnapshot` exactly when the bytes are not a document
/// payload of this codec.
pub fn decode_document(bytes: &Vec<u8>) -> (r: Result<Document, StoreError>)
    ensures
        match r {
            Result::Ok(d) => parse_document(bytes@) == Option::Some(d@),
            Result::Err(e) => e == StoreError::CorruptSnapshot && parse_document(bytes@) is None,
        },
{
    let mut pos: usize = 0;
    proof {
        assert(bytes@.skip(0) =~= bytes@);
    }
    let d = match decode_document_at(bytes, &mut pos) {
        Result::Ok(d) => d,
        Result::Err(e) => {
            return Result::Err(e);
        },
    };
    if pos != bytes.len() {
        proof {
            assert(bytes@.skip(pos as int).len() > 0);
        }
        return Result::Err(StoreError::CorruptSnapshot);
    }
    proof {
        assert(bytes@.skip(pos as int).len() == 0);
    }
    Result::Ok(d)
}

fn decode_entry_at(bytes: &Vec<u8>, pos: &mut usize) -> (r: Result<(String, Document), StoreError>)
    requires
        *old(pos) <= bytes@.len(),
    ensures
        match r {
            Result::Ok(p) => *old(pos) <= *final(pos) <= bytes@.len() && dec_entry(
                bytes@.skip(*old(pos) as int),
            ) == Option::Some((p.deep_view(), bytes@.skip(*final(pos) as int))),
            Result::Err(e) => e == StoreError::CorruptSnapshot && dec_entry(
                bytes@.skip(*old(pos) as int),
            ) is None,
        },
{
    proof {
        reveal(dec_entry);
    }
    let key = match read_str(bytes, pos) {
        Result::Ok(s) => s,
        Result::Err(e) => {
            return Result::Err(e);
        },
    };
    let n = match read_u32(bytes, pos) {
        Result::Ok(n) => n,
        Result::Err(e) => {
            return Result::Err(e);
        },
    };
    let payload = match read_bytes(bytes, pos, n as usize) {
        Result::Ok(p) => p,
        Result::Err(e) => {
            return Result::Err(e);
        },
    };
    let doc = match decode_document(&payload) {
        Result::Ok(d) => d,
        Result::Err(e) => {
            return Result::Err(e);
        },
    };
    Result::Ok((key, doc))
}

fn decode_entries_at(bytes: &Vec<u8>, pos: &mut usize, n: u32) -> (r: Result<
    Vec<(String, Document)>,
    StoreError,
>)
    requires
        *old(pos) <= bytes@.len(),
    ensures
        match r {
            Result::Ok(v) => *old(pos) <= *final(pos) <= bytes@.len() && dec_entries(
                bytes@.skip(*old(pos) as int),
                n as nat,
            ) == Option::Some((v.deep_view(), bytes@.skip(*final(pos) as int))),
            Result::Err(e) => e == StoreError::CorruptSnapshot && dec_entries(
                bytes@.skip(*old(pos) as int),
                n as nat,
            ) is None,
        },
    decreases n,
{
    if n == 0 {
        let v: Vec<(String, Document)> = Vec::new();
        proof {
            assert(v.deep_view() =~= Seq::<(Seq<char>, DocumentView)>::empty());
        }
        Result::Ok(v)
    } else {
        let e = match decode_entry_at(bytes, pos) {
            Result::Ok(e) => e,
            Result::Err(e) => {
                return Result::Err(e);
            },
        };
        let mut v = match decode_entries_at(bytes, pos, n - 1) {
            Result::Ok(v) => v,
            Result::Err(e) => {
                return Result::Err(e);
            },
        };
        let ghost tail_dv = v.deep_view();
        let ghost e_dv = e.deep_view();
        v.insert(0, e);
        proof {
            assert(v.deep_view() =~= seq![e_dv] + tail_dv);
        }
        Result::Ok(v)
    }
}

/// Decodes a whole snapshot blob back to its `(id, document)` entries.
/// A zero-length input is an empty store, not an error; anything else must
/// parse completely or the decode fails with `CorruptSnapshot`.
pub fn decode_snapshot(bytes: &Vec<u8>) -> (r: Result<Vec<(String, Document)>, StoreError>)
    ensures
        match r {
            Result::Ok(v) => parse_snapshot(bytes@) == Option::Some(v.deep_view()),
            Result::Err(e) => e == StoreError::CorruptSnapshot && parse_snapshot(bytes@) is None,
        },
{
    if bytes.len() == 0 {
        let v: Vec<(String, Document)> = Vec::new();
        proof {
            assert(v.deep_view() =~= Seq::<(Seq<char>, DocumentView)>::empty());
        }
        return Result::Ok(v);
    }
    let mut pos: usize = 0;
    proof {
        assert(bytes@.skip(0) =~= bytes@);
    }
    let n = match read_u32(bytes, &mut pos) {
        Result::Ok(n) => n,
        Result::Err(e) => {
            return Result::Err(e);
        },
    };
    let v = match decode_entries_at(bytes, &mut pos, n) {
        Result::Ok(v) => v,
        Result::Err(e) => {
            return Result::Err(e);
        },
    };
    if pos != bytes.len() {
        proof {
            assert(bytes@.skip(pos as int).len() > 0);
        }
        return Result::Err(StoreError::CorruptSnapshot);
    }
    proof {
        assert(bytes@.skip(pos as int).len() == 0);
    }
    Result::Ok(v)
}

} // verus!
