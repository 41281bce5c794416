//! The wire translator: between the JSON document representation and the
//! document model.
//!
//! Reading JSON never fails: missing strings default to empty, missing
//! timestamps to zero, missing arrays to empty sequences, and enum strings
//! are matched case-sensitively with a silent default (`NonModifier` for a
//! visibility, `NoRelation` for a relation kind).  Writing re-emits enum
//! codes as their canonical uppercase names and keeps optional fields
//! absent as JSON null rather than a zero default.

use vstd::prelude::*;

use crate::json::{
    j_as_array, j_as_bool, j_as_i64, j_as_str, j_as_u64, j_get, json_field_views, json_view,
    json_views, JsonValue, JsonView,
};
use crate::model::{
    ClassDef, ClassDefView, Document, DocumentView, Field, FieldView, Multiplicity, Operation,
    OperationView, RelationEdge, RelationEdgeView, RelationKind, Visibility,
};

verus! {

// ---------------------------------------------------------------------------
// Spec-level readers
// ---------------------------------------------------------------------------

pub open spec fn sget_str(v: JsonView, key: Seq<char>) -> Option<Seq<char>> {
    match j_get(v, key) {
        Option::Some(c) => j_as_str(c),
        Option::None => Option::None,
    }
}

pub open spec fn sget_bool(v: JsonView, key: Seq<char>) -> Option<bool> {
    match j_get(v, key) {
        Option::Some(c) => j_as_bool(c),
        Option::None => Option::None,
    }
}

pub open spec fn sget_i64(v: JsonView, key: Seq<char>) -> Option<i64> {
    match j_get(v, key) {
        Option::Some(c) => j_as_i64(c),
        Option::None => Option::None,
    }
}

pub open spec fn sget_u64(v: JsonView, key: Seq<char>) -> Option<u64> {
    match j_get(v, key) {
        Option::Some(c) => j_as_u64(c),
        Option::None => Option::None,
    }
}

pub open spec fn sget_array(v: JsonView, key: Seq<char>) -> Option<Seq<JsonView>> {
    match j_get(v, key) {
        Option::Some(c) => j_as_array(c),
        Option::None => Option::None,
    }
}

pub open spec fn str_or_empty(o: Option<Seq<char>>) -> Seq<char> {
    match o {
        Option::Some(s) => s,
        Option::None => Seq::empty(),
    }
}

// ---------------------------------------------------------------------------
// Enum vocabularies
// ---------------------------------------------------------------------------

/// The visibility a JSON string denotes; anything unrecognized is the
/// silent default.
pub open spec fn spec_visibility_from_str(s: Seq<char>) -> Visibility {
    if s == "PUBLIC"@ {
        Visibility::Public
    } else if s == "PRIVATE"@ {
        Visibility::Private
    } else if s == "PROTECTED"@ {
        Visibility::Protected
    } else {
        Visibility::NonModifier
    }
}

/// The canonical uppercase name of a visibility.
pub open spec fn spec_visibility_name(v: Visibility) -> Seq<char> {
    match v {
        Visibility::Public => "PUBLIC"@,
        Visibility::Private => "PRIVATE"@,
        Visibility::Protected => "PROTECTED"@,
        Visibility::NonModifier => "NON_MODIFIER"@,
    }
}

/// The relation kind a JSON string denotes; anything unrecognized is the
/// silent default.
pub open spec fn spec_relation_from_str(s: Seq<char>) -> RelationKind {
    if s == "INHERITANCE"@ {
        RelationKind::Inheritance
    } else if s == "IMPLEMENTATION"@ {
        RelationKind::Implementation
    } else if s == "ASSOCIATION"@ {
        RelationKind::Association
    } else if s == "AGGREGATION"@ {
        RelationKind::Aggregation
    } else if s == "COMPOSITION"@ {
        RelationKind::Composition
    } else {
        RelationKind::NoRelation
    }
}

/// The canonical uppercase name of a relation kind.
pub open spec fn spec_relation_name(r: RelationKind) -> Seq<char> {
    match r {
        RelationKind::Inheritance => "INHERITANCE"@,
        RelationKind::Implementation => "IMPLEMENTATION"@,
        RelationKind::Association => "ASSOCIATION"@,
        RelationKind::Aggregation => "AGGREGATION"@,
        RelationKind::Composition => "COMPOSITION"@,
        RelationKind::NoRelation => "NONE"@,
    }
}

// ---------------------------------------------------------------------------
// JSON to model (spec level)
// ---------------------------------------------------------------------------

pub open spec fn spec_json_to_multiplicity(v: JsonView) -> Multiplicity {
    Multiplicity {
        lower: match sget_u64(v, "lower"@) {
            Option::Some(u) => u as u32,
            Option::None => 0,
        },
        upper: match sget_u64(v, "upper"@) {
            Option::Some(u) => Option::Some(u as u32),
            Option::None => Option::None,
        },
    }
}

pub open spec fn spec_json_to_field(v: JsonView) -> FieldView {
    FieldView {
        name: str_or_empty(sget_str(v, "name"@)),
        field_type: str_or_empty(sget_str(v, "type"@)),
        visibility: match sget_str(v, "visibility"@) {
            Option::Some(s) => Option::Some(spec_visibility_from_str(s)),
            Option::None => Option::None,
        },
        is_static: sget_bool(v, "is_static"@),
    }
}

pub open spec fn spec_json_to_fields(s: Seq<JsonView>) -> Seq<FieldView> {
    s.map_values(|c: JsonView| spec_json_to_field(c))
}

pub open spec fn spec_json_to_operation(v: JsonView) -> OperationView {
    OperationView {
        name: str_or_empty(sget_str(v, "name"@)),
        return_type: str_or_empty(sget_str(v, "return_type"@)),
        visibility: match sget_str(v, "visibility"@) {
            Option::Some(s) => spec_visibility_from_str(s),
            Option::None => Visibility::NonModifier,
        },
        is_abstract: sget_bool(v, "is_abstract"@),
        is_static: sget_bool(v, "is_static"@),
        parameters: match sget_array(v, "parameters"@) {
            Option::Some(a) => spec_json_to_fields(a),
            Option::None => Seq::empty(),
        },
    }
}

pub open spec fn spec_json_to_operations(s: Seq<JsonView>) -> Seq<OperationView> {
    s.map_values(|c: JsonView| spec_json_to_operation(c))
}

pub open spec fn spec_json_to_edge(v: JsonView) -> RelationEdgeView {
    RelationEdgeView {
        target_class_id: str_or_empty(sget_str(v, "target_class_id"@)),
        relation: match sget_str(v, "relation"@) {
            Option::Some(s) => spec_relation_from_str(s),
            Option::None => RelationKind::NoRelation,
        },
        multiplicity_p: match j_get(v, "multiplicity_p"@) {
            Option::Some(m) => Option::Some(spec_json_to_multiplicity(m)),
            Option::None => Option::None,
        },
        multiplicity_c: match j_get(v, "multiplicity_c"@) {
            Option::Some(m) => Option::Some(spec_json_to_multiplicity(m)),
            Option::None => Option::None,
        },
        role_name_p: sget_str(v, "role_name_p"@),
        role_name_c: sget_str(v, "role_name_c"@),
    }
}

pub open spec fn spec_json_to_edges(s: Seq<JsonView>) -> Seq<RelationEdgeView> {
    s.map_values(|c: JsonView| spec_json_to_edge(c))
}

pub open spec fn spec_json_to_class(v: JsonView) -> ClassDefView {
    ClassDefView {
        id: str_or_empty(sget_str(v, "id"@)),
        name: str_or_empty(sget_str(v, "name"@)),
        attributes: match sget_array(v, "attributes"@) {
            Option::Some(a) => spec_json_to_fields(a),
            Option::None => Seq::empty(),
        },
        methods: match sget_array(v, "methods"@) {
            Option::Some(a) => spec_json_to_operations(a),
            Option::None => Seq::empty(),
        },
        relations: match j_get(v, "relations"@) {
            Option::Some(r) => match sget_array(r, "relation_infos"@) {
                Option::Some(a) => Option::Some(spec_json_to_edges(a)),
                Option::None => Option::None,
            },
            Option::None => Option::None,
        },
    }
}

pub open spec fn spec_json_to_classes(s: Seq<JsonView>) -> Seq<ClassDefView> {
    s.map_values(|c: JsonView| spec_json_to_class(c))
}

pub open spec fn spec_json_to_document(v: JsonView) -> DocumentView {
    DocumentView {
        id: str_or_empty(
            match j_get(v, "file_id"@) {
                Option::Some(f) => sget_str(f, "id"@),
                Option::None => Option::None,
            },
        ),
        name: str_or_empty(sget_str(v, "name"@)),
        created_at: match sget_i64(v, "created_at"@) {
            Option::Some(t) => t,
            Option::None => 0,
        },
        last_modified: match sget_i64(v, "last_modified"@) {
            Option::Some(t) => t,
            Option::None => 0,
        },
        classes: match sget_array(v, "classes"@) {
            Option::Some(a) => spec_json_to_classes(a),
            Option::None => Seq::empty(),
        },
    }
}

// ---------------------------------------------------------------------------
// JSON to model (executable)
// ---------------------------------------------------------------------------

/// The visibility a JSON string denotes, silently defaulting.
pub fn visibility_from_str(s: &String) -> (r: Visibility)
    ensures
        r == spec_visibility_from_str(s@),
{
    if *s == "PUBLIC".to_owned() {
        Visibility::Public
    } else if *s == "PRIVATE".to_owned() {
        Visibility::Private
    } else if *s == "PROTECTED".to_owned() {
        Visibility::Protected
    } else {
        Visibility::NonModifier
    }
}

/// The canonical uppercase name of a visibility.
pub fn visibility_name(v: Visibility) -> (r: &'static str)
    ensures
        r@ == spec_visibility_name(v),
{
    match v {
        Visibility::Public => "PUBLIC",
        Visibility::Private => "PRIVATE",
        Visibility::Protected => "PROTECTED",
        Visibility::NonModifier => "NON_MODIFIER",
    }
}

/// The relation kind a JSON string denotes, silently defaulting.
pub fn relation_from_str(s: &String) -> (r: RelationKind)
    ensures
        r == spec_relation_from_str(s@),
{
    if *s == "INHERITANCE".to_owned() {
        RelationKind::Inheritance
    } else if *s == "IMPLEMENTATION".to_owned() {
        RelationKind::Implementation
    } else if *s == "ASSOCIATION".to_owned() {
        RelationKind::Association
    } else if *s == "AGGREGATION".to_owned() {
        RelationKind::Aggregation
    } else if *s == "COMPOSITION".to_owned() {
        RelationKind::Composition
    } else {
        RelationKind::NoRelation
    }
}

/// The canonical uppercase name of a relation kind.
pub fn relation_name(r: RelationKind) -> (s: &'static str)
    ensures
        s@ == spec_relation_name(r),
{
    match r {
        RelationKind::Inheritance => "INHERITANCE",
        RelationKind::Implementation => "IMPLEMENTATION",
        RelationKind::Association => "ASSOCIATION",
        RelationKind::Aggregation => "AGGREGATION",
        RelationKind::Composition => "COMPOSITION",
        RelationKind::NoRelation => "NONE",
    }
}

fn get_string_or_empty(v: &JsonValue, key: &String) -> (r: String)
    ensures
        r@ == str_or_empty(sget_str(v@, key@)),
{
    match v.get(key) {
        Option::Some(c) => match c.as_str() {
            Option::Some(s) => s.clone(),
            Option::None => String::new(),
        },
        Option::None => String::new(),
    }
}

fn get_opt_string(v: &JsonValue, key: &String) -> (r: Option<String>)
    ensures
        r.deep_view() == sget_str(v@, key@),
{
    match v.get(key) {
        Option::Some(c) => match c.as_str() {
            Option::Some(s) => Option::Some(s.clone()),
            Option::None => Option::None,
        },
        Option::None => Option::None,
    }
}

fn get_opt_bool(v: &JsonValue, key: &String) -> (r: Option<bool>)
    ensures
        r == sget_bool(v@, key@),
{
    match v.get(key) {
        Option::Some(c) => c.as_bool(),
        Option::None => Option::None,
    }
}

fn get_i64_or_zero(v: &JsonValue, key: &String) -> (r: i64)
    ensures
        r == (match sget_i64(v@, key@) {
            Option::Some(t) => t,
            Option::None => 0i64,
        }),
{
    match v.get(key) {
        Option::Some(c) => match c.as_i64() {
            Option::Some(t) => t,
            Option::None => 0,
        },
        Option::None => 0,
    }
}

fn empty_fields() -> (r: Vec<Field>)
    ensures
        r.deep_view() == Seq::<FieldView>::empty(),
{
    let r: Vec<Field> = Vec::new();
    proof {
        assert(r.deep_view() =~= Seq::<FieldView>::empty());
    }
    r
}

fn empty_operations() -> (r: Vec<Operation>)
    ensures
        r.deep_view() == Seq::<OperationView>::empty(),
{
    let r: Vec<Operation> = Vec::new();
    proof {
        assert(r.deep_view() =~= Seq::<OperationView>::empty());
    }
    r
}

fn empty_classes() -> (r: Vec<ClassDef>)
    ensures
        r.deep_view() == Seq::<ClassDefView>::empty(),
{
    let r: Vec<ClassDef> = Vec::new();
    proof {
        assert(r.deep_view() =~= Seq::<ClassDefView>::empty());
    }
    r
}

/// Reads one end's multiplicity; every field is safely defaulted.
pub fn json_to_multiplicity(v: &JsonValue) -> (r: Multiplicity)
    ensures
        r == spec_json_to_multiplicity(v@),
{
    let lower: u32 = match v.get(&"lower".to_owned()) {
        Option::Some(c) => match c.as_u64() {
            Option::Some(u) => u as u32,
            Option::None => 0,
        },
        Option::None => 0,
    };
    let upper: Option<u32> = match v.get(&"upper".to_owned()) {
        Option::Some(c) => match c.as_u64() {
            Option::Some(u) => Option::Some(u as u32),
            Option::None => Option::None,
        },
        Option::None => Option::None,
    };
    Multiplicity { lower, upper }
}

/// Reads one field (attribute or parameter); nothing in it can fail.
pub fn json_to_field(v: &JsonValue) -> (r: Field)
    ensures
        r@ == spec_json_to_field(v@),
{
    let name = get_string_or_empty(v, &"name".to_owned());
    let field_type = get_string_or_empty(v, &"type".to_owned());
    let visibility = match get_opt_string(v, &"visibility".to_owned()) {
        Option::Some(s) => Option::Some(visibility_from_str(&s)),
        Option::None => Option::None,
    };
    let is_static = get_opt_bool(v, &"is_static".to_owned());
    Field { name, field_type, visibility, is_static }
}

fn json_to_fields(items: &Vec<JsonValue>) -> (r: Vec<Field>)
    ensures
        r.deep_view() == spec_json_to_fields(json_views(items@)),
{
    proof {
        crate::json::lemma_json_views_index(items@);
    }
    let mut r: Vec<Field> = Vec::new();
    let mut i: usize = 0;
    while i < items.len()
        invariant
            i <= items@.len(),
            r@.len() == i as int,
            json_views(items@).len() == items@.len(),
            forall|k: int|
                0 <= k < items@.len() ==> json_views(items@)[k] == json_view(#[trigger] items@[k]),
            forall|j: int|
                0 <= j < i as int ==> #[trigger] r@[j]@ == spec_json_to_field(
                    json_views(items@)[j],
                ),
        decreases items@.len() - i as int,
    {
        let f = json_to_field(&items[i]);
        r.push(f);
        i = i + 1;
    }
    proof {
        assert(r.deep_view() =~= spec_json_to_fields(json_views(items@)));
    }
    r
}

/// Reads one operation; a missing or foreign visibility falls back to the
/// default, missing parameter lists to empty.
pub fn json_to_operation(v: &JsonValue) -> (r: Operation)
    ensures
        r@ == spec_json_to_operation(v@),
{
    let name = get_string_or_empty(v, &"name".to_owned());
    let return_type = get_string_or_empty(v, &"return_type".to_owned());
    let visibility = match get_opt_string(v, &"visibility".to_owned()) {
        Option::Some(s) => visibility_from_str(&s),
        Option::None => Visibility::NonModifier,
    };
    let is_abstract = get_opt_bool(v, &"is_abstract".to_owned());
    let is_static = get_opt_bool(v, &"is_static".to_owned());
    let parameters = match v.get(&"parameters".to_owned()) {
        Option::Some(c) => match c.as_array() {
            Option::Some(items) => json_to_fields(items),
            Option::None => empty_fields(),
        },
        Option::None => empty_fields(),
    };
    Operation { name, return_type, visibility, is_abstract, is_static, parameters }
}

fn json_to_operations(items: &Vec<JsonValue>) -> (r: Vec<Operation>)
    ensures
        r.deep_view() == spec_json_to_operations(json_views(items@)),
{
    proof {
        crate::json::lemma_json_views_index(items@);
    }
    let mut r: Vec<Operation> = Vec::new();
    let mut i: usize = 0;
    while i < items.len()
        invariant
            i <= items@.len(),
            r@.len() == i as int,
            json_views(items@).len() == items@.len(),
            forall|k: int|
                0 <= k < items@.len() ==> json_views(items@)[k] == json_view(#[trigger] items@[k]),
            forall|j: int|
                0 <= j < i as int ==> #[trigger] r@[j]@ == spec_json_to_operation(
                    json_views(items@)[j],
                ),
        decreases items@.len() - i as int,
    {
        let m = json_to_operation(&items[i]);
        r.push(m);
        i = i + 1;
    }
    proof {
        assert(r.deep_view() =~= spec_json_to_operations(json_views(items@)));
    }
    r
}

/// Reads one relation edge; multiplicities present as any JSON value are
/// read with their fields defaulted, as the silent-default policy asks.
pub fn json_to_edge(v: &JsonValue) -> (r: RelationEdge)
    ensures
        r@ == spec_json_to_edge(v@),
{
    let target_class_id = get_string_or_empty(v, &"target_class_id".to_owned());
    let relation = match get_opt_string(v, &"relation".to_owned()) {
        Option::Some(s) => relation_from_str(&s),
        Option::None => RelationKind::NoRelation,
    };
    let multiplicity_p = match v.get(&"multiplicity_p".to_owned()) {
        Option::Some(m) => Option::Some(json_to_multiplicity(m)),
        Option::None => Option::None,
    };
    let multiplicity_c = match v.get(&"multiplicity_c".to_owned()) {
        Option::Some(m) => Option::Some(json_to_multiplicity(m)),
        Option::None => Option::None,
    };
    let role_name_p = get_opt_string(v, &"role_name_p".to_owned());
    let role_name_c = get_opt_string(v, &"role_name_c".to_owned());
    RelationEdge {
        target_class_id,
        relation,
        multiplicity_p,
        multiplicity_c,
        role_name_p,
        role_name_c,
    }
}

fn json_to_edges(items: &Vec<JsonValue>) -> (r: Vec<RelationEdge>)
    ensures
        r.deep_view() == spec_json_to_edges(json_views(items@)),
{
    proof {
        crate::json::lemma_json_views_index(items@);
    }
    let mut r: Vec<RelationEdge> = Vec::new();
    let mut i: usize = 0;
    while i < items.len()
        invariant
            i <= items@.len(),
            r@.len() == i as int,
            json_views(items@).len() == items@.len(),
            forall|k: int|
                0 <= k < items@.len() ==> json_views(items@)[k] == json_view(#[trigger] items@[k]),
            forall|j: int|
                0 <= j < i as int ==> #[trigger] r@[j]@ == spec_json_to_edge(
                    json_views(items@)[j],
                ),
        decreases items@.len() - i as int,
    {
        let e = json_to_edge(&items[i]);
        r.push(e);
        i = i + 1;
    }
    proof {
        assert(r.deep_view() =~= spec_json_to_edges(json_views(items@)));
    }
    r
}

/// Reads one class definition with its attributes, methods and relations.
pub fn json_to_class(v: &JsonValue) -> (r: ClassDef)
    ensures
        r@ == spec_json_to_class(v@),
{
    let id = get_string_or_empty(v, &"id".to_owned());
    let name = get_string_or_empty(v, &"name".to_owned());
    let attributes = match v.get(&"attributes".to_owned()) {
        Option::Some(c) => match c.as_array() {
            Option::Some(items) => json_to_fields(items),
            Option::None => empty_fields(),
        },
        Option::None => empty_fields(),
    };
    let methods = match v.get(&"methods".to_owned()) {
        Option::Some(c) => match c.as_array() {
            Option::Some(items) => json_to_operations(items),
            Option::None => empty_operations(),
        },
        Option::None => empty_operations(),
    };
    let relations = match v.get(&"relations".to_owned()) {
        Option::Some(r) => match r.get(&"relation_infos".to_owned()) {
            Option::Some(c) => match c.as_array() {
                Option::Some(items) => Option::Some(json_to_edges(items)),
                Option::None => Option::None,
            },
            Option::None => Option::None,
        },
        Option::None => Option::None,
    };
    ClassDef { id, name, attributes, methods, relations }
}

fn json_to_classes(items: &Vec<JsonValue>) -> (r: Vec<ClassDef>)
    ensures
        r.deep_view() == spec_json_to_classes(json_views(items@)),
{
    proof {
        crate::json::lemma_json_views_index(items@);
    }
    let mut r: Vec<ClassDef> = Vec::new();
    let mut i: usize = 0;
    while i < items.len()
        invariant
            i <= items@.len(),
            r@.len() == i as int,
            json_views(items@).len() == items@.len(),
            forall|k: int|
                0 <= k < items@.len() ==> json_views(items@)[k] == json_view(#[trigger] items@[k]),
            forall|j: int|
                0 <= j < i as int ==> #[trigger] r@[j]@ == spec_json_to_class(
                    json_views(items@)[j],
                ),
        decreases items@.len() - i as int,
    {
        let c = json_to_class(&items[i]);
        r.push(c);
        i = i + 1;
    }
    proof {
        assert(r.deep_view() =~= spec_json_to_classes(json_views(items@)));
    }
    r
}

/// Reads a whole document from its JSON representation.  The conversion
/// never fails: every missing or ill-typed field takes its documented
/// default.
pub fn json_to_document(v: &JsonValue) -> (r: Document)
    ensures
        r@ == spec_json_to_document(v@),
{
    let id = match v.get(&"file_id".to_owned()) {
        Option::Some(f) => get_string_or_empty(f, &"id".to_owned()),
        Option::None => String::new(),
    };
    let name = get_string_or_empty(v, &"name".to_owned());
    let created_at = get_i64_or_zero(v, &"created_at".to_owned());
    let last_modified = get_i64_or_zero(v, &"last_modified".to_owned());
    let classes = match v.get(&"classes".to_owned()) {
        Option::Some(c) => match c.as_array() {
            Option::Some(items) => json_to_classes(items),
            Option::None => empty_classes(),
        },
        Option::None => empty_classes(),
    };
    Document { id, name, created_at, last_modified, classes }
}

// ---------------------------------------------------------------------------
// Model to JSON (spec level)
// ---------------------------------------------------------------------------

/// An optional bool goes out as null or a bool, never a defaulted false.
pub open spec fn opt_bool_json(b: Option<bool>) -> JsonView {
    match b {
        Option::None => JsonView::Null,
        Option::Some(x) => JsonView::Bool(x),
    }
}

pub open spec fn spec_field_to_json(f: FieldView) -> JsonView {
    JsonView::Object(
        seq![
            ("name"@, JsonView::Text(f.name)),
            ("type"@, JsonView::Text(f.field_type)),
            (
                "visibility"@,
                JsonView::Text(
                    match f.visibility {
                        Option::Some(v) => spec_visibility_name(v),
                        Option::None => "NON_MODIFIER"@,
                    },
                ),
            ),
            ("is_static"@, opt_bool_json(f.is_static)),
        ],
    )
}

pub open spec fn spec_fields_to_json(s: Seq<FieldView>) -> Seq<JsonView> {
    s.map_values(|f: FieldView| spec_field_to_json(f))
}

pub open spec fn spec_mult_to_json(m: Multiplicity) -> JsonView {
    JsonView::Object(
        seq![
            ("lower"@, JsonView::UInt(m.lower as u64)),
            (
                "upper"@,
                match m.upper {
                    Option::None => JsonView::Null,
                    Option::Some(u) => JsonView::UInt(u as u64),
                },
            ),
        ],
    )
}

pub open spec fn spec_operation_to_json(m: OperationView) -> JsonView {
    JsonView::Object(
        seq![
            ("name"@, JsonView::Text(m.name)),
            ("return_type"@, JsonView::Text(m.return_type)),
            ("visibility"@, JsonView::Text(spec_visibility_name(m.visibility))),
            ("is_abstract"@, opt_bool_json(m.is_abstract)),
            ("is_static"@, opt_bool_json(m.is_static)),
            ("parameters"@, JsonView::Array(spec_fields_to_json(m.parameters))),
        ],
    )
}

pub open spec fn spec_operations_to_json(s: Seq<OperationView>) -> Seq<JsonView> {
    s.map_values(|m: OperationView| spec_operation_to_json(m))
}

pub open spec fn spec_edge_to_json(e: RelationEdgeView) -> JsonView {
    JsonView::Object(
        seq![
            ("target_class_id"@, JsonView::Text(e.target_class_id)),
            ("relation"@, JsonView::Text(spec_relation_name(e.relation))),
            (
                "multiplicity_p"@,
                match e.multiplicity_p {
                    Option::None => JsonView::Null,
                    Option::Some(m) => spec_mult_to_json(m),
                },
            ),
            (
                "multiplicity_c"@,
                match e.multiplicity_c {
                    Option::None => JsonView::Null,
                    Option::Some(m) => spec_mult_to_json(m),
                },
            ),
            (
                "role_name_p"@,
                match e.role_name_p {
                    Option::None => JsonView::Null,
                    Option::Some(s) => JsonView::Text(s),
                },
            ),
            (
                "role_name_c"@,
                match e.role_name_c {
                    Option::None => JsonView::Null,
                    Option::Some(s) => JsonView::Text(s),
                },
            ),
        ],
    )
}

pub open spec fn spec_edges_to_json(s: Seq<RelationEdgeView>) -> Seq<JsonView> {
    s.map_values(|e: RelationEdgeView| spec_edge_to_json(e))
}

pub open spec fn spec_class_to_json(c: ClassDefView) -> JsonView {
    JsonView::Object(
        seq![
            ("id"@, JsonView::Text(c.id)),
            ("name"@, JsonView::Text(c.name)),
            ("attributes"@, JsonView::Array(spec_fields_to_json(c.attributes))),
            ("methods"@, JsonView::Array(spec_operations_to_json(c.methods))),
            (
                "relations"@,
                match c.relations {
                    Option::None => JsonView::Null,
                    Option::Some(edges) => JsonView::Object(
                        seq![("relation_infos"@, JsonView::Array(spec_edges_to_json(edges)))],
                    ),
                },
            ),
        ],
    )
}

pub open spec fn spec_classes_to_json(s: Seq<ClassDefView>) -> Seq<JsonView> {
    s.map_values(|c: ClassDefView| spec_class_to_json(c))
}

pub open spec fn spec_document_to_json(d: DocumentView) -> JsonView {
    JsonView::Object(
        seq![
            ("last_modified"@, JsonView::Int(d.last_modified)),
            ("created_at"@, JsonView::Int(d.created_at)),
            ("file_id"@, JsonView::Object(seq![("id"@, JsonView::Text(d.id))])),
            ("name"@, JsonView::Text(d.name)),
            ("classes"@, JsonView::Array(spec_classes_to_json(d.classes))),
        ],
    )
}

// ---------------------------------------------------------------------------
// Model to JSON (executable)
// ---------------------------------------------------------------------------

fn opt_bool_to_json(b: Option<bool>) -> (r: JsonValue)
    ensures
        r@ == opt_bool_json(b),
{
    match b {
        Option::None => JsonValue::Null,
        Option::Some(x) => JsonValue::Bool(x),
    }
}

/// Emits one field; an absent visibility is echoed as the default name, an
/// absent static flag as null.
pub fn field_to_json(f: &Field) -> (r: JsonValue)
    ensures
        r@ == spec_field_to_json(f@),
{
    let mut fields: Vec<(String, JsonValue)> = Vec::new();
    fields.push(("name".to_owned(), JsonValue::Text(f.name.clone())));
    fields.push(("type".to_owned(), JsonValue::Text(f.field_type.clone())));
    let vis: &'static str = match f.visibility {
        Option::Some(v) => visibility_name(v),
        Option::None => "NON_MODIFIER",
    };
    fields.push(("visibility".to_owned(), JsonValue::Text(vis.to_owned())));
    fields.push(("is_static".to_owned(), opt_bool_to_json(f.is_static)));
    let r = JsonValue::Object(fields);
    proof {
        crate::json::lemma_json_field_views_index(fields@);
        assert(json_field_views(fields@) =~= (match spec_field_to_json(f@) {
            JsonView::Object(s) => s,
            _ => Seq::empty(),
        }));
    }
    r
}

fn fields_to_json_vec(v: &Vec<Field>) -> (r: Vec<JsonValue>)
    ensures
        json_views(r@) == spec_fields_to_json(v.deep_view()),
{
    let mut r: Vec<JsonValue> = Vec::new();
    let mut i: usize = 0;
    while i < v.len()
        invariant
            i <= v@.len(),
            r@.len() == i as int,
            forall|j: int|
                0 <= j < i as int ==> json_view(#[trigger] r@[j]) == spec_field_to_json(
                    v.deep_view()[j],
                ),
        decreases v@.len() - i as int,
    {
        let e = field_to_json(&v[i]);
        r.push(e);
        i = i + 1;
    }
    proof {
        crate::json::lemma_json_views_index(r@);
        assert(json_views(r@) =~= spec_fields_to_json(v.deep_view()));
    }
    r
}

/// Emits one end's multiplicity; an absent upper bound goes out as null.
pub fn multiplicity_to_json(m: &Multiplicity) -> (r: JsonValue)
    ensures
        r@ == spec_mult_to_json(*m),
{
    let mut fields: Vec<(String, JsonValue)> = Vec::new();
    fields.push(("lower".to_owned(), JsonValue::UInt(m.lower as u64)));
    let upper = match m.upper {
        Option::None => JsonValue::Null,
        Option::Some(u) => JsonValue::UInt(u as u64),
    };
    fields.push(("upper".to_owned(), upper));
    let r = JsonValue::Object(fields);
    proof {
        crate::json::lemma_json_field_views_index(fields@);
        assert(json_field_views(fields@) =~= (match spec_mult_to_json(*m) {
            JsonView::Object(s) => s,
            _ => Seq::empty(),
        }));
    }
    r
}

/// Emits one operation with its parameters.
pub fn operation_to_json(m: &Operation) -> (r: JsonValue)
    ensures
        r@ == spec_operation_to_json(m@),
{
    let mut fields: Vec<(String, JsonValue)> = Vec::new();
    fields.push(("name".to_owned(), JsonValue::Text(m.name.clone())));
    fields.push(("return_type".to_owned(), JsonValue::Text(m.return_type.clone())));
    fields.push(("visibility".to_owned(), JsonValue::Text(visibility_name(m.visibility).to_owned())));
    fields.push(("is_abstract".to_owned(), opt_bool_to_json(m.is_abstract)));
    fields.push(("is_static".to_owned(), opt_bool_to_json(m.is_static)));
    fields.push(("parameters".to_owned(), JsonValue::Array(fields_to_json_vec(&m.parameters))));
    let r = JsonValue::Object(fields);
    proof {
        crate::json::lemma_json_field_views_index(fields@);
        assert(json_field_views(fields@) =~= (match spec_operation_to_json(m@) {
            JsonView::Object(s) => s,
            _ => Seq::empty(),
        }));
    }
    r
}

fn operations_to_json_vec(v: &Vec<Operation>) -> (r: Vec<JsonValue>)
    ensures
        json_views(r@) == spec_operations_to_json(v.deep_view()),
{
    let mut r: Vec<JsonValue> = Vec::new();
    let mut i: usize = 0;
    while i < v.len()
        invariant
            i <= v@.len(),
            r@.len() == i as int,
            forall|j: int|
                0 <= j < i as int ==> json_view(#[trigger] r@[j]) == spec_operation_to_json(
                    v.deep_view()[j],
                ),
        decreases v@.len() - i as int,
    {
        let e = operation_to_json(&v[i]);
        r.push(e);
        i = i + 1;
    }
    proof {
        crate::json::lemma_json_views_index(r@);
        assert(json_views(r@) =~= spec_operations_to_json(v.deep_view()));
    }
    r
}

/// Emits one relation edge; absent multiplicities and role names go out as
/// null.
pub fn edge_to_json(e: &RelationEdge) -> (r: JsonValue)
    ensures
        r@ == spec_edge_to_json(e@),
{
    let mut fields: Vec<(String, JsonValue)> = Vec::new();
    fields.push(("target_class_id".to_owned(), JsonValue::Text(e.target_class_id.clone())));
    fields.push(("relation".to_owned(), JsonValue::Text(relation_name(e.relation).to_owned())));
    let mp = match &e.multiplicity_p {
        Option::None => JsonValue::Null,
        Option::Some(m) => multiplicity_to_json(m),
    };
    fields.push(("multiplicity_p".to_owned(), mp));
    let mc = match &e.multiplicity_c {
        Option::None => JsonValue::Null,
        Option::Some(m) => multiplicity_to_json(m),
    };
    fields.push(("multiplicity_c".to_owned(), mc));
    let rp = match &e.role_name_p {
        Option::None => JsonValue::Null,
        Option::Some(s) => JsonValue::Text(s.clone()),
    };
    fields.push(("role_name_p".to_owned(), rp));
    let rc = match &e.role_name_c {
        Option::None => JsonValue::Null,
        Option::Some(s) => JsonValue::Text(s.clone()),
    };
    fields.push(("role_name_c".to_owned(), rc));
    let r = JsonValue::Object(fields);
    proof {
        crate::json::lemma_json_field_views_index(fields@);
        assert(json_field_views(fields@) =~= (match spec_edge_to_json(e@) {
            JsonView::Object(s) => s,
            _ => Seq::empty(),
        }));
    }
    r
}

fn edges_to_json_vec(v: &Vec<RelationEdge>) -> (r: Vec<JsonValue>)
    ensures
        json_views(r@) == spec_edges_to_json(v.deep_view()),
{
    let mut r: Vec<JsonValue> = Vec::new();
    let mut i: usize = 0;
    while i < v.len()
        invariant
            i <= v@.len(),
            r@.len() == i as int,
            forall|j: int|
                0 <= j < i as int ==> json_view(#[trigger] r@[j]) == spec_edge_to_json(
                    v.deep_view()[j],
                ),
        decreases v@.len() - i as int,
    {
        let e = edge_to_json(&v[i]);
        r.push(e);
        i = i + 1;
    }
    proof {
        crate::json::lemma_json_views_index(r@);
        assert(json_views(r@) =~= spec_edges_to_json(v.deep_view()));
    }
    r
}

/// Emits one class; an absent relation list goes out as null, a present one
/// as an object holding the edge array.
pub fn class_to_json(c: &ClassDef) -> (r: JsonValue)
    ensures
        r@ == spec_class_to_json(c@),
{
    let mut fields: Vec<(String, JsonValue)> = Vec::new();
    fields.push(("id".to_owned(), JsonValue::Text(c.id.clone())));
    fields.push(("name".to_owned(), JsonValue::Text(c.name.clone())));
    fields.push(("attributes".to_owned(), JsonValue::Array(fields_to_json_vec(&c.attributes))));
    fields.push(("methods".to_owned(), JsonValue::Array(operations_to_json_vec(&c.methods))));
    let relations = match &c.relations {
        Option::None => JsonValue::Null,
        Option::Some(edges) => {
            let mut inner: Vec<(String, JsonValue)> = Vec::new();
            inner.push(("relation_infos".to_owned(), JsonValue::Array(edges_to_json_vec(edges))));
            let obj = JsonValue::Object(inner);
            proof {
                crate::json::lemma_json_field_views_index(inner@);
                assert(json_field_views(inner@) =~= seq![
                    ("relation_infos"@, JsonView::Array(spec_edges_to_json(edges.deep_view()))),
                ]);
            }
            obj
        },
    };
    fields.push(("relations".to_owned(), relations));
    let r = JsonValue::Object(fields);
    proof {
        crate::json::lemma_json_field_views_index(fields@);
        assert(json_field_views(fields@) =~= (match spec_class_to_json(c@) {
            JsonView::Object(s) => s,
            _ => Seq::empty(),
        }));
    }
    r
}

fn classes_to_json_vec(v: &Vec<ClassDef>) -> (r: Vec<JsonValue>)
    ensures
        json_views(r@) == spec_classes_to_json(v.deep_view()),
{
    let mut r: Vec<JsonValue> = Vec::new();
    let mut i: usize = 0;
    while i < v.len()
        invariant
            i <= v@.len(),
            r@.len() == i as int,
            forall|j: int|
                0 <= j < i as int ==> json_view(#[trigger] r@[j]) == spec_class_to_json(
                    v.deep_view()[j],
                ),
        decreases v@.len() - i as int,
    {
        let e = class_to_json(&v[i]);
        r.push(e);
        i = i + 1;
    }
    proof {
        crate::json::lemma_json_views_index(r@);
        assert(json_views(r@) =~= spec_classes_to_json(v.deep_view()));
    }
    r
}

/// Emits a whole document as its JSON representation, the structural
/// inverse of [`json_to_document`] up to the documented defaults.
pub fn document_to_json(d: &Document) -> (r: JsonValue)
    ensures
        r@ == spec_document_to_json(d@),
{
    let mut fields: Vec<(String, JsonValue)> = Vec::new();
    fields.push(("last_modified".to_owned(), JsonValue::Int(d.last_modified)));
    fields.push(("created_at".to_owned(), JsonValue::Int(d.created_at)));
    let mut file_id_fields: Vec<(String, JsonValue)> = Vec::new();
    file_id_fields.push(("id".to_owned(), JsonValue::Text(d.id.clone())));
    let file_id = JsonValue::Object(file_id_fields);
    proof {
        crate::json::lemma_json_field_views_index(file_id_fields@);
        assert(json_field_views(file_id_fields@) =~= seq![("id"@, JsonView::Text(d.id@))]);
    }
    fields.push(("file_id".to_owned(), file_id));
    fields.push(("name".to_owned(), JsonValue::Text(d.name.clone())));
    fields.push(("classes".to_owned(), JsonValue::Array(classes_to_json_vec(&d.classes))));
    let r = JsonValue::Object(fields);
    proof {
        crate::json::lemma_json_field_views_index(fields@);
        assert(json_field_views(fields@) =~= (match spec_document_to_json(d@) {
            JsonView::Object(s) => s,
            _ => Seq::empty(),
        }));
    }
    r
}

// ---------------------------------------------------------------------------
// Round trip through JSON
// ---------------------------------------------------------------------------
//
// The translator defaults what is absent, so a document whose optional
// fields would be indistinguishable from their defaults after one trip is
// excluded: a field whose visibility is absent comes back as the default
// visibility, and an absent multiplicity comes back as the all-default
// multiplicity.  Everything else survives exactly.

/// A field survives the JSON trip exactly when its visibility is present.
pub open spec fn field_faithful(f: FieldView) -> bool {
    f.visibility is Some
}

pub open spec fn fields_faithful(s: Seq<FieldView>) -> bool {
    forall|i: int| 0 <= i < s.len() ==> field_faithful(#[trigger] s[i])
}

pub open spec fn operation_faithful(m: OperationView) -> bool {
    fields_faithful(m.parameters)
}

pub open spec fn operations_faithful(s: Seq<OperationView>) -> bool {
    forall|i: int| 0 <= i < s.len() ==> operation_faithful(#[trigger] s[i])
}

/// An edge survives the JSON trip exactly when both multiplicities are
/// present.
pub open spec fn edge_faithful(e: RelationEdgeView) -> bool {
    e.multiplicity_p is Some && e.multiplicity_c is Some
}

pub open spec fn edges_faithful(s: Seq<RelationEdgeView>) -> bool {
    forall|i: int| 0 <= i < s.len() ==> edge_faithful(#[trigger] s[i])
}

pub open spec fn class_faithful(c: ClassDefView) -> bool {
    &&& fields_faithful(c.attributes)
    &&& operations_faithful(c.methods)
    &&& match c.relations {
        Option::Some(edges) => edges_faithful(edges),
        Option::None => true,
    }
}

pub open spec fn document_faithful(d: DocumentView) -> bool {
    forall|i: int| 0 <= i < d.classes.len() ==> class_faithful(#[trigger] d.classes[i])
}

/// Every visibility name reads back as the visibility it names.
pub proof fn law_visibility_name_round(v: Visibility)
    ensures
        spec_visibility_from_str(spec_visibility_name(v)) == v,
{
    reveal_strlit("PUBLIC");
    reveal_strlit("PRIVATE");
    reveal_strlit("PROTECTED");
    reveal_strlit("NON_MODIFIER");
    assert("NON_MODIFIER"@.len() == 12);
    assert("PUBLIC"@.len() == 6);
    assert("PRIVATE"@.len() == 7);
    assert("PROTECTED"@.len() == 9);
    match v {
        Visibility::Public => {
            assert(spec_visibility_name(v) == "PUBLIC"@);
            assert(spec_visibility_from_str("PUBLIC"@) == Visibility::Public);
        },
        Visibility::Private => {
            assert("PRIVATE"@ != "PUBLIC"@);
        },
        Visibility::Protected => {
            assert("PROTECTED"@ != "PUBLIC"@);
            assert("PROTECTED"@ != "PRIVATE"@);
        },
        Visibility::NonModifier => {
        },
    }
}

/// Every relation-kind name reads back as the kind it names.
pub proof fn law_relation_name_round(r: RelationKind)
    ensures
        spec_relation_from_str(spec_relation_name(r)) == r,
{
    reveal_strlit("INHERITANCE");
    reveal_strlit("IMPLEMENTATION");
    reveal_strlit("ASSOCIATION");
    reveal_strlit("AGGREGATION");
    reveal_strlit("COMPOSITION");
    reveal_strlit("NONE");
    assert("INHERITANCE"@.len() == 11);
    assert("IMPLEMENTATION"@.len() == 14);
    assert("ASSOCIATION"@.len() == 11);
    assert("AGGREGATION"@.len() == 11);
    assert("COMPOSITION"@.len() == 11);
    assert("NONE"@.len() == 4);
    assert("INHERITANCE"@[0] == 'I');
    assert("ASSOCIATION"@[0] == 'A');
    assert("AGGREGATION"@[0] == 'A');
    assert("COMPOSITION"@[0] == 'C');
    assert("ASSOCIATION"@[1] == 'S');
    assert("AGGREGATION"@[1] == 'G');
}

proof fn lemma_mult_round(m: Multiplicity)
    ensures
        spec_json_to_multiplicity(spec_mult_to_json(m)) == m,
{
    reveal_strlit("lower");
    reveal_strlit("upper");
    assert("lower"@.len() == 5);
    assert("upper"@.len() == 5);
    assert("lower"@[0] == 'l');
    assert("upper"@[0] == 'u');
    reveal_with_fuel(crate::json::jv_lookup, 8);
    assert(((m.lower as u64) as u32) == m.lower);
    match m.upper {
        Option::Some(u) => {
            assert(((u as u64) as u32) == u);
        },
        Option::None => {
        },
    }
    assert(j_get(spec_mult_to_json(m), "lower"@) == Option::Some(
        JsonView::UInt(m.lower as u64),
    ));
    assert(j_get(spec_mult_to_json(m), "upper"@) == (match m.upper {
        Option::None => Option::Some(JsonView::Null),
        Option::Some(u) => Option::Some(JsonView::UInt(u as u64)),
    }));
}

proof fn lemma_field_round(f: FieldView)
    requires
        field_faithful(f),
    ensures
        spec_json_to_field(spec_field_to_json(f)) == f,
{
    reveal_strlit("name");
    reveal_strlit("type");
    reveal_strlit("visibility");
    reveal_strlit("is_static");
    assert("name"@.len() == 4);
    assert("type"@.len() == 4);
    assert("visibility"@.len() == 10);
    assert("is_static"@.len() == 9);
    reveal_with_fuel(crate::json::jv_lookup, 8);
    assert("name"@[0] == 'n');
    assert("type"@[0] == 't');
    law_visibility_name_round(f.visibility->0);
}

proof fn lemma_fields_round(s: Seq<FieldView>)
    requires
        fields_faithful(s),
    ensures
        spec_json_to_fields(spec_fields_to_json(s)) == s,
{
    assert forall|i: int| 0 <= i < s.len() implies spec_json_to_fields(spec_fields_to_json(s))[i]
        == s[i] by {
        lemma_field_round(s[i]);
    }
    assert(spec_json_to_fields(spec_fields_to_json(s)) =~= s);
}

proof fn lemma_operation_round(m: OperationView)
    requires
        operation_faithful(m),
    ensures
        spec_json_to_operation(spec_operation_to_json(m)) == m,
{
    reveal_strlit("name");
    reveal_strlit("return_type");
    reveal_strlit("visibility");
    reveal_strlit("is_abstract");
    reveal_strlit("is_static");
    reveal_strlit("parameters");
    assert("name"@.len() == 4);
    assert("return_type"@.len() == 11);
    assert("visibility"@.len() == 10);
    assert("is_abstract"@.len() == 11);
    assert("is_static"@.len() == 9);
    assert("parameters"@.len() == 10);
    reveal_with_fuel(crate::json::jv_lookup, 8);
    assert("return_type"@[0] == 'r');
    assert("is_abstract"@[0] == 'i');
    assert("visibility"@[0] == 'v');
    assert("parameters"@[0] == 'p');
    law_visibility_name_round(m.visibility);
    lemma_fields_round(m.parameters);
}

proof fn lemma_operations_round(s: Seq<OperationView>)
    requires
        operations_faithful(s),
    ensures
        spec_json_to_operations(spec_operations_to_json(s)) == s,
{
    assert forall|i: int|
        0 <= i < s.len() implies spec_json_to_operations(spec_operations_to_json(s))[i] == s[i] by {
        lemma_operation_round(s[i]);
    }
    assert(spec_json_to_operations(spec_operations_to_json(s)) =~= s);
}

proof fn lemma_edge_round(e: RelationEdgeView)
    requires
        edge_faithful(e),
    ensures
        spec_json_to_edge(spec_edge_to_json(e)) == e,
{
    reveal_strlit("target_class_id");
    reveal_strlit("relation");
    reveal_strlit("multiplicity_p");
    reveal_strlit("multiplicity_c");
    reveal_strlit("role_name_p");
    reveal_strlit("role_name_c");
    reveal_with_fuel(crate::json::jv_lookup, 8);
    assert("target_class_id"@.len() == 15);
    assert("relation"@.len() == 8);
    assert("multiplicity_p"@.len() == 14);
    assert("multiplicity_c"@.len() == 14);
    assert("role_name_p"@.len() == 11);
    assert("role_name_c"@.len() == 11);
    assert("multiplicity_p"@[13] == 'p');
    assert("multiplicity_c"@[13] == 'c');
    assert("role_name_p"@[10] == 'p');
    assert("role_name_c"@[10] == 'c');
    law_relation_name_round(e.relation);
    lemma_mult_round(e.multiplicity_p->0);
    lemma_mult_round(e.multiplicity_c->0);
}

proof fn lemma_edges_round(s: Seq<RelationEdgeView>)
    requires
        edges_faithful(s),
    ensures
        spec_json_to_edges(spec_edges_to_json(s)) == s,
{
    assert forall|i: int| 0 <= i < s.len() implies spec_json_to_edges(spec_edges_to_json(s))[i]
        == s[i] by {
        lemma_edge_round(s[i]);
    }
    assert(spec_json_to_edges(spec_edges_to_json(s)) =~= s);
}

#[verifier::rlimit(100)]
proof fn lemma_class_round(c: ClassDefView)
    requires
        class_faithful(c),
    ensures
        spec_json_to_class(spec_class_to_json(c)) == c,
{
    reveal_strlit("id");
    reveal_strlit("name");
    reveal_strlit("attributes");
    reveal_strlit("methods");
    reveal_strlit("relations");
    reveal_strlit("relation_infos");
    reveal_with_fuel(crate::json::jv_lookup, 8);
    assert("id"@.len() == 2);
    assert("name"@.len() == 4);
    assert("attributes"@.len() == 10);
    assert("methods"@.len() == 7);
    assert("relations"@.len() == 9);
    assert("relation_infos"@.len() == 14);
    lemma_fields_round(c.attributes);
    lemma_operations_round(c.methods);
    match c.relations {
        Option::Some(edges) => {
            lemma_edges_round(edges);
        },
        Option::None => {
        },
    }
}

proof fn lemma_classes_round(s: Seq<ClassDefView>)
    requires
        forall|i: int| 0 <= i < s.len() ==> class_faithful(#[trigger] s[i]),
    ensures
        spec_json_to_classes(spec_classes_to_json(s)) == s,
{
    assert forall|i: int| 0 <= i < s.len() implies spec_json_to_classes(spec_classes_to_json(s))[i]
        == s[i] by {
        lemma_class_round(s[i]);
    }
    assert(spec_json_to_classes(spec_classes_to_json(s)) =~= s);
}

/// Round trip through the JSON representation: a document whose optional
/// enum and multiplicity fields are present comes back exactly as it went
/// out; the excluded fields are the ones the documented defaulting rules
/// would fill in.
#[verifier::rlimit(100)]
pub proof fn law_json_round_trip(d: DocumentView)
    requires
        document_faithful(d),
    ensures
        spec_json_to_document(spec_document_to_json(d)) == d,
{
    reveal_strlit("last_modified");
    reveal_strlit("created_at");
    reveal_strlit("file_id");
    reveal_strlit("id");
    reveal_strlit("name");
    reveal_strlit("classes");
    assert("last_modified"@.len() == 13);
    assert("created_at"@.len() == 10);
    assert("file_id"@.len() == 7);
    assert("id"@.len() == 2);
    assert("name"@.len() == 4);
    assert("classes"@.len() == 7);
    reveal_with_fuel(crate::json::jv_lookup, 8);
    assert("file_id"@[0] == 'f');
    assert("classes"@[0] == 'c');
    lemma_classes_round(d.classes);
}

} // verus!
