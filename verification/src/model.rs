//! The in-memory document model: a `Document` owns an ordered sequence of
//! class definitions, each with fields, operations and optional relation
//! edges.  Optional booleans and optional enum values keep their
//! present/absent distinction, because the codec and the JSON translator
//! both round-trip on it.

use vstd::prelude::*;

verus! {

/// Visibility of a field or operation.
#[derive(Clone, Copy, PartialEq, Eq, Structural, Debug)]
pub enum Visibility {
    NonModifier,
    Public,
    Private,
    Protected,
}

/// Kind of a relation edge between two classes.
#[derive(Clone, Copy, PartialEq, Eq, Structural, Debug)]
pub enum RelationKind {
    NoRelation,
    Inheritance,
    Implementation,
    Association,
    Aggregation,
    Composition,
}

/// Multiplicity of one end of a relation: a lower bound and an optional
/// upper bound (absent means unbounded).
#[derive(Clone, Copy, PartialEq, Eq, Structural, Debug)]
pub struct Multiplicity {
    pub lower: u32,
    pub upper: Option<u32>,
}

/// A field (attribute or operation parameter) of a class.
#[derive(PartialEq, Eq, Debug)]
pub struct Field {
    pub name: String,
    pub field_type: String,
    pub visibility: Option<Visibility>,
    pub is_static: Option<bool>,
}

/// Mathematical value of a [`Field`].
pub struct FieldView {
    pub name: Seq<char>,
    pub field_type: Seq<char>,
    pub visibility: Option<Visibility>,
    pub is_static: Option<bool>,
}

impl View for Field {
    type V = FieldView;

    open spec fn view(&self) -> FieldView {
        FieldView {
            name: self.name@,
            field_type: self.field_type@,
            visibility: self.visibility,
            is_static: self.is_static,
        }
    }
}

impl DeepView for Field {
    type V = FieldView;

    open spec fn deep_view(&self) -> FieldView {
        self.view()
    }
}

impl Clone for Field {
    fn clone(&self) -> (r: Self)
        ensures
            r@ == self@,
    {
        Field {
            name: self.name.clone(),
            field_type: self.field_type.clone(),
            visibility: self.visibility,
            is_static: self.is_static,
        }
    }
}

/// An operation (method) of a class.
#[derive(PartialEq, Eq, Debug)]
pub struct Operation {
    pub name: String,
    pub return_type: String,
    pub visibility: Visibility,
    pub is_abstract: Option<bool>,
    pub is_static: Option<bool>,
    pub parameters: Vec<Field>,
}

/// Mathematical value of an [`Operation`].
pub struct OperationView {
    pub name: Seq<char>,
    pub return_type: Seq<char>,
    pub visibility: Visibility,
    pub is_abstract: Option<bool>,
    pub is_static: Option<bool>,
    pub parameters: Seq<FieldView>,
}

impl View for Operation {
    type V = OperationView;

    open spec fn view(&self) -> OperationView {
        OperationView {
            name: self.name@,
            return_type: self.return_type@,
            visibility: self.visibility,
            is_abstract: self.is_abstract,
            is_static: self.is_static,
            parameters: self.parameters.deep_view(),
        }
    }
}

impl DeepView for Operation {
    type V = OperationView;

    open spec fn deep_view(&self) -> OperationView {
        self.view()
    }
}

impl Clone for Operation {
    fn clone(&self) -> (r: Self)
        ensures
            r@ == self@,
    {
        let parameters = clone_fields(&self.parameters);
        Operation {
            name: self.name.clone(),
            return_type: self.return_type.clone(),
            visibility: self.visibility,
            is_abstract: self.is_abstract,
            is_static: self.is_static,
            parameters,
        }
    }
}

/// A relation edge from the owning class to a target class.
#[derive(PartialEq, Eq, Debug)]
pub struct RelationEdge {
    pub target_class_id: String,
    pub relation: RelationKind,
    pub multiplicity_p: Option<Multiplicity>,
    pub multiplicity_c: Option<Multiplicity>,
    pub role_name_p: Option<String>,
    pub role_name_c: Option<String>,
}

/// Mathematical value of a [`RelationEdge`].
pub struct RelationEdgeView {
    pub target_class_id: Seq<char>,
    pub relation: RelationKind,
    pub multiplicity_p: Option<Multiplicity>,
    pub multiplicity_c: Option<Multiplicity>,
    pub role_name_p: Option<Seq<char>>,
    pub role_name_c: Option<Seq<char>>,
}

impl View for RelationEdge {
    type V = RelationEdgeView;

    open spec fn view(&self) -> RelationEdgeView {
        RelationEdgeView {
            target_class_id: self.target_class_id@,
            relation: self.relation,
            multiplicity_p: self.multiplicity_p,
            multiplicity_c: self.multiplicity_c,
            role_name_p: self.role_name_p.deep_view(),
            role_name_c: self.role_name_c.deep_view(),
        }
    }
}

impl DeepView for RelationEdge {
    type V = RelationEdgeView;

    open spec fn deep_view(&self) -> RelationEdgeView {
        self.view()
    }
}

impl Clone for RelationEdge {
    fn clone(&self) -> (r: Self)
        ensures
            r@ == self@,
    {
        RelationEdge {
            target_class_id: self.target_class_id.clone(),
            relation: self.relation,
            multiplicity_p: self.multiplicity_p,
            multiplicity_c: self.multiplicity_c,
            role_name_p: clone_opt_string(&self.role_name_p),
            role_name_c: clone_opt_string(&self.role_name_c),
        }
    }
}

/// A class definition inside a document.
#[derive(PartialEq, Eq, Debug)]
pub struct ClassDef {
    pub id: String,
    pub name: String,
    pub attributes: Vec<Field>,
    pub methods: Vec<Operation>,
    pub relations: Option<Vec<RelationEdge>>,
}

/// Mathematical value of a [`ClassDef`].
pub struct ClassDefView {
    pub id: Seq<char>,
    pub name: Seq<char>,
    pub attributes: Seq<FieldView>,
    pub methods: Seq<OperationView>,
    pub relations: Option<Seq<RelationEdgeView>>,
}

impl View for ClassDef {
    type V = ClassDefView;

    open spec fn view(&self) -> ClassDefView {
        ClassDefView {
            id: self.id@,
            name: self.name@,
            attributes: self.attributes.deep_view(),
            methods: self.methods.deep_view(),
            relations: self.relations.deep_view(),
        }
    }
}

impl DeepView for ClassDef {
    type V = ClassDefView;

    open spec fn deep_view(&self) -> ClassDefView {
        self.view()
    }
}

impl Clone for ClassDef {
    fn clone(&self) -> (r: Self)
        ensures
            r@ == self@,
    {
        let relations = match &self.relations {
            Option::Some(edges) => Option::Some(clone_edges(edges)),
            Option::None => Option::None,
        };
        ClassDef {
            id: self.id.clone(),
            name: self.name.clone(),
            attributes: clone_fields(&self.attributes),
            methods: clone_operations(&self.methods),
            relations,
        }
    }
}

/// A whole diagram document, the unit that the store keys by `id`.
#[derive(PartialEq, Eq, Debug)]
pub struct Document {
    pub id: String,
    pub name: String,
    pub created_at: i64,
    pub last_modified: i64,
    pub classes: Vec<ClassDef>,
}

/// Mathematical value of a [`Document`].
pub struct DocumentView {
    pub id: Seq<char>,
    pub name: Seq<char>,
    pub created_at: i64,
    pub last_modified: i64,
    pub classes: Seq<ClassDefView>,
}

impl View for Document {
    type V = DocumentView;

    open spec fn view(&self) -> DocumentView {
        DocumentView {
            id: self.id@,
            name: self.name@,
            created_at: self.created_at,
            last_modified: self.last_modified,
            classes: self.classes.deep_view(),
        }
    }
}

impl DeepView for Document {
    type V = DocumentView;

    open spec fn deep_view(&self) -> DocumentView {
        self.view()
    }
}

impl Clone for Document {
    fn clone(&self) -> (r: Self)
        ensures
            r@ == self@,
    {
        let classes = clone_classes(&self.classes);
        Document {
            id: self.id.clone(),
            name: self.name.clone(),
            created_at: self.created_at,
            last_modified: self.last_modified,
            classes,
        }
    }
}

fn clone_classes(v: &Vec<ClassDef>) -> (r: Vec<ClassDef>)
    ensures
        r.deep_view() == v.deep_view(),
{
    let mut r: Vec<ClassDef> = Vec::new();
    let mut i: usize = 0;
    while i < v.len()
        invariant
            i <= v.len(),
            r@.len() == i as int,
            forall|j: int| 0 <= j < i as int ==> #[trigger] r@[j].deep_view() == v@[j].deep_view(),
        decreases v.len() - i,
    {
        let e = v[i].clone();
        r.push(e);
        i = i + 1;
    }
    proof {
        lemma_deep_view_from_views(r@, v@);
    }
    r
}

fn clone_opt_string(s: &Option<String>) -> (r: Option<String>)
    ensures
        r.deep_view() == s.deep_view(),
{
    match s {
        Option::Some(t) => Option::Some(t.clone()),
        Option::None => Option::None,
    }
}

fn clone_fields(v: &Vec<Field>) -> (r: Vec<Field>)
    ensures
        r.deep_view() == v.deep_view(),
{
    let mut r: Vec<Field> = Vec::new();
    let mut i: usize = 0;
    while i < v.len()
        invariant
            i <= v.len(),
            r@.len() == i as int,
            forall|j: int| 0 <= j < i as int ==> #[trigger] r@[j].deep_view() == v@[j].deep_view(),
        decreases v.len() - i,
    {
        let e = v[i].clone();
        r.push(e);
        i = i + 1;
    }
    proof {
        lemma_deep_view_from_views(r@, v@);
    }
    r
}

proof fn lemma_deep_view_from_views<T: DeepView>(a: Seq<T>, b: Seq<T>)
    requires
        a.len() == b.len(),
        forall|j: int| 0 <= j < a.len() ==> #[trigger] a[j].deep_view() == b[j].deep_view(),
    ensures
        Seq::new(a.len(), |i: int| a[i].deep_view()) == Seq::new(b.len(), |i: int| b[i].deep_view()),
{
    assert(Seq::new(a.len(), |i: int| a[i].deep_view()) =~= Seq::new(
        b.len(),
        |i: int| b[i].deep_view(),
    ));
}

fn clone_operations(v: &Vec<Operation>) -> (r: Vec<Operation>)
    ensures
        r.deep_view() == v.deep_view(),
{
    let mut r: Vec<Operation> = Vec::new();
    let mut i: usize = 0;
    while i < v.len()
        invariant
            i <= v.len(),
            r@.len() == i as int,
            forall|j: int| 0 <= j < i as int ==> #[trigger] r@[j].deep_view() == v@[j].deep_view(),
        decreases v.len() - i,
    {
        let e = v[i].clone();
        r.push(e);
        i = i + 1;
    }
    proof {
        lemma_deep_view_from_views(r@, v@);
    }
    r
}

fn clone_edges(v: &Vec<RelationEdge>) -> (r: Vec<RelationEdge>)
    ensures
        r.deep_view() == v.deep_view(),
{
    let mut r: Vec<RelationEdge> = Vec::new();
    let mut i: usize = 0;
    while i < v.len()
        invariant
            i <= v.len(),
            r@.len() == i as int,
            forall|j: int| 0 <= j < i as int ==> #[trigger] r@[j].deep_view() == v@[j].deep_view(),
        decreases v.len() - i,
    {
        let e = v[i].clone();
        r.push(e);
        i = i + 1;
    }
    proof {
        lemma_deep_view_from_views(r@, v@);
    }
    r
}

} // verus!
