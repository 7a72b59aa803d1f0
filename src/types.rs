use vstd::prelude::*;

verus! {

/// One sample: the category it belongs to and its JSON content text.
pub struct InputData {
    pub category: String,
    pub content: String,
}

/// The four primitive kinds, declared in their fixed order
/// `String < Number < Boolean < Null`.
#[derive(Debug, Clone, Copy, PartialEq, Eq, Structural, PartialOrd, Ord, Hash)]
pub enum PrimitiveType {
    String,
    Number,
    Boolean,
    Null,
}

/// Position of a kind in the fixed order.
pub open spec fn rank(p: PrimitiveType) -> int {
    match p {
        PrimitiveType::String => 0,
        PrimitiveType::Number => 1,
        PrimitiveType::Boolean => 2,
        PrimitiveType::Null => 3,
    }
}

/// The declaration keyword of a kind.
pub open spec fn keyword(p: PrimitiveType) -> Seq<char> {
    match p {
        PrimitiveType::String => "string"@,
        PrimitiveType::Number => "number"@,
        PrimitiveType::Boolean => "boolean"@,
        PrimitiveType::Null => "null"@,
    }
}

impl PrimitiveType {
    /// The declaration keyword of this kind.
    pub fn as_str(&self) -> (r: &'static str)
        ensures
            r@ == keyword(*self),
    {
        match self {
            PrimitiveType::String => "string",
            PrimitiveType::Number => "number",
            PrimitiveType::Boolean => "boolean",
            PrimitiveType::Null => "null",
        }
    }
}

/// The mathematical model of a structural type.
pub enum Shape {
    Prim(PrimitiveType),
    Any,
    Array(Box<Shape>),
    Object(Fields),
    Union(Seq<PrimitiveType>),
    Tuple(Seq<PrimitiveType>),
    Nullable(Box<Shape>),
    Never,
}

/// The model of an object's properties: a list of
/// (key, type, optional) entries.
pub enum Fields {
    Nil,
    Cons(Seq<char>, Box<Shape>, bool, Box<Fields>),
}

impl Shape {
    /// Number of nodes; the measure that merging decreases.
    pub open spec fn size(self) -> nat
        decreases self,
    {
        match self {
            Shape::Array(i) => 1 + i.size(),
            Shape::Object(f) => 1 + f.size(),
            Shape::Nullable(i) => 1 + i.size(),
            _ => 1,
        }
    }

    /// No `Never` anywhere inside.
    pub open spec fn never_free(self) -> bool
        decreases self,
    {
        match self {
            Shape::Never => false,
            Shape::Array(i) => i.never_free(),
            Shape::Object(f) => f.never_free(),
            Shape::Nullable(i) => i.never_free(),
            _ => true,
        }
    }
}

/// Kinds in strictly increasing order: sorted, each at most once.
pub open spec fn kinds_strictly_sorted(ks: Seq<PrimitiveType>) -> bool {
    forall|i: int, j: int| 0 <= i < j < ks.len() ==> rank(ks[i]) < rank(ks[j])
}

/// Kinds in non-decreasing order.
pub open spec fn kinds_sorted(ks: Seq<PrimitiveType>) -> bool {
    forall|i: int, j: int| 0 <= i <= j < ks.len() ==> rank(ks[i]) <= rank(ks[j])
}

impl Shape {
    /// An object, array or tuple: what a nullable shape may wrap.
    pub open spec fn structured(self) -> bool {
        self is Object || self is Array || self is Tuple
    }

    /// The invariants of the model: a union holds two or more kinds, sorted
    /// and distinct; a tuple's kinds are sorted; an object's keys are
    /// strictly increasing; a nullable shape wraps an object, array or tuple;
    /// and so on inside.
    pub open spec fn wf(self) -> bool
        decreases self,
    {
        match self {
            Shape::Union(ks) => ks.len() >= 2 && kinds_strictly_sorted(ks),
            Shape::Tuple(ks) => kinds_sorted(ks),
            Shape::Array(i) => i.wf(),
            Shape::Object(f) => f.wf(),
            Shape::Nullable(i) => i.wf() && i.structured(),
            _ => true,
        }
    }
}

impl Fields {
    /// Keys strictly increasing, and every type well formed.
    pub open spec fn wf(self) -> bool
        decreases self,
    {
        match self {
            Fields::Nil => true,
            Fields::Cons(k, t, _, rest) => t.wf() && rest.wf() && match *rest {
                Fields::Nil => true,
                Fields::Cons(k2, _, _, _) => crate::keys::key_lt(k, k2),
            },
        }
    }

    /// Number of nodes, counting each entry and its type.
    pub open spec fn size(self) -> nat
        decreases self,
    {
        match self {
            Fields::Nil => 0,
            Fields::Cons(_, t, _, rest) => 1 + t.size() + rest.size(),
        }
    }

    /// No `Never` in any property type.
    pub open spec fn never_free(self) -> bool
        decreases self,
    {
        match self {
            Fields::Nil => true,
            Fields::Cons(_, t, _, rest) => t.never_free() && rest.never_free(),
        }
    }
}

/// A structural type, as inferred from JSON samples.
#[derive(Debug, PartialEq)]
pub enum InferredType {
    Primitive(PrimitiveType),
    Any,
    Array(Box<InferredType>),
    Object(PropertyMap),
    PrimitiveUnion(Vec<PrimitiveType>),
    PrimitiveTuple(Vec<PrimitiveType>),
    /// An object or array shape, or null.
    NullableObj(Box<InferredType>),
    /// The identity element of merging.
    Never,
}

#[derive(Debug, PartialEq)]
pub struct PropertyDefinition {
    pub ty: InferredType,
    pub optional: bool,
}

/// The properties of an object type, kept sorted by key with each key once.
#[derive(Debug, PartialEq)]
pub enum PropertyMap {
    Empty,
    Entry(String, Box<PropertyDefinition>, Box<PropertyMap>),
}

impl InferredType {
    /// The model of this type.
    pub open spec fn shape(&self) -> Shape
        decreases self,
    {
        match self {
            InferredType::Primitive(p) => Shape::Prim(*p),
            InferredType::Any => Shape::Any,
            InferredType::Array(i) => Shape::Array(Box::new(i.shape())),
            InferredType::Object(m) => Shape::Object(m.fields()),
            InferredType::PrimitiveUnion(v) => Shape::Union(v@),
            InferredType::PrimitiveTuple(v) => Shape::Tuple(v@),
            InferredType::NullableObj(i) => Shape::Nullable(Box::new(i.shape())),
            InferredType::Never => Shape::Never,
        }
    }
}

impl PropertyMap {
    /// The model of these properties, in key order.
    pub open spec fn fields(&self) -> Fields
        decreases self,
    {
        match self {
            PropertyMap::Empty => Fields::Nil,
            PropertyMap::Entry(k, d, rest) => Fields::Cons(
                k@,
                Box::new(d.ty.shape()),
                d.optional,
                Box::new(rest.fields()),
            ),
        }
    }
}

} // verus!
