//! The statically-typed object model the engines bridge: scalars, sequences,
//! ordered maps, fixed-field records, optional values and tagged variants,
//! together with the shape table that drives type-directed decoding.

use vstd::prelude::*;
use crate::integer::Integer;
use crate::scalar::{Real, Uid};

verus! {

broadcast use vstd::seq::group_seq_axioms, vstd::std_specs::vec::axiom_vec_index_decreases,
    vstd::std_specs::vec::axiom_vec_decreases_to_view;

/// The mathematical form of a typed value. Contracts and the round-trip laws
/// are stated over this form.
#[verifier::ext_equal]
pub enum TypedS {
    Boolean(bool),
    Integer(int),
    Real(Seq<char>),
    String(Seq<char>),
    Uid(u64),
    Unit,
    Array(Seq<TypedS>),
    Dict(Seq<(TypedS, TypedS)>),
    Record(Seq<(Seq<char>, TypedS)>),
    Absent,
    Present(Box<TypedS>),
    Variant(Seq<char>, VariantArgS),
}

/// The mathematical form of a variant's payload.
#[verifier::ext_equal]
pub enum VariantArgS {
    Unit,
    Value(Box<TypedS>),
}

/// A typed value: what the encoding engine walks and the decoding engine
/// rebuilds.
///
/// Optional values are spelled with [`Typed::Absent`] and [`Typed::Present`]
/// and may nest. A fixed-field record ([`Typed::Record`]) differs from a
/// dynamic map ([`Typed::Dict`]): a record field whose value is `Absent` is
/// omitted from the wire, while a map keeps every entry, writing absence
/// explicitly.
#[derive(Debug, PartialEq)]
pub enum Typed {
    Boolean(bool),
    Integer(Integer),
    Real(Real),
    String(String),
    Uid(Uid),
    Unit,
    Array(Vec<Typed>),
    Dict(Vec<(Typed, Typed)>),
    Record(Vec<(String, Typed)>),
    Absent,
    Present(Box<Typed>),
    Variant(String, VariantArg),
}

/// A variant's payload: none at all, or one value (which for a struct-style
/// variant is a record of its named fields).
#[derive(Debug, PartialEq)]
pub enum VariantArg {
    Unit,
    Value(Box<Typed>),
}

impl View for Typed {
    type V = TypedS;

    open spec fn view(&self) -> TypedS
        decreases self,
    {
        match self {
            Typed::Boolean(b) => TypedS::Boolean(*b),
            Typed::Integer(i) => TypedS::Integer(i.value()),
            Typed::Real(r) => TypedS::Real(r@),
            Typed::String(s) => TypedS::String(s@),
            Typed::Uid(u) => TypedS::Uid(u.value()),
            Typed::Unit => TypedS::Unit,
            Typed::Array(v) => TypedS::Array(Typed::seq_view(v@)),
            Typed::Dict(v) => TypedS::Dict(Typed::pairs_view(v@)),
            Typed::Record(v) => TypedS::Record(Typed::fields_view(v@)),
            Typed::Absent => TypedS::Absent,
            Typed::Present(b) => TypedS::Present(Box::new((**b).view())),
            Typed::Variant(n, a) => TypedS::Variant(n@, a.view()),
        }
    }
}

impl DeepView for Typed {
    type V = TypedS;

    open spec fn deep_view(&self) -> TypedS {
        self.view()
    }
}

impl View for VariantArg {
    type V = VariantArgS;

    open spec fn view(&self) -> VariantArgS
        decreases self,
    {
        match self {
            VariantArg::Unit => VariantArgS::Unit,
            VariantArg::Value(b) => VariantArgS::Value(Box::new((**b).view())),
        }
    }
}

/// The mathematical form of a shape.
#[verifier::ext_equal]
pub enum ShapeS {
    Boolean,
    Integer,
    Real,
    String,
    Uid,
    Unit,
    Array(Box<ShapeS>),
    Dict(Box<ShapeS>, Box<ShapeS>),
    Record(Seq<(Seq<char>, ShapeS)>),
    Optional(Box<ShapeS>),
    Variant(Seq<(Seq<char>, VariantShapeS)>),
}

/// The mathematical form of a variant's declared payload shape.
#[verifier::ext_equal]
pub enum VariantShapeS {
    Unit,
    Value(Box<ShapeS>),
}

/// The static shape that guides the decoding engine: the closed, explicit
/// tag-to-constructor table standing in for compile-time type dispatch.
#[derive(Debug, PartialEq)]
pub enum Shape {
    Boolean,
    Integer,
    Real,
    String,
    Uid,
    Unit,
    Array(Box<Shape>),
    Dict(Box<Shape>, Box<Shape>),
    Record(Vec<(String, Shape)>),
    Optional(Box<Shape>),
    Variant(Vec<(String, VariantShape)>),
}

/// A variant's declared payload shape.
#[derive(Debug, PartialEq)]
pub enum VariantShape {
    Unit,
    Value(Box<Shape>),
}

impl View for Shape {
    type V = ShapeS;

    open spec fn view(&self) -> ShapeS
        decreases self,
    {
        match self {
            Shape::Boolean => ShapeS::Boolean,
            Shape::Integer => ShapeS::Integer,
            Shape::Real => ShapeS::Real,
            Shape::String => ShapeS::String,
            Shape::Uid => ShapeS::Uid,
            Shape::Unit => ShapeS::Unit,
            Shape::Array(b) => ShapeS::Array(Box::new((**b).view())),
            Shape::Dict(k, v) => ShapeS::Dict(Box::new((**k).view()), Box::new((**v).view())),
            Shape::Record(v) => ShapeS::Record(Shape::rfields_view(v@)),
            Shape::Optional(b) => ShapeS::Optional(Box::new((**b).view())),
            Shape::Variant(v) => ShapeS::Variant(Shape::vdefs_view(v@)),
        }
    }
}

impl View for VariantShape {
    type V = VariantShapeS;

    open spec fn view(&self) -> VariantShapeS
        decreases self,
    {
        match self {
            VariantShape::Unit => VariantShapeS::Unit,
            VariantShape::Value(b) => VariantShapeS::Value(Box::new((**b).view())),
        }
    }
}

/// Whether a value is an optional layer (absent or present).
pub open spec fn is_opt(t: TypedS) -> bool {
    t is Absent || t is Present
}

/// A list of names with no repetition.
pub open spec fn distinct_names(names: Seq<Seq<char>>) -> bool {
    forall|i: int, j: int| 0 <= i < j < names.len() ==> names[i] != names[j]
}

/// The declared payload shape of the first variant of the given name.
pub open spec fn find_variant(defs: Seq<(Seq<char>, VariantShapeS)>, name: Seq<char>) -> Option<
    VariantShapeS,
>
    decreases defs.len(),
{
    if defs.len() == 0 {
        None
    } else if defs[0].0 == name {
        Some(defs[0].1)
    } else {
        find_variant(defs.subrange(1, defs.len() as int), name)
    }
}

/// A well-formed shape: record field names and variant names are free of
/// repetition, at every level.
pub open spec fn wf_shape(s: ShapeS) -> bool
    decreases s,
{
    match s {
        ShapeS::Array(e) => wf_shape(*e),
        ShapeS::Dict(k, v) => wf_shape(*k) && wf_shape(*v),
        ShapeS::Record(fields) => {
            &&& distinct_names(fields.map_values(|f: (Seq<char>, ShapeS)| f.0))
            &&& forall|i: int| 0 <= i < fields.len() ==> wf_shape(#[trigger] fields[i].1)
        },
        ShapeS::Optional(e) => wf_shape(*e),
        ShapeS::Variant(defs) => {
            &&& distinct_names(defs.map_values(|d: (Seq<char>, VariantShapeS)| d.0))
            &&& forall|i: int|
                0 <= i < defs.len() ==> match #[trigger] defs[i].1 {
                    VariantShapeS::Unit => true,
                    VariantShapeS::Value(p) => wf_shape(*p),
                }
        },
        _ => true,
    }
}

/// Whether a value fits a shape. Decoding a stream the encoder produced for
/// a value is only meaningful against the value's own shape.
pub open spec fn fits(t: TypedS, s: ShapeS) -> bool
    decreases t,
{
    match (t, s) {
        (TypedS::Boolean(_), ShapeS::Boolean) => true,
        (TypedS::Integer(i), ShapeS::Integer) => -0x8000_0000_0000_0000 <= i
            <= 0xFFFF_FFFF_FFFF_FFFFu64 as int,
        (TypedS::Real(_), ShapeS::Real) => true,
        (TypedS::String(_), ShapeS::String) => true,
        (TypedS::Uid(_), ShapeS::Uid) => true,
        (TypedS::Unit, ShapeS::Unit) => true,
        (TypedS::Array(es), ShapeS::Array(e)) => forall|i: int|
            0 <= i < es.len() ==> fits(#[trigger] es[i], *e),
        (TypedS::Dict(ps), ShapeS::Dict(k, v)) => forall|i: int|
            0 <= i < ps.len() ==> fits(#[trigger] ps[i].0, *k) && fits(ps[i].1, *v),
        (TypedS::Record(fs), ShapeS::Record(sfs)) => {
            &&& fs.len() == sfs.len()
            &&& forall|i: int| 0 <= i < fs.len() ==> (#[trigger] fs[i]).0 == sfs[i].0
            &&& forall|i: int| 0 <= i < fs.len() ==> fits((#[trigger] fs[i]).1, sfs[i].1)
        },
        (TypedS::Absent, ShapeS::Optional(_)) => true,
        (TypedS::Present(x), ShapeS::Optional(e)) => fits(*x, *e),
        (TypedS::Variant(n, arg), ShapeS::Variant(defs)) => match find_variant(defs, n) {
            Some(VariantShapeS::Unit) => arg is Unit,
            Some(VariantShapeS::Value(p)) => match arg {
                VariantArgS::Value(x) => fits(*x, *p),
                VariantArgS::Unit => false,
            },
            None => false,
        },
        _ => false,
    }
}


impl Typed {
    /// The views of a run of values, elementwise.
    pub open spec fn seq_view(s: Seq<Typed>) -> Seq<TypedS>
        decreases s,
    {
        if s.len() == 0 {
            Seq::empty()
        } else {
            Typed::seq_view(s.subrange(0, s.len() - 1)).push(s[s.len() - 1].view())
        }
    }

    /// The views of a run of key/value pairs, elementwise.
    pub open spec fn pairs_view(s: Seq<(Typed, Typed)>) -> Seq<(TypedS, TypedS)>
        decreases s,
    {
        if s.len() == 0 {
            Seq::empty()
        } else {
            Typed::pairs_view(s.subrange(0, s.len() - 1)).push(
                (s[s.len() - 1].0.view(), s[s.len() - 1].1.view()),
            )
        }
    }

    /// The views of a run of named fields, elementwise.
    pub open spec fn fields_view(s: Seq<(String, Typed)>) -> Seq<(Seq<char>, TypedS)>
        decreases s,
    {
        if s.len() == 0 {
            Seq::empty()
        } else {
            Typed::fields_view(s.subrange(0, s.len() - 1)).push(
                (s[s.len() - 1].0@, s[s.len() - 1].1.view()),
            )
        }
    }
}

impl Shape {
    /// The views of a run of declared record fields, elementwise.
    pub open spec fn rfields_view(s: Seq<(String, Shape)>) -> Seq<(Seq<char>, ShapeS)>
        decreases s,
    {
        if s.len() == 0 {
            Seq::empty()
        } else {
            Shape::rfields_view(s.subrange(0, s.len() - 1)).push(
                (s[s.len() - 1].0@, s[s.len() - 1].1.view()),
            )
        }
    }

    /// The views of a run of declared variants, elementwise.
    pub open spec fn vdefs_view(s: Seq<(String, VariantShape)>) -> Seq<(Seq<char>, VariantShapeS)>
        decreases s,
    {
        if s.len() == 0 {
            Seq::empty()
        } else {
            Shape::vdefs_view(s.subrange(0, s.len() - 1)).push(
                (s[s.len() - 1].0@, s[s.len() - 1].1.view()),
            )
        }
    }
}

/// `Typed::seq_view` is the elementwise view.
pub broadcast proof fn lemma_seq_view(s: Seq<Typed>)
    ensures
        (#[trigger] Typed::seq_view(s)).len() == s.len(),
        forall|i: int| 0 <= i < s.len() ==> Typed::seq_view(s)[i] == s[i]@,
    decreases s.len(),
{
    if s.len() > 0 {
        lemma_seq_view(s.subrange(0, s.len() - 1));
        assert(Typed::seq_view(s) == Typed::seq_view(s.subrange(0, s.len() - 1)).push(
            s[s.len() - 1].view(),
        ));
        assert(Typed::seq_view(s).len() == s.len());
    } else {
        assert(Typed::seq_view(s) == Seq::<TypedS>::empty());
    }
}

/// `Typed::pairs_view` is the elementwise view.
pub broadcast proof fn lemma_pairs_view(s: Seq<(Typed, Typed)>)
    ensures
        (#[trigger] Typed::pairs_view(s)).len() == s.len(),
        forall|i: int|
            0 <= i < s.len() ==> Typed::pairs_view(s)[i] == (s[i].0@, s[i].1@),
    decreases s.len(),
{
    if s.len() > 0 {
        lemma_pairs_view(s.subrange(0, s.len() - 1));
        assert(Typed::pairs_view(s) == Typed::pairs_view(s.subrange(0, s.len() - 1)).push(
            (s[s.len() - 1].0.view(), s[s.len() - 1].1.view()),
        ));
        assert(Typed::pairs_view(s).len() == s.len());
    } else {
        assert(Typed::pairs_view(s) =~= Typed::pairs_view(Seq::empty()));
    }
}

/// `Typed::fields_view` is the elementwise view.
pub broadcast proof fn lemma_fields_view(s: Seq<(String, Typed)>)
    ensures
        (#[trigger] Typed::fields_view(s)).len() == s.len(),
        forall|i: int|
            0 <= i < s.len() ==> Typed::fields_view(s)[i] == (s[i].0@, s[i].1@),
    decreases s.len(),
{
    if s.len() > 0 {
        lemma_fields_view(s.subrange(0, s.len() - 1));
        assert(Typed::fields_view(s) == Typed::fields_view(s.subrange(0, s.len() - 1)).push(
            (s[s.len() - 1].0@, s[s.len() - 1].1.view()),
        ));
        assert(Typed::fields_view(s).len() == s.len());
    } else {
        assert(Typed::fields_view(s) =~= Typed::fields_view(Seq::empty()));
    }
}

/// `Shape::rfields_view` is the elementwise view.
pub broadcast proof fn lemma_rfields_view(s: Seq<(String, Shape)>)
    ensures
        (#[trigger] Shape::rfields_view(s)).len() == s.len(),
        forall|i: int|
            0 <= i < s.len() ==> Shape::rfields_view(s)[i] == (s[i].0@, s[i].1@),
    decreases s.len(),
{
    if s.len() > 0 {
        lemma_rfields_view(s.subrange(0, s.len() - 1));
        assert(Shape::rfields_view(s) == Shape::rfields_view(s.subrange(0, s.len() - 1)).push(
            (s[s.len() - 1].0@, s[s.len() - 1].1.view()),
        ));
        assert(Shape::rfields_view(s).len() == s.len());
    } else {
        assert(Shape::rfields_view(s) =~= Shape::rfields_view(Seq::empty()));
    }
}

/// `Shape::vdefs_view` is the elementwise view.
pub broadcast proof fn lemma_vdefs_view(s: Seq<(String, VariantShape)>)
    ensures
        (#[trigger] Shape::vdefs_view(s)).len() == s.len(),
        forall|i: int|
            0 <= i < s.len() ==> Shape::vdefs_view(s)[i] == (s[i].0@, s[i].1@),
    decreases s.len(),
{
    if s.len() > 0 {
        lemma_vdefs_view(s.subrange(0, s.len() - 1));
        assert(Shape::vdefs_view(s) == Shape::vdefs_view(s.subrange(0, s.len() - 1)).push(
            (s[s.len() - 1].0@, s[s.len() - 1].1.view()),
        ));
        assert(Shape::vdefs_view(s).len() == s.len());
    } else {
        assert(Shape::vdefs_view(s) =~= Shape::vdefs_view(Seq::empty()));
    }
}


/// A payload-free variant shape views to the payload-free form.
pub proof fn lemma_variant_shape_unit(v: &VariantShape)
    requires
        v is Unit,
    ensures
        v@ == VariantShapeS::Unit,
{
    match v {
        VariantShape::Unit => {
            assert(v@ == VariantShapeS::Unit);
        },
        VariantShape::Value(_) => {
        },
    }
}

/// A variant payload views to the matching payload form.
pub proof fn lemma_variant_arg_view(a: VariantArg)
    ensures
        a is Unit ==> a@ == VariantArgS::Unit,
        a is Value ==> a@ == VariantArgS::Value(Box::new((*a->Value_0)@)),
{
    match a {
        VariantArg::Unit => {
            assert(a@ == VariantArgS::Unit);
        },
        VariantArg::Value(b) => {
            assert(a@ == VariantArgS::Value(Box::new((*b)@)));
        },
    }
}

} // verus!
