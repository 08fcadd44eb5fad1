//! The decoding engine: a single pass over an event stream, guided by the
//! static shape the caller requests, rebuilding the typed value the stream
//! stands for.
//!
//! The rules mirror the encoder's, inverted, with one addition: a no-payload
//! variant is also accepted in the legacy shape `{name: ""}` that an earlier
//! encoding produced for unit variants.

use vstd::prelude::*;
use vstd::string::StringExecFns;
use crate::event::{Event, EventS};
use crate::typed::{find_variant, Shape, ShapeS, Typed, TypedS, VariantArg, VariantShape, VariantShapeS};

verus! {

broadcast use vstd::seq::group_seq_axioms, vstd::std_specs::vec::axiom_vec_index_decreases,
    vstd::std_specs::vec::axiom_vec_decreases_to_view, crate::typed::lemma_seq_view,
    crate::typed::lemma_pairs_view, crate::typed::lemma_fields_view,
    crate::typed::lemma_rfields_view, crate::typed::lemma_vdefs_view;

/// Why a decode failed. Every error is terminal for the whole decode call:
/// nothing is retried and no partial value is handed out.
#[derive(Clone, Debug, PartialEq, Eq)]
pub enum Error {
    /// The next event's structural kind cannot satisfy the requested shape.
    ShapeMismatch,
    /// The named tag string names no declared variant.
    UnknownVariant(String),
    /// A fixed-record body holds no entry for the named non-optional field.
    MissingField(String),
    /// The stream ended before the requested value was complete.
    UnexpectedEnd,
    /// The stream continued past the end of the decoded document.
    TrailingContent,
}

/// The mathematical form of a decode error. The specification decoders below
/// say exactly which error comes back on every input.
#[verifier::ext_equal]
pub enum ErrS {
    ShapeMismatch,
    UnknownVariant(Seq<char>),
    MissingField(Seq<char>),
    UnexpectedEnd,
    TrailingContent,
}

impl View for Error {
    type V = ErrS;

    open spec fn view(&self) -> ErrS {
        match self {
            Error::ShapeMismatch => ErrS::ShapeMismatch,
            Error::UnknownVariant(n) => ErrS::UnknownVariant(n@),
            Error::MissingField(n) => ErrS::MissingField(n@),
            Error::UnexpectedEnd => ErrS::UnexpectedEnd,
            Error::TrailingContent => ErrS::TrailingContent,
        }
    }
}

/// The nesting depth of optional layers in a shape: the decode measure for
/// positions where an optional is unwrapped without consuming an event.
pub open spec fn opt_depth(s: ShapeS) -> nat
    decreases s,
{
    match s {
        ShapeS::Optional(i) => opt_depth(*i) + 1,
        _ => 0,
    }
}

/// Decode one value in a nested position, returning it and the position just
/// past it, or the exact error where the stream does not fit the shape.
pub open spec fn dec(evs: Seq<EventS>, pos: int, s: ShapeS) -> Result<(TypedS, int), ErrS>
    decreases evs.len() - pos, opt_depth(s), 1int,
{
    if pos < 0 || pos >= evs.len() {
        Err(ErrS::UnexpectedEnd)
    } else {
        match s {
            ShapeS::Boolean => match evs[pos] {
                EventS::Boolean(b) => Ok((TypedS::Boolean(b), pos + 1)),
                _ => Err(ErrS::ShapeMismatch),
            },
            ShapeS::Integer => match evs[pos] {
                EventS::Integer(i) => Ok((TypedS::Integer(i), pos + 1)),
                _ => Err(ErrS::ShapeMismatch),
            },
            ShapeS::Real => match evs[pos] {
                EventS::Real(t) => Ok((TypedS::Real(t), pos + 1)),
                _ => Err(ErrS::ShapeMismatch),
            },
            ShapeS::String => match evs[pos] {
                EventS::String(t) => Ok((TypedS::String(t), pos + 1)),
                _ => Err(ErrS::ShapeMismatch),
            },
            ShapeS::Uid => match evs[pos] {
                EventS::Uid(u) => Ok((TypedS::Uid(u), pos + 1)),
                _ => Err(ErrS::ShapeMismatch),
            },
            ShapeS::Unit => match evs[pos] {
                EventS::String(t) => if t.len() == 0 {
                    Ok((TypedS::Unit, pos + 1))
                } else {
                    Err(ErrS::ShapeMismatch)
                },
                _ => Err(ErrS::ShapeMismatch),
            },
            ShapeS::Array(e) => match evs[pos] {
                EventS::StartArray(_) => match dec_elems(evs, pos + 1, *e) {
                    Ok((xs, p)) => Ok((TypedS::Array(xs), p)),
                    Err(er) => Err(er),
                },
                _ => Err(ErrS::ShapeMismatch),
            },
            ShapeS::Dict(k, v) => match evs[pos] {
                EventS::StartDictionary(_) => match dec_pairs(evs, pos + 1, *k, *v) {
                    Ok((xs, p)) => Ok((TypedS::Dict(xs), p)),
                    Err(er) => Err(er),
                },
                _ => Err(ErrS::ShapeMismatch),
            },
            ShapeS::Record(fields) => match evs[pos] {
                EventS::StartDictionary(_) => match dec_fields(
                    evs,
                    pos + 1,
                    fields,
                    empty_slots(fields.len()),
                ) {
                    Ok((xs, p)) => Ok((TypedS::Record(xs), p)),
                    Err(er) => Err(er),
                },
                _ => Err(ErrS::ShapeMismatch),
            },
            ShapeS::Optional(inner) => dec_opt(evs, pos, *inner),
            ShapeS::Variant(defs) => dec_variant(evs, pos, defs),
        }
    }
}

/// Decode an optional in a nested position: a `"None"` marker is absence, a
/// `"Some"` wrapper is presence with the payload inside, and any other event
/// run is taken directly as a bare present payload.
pub open spec fn dec_opt(evs: Seq<EventS>, pos: int, inner: ShapeS) -> Result<
    (TypedS, int),
    ErrS,
>
    decreases evs.len() - pos, opt_depth(inner), 2int,
{
    if pos < 0 || pos >= evs.len() {
        Err(ErrS::UnexpectedEnd)
    } else if evs[pos] is StartDictionary && pos + 1 < evs.len() && evs[pos + 1] == EventS::String(
        "None"@,
    ) {
        if pos + 3 >= evs.len() {
            Err(ErrS::UnexpectedEnd)
        } else if evs[pos + 2] is String && (evs[pos + 2])->String_0.len() == 0 && evs[pos + 3]
            is EndCollection {
            Ok((TypedS::Absent, pos + 4))
        } else {
            Err(ErrS::ShapeMismatch)
        }
    } else if evs[pos] is StartDictionary && pos + 1 < evs.len() && evs[pos + 1]
        == EventS::String("Some"@) {
        match dec(evs, pos + 2, inner) {
            Ok((x, p)) => if p >= evs.len() {
                Err(ErrS::UnexpectedEnd)
            } else if evs[p] is EndCollection {
                Ok((TypedS::Present(Box::new(x)), p + 1))
            } else {
                Err(ErrS::ShapeMismatch)
            },
            Err(er) => Err(er),
        }
    } else {
        match dec(evs, pos, inner) {
            Ok((x, p)) => Ok((TypedS::Present(Box::new(x)), p)),
            Err(er) => Err(er),
        }
    }
}

/// Decode array elements up to and past the closing `EndCollection`.
pub open spec fn dec_elems(evs: Seq<EventS>, pos: int, e: ShapeS) -> Result<
    (Seq<TypedS>, int),
    ErrS,
>
    decreases evs.len() - pos, opt_depth(e) + 1, 0int,
{
    if pos < 0 || pos >= evs.len() {
        Err(ErrS::UnexpectedEnd)
    } else if evs[pos] is EndCollection {
        Ok((Seq::empty(), pos + 1))
    } else {
        match dec(evs, pos, e) {
            Ok((x, p)) => if pos < p <= evs.len() {
                match dec_elems(evs, p, e) {
                    Ok((rest, p2)) => Ok((seq![x] + rest, p2)),
                    Err(er) => Err(er),
                }
            } else {
                Err(ErrS::ShapeMismatch)
            },
            Err(er) => Err(er),
        }
    }
}

/// Decode dynamic-map entries up to and past the closing `EndCollection`.
pub open spec fn dec_pairs(evs: Seq<EventS>, pos: int, k: ShapeS, v: ShapeS) -> Result<
    (Seq<(TypedS, TypedS)>, int),
    ErrS,
>
    decreases evs.len() - pos, opt_depth(k) + opt_depth(v) + 1, 0int,
{
    if pos < 0 || pos >= evs.len() {
        Err(ErrS::UnexpectedEnd)
    } else if evs[pos] is EndCollection {
        Ok((Seq::empty(), pos + 1))
    } else {
        match dec(evs, pos, k) {
            Ok((kx, p1)) => if pos < p1 <= evs.len() {
                match dec(evs, p1, v) {
                    Ok((vx, p2)) => if p1 < p2 <= evs.len() {
                        match dec_pairs(evs, p2, k, v) {
                            Ok((rest, p3)) => Ok((seq![(kx, vx)] + rest, p3)),
                            Err(er) => Err(er),
                        }
                    } else {
                        Err(ErrS::ShapeMismatch)
                    },
                    Err(er) => Err(er),
                }
            } else {
                Err(ErrS::ShapeMismatch)
            },
            Err(er) => Err(er),
        }
    }
}

/// A slot table with nothing decoded yet.
pub open spec fn empty_slots(n: nat) -> Seq<Option<TypedS>> {
    Seq::new(n, |i: int| None)
}

/// The index of the first declared field carrying a name.
pub open spec fn find_field(fields: Seq<(Seq<char>, ShapeS)>, name: Seq<char>) -> Option<int>
    decreases fields.len(),
{
    if fields.len() == 0 {
        None
    } else if fields[0].0 == name {
        Some(0)
    } else {
        match find_field(fields.subrange(1, fields.len() as int), name) {
            Some(i) => Some(i + 1),
            None => None,
        }
    }
}

/// The record value once its body is read: a decoded slot gives the field its
/// value, an untouched slot yields the field absent when its shape is
/// optional, and is the missing-field error otherwise.
pub open spec fn fill_fields(fields: Seq<(Seq<char>, ShapeS)>, acc: Seq<Option<TypedS>>) -> Result<
    Seq<(Seq<char>, TypedS)>,
    ErrS,
>
    decreases fields.len(),
{
    if fields.len() == 0 {
        Ok(Seq::empty())
    } else {
        let head = match acc[0] {
            Some(v) => Ok((fields[0].0, v)),
            None => if fields[0].1 is Optional {
                Ok((fields[0].0, TypedS::Absent))
            } else {
                Err(ErrS::MissingField(fields[0].0))
            },
        };
        match head {
            Ok(h) => match fill_fields(
                fields.subrange(1, fields.len() as int),
                acc.subrange(1, acc.len() as int),
            ) {
                Ok(rest) => Ok(seq![h] + rest),
                Err(er) => Err(er),
            },
            Err(er) => Err(er),
        }
    }
}

/// Decode a fixed record's body, up to and past the closing `EndCollection`.
/// Keys may come in any order; each must name a declared field, and none may
/// repeat. At the end, a field never seen is absent if its declared shape is
/// optional and a missing-field error otherwise. A present optional field's
/// value is decoded transparently, mirroring the encoder's transparent
/// treatment of record-field values.
pub open spec fn dec_fields(
    evs: Seq<EventS>,
    pos: int,
    fields: Seq<(Seq<char>, ShapeS)>,
    acc: Seq<Option<TypedS>>,
) -> Result<(Seq<(Seq<char>, TypedS)>, int), ErrS>
    decreases evs.len() - pos, 0int, 0int,
{
    if pos < 0 || pos >= evs.len() {
        Err(ErrS::UnexpectedEnd)
    } else if evs[pos] is EndCollection {
        match fill_fields(fields, acc) {
            Ok(fs) => Ok((fs, pos + 1)),
            Err(er) => Err(er),
        }
    } else if evs[pos] is String {
        let key = (evs[pos])->String_0;
        match find_field(fields, key) {
            Some(i) => if acc[i] is Some {
                Err(ErrS::ShapeMismatch)
            } else {
                let vres = match fields[i].1 {
                    ShapeS::Optional(inner) => match dec(evs, pos + 1, *inner) {
                        Ok((x, p)) => Ok((TypedS::Present(Box::new(x)), p)),
                        Err(er) => Err(er),
                    },
                    _ => dec(evs, pos + 1, fields[i].1),
                };
                match vres {
                    Ok((x, p)) => if pos < p <= evs.len() {
                        dec_fields(evs, p, fields, acc.update(i, Some(x)))
                    } else {
                        Err(ErrS::ShapeMismatch)
                    },
                    Err(er) => Err(er),
                }
            },
            None => Err(ErrS::ShapeMismatch),
        }
    } else {
        Err(ErrS::ShapeMismatch)
    }
}

/// Decode a variant value: a bare tag string for a no-payload variant, a
/// single-pair dictionary keyed by the tag for a payload-carrying variant,
/// and the legacy `{name: ""}` shape for a no-payload variant.
pub open spec fn dec_variant(
    evs: Seq<EventS>,
    pos: int,
    defs: Seq<(Seq<char>, VariantShapeS)>,
) -> Result<(TypedS, int), ErrS>
    decreases evs.len() - pos, 0int, 0int,
{
    if pos < 0 || pos >= evs.len() {
        Err(ErrS::UnexpectedEnd)
    } else {
        match evs[pos] {
            EventS::String(n) => match find_variant(defs, n) {
                Some(VariantShapeS::Unit) => Ok(
                    (TypedS::Variant(n, crate::typed::VariantArgS::Unit), pos + 1),
                ),
                Some(VariantShapeS::Value(_)) => Err(ErrS::ShapeMismatch),
                None => Err(ErrS::UnknownVariant(n)),
            },
            EventS::StartDictionary(_) => if pos + 1 >= evs.len() {
                Err(ErrS::UnexpectedEnd)
            } else if !(evs[pos + 1] is String) {
                Err(ErrS::ShapeMismatch)
            } else {
                let n = (evs[pos + 1])->String_0;
                match find_variant(defs, n) {
                    Some(VariantShapeS::Unit) => if pos + 3 >= evs.len() {
                        Err(ErrS::UnexpectedEnd)
                    } else if evs[pos + 2] is String && (evs[pos + 2])->String_0.len() == 0
                        && evs[pos + 3] is EndCollection {
                        Ok((TypedS::Variant(n, crate::typed::VariantArgS::Unit), pos + 4))
                    } else {
                        Err(ErrS::ShapeMismatch)
                    },
                    Some(VariantShapeS::Value(p)) => match dec(evs, pos + 2, *p) {
                        Ok((x, q)) => if q >= evs.len() {
                            Err(ErrS::UnexpectedEnd)
                        } else if evs[q] is EndCollection {
                            Ok(
                                (
                                    TypedS::Variant(
                                        n,
                                        crate::typed::VariantArgS::Value(Box::new(x)),
                                    ),
                                    q + 1,
                                ),
                            )
                        } else {
                            Err(ErrS::ShapeMismatch)
                        },
                        Err(er) => Err(er),
                    },
                    None => Err(ErrS::UnknownVariant(n)),
                }
            },
            _ => Err(ErrS::ShapeMismatch),
        }
    }
}

/// Decode a whole document: the outermost optional layer is transparent, and
/// an empty stream where an optional is requested is absence. The stream
/// must be consumed exactly.
pub open spec fn dec_root(evs: Seq<EventS>, s: ShapeS) -> Result<TypedS, ErrS> {
    match s {
        ShapeS::Optional(inner) => if evs.len() == 0 {
            Ok(TypedS::Absent)
        } else {
            match dec(evs, 0, *inner) {
                Ok((x, p)) => if p == evs.len() {
                    Ok(TypedS::Present(Box::new(x)))
                } else {
                    Err(ErrS::TrailingContent)
                },
                Err(er) => Err(er),
            }
        },
        _ => match dec(evs, 0, s) {
            Ok((x, p)) => if p == evs.len() {
                Ok(x)
            } else {
                Err(ErrS::TrailingContent)
            },
            Err(er) => Err(er),
        },
    }
}


/// `Vec<Event>::deep_view` is the elementwise view.
pub broadcast proof fn lemma_events_view(es: Vec<Event>)
    ensures
        (#[trigger] es.deep_view()).len() == es@.len(),
        forall|i: int| 0 <= i < es@.len() ==> es.deep_view()[i] == es@[i]@,
{
}

/// Decode a whole document against the requested shape, consuming the stream
/// exactly: the typed value the stream stands for, or the first error.
pub fn decode(events: &Vec<Event>, shape: &Shape) -> (r: Result<Typed, Error>)
    ensures
        r is Ok ==> dec_root(events.deep_view(), shape@) == Ok::<TypedS, ErrS>(r->Ok_0@),
        r is Err ==> dec_root(events.deep_view(), shape@) == Err::<TypedS, ErrS>(r->Err_0@),
{
    match shape {
        Shape::Optional(inner) => {
            if events.len() == 0 {
                Ok(Typed::Absent)
            } else {
                let (x, p) = match decode_value(events, 0, &**inner) {
                    Ok(v) => v,
                    Err(e) => {
                        return Err(e);
                    },
                };
                if p == events.len() {
                    Ok(Typed::Present(Box::new(x)))
                } else {
                    Err(Error::TrailingContent)
                }
            }
        },
        _ => {
            let (x, p) = match decode_value(events, 0, shape) {
                Ok(v) => v,
                Err(e) => {
                    return Err(e);
                },
            };
            if p == events.len() {
                Ok(x)
            } else {
                Err(Error::TrailingContent)
            }
        },
    }
}

/// Decode one value in a nested position, returning it and the position just
/// past it.
pub fn decode_value(events: &Vec<Event>, pos: usize, shape: &Shape) -> (r: Result<
    (Typed, usize),
    Error,
>)
    ensures
        r is Ok ==> pos < r->Ok_0.1 <= events.len() && dec(
            events.deep_view(),
            pos as int,
            shape@,
        ) == Ok::<(TypedS, int), ErrS>((r->Ok_0.0@, r->Ok_0.1 as int)),
        r is Err ==> dec(events.deep_view(), pos as int, shape@) == Err::<(TypedS, int), ErrS>(
            r->Err_0@,
        ),
    decreases events.len() - pos, opt_depth(shape@), 1int,
{
    if pos >= events.len() {
        return Err(Error::UnexpectedEnd);
    }
    match shape {
        Shape::Boolean => match &events[pos] {
            Event::Boolean(b) => Ok((Typed::Boolean(*b), pos + 1)),
            _ => Err(Error::ShapeMismatch),
        },
        Shape::Integer => match &events[pos] {
            Event::Integer(i) => Ok((Typed::Integer(*i), pos + 1)),
            _ => Err(Error::ShapeMismatch),
        },
        Shape::Real => match &events[pos] {
            Event::Real(t) => Ok((Typed::Real(t.duplicate()), pos + 1)),
            _ => Err(Error::ShapeMismatch),
        },
        Shape::String => match &events[pos] {
            Event::String(t) => Ok((Typed::String(t.clone()), pos + 1)),
            _ => Err(Error::ShapeMismatch),
        },
        Shape::Uid => match &events[pos] {
            Event::Uid(u) => Ok((Typed::Uid(*u), pos + 1)),
            _ => Err(Error::ShapeMismatch),
        },
        Shape::Unit => match &events[pos] {
            Event::String(t) => if t.as_str().is_empty() {
                Ok((Typed::Unit, pos + 1))
            } else {
                Err(Error::ShapeMismatch)
            },
            _ => Err(Error::ShapeMismatch),
        },
        Shape::Array(e) => match &events[pos] {
            Event::StartArray(_) => {
                let (xs, p) = match decode_elems(events, pos + 1, &**e) {
                    Ok(v) => v,
                    Err(er) => {
                        return Err(er);
                    },
                };
                Ok((Typed::Array(xs), p))
            },
            _ => Err(Error::ShapeMismatch),
        },
        Shape::Dict(k, v) => match &events[pos] {
            Event::StartDictionary(_) => {
                let (xs, p) = match decode_pairs(events, pos + 1, &**k, &**v) {
                    Ok(r) => r,
                    Err(er) => {
                        return Err(er);
                    },
                };
                Ok((Typed::Dict(xs), p))
            },
            _ => Err(Error::ShapeMismatch),
        },
        Shape::Record(fields) => match &events[pos] {
            Event::StartDictionary(_) => {
                let n = fields.len();
                let mut slots: Vec<Option<Typed>> = Vec::new();
                let mut j: usize = 0;
                while j < n
                    invariant
                        j <= n,
                        slots@.len() == j,
                        forall|t: int| 0 <= t < j ==> slots@[t] is None,
                    decreases n - j,
                {
                    slots.push(None);
                    j = j + 1;
                }
                proof {
                    broadcast use lemma_slots_view;

                    let sf = Shape::rfields_view(fields@);
                    assert(slots.deep_view() =~= empty_slots(sf.len()));
                }
                let (xs, p) = match decode_fields(events, pos + 1, fields, slots) {
                    Ok(r) => r,
                    Err(er) => {
                        return Err(er);
                    },
                };
                Ok((Typed::Record(xs), p))
            },
            _ => Err(Error::ShapeMismatch),
        },
        Shape::Optional(inner) => decode_opt(events, pos, &**inner),
        Shape::Variant(defs) => decode_variant(events, pos, defs),
    }
}

/// Decode an optional in a nested position: the `"None"` marker, the
/// `"Some"` wrapper, or a bare present payload.
fn decode_opt(events: &Vec<Event>, pos: usize, inner: &Shape) -> (r: Result<(Typed, usize), Error>)
    ensures
        r is Ok ==> pos < r->Ok_0.1 <= events.len() && dec_opt(
            events.deep_view(),
            pos as int,
            inner@,
        ) == Ok::<(TypedS, int), ErrS>((r->Ok_0.0@, r->Ok_0.1 as int)),
        r is Err ==> dec_opt(events.deep_view(), pos as int, inner@) == Err::<
            (TypedS, int),
            ErrS,
        >(r->Err_0@),
    decreases events.len() - pos, opt_depth(inner@), 2int,
{
    if pos >= events.len() {
        return Err(Error::UnexpectedEnd);
    }
    let none_tag = String::from_str("None");
    let some_tag = String::from_str("Some");
    let tag: u8 = {
        match &events[pos] {
            Event::StartDictionary(_) => {
                if pos + 1 < events.len() {
                    match &events[pos + 1] {
                        Event::String(key) => {
                            if *key == none_tag {
                                0
                            } else if *key == some_tag {
                                1
                            } else {
                                2
                            }
                        },
                        _ => 2,
                    }
                } else {
                    2
                }
            },
            _ => 2,
        }
    };
    if tag == 0 {
        if events.len() - pos > 3 {
            let payload_ok: bool = match &events[pos + 2] {
                Event::String(t) => t.as_str().is_empty(),
                _ => false,
            };
            let end_ok: bool = match &events[pos + 3] {
                Event::EndCollection => true,
                _ => false,
            };
            if payload_ok && end_ok {
                Ok((Typed::Absent, pos + 4))
            } else {
                Err(Error::ShapeMismatch)
            }
        } else {
            Err(Error::UnexpectedEnd)
        }
    } else if tag == 1 {
        let (x, p) = match decode_value(events, pos + 2, inner) {
            Ok(v) => v,
            Err(er) => {
                return Err(er);
            },
        };
        if p >= events.len() {
            Err(Error::UnexpectedEnd)
        } else {
            match &events[p] {
                Event::EndCollection => Ok((Typed::Present(Box::new(x)), p + 1)),
                _ => Err(Error::ShapeMismatch),
            }
        }
    } else {
        let (x, p) = match decode_value(events, pos, inner) {
            Ok(v) => v,
            Err(er) => {
                return Err(er);
            },
        };
        Ok((Typed::Present(Box::new(x)), p))
    }
}

/// Decode array elements up to and past the closing `EndCollection`.
fn decode_elems(events: &Vec<Event>, pos: usize, e: &Shape) -> (r: Result<
    (Vec<Typed>, usize),
    Error,
>)
    ensures
        r is Ok ==> pos < r->Ok_0.1 <= events.len() && dec_elems(
            events.deep_view(),
            pos as int,
            e@,
        ) == Ok::<(Seq<TypedS>, int), ErrS>((Typed::seq_view(r->Ok_0.0@), r->Ok_0.1 as int)),
        r is Err ==> dec_elems(events.deep_view(), pos as int, e@) == Err::<
            (Seq<TypedS>, int),
            ErrS,
        >(r->Err_0@),
    decreases events.len() - pos, opt_depth(e@) + 1, 0int,
{
    if pos >= events.len() {
        return Err(Error::UnexpectedEnd);
    }
    let is_end: bool = match &events[pos] {
        Event::EndCollection => true,
        _ => false,
    };
    if is_end {
        let empty: Vec<Typed> = Vec::new();
        proof {
            assert(Typed::seq_view(empty@) =~= Seq::<TypedS>::empty());
        }
        Ok((empty, pos + 1))
    } else {
        let (x, p) = match decode_value(events, pos, e) {
            Ok(v) => v,
            Err(er) => {
                return Err(er);
            },
        };
        let ghost xv = x@;
        let (mut rest, p2) = match decode_elems(events, p, e) {
            Ok(v) => v,
            Err(er) => {
                return Err(er);
            },
        };
        let ghost oldrest = rest@;
        rest.insert(0, x);
        proof {
            assert(Typed::seq_view(rest@) =~= seq![xv] + Typed::seq_view(oldrest));
        }
        Ok((rest, p2))
    }
}

/// Decode dynamic-map entries up to and past the closing `EndCollection`.
fn decode_pairs(events: &Vec<Event>, pos: usize, k: &Shape, v: &Shape) -> (r: Result<
    (Vec<(Typed, Typed)>, usize),
    Error,
>)
    ensures
        r is Ok ==> pos < r->Ok_0.1 <= events.len() && dec_pairs(
            events.deep_view(),
            pos as int,
            k@,
            v@,
        ) == Ok::<(Seq<(TypedS, TypedS)>, int), ErrS>(
            (Typed::pairs_view(r->Ok_0.0@), r->Ok_0.1 as int),
        ),
        r is Err ==> dec_pairs(events.deep_view(), pos as int, k@, v@) == Err::<
            (Seq<(TypedS, TypedS)>, int),
            ErrS,
        >(r->Err_0@),
    decreases events.len() - pos, opt_depth(k@) + opt_depth(v@) + 1, 0int,
{
    if pos >= events.len() {
        return Err(Error::UnexpectedEnd);
    }
    let is_end: bool = match &events[pos] {
        Event::EndCollection => true,
        _ => false,
    };
    if is_end {
        let empty: Vec<(Typed, Typed)> = Vec::new();
        proof {
            assert(Typed::pairs_view(empty@) =~= Seq::<(TypedS, TypedS)>::empty());
        }
        Ok((empty, pos + 1))
    } else {
        let (kx, p1) = match decode_value(events, pos, k) {
            Ok(r) => r,
            Err(er) => {
                return Err(er);
            },
        };
        let (vx, p2) = match decode_value(events, p1, v) {
            Ok(r) => r,
            Err(er) => {
                return Err(er);
            },
        };
        let ghost kxv = kx@;
        let ghost vxv = vx@;
        let (mut rest, p3) = match decode_pairs(events, p2, k, v) {
            Ok(r) => r,
            Err(er) => {
                return Err(er);
            },
        };
        let ghost oldrest = rest@;
        rest.insert(0, (kx, vx));
        proof {
            assert(Typed::pairs_view(rest@) =~= seq![(kxv, vxv)] + Typed::pairs_view(oldrest));
        }
        Ok((rest, p3))
    }
}

/// `Vec<Option<Typed>>::deep_view` is the elementwise view.
pub broadcast proof fn lemma_slots_view(s: Vec<Option<Typed>>)
    ensures
        (#[trigger] s.deep_view()).len() == s@.len(),
        forall|i: int| 0 <= i < s@.len() ==> s.deep_view()[i] == s@[i].deep_view(),
{
}

/// Decode a fixed record's body into the given slot table, up to and past
/// the closing `EndCollection`.
fn decode_fields(
    events: &Vec<Event>,
    pos: usize,
    fields: &Vec<(String, Shape)>,
    acc: Vec<Option<Typed>>,
) -> (r: Result<(Vec<(String, Typed)>, usize), Error>)
    requires
        acc.len() == fields.len(),
    ensures
        r is Ok ==> pos < r->Ok_0.1 <= events.len() && dec_fields(
            events.deep_view(),
            pos as int,
            Shape::rfields_view(fields@),
            acc.deep_view(),
        ) == Ok::<(Seq<(Seq<char>, TypedS)>, int), ErrS>(
            (Typed::fields_view(r->Ok_0.0@), r->Ok_0.1 as int),
        ),
        r is Err ==> dec_fields(
            events.deep_view(),
            pos as int,
            Shape::rfields_view(fields@),
            acc.deep_view(),
        ) == Err::<(Seq<(Seq<char>, TypedS)>, int), ErrS>(r->Err_0@),
    decreases events.len() - pos, 0int, 0int,
{
    broadcast use lemma_slots_view;

    if pos >= events.len() {
        return Err(Error::UnexpectedEnd);
    }
    match &events[pos] {
        Event::EndCollection => {
            proof {
                let sf = Shape::rfields_view(fields@);
                assert(sf.subrange(0, sf.len() as int) =~= sf);
                assert(acc.deep_view().subrange(0, acc.deep_view().len() as int)
                    =~= acc.deep_view());
            }
            let fs = match fill_fields_vec(fields, 0, acc) {
                Ok(fs) => fs,
                Err(er) => {
                    return Err(er);
                },
            };
            Ok((fs, pos + 1))
        },
        Event::String(k) => {
            proof {
                let sf = Shape::rfields_view(fields@);
                assert(sf.subrange(0, sf.len() as int) =~= sf);
            }
            let i = match find_field_in(fields, 0, k) {
                Some(i) => i,
                None => {
                    return Err(Error::ShapeMismatch);
                },
            };
            let already: bool = match &acc[i] {
                Some(_) => true,
                None => false,
            };
            if already {
                return Err(Error::ShapeMismatch);
            }
            let (x, p) = match &fields[i].1 {
                Shape::Optional(inner) => {
                    let (ix, p) = match decode_value(events, pos + 1, &**inner) {
                        Ok(r) => r,
                        Err(er) => {
                            return Err(er);
                        },
                    };
                    (Typed::Present(Box::new(ix)), p)
                },
                other => {
                    match decode_value(events, pos + 1, other) {
                        Ok(r) => r,
                        Err(er) => {
                            return Err(er);
                        },
                    }
                },
            };
            let ghost accdv = acc.deep_view();
            let ghost xv = x@;
            let mut acc = acc;
            let _ = acc.remove(i);
            acc.insert(i, Some(x));
            proof {
                assert(acc.deep_view() =~= accdv.update(i as int, Some(xv)));
            }
            decode_fields(events, p, fields, acc)
        },
        _ => Err(Error::ShapeMismatch),
    }
}

/// Assemble the decoded record from the slot table, from the given field on:
/// a filled slot gives the field its value, an empty slot yields the field
/// absent when its declared shape is optional, and is the missing-field
/// error otherwise.
fn fill_fields_vec(fields: &Vec<(String, Shape)>, fidx: usize, acc: Vec<Option<Typed>>) -> (r:
    Result<Vec<(String, Typed)>, Error>)
    requires
        fidx <= fields.len(),
        acc.len() == fields.len() - fidx,
    ensures
        r is Ok ==> fill_fields(
            Shape::rfields_view(fields@).subrange(fidx as int, fields@.len() as int),
            acc.deep_view(),
        ) == Ok::<Seq<(Seq<char>, TypedS)>, ErrS>(Typed::fields_view(r->Ok_0@)),
        r is Err ==> fill_fields(
            Shape::rfields_view(fields@).subrange(fidx as int, fields@.len() as int),
            acc.deep_view(),
        ) == Err::<Seq<(Seq<char>, TypedS)>, ErrS>(r->Err_0@),
    decreases fields.len() - fidx,
{
    broadcast use lemma_slots_view;

    proof {
        let sf = Shape::rfields_view(fields@);
        assert(sf.subrange(fidx as int, fields@.len() as int).len() == fields@.len() - fidx);
        if fidx < fields.len() {
            assert(sf.subrange(fidx as int, fields@.len() as int)[0] == (
                fields@[fidx as int].0@,
                fields@[fidx as int].1@,
            ));
            assert(sf.subrange(fidx as int, fields@.len() as int).subrange(
                1,
                fields@.len() - fidx,
            ) =~= sf.subrange(fidx + 1, fields@.len() as int));
        }
    }
    if fidx == fields.len() {
        let empty: Vec<(String, Typed)> = Vec::new();
        proof {
            assert(Typed::fields_view(empty@) =~= Seq::<(Seq<char>, TypedS)>::empty());
        }
        Ok(empty)
    } else {
        let ghost accdv = acc.deep_view();
        let mut acc = acc;
        let head = acc.remove(0);
        proof {
            assert(acc.deep_view() =~= accdv.subrange(1, accdv.len() as int));
        }
        match head {
            Some(x) => {
                let ghost xv = x@;
                let mut rest = match fill_fields_vec(fields, fidx + 1, acc) {
                    Ok(r) => r,
                    Err(er) => {
                        return Err(er);
                    },
                };
                let ghost oldrest = rest@;
                rest.insert(0, (fields[fidx].0.clone(), x));
                proof {
                    assert(Typed::fields_view(rest@) =~= seq![(fields@[fidx as int].0@, xv)]
                        + Typed::fields_view(oldrest));
                }
                Ok(rest)
            },
            None => {
                let is_optional: bool = match &fields[fidx].1 {
                    Shape::Optional(_) => true,
                    _ => false,
                };
                if is_optional {
                    let mut rest = match fill_fields_vec(fields, fidx + 1, acc) {
                        Ok(r) => r,
                        Err(er) => {
                            return Err(er);
                        },
                    };
                    let ghost oldrest = rest@;
                    rest.insert(0, (fields[fidx].0.clone(), Typed::Absent));
                    proof {
                        assert(Typed::fields_view(rest@) =~= seq![
                            (fields@[fidx as int].0@, TypedS::Absent),
                        ] + Typed::fields_view(oldrest));
                    }
                    Ok(rest)
                } else {
                    Err(Error::MissingField(fields[fidx].0.clone()))
                }
            },
        }
    }
}

/// The index of the first declared field carrying a name, from the given
/// index on.
fn find_field_in(fields: &Vec<(String, Shape)>, idx: usize, name: &String) -> (r: Option<usize>)
    requires
        idx <= fields.len(),
    ensures
        match r {
            Some(i) => idx <= i < fields.len() && fields@[i as int].0@ == name@ && find_field(
                Shape::rfields_view(fields@).subrange(idx as int, fields@.len() as int),
                name@,
            ) == Some(i - idx),
            None => find_field(
                Shape::rfields_view(fields@).subrange(idx as int, fields@.len() as int),
                name@,
            ) is None,
        },
    decreases fields.len() - idx,
{
    proof {
        let sf = Shape::rfields_view(fields@);
        assert(sf.subrange(idx as int, fields@.len() as int).len() == fields@.len() - idx);
        if idx < fields.len() {
            assert(sf.subrange(idx as int, fields@.len() as int)[0] == (
                fields@[idx as int].0@,
                fields@[idx as int].1@,
            ));
            assert(sf.subrange(idx as int, fields@.len() as int).subrange(
                1,
                fields@.len() - idx,
            ) =~= sf.subrange(idx + 1, fields@.len() as int));
        }
    }
    if idx < fields.len() {
        if fields[idx].0 == *name {
            Some(idx)
        } else {
            find_field_in(fields, idx + 1, name)
        }
    } else {
        None
    }
}

/// The declared payload shape of the first variant of the given name, from
/// the given index on.
fn find_variant_in(defs: &Vec<(String, VariantShape)>, idx: usize, name: &String) -> (r: Option<
    usize,
>)
    requires
        idx <= defs.len(),
    ensures
        match r {
            Some(i) => idx <= i < defs.len() && defs@[i as int].0@ == name@ && find_variant(
                Shape::vdefs_view(defs@).subrange(idx as int, defs@.len() as int),
                name@,
            ) == Some(defs@[i as int].1@),
            None => find_variant(
                Shape::vdefs_view(defs@).subrange(idx as int, defs@.len() as int),
                name@,
            ) is None,
        },
    decreases defs.len() - idx,
{
    proof {
        let sd = Shape::vdefs_view(defs@);
        assert(sd.subrange(idx as int, defs@.len() as int).len() == defs@.len() - idx);
        if idx < defs.len() {
            assert(sd.subrange(idx as int, defs@.len() as int)[0] == (
                defs@[idx as int].0@,
                defs@[idx as int].1@,
            ));
            assert(sd.subrange(idx as int, defs@.len() as int).subrange(
                1,
                defs@.len() - idx,
            ) =~= sd.subrange(idx + 1, defs@.len() as int));
        }
    }
    if idx < defs.len() {
        if defs[idx].0 == *name {
            Some(idx)
        } else {
            find_variant_in(defs, idx + 1, name)
        }
    } else {
        None
    }
}

/// Decode a variant value against the declared alternatives.
fn decode_variant(events: &Vec<Event>, pos: usize, defs: &Vec<(String, VariantShape)>) -> (r:
    Result<(Typed, usize), Error>)
    ensures
        r is Ok ==> pos < r->Ok_0.1 <= events.len() && dec_variant(
            events.deep_view(),
            pos as int,
            Shape::vdefs_view(defs@),
        ) == Ok::<(TypedS, int), ErrS>((r->Ok_0.0@, r->Ok_0.1 as int)),
        r is Err ==> dec_variant(events.deep_view(), pos as int, Shape::vdefs_view(defs@))
            == Err::<(TypedS, int), ErrS>(r->Err_0@),
    decreases events.len() - pos, 0int, 0int,
{
    proof {
        let sd = Shape::vdefs_view(defs@);
        assert(sd.subrange(0, defs@.len() as int) =~= sd);
    }
    if pos >= events.len() {
        return Err(Error::UnexpectedEnd);
    }
    match &events[pos] {
        Event::String(n) => {
            match find_variant_in(defs, 0, n) {
                Some(i) => {
                    let def_shape = &defs[i].1;
                    proof {
                        assert(*def_shape == defs@[i as int].1);
                    }
                    match def_shape {
                    VariantShape::Unit => {
                        let result = Typed::Variant(n.clone(), VariantArg::Unit);
                        proof {
                            crate::typed::lemma_variant_shape_unit(def_shape);
                            assert(defs@[i as int].1@ == VariantShapeS::Unit);
                            crate::typed::lemma_variant_arg_view(result->Variant_1);
                            assert(result@ == TypedS::Variant(
                                n@,
                                crate::typed::VariantArgS::Unit,
                            ));
                        }
                        Ok((result, pos + 1))
                    },
                    _ => Err(Error::ShapeMismatch),
                    }
                },
                None => Err(Error::UnknownVariant(n.clone())),
            }
        },
        Event::StartDictionary(_) => {
            if pos + 1 >= events.len() {
                return Err(Error::UnexpectedEnd);
            }
            let n = match &events[pos + 1] {
                Event::String(n) => n,
                _ => {
                    return Err(Error::ShapeMismatch);
                },
            };
            let i = match find_variant_in(defs, 0, n) {
                Some(i) => i,
                None => {
                    return Err(Error::UnknownVariant(n.clone()));
                },
            };
            let def_shape = &defs[i].1;
            proof {
                assert(*def_shape == defs@[i as int].1);
            }
            match def_shape {
                VariantShape::Unit => {
                    proof {
                        assert(def_shape is Unit);
                    }
                    if events.len() - pos <= 3 {
                        return Err(Error::UnexpectedEnd);
                    }
                    let payload_ok: bool = match &events[pos + 2] {
                        Event::String(t) => t.as_str().is_empty(),
                        _ => false,
                    };
                    let end_ok: bool = match &events[pos + 3] {
                        Event::EndCollection => true,
                        _ => false,
                    };
                    if payload_ok && end_ok {
                        let result = Typed::Variant(n.clone(), VariantArg::Unit);
                        proof {
                            crate::typed::lemma_variant_shape_unit(def_shape);
                            assert(defs@[i as int].1@ == VariantShapeS::Unit);
                            crate::typed::lemma_variant_arg_view(result->Variant_1);
                            assert(result@ == TypedS::Variant(
                                n@,
                                crate::typed::VariantArgS::Unit,
                            ));
                        }
                        Ok((result, pos + 4))
                    } else {
                        Err(Error::ShapeMismatch)
                    }
                },
                VariantShape::Value(p) => {
                    let (x, q) = match decode_value(events, pos + 2, &**p) {
                        Ok(r) => r,
                        Err(er) => {
                            return Err(er);
                        },
                    };
                    if q >= events.len() {
                        return Err(Error::UnexpectedEnd);
                    }
                    let end_ok: bool = match &events[q] {
                        Event::EndCollection => true,
                        _ => false,
                    };
                    if end_ok {
                        let ghost xv = x@;
                        let result = Typed::Variant(n.clone(), VariantArg::Value(Box::new(x)));
                        proof {
                            crate::typed::lemma_variant_arg_view(result->Variant_1);
                            assert(result@ == TypedS::Variant(
                                n@,
                                crate::typed::VariantArgS::Value(Box::new(xv)),
                            ));
                        }
                        Ok((result, q + 1))
                    } else {
                        Err(Error::ShapeMismatch)
                    }
                },
            }
        },
        _ => Err(Error::ShapeMismatch),
    }
}

} // verus!
