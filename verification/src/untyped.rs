//! Decoding without a shape: an event stream rebuilt as a standalone tree
//! value, with dictionaries gathered through ordered insertion.

use vstd::prelude::*;
use crate::decode::{ErrS, Error};
use crate::event::{Event, EventS};
use crate::value::{dict_insert, Dictionary, Value, ValueS};

verus! {

broadcast use vstd::seq::group_seq_axioms, vstd::std_specs::vec::axiom_vec_index_decreases,
    vstd::std_specs::vec::axiom_vec_decreases_to_view, crate::value::lemma_entries_view,
    crate::value::lemma_vals_view, crate::decode::lemma_events_view;

/// The entries of a dictionary built by storing the given key/value pairs in
/// order: a repeated key overwrites in place.
pub open spec fn fold_insert(
    acc: Seq<(Seq<char>, ValueS)>,
    pairs: Seq<(Seq<char>, ValueS)>,
) -> Seq<(Seq<char>, ValueS)>
    decreases pairs.len(),
{
    if pairs.len() == 0 {
        acc
    } else {
        fold_insert(
            dict_insert(acc, pairs[0].0, pairs[0].1),
            pairs.subrange(1, pairs.len() as int),
        )
    }
}

/// Decode one untyped value at the given position.
pub open spec fn udec(evs: Seq<EventS>, pos: int) -> Result<(ValueS, int), ErrS>
    decreases evs.len() - pos, 0int,
{
    if pos < 0 || pos >= evs.len() {
        Err(ErrS::UnexpectedEnd)
    } else {
        match evs[pos] {
            EventS::Boolean(b) => Ok((ValueS::Boolean(b), pos + 1)),
            EventS::Integer(i) => Ok((ValueS::Integer(i), pos + 1)),
            EventS::Real(t) => Ok((ValueS::Real(t), pos + 1)),
            EventS::String(t) => Ok((ValueS::String(t), pos + 1)),
            EventS::Uid(u) => Ok((ValueS::Uid(u), pos + 1)),
            EventS::StartDictionary(_) => match udec_pairs(evs, pos + 1) {
                Ok((pairs, p)) => Ok(
                    (ValueS::Dictionary(fold_insert(Seq::empty(), pairs)), p),
                ),
                Err(er) => Err(er),
            },
            EventS::StartArray(_) => match udec_elems(evs, pos + 1) {
                Ok((vs, p)) => Ok((ValueS::Array(vs), p)),
                Err(er) => Err(er),
            },
            EventS::EndCollection => Err(ErrS::ShapeMismatch),
        }
    }
}

/// Decode a dictionary body: string keys alternating with values, up to and
/// past the closing `EndCollection`, kept in stream order.
pub open spec fn udec_pairs(evs: Seq<EventS>, pos: int) -> Result<
    (Seq<(Seq<char>, ValueS)>, int),
    ErrS,
>
    decreases evs.len() - pos, 1int,
{
    if pos < 0 || pos >= evs.len() {
        Err(ErrS::UnexpectedEnd)
    } else if evs[pos] is EndCollection {
        Ok((Seq::empty(), pos + 1))
    } else if evs[pos] is String {
        let key = (evs[pos])->String_0;
        match udec(evs, pos + 1) {
            Ok((v, p1)) => if pos + 1 <= p1 <= evs.len() {
                match udec_pairs(evs, p1) {
                    Ok((rest, p2)) => Ok((seq![(key, v)] + rest, p2)),
                    Err(er) => Err(er),
                }
            } else {
                Err(ErrS::ShapeMismatch)
            },
            Err(er) => Err(er),
        }
    } else {
        Err(ErrS::ShapeMismatch)
    }
}

/// Decode an array body up to and past the closing `EndCollection`.
pub open spec fn udec_elems(evs: Seq<EventS>, pos: int) -> Result<(Seq<ValueS>, int), ErrS>
    decreases evs.len() - pos, 1int,
{
    if pos < 0 || pos >= evs.len() {
        Err(ErrS::UnexpectedEnd)
    } else if evs[pos] is EndCollection {
        Ok((Seq::empty(), pos + 1))
    } else {
        match udec(evs, pos) {
            Ok((v, p1)) => if pos < p1 <= evs.len() {
                match udec_elems(evs, p1) {
                    Ok((rest, p2)) => Ok((seq![v] + rest, p2)),
                    Err(er) => Err(er),
                }
            } else {
                Err(ErrS::ShapeMismatch)
            },
            Err(er) => Err(er),
        }
    }
}

/// Decode a whole untyped document, consuming the stream exactly.
pub open spec fn udec_root(evs: Seq<EventS>) -> Result<ValueS, ErrS> {
    match udec(evs, 0) {
        Ok((v, p)) => if p == evs.len() {
            Ok(v)
        } else {
            Err(ErrS::TrailingContent)
        },
        Err(er) => Err(er),
    }
}

/// Decode a whole document with no static shape, consuming the stream
/// exactly.
pub fn decode_untyped(events: &Vec<Event>) -> (r: Result<Value, Error>)
    ensures
        r is Ok ==> udec_root(events.deep_view()) == Ok::<ValueS, ErrS>(r->Ok_0@),
        r is Err ==> udec_root(events.deep_view()) == Err::<ValueS, ErrS>(r->Err_0@),
{
    let (v, p) = match decode_uvalue(events, 0) {
        Ok(r) => r,
        Err(e) => {
            return Err(e);
        },
    };
    if p == events.len() {
        Ok(v)
    } else {
        Err(Error::TrailingContent)
    }
}

/// Decode one untyped value, returning it and the position just past it.
fn decode_uvalue(events: &Vec<Event>, pos: usize) -> (r: Result<(Value, usize), Error>)
    ensures
        r is Ok ==> pos < r->Ok_0.1 <= events.len() && udec(events.deep_view(), pos as int)
            == Ok::<(ValueS, int), ErrS>((r->Ok_0.0@, r->Ok_0.1 as int)),
        r is Err ==> udec(events.deep_view(), pos as int) == Err::<(ValueS, int), ErrS>(
            r->Err_0@,
        ),
    decreases events.len() - pos, 0int,
{
    if pos >= events.len() {
        return Err(Error::UnexpectedEnd);
    }
    match &events[pos] {
        Event::Boolean(b) => Ok((Value::Boolean(*b), pos + 1)),
        Event::Integer(i) => Ok((Value::Integer(*i), pos + 1)),
        Event::Real(t) => Ok((Value::Real(t.duplicate()), pos + 1)),
        Event::String(t) => Ok((Value::String(t.clone()), pos + 1)),
        Event::Uid(u) => Ok((Value::Uid(*u), pos + 1)),
        Event::StartDictionary(_) => {
            let mut d = Dictionary::new();
            let p = match decode_upairs(events, pos + 1, &mut d) {
                Ok(p) => p,
                Err(e) => {
                    return Err(e);
                },
            };
            Ok((Value::Dictionary(d), p))
        },
        Event::StartArray(_) => {
            let (vs, p) = match decode_uelems(events, pos + 1) {
                Ok(r) => r,
                Err(e) => {
                    return Err(e);
                },
            };
            Ok((Value::Array(vs), p))
        },
        Event::EndCollection => Err(Error::ShapeMismatch),
    }
}

/// Decode a dictionary body into the dictionary, storing each pair in order.
fn decode_upairs(events: &Vec<Event>, pos: usize, d: &mut Dictionary) -> (r: Result<usize, Error>)
    ensures
        r is Ok ==> pos < r->Ok_0 <= events.len() && (match udec_pairs(
            events.deep_view(),
            pos as int,
        ) {
            Ok((pairs, p)) => p == r->Ok_0 as int && final(d)@ == fold_insert(old(d)@, pairs),
            Err(_) => false,
        }),
        r is Err ==> udec_pairs(events.deep_view(), pos as int) == Err::<
            (Seq<(Seq<char>, ValueS)>, int),
            ErrS,
        >(r->Err_0@),
    decreases events.len() - pos, 1int,
{
    if pos >= events.len() {
        return Err(Error::UnexpectedEnd);
    }
    match &events[pos] {
        Event::EndCollection => Ok(pos + 1),
        Event::String(k) => {
            let key = k.clone();
            let (v, p1) = match decode_uvalue(events, pos + 1) {
                Ok(r) => r,
                Err(e) => {
                    return Err(e);
                },
            };
            let ghost kv = key@;
            let ghost vv = v@;
            d.insert(key, v);
            let p2 = match decode_upairs(events, p1, d) {
                Ok(p) => p,
                Err(e) => {
                    return Err(e);
                },
            };
            proof {
                let dv = events.deep_view();
                let pairs = udec_pairs(dv, pos as int)->Ok_0.0;
                let rest = udec_pairs(dv, p1 as int)->Ok_0.0;
                assert(pairs == seq![(kv, vv)] + rest);
                assert((seq![(kv, vv)] + rest).subrange(1, (seq![(kv, vv)] + rest).len() as int)
                    =~= rest);
                assert(fold_insert(old(d)@, pairs) == fold_insert(
                    dict_insert(old(d)@, kv, vv),
                    rest,
                ));
            }
            Ok(p2)
        },
        _ => Err(Error::ShapeMismatch),
    }
}

/// Decode an array body, collecting the elements in order.
fn decode_uelems(events: &Vec<Event>, pos: usize) -> (r: Result<(Vec<Value>, usize), Error>)
    ensures
        r is Ok ==> pos < r->Ok_0.1 <= events.len() && udec_elems(events.deep_view(), pos as int)
            == Ok::<(Seq<ValueS>, int), ErrS>((Value::vals_view(r->Ok_0.0@), r->Ok_0.1 as int)),
        r is Err ==> udec_elems(events.deep_view(), pos as int) == Err::<
            (Seq<ValueS>, int),
            ErrS,
        >(r->Err_0@),
    decreases events.len() - pos, 1int,
{
    if pos >= events.len() {
        return Err(Error::UnexpectedEnd);
    }
    let is_end: bool = match &events[pos] {
        Event::EndCollection => true,
        _ => false,
    };
    if is_end {
        let empty: Vec<Value> = Vec::new();
        proof {
            assert(Value::vals_view(empty@) =~= Seq::<ValueS>::empty());
        }
        Ok((empty, pos + 1))
    } else {
        let (x, p1) = match decode_uvalue(events, pos) {
            Ok(r) => r,
            Err(e) => {
                return Err(e);
            },
        };
        let ghost xv = x@;
        let (mut rest, p2) = match decode_uelems(events, p1) {
            Ok(r) => r,
            Err(e) => {
                return Err(e);
            },
        };
        let ghost oldrest = rest@;
        rest.insert(0, x);
        proof {
            assert(Value::vals_view(rest@) =~= seq![xv] + Value::vals_view(oldrest));
        }
        Ok((rest, p2))
    }
}

} // verus!
