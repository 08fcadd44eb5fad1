//! The encoding engine: a single depth-first walk of a typed value that
//! pushes the event stream standing for it.
//!
//! The optional-value rules: a nested optional costs one wrapper layer per
//! `Present`, and an absent nested optional is a `"None"`-tagged single-pair
//! dictionary. Only the outermost layer is transparent, and only where the
//! surrounding context is schema-known: at the document root and at a
//! fixed-record field, `Present` emits its payload bare and `Absent` emits
//! nothing (for a field, key and value are omitted together).

use vstd::prelude::*;
use vstd::string::StringExecFns;
use crate::event::{Event, EventS, VecWriter};
use crate::typed::{Typed, TypedS, VariantArg, VariantArgS};

verus! {

broadcast use vstd::seq::group_seq_axioms, vstd::std_specs::vec::axiom_vec_index_decreases,
    vstd::std_specs::vec::axiom_vec_decreases_to_view, crate::typed::lemma_seq_view,
    crate::typed::lemma_pairs_view, crate::typed::lemma_fields_view;

/// The wire shape of an absent optional in a nested position: a single-pair
/// dictionary tagged `"None"` carrying the mandated empty-string payload.
pub open spec fn none_marker() -> Seq<EventS> {
    seq![
        EventS::StartDictionary(Some(1u64)),
        EventS::String("None"@),
        EventS::String(Seq::<char>::empty()),
        EventS::EndCollection,
    ]
}

/// How many of a record's fields are present: the count its dictionary's
/// hint must carry, computed after filtering absent-optional fields.
pub open spec fn present_count(fs: Seq<(Seq<char>, TypedS)>) -> nat
    decreases fs,
{
    if fs.len() == 0 {
        0
    } else {
        (if fs[0].1 is Absent {
            0nat
        } else {
            1nat
        }) + present_count(fs.subrange(1, fs.len() as int))
    }
}

/// The event stream for one value in a nested position (an array element, a
/// dictionary key or value, a variant payload, or under a `"Some"` wrapper).
pub open spec fn enc(t: TypedS) -> Seq<EventS>
    decreases t, 0int,
{
    match t {
        TypedS::Boolean(b) => seq![EventS::Boolean(b)],
        TypedS::Integer(i) => seq![EventS::Integer(i)],
        TypedS::Real(s) => seq![EventS::Real(s)],
        TypedS::String(s) => seq![EventS::String(s)],
        TypedS::Uid(u) => seq![EventS::Uid(u)],
        TypedS::Unit => seq![EventS::String(Seq::empty())],
        TypedS::Array(es) => seq![EventS::StartArray(Some(es.len() as u64))] + enc_elems(es)
            + seq![EventS::EndCollection],
        TypedS::Dict(ps) => seq![EventS::StartDictionary(Some(ps.len() as u64))] + enc_pairs(ps)
            + seq![EventS::EndCollection],
        TypedS::Record(fs) => seq![EventS::StartDictionary(Some(present_count(fs) as u64))]
            + enc_fields(fs) + seq![EventS::EndCollection],
        TypedS::Absent => none_marker(),
        TypedS::Present(x) => seq![
            EventS::StartDictionary(Some(1u64)),
            EventS::String("Some"@),
        ] + enc(*x) + seq![EventS::EndCollection],
        TypedS::Variant(n, arg) => match arg {
            VariantArgS::Unit => seq![EventS::String(n)],
            VariantArgS::Value(p) => seq![
                EventS::StartDictionary(Some(1u64)),
                EventS::String(n),
            ] + enc(*p) + seq![EventS::EndCollection],
        },
    }
}

/// The event stream for one value in a transparent position (the document
/// root, or a fixed-record field whose key was written): the outermost
/// optional layer is free of wrapping, and an absent value emits nothing.
pub open spec fn enc_root(t: TypedS) -> Seq<EventS>
    decreases t, 1int,
{
    match t {
        TypedS::Absent => Seq::empty(),
        TypedS::Present(x) => enc(*x),
        _ => enc(t),
    }
}

/// The flat run of events for a sequence's elements.
pub open spec fn enc_elems(es: Seq<TypedS>) -> Seq<EventS>
    decreases es, 0int,
{
    if es.len() == 0 {
        Seq::empty()
    } else {
        enc(es[0]) + enc_elems(es.subrange(1, es.len() as int))
    }
}

/// The flat alternating key/value run for a dynamic map's entries. No entry
/// is omitted: a dynamic map has no schema-level notion of a legitimately
/// missing key, so absence is written explicitly at both key and value
/// positions.
pub open spec fn enc_pairs(ps: Seq<(TypedS, TypedS)>) -> Seq<EventS>
    decreases ps, 0int,
{
    if ps.len() == 0 {
        Seq::empty()
    } else {
        enc(ps[0].0) + enc(ps[0].1) + enc_pairs(ps.subrange(1, ps.len() as int))
    }
}

/// The flat alternating key/value run for a fixed record's fields, in
/// declaration order: a field whose value is absent contributes nothing, and
/// a present field's value is written transparently.
pub open spec fn enc_fields(fs: Seq<(Seq<char>, TypedS)>) -> Seq<EventS>
    decreases fs, 2int,
{
    if fs.len() == 0 {
        Seq::empty()
    } else {
        (if fs[0].1 is Absent {
            Seq::<EventS>::empty()
        } else {
            seq![EventS::String(fs[0].0)] + enc_root(fs[0].1)
        }) + enc_fields(fs.subrange(1, fs.len() as int))
    }
}

/// Encode a typed value as a whole document, returning its event stream.
pub fn encode(value: &Typed) -> (evs: Vec<Event>)
    ensures
        evs.deep_view() == enc_root(value@),
{
    let mut w = VecWriter::new();
    encode_root(value, &mut w);
    w.into_inner()
}

/// Push the event stream of a value standing in a transparent position.
pub fn encode_root(value: &Typed, w: &mut VecWriter)
    ensures
        final(w)@ == old(w)@ + enc_root(value@),
    decreases value, 0int, 2int,
{
    match value {
        Typed::Absent => {
            proof {
                assert(w@ =~~= old(w)@ + enc_root(value@));
            }
        },
        Typed::Present(x) => {
            encode_value(&**x, w);
        },
        _ => {
            encode_value(value, w);
        },
    }
}

/// Push the event stream of a value standing in a nested position.
pub fn encode_value(value: &Typed, w: &mut VecWriter)
    ensures
        final(w)@ == old(w)@ + enc(value@),
    decreases value, 0int, 0int,
{
    match value {
        Typed::Boolean(b) => {
            w.write_boolean(*b);
            proof {
                assert(w@ =~~= old(w)@ + enc(value@));
            }
        },
        Typed::Integer(i) => {
            w.write_integer(*i);
            proof {
                assert(w@ =~~= old(w)@ + enc(value@));
            }
        },
        Typed::Real(r) => {
            w.write_real(r.duplicate());
            proof {
                assert(w@ =~~= old(w)@ + enc(value@));
            }
        },
        Typed::String(s) => {
            w.write_string(s.clone());
            proof {
                assert(w@ =~~= old(w)@ + enc(value@));
            }
        },
        Typed::Uid(u) => {
            w.write_uid(*u);
            proof {
                assert(w@ =~~= old(w)@ + enc(value@));
            }
        },
        Typed::Unit => {
            w.write_string(String::new());
            proof {
                assert(w@ =~~= old(w)@ + enc(value@));
            }
        },
        Typed::Array(es) => {
            w.write_start_array(Some(es.len() as u64));
            encode_elems(es, 0, w);
            w.write_end_collection();
            proof {
                let dv = es.deep_view();
                assert(dv.subrange(0, dv.len() as int) =~= dv);
                assert(dv.len() == es@.len());
                assert((value@)->Array_0 =~= dv);
                assert(value@ == TypedS::Array(dv));
                assert(w@ =~~= old(w)@ + enc(value@));
            }
        },
        Typed::Dict(ps) => {
            w.write_start_dictionary(Some(ps.len() as u64));
            encode_pairs(ps, 0, w);
            w.write_end_collection();
            proof {
                let sv = Typed::pairs_view(ps@);
                assert(sv.subrange(0, sv.len() as int) =~= sv);
                assert(w@ =~~= old(w)@ + enc(value@));
            }
        },
        Typed::Record(fs) => {
            let cnt = count_present(fs, 0);
            w.write_start_dictionary(Some(cnt as u64));
            encode_fields(fs, 0, w);
            w.write_end_collection();
            proof {
                let sv = Typed::fields_view(fs@);
                assert(sv.subrange(0, sv.len() as int) =~= sv);
                assert(w@ =~~= old(w)@ + enc(value@));
            }
        },
        Typed::Absent => {
            w.write_start_dictionary(Some(1));
            w.write_string(String::from_str("None"));
            w.write_string(String::new());
            w.write_end_collection();
            proof {
                assert(w@ =~~= old(w)@ + enc(value@));
            }
        },
        Typed::Present(x) => {
            w.write_start_dictionary(Some(1));
            w.write_string(String::from_str("Some"));
            encode_value(&**x, w);
            w.write_end_collection();
            proof {
                assert(w@ =~~= old(w)@ + enc(value@));
            }
        },
        Typed::Variant(n, arg @ VariantArg::Unit) => {
            w.write_string(n.clone());
            proof {
                assert(value@ is Variant);
                assert((value@)->Variant_0 == n@);
                assert(arg is Unit);
                assert((value@)->Variant_1 == arg@);
                assert(arg@ == VariantArgS::Unit);
                assert(value@ == TypedS::Variant(n@, VariantArgS::Unit));
                assert(w@ =~~= old(w)@ + enc(value@));
            }
        },
        Typed::Variant(n, arg @ VariantArg::Value(p)) => {
            w.write_start_dictionary(Some(1));
            w.write_string(n.clone());
            encode_value(&**p, w);
            w.write_end_collection();
            proof {
                assert((value@)->Variant_1 == arg@);
                assert(arg@ == VariantArgS::Value(Box::new((**p)@)));
                assert(value@ == TypedS::Variant(n@, VariantArgS::Value(Box::new((**p)@))));
                assert(w@ =~~= old(w)@ + enc(value@));
            }
        },
    }
}

/// How many fields from the given index on are present.
fn count_present(fs: &Vec<(String, Typed)>, idx: usize) -> (r: usize)
    requires
        idx <= fs.len(),
    ensures
        r as nat == present_count(
            Typed::fields_view(fs@).subrange(idx as int, fs@.len() as int),
        ),
        r <= fs.len() - idx,
    decreases fs.len() - idx,
{
    proof {
        let sv = Typed::fields_view(fs@);
        let tail = sv.subrange(idx as int, fs@.len() as int);
        if idx < fs.len() {
            assert(tail[0] == (fs@[idx as int].0@, fs@[idx as int].1@));
            assert(tail.subrange(1, tail.len() as int) =~= sv.subrange(
                idx + 1,
                fs@.len() as int,
            ));
        } else {
            assert(tail =~= Seq::<(Seq<char>, TypedS)>::empty());
        }
    }
    if idx < fs.len() {
        let rest = count_present(fs, idx + 1);
        match &fs[idx].1 {
            Typed::Absent => rest,
            _ => rest + 1,
        }
    } else {
        0
    }
}

/// Push the elements of a sequence from the given index on.
fn encode_elems(es: &Vec<Typed>, idx: usize, w: &mut VecWriter)
    requires
        idx <= es.len(),
    ensures
        final(w)@ == old(w)@ + enc_elems(
            Typed::seq_view(es@).subrange(idx as int, es@.len() as int),
        ),
    decreases es, es.len() - idx, 1int,
{
    if idx < es.len() {
        encode_value(&es[idx], w);
        encode_elems(es, idx + 1, w);
        proof {
            let sv = Typed::seq_view(es@);
            let tail = sv.subrange(idx as int, es@.len() as int);
            assert(tail[0] == es[idx as int]@);
            assert(tail.subrange(1, tail.len() as int) =~= sv.subrange(
                idx + 1,
                es@.len() as int,
            ));
            assert(w@ =~~= old(w)@ + enc_elems(tail));
        }
    } else {
        proof {
            let sv = Typed::seq_view(es@);
            assert(sv.subrange(idx as int, es@.len() as int) =~= Seq::<TypedS>::empty());
            assert(w@ =~~= old(w)@ + enc_elems(sv.subrange(idx as int, es@.len() as int)));
        }
    }
}

/// Push the key/value runs of a dynamic map's entries from the given index on.
fn encode_pairs(ps: &Vec<(Typed, Typed)>, idx: usize, w: &mut VecWriter)
    requires
        idx <= ps.len(),
    ensures
        final(w)@ == old(w)@ + enc_pairs(
            Typed::pairs_view(ps@).subrange(idx as int, ps@.len() as int),
        ),
    decreases ps, ps.len() - idx, 1int,
{
    if idx < ps.len() {
        encode_value(&ps[idx].0, w);
        encode_value(&ps[idx].1, w);
        encode_pairs(ps, idx + 1, w);
        proof {
            let sv = Typed::pairs_view(ps@);
            let tail = sv.subrange(idx as int, ps@.len() as int);
            assert(tail[0] == (ps[idx as int].0@, ps[idx as int].1@));
            assert(tail.subrange(1, tail.len() as int) =~= sv.subrange(
                idx + 1,
                ps@.len() as int,
            ));
            assert(w@ =~~= old(w)@ + enc_pairs(tail));
        }
    } else {
        proof {
            let sv = Typed::pairs_view(ps@);
            assert(sv.subrange(idx as int, ps@.len() as int) =~= Seq::<(TypedS, TypedS)>::empty());
            assert(w@ =~~= old(w)@ + enc_pairs(sv.subrange(idx as int, ps@.len() as int)));
        }
    }
}

/// Push the key/value runs of a record's fields from the given index on,
/// omitting absent fields.
fn encode_fields(fs: &Vec<(String, Typed)>, idx: usize, w: &mut VecWriter)
    requires
        idx <= fs.len(),
    ensures
        final(w)@ == old(w)@ + enc_fields(
            Typed::fields_view(fs@).subrange(idx as int, fs@.len() as int),
        ),
    decreases fs, fs.len() - idx, 1int,
{
    if idx < fs.len() {
        match &fs[idx].1 {
            Typed::Absent => {},
            _ => {
                w.write_string(fs[idx].0.clone());
                encode_root(&fs[idx].1, w);
            },
        }
        encode_fields(fs, idx + 1, w);
        proof {
            let sv = Typed::fields_view(fs@);
            let tail = sv.subrange(idx as int, fs@.len() as int);
            assert(tail[0] == (fs[idx as int].0@, fs[idx as int].1@));
            assert(tail.subrange(1, tail.len() as int) =~= sv.subrange(
                idx + 1,
                fs@.len() as int,
            ));
            assert(w@ =~~= old(w)@ + enc_fields(tail));
        }
    } else {
        proof {
            let sv = Typed::fields_view(fs@);
            assert(sv.subrange(idx as int, fs@.len() as int) =~= Seq::<
                (Seq<char>, TypedS),
            >::empty());
            assert(w@ =~~= old(w)@ + enc_fields(sv.subrange(idx as int, fs@.len() as int)));
        }
    }
}

} // verus!
