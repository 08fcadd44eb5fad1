//! The laws the codec obeys, proved once and for all: decoding is the exact
//! inverse of encoding for every well-shaped value, record-field omission,
//! explicit absence in dynamic maps, preservation of optional nesting depth,
//! the legacy unit-variant fallback, and preservation of dictionary order.

use vstd::prelude::*;
use crate::event::EventS;
use crate::typed::{distinct_names, find_variant, fits, is_opt, wf_shape, ShapeS, TypedS, VariantArgS, VariantShapeS};
use crate::encode::{enc, enc_elems, enc_fields, enc_pairs, enc_root, none_marker, present_count};
use crate::decode::{dec, dec_elems, dec_fields, dec_opt, dec_pairs, dec_root, dec_variant, empty_slots, fill_fields, find_field, ErrS};

verus! {

broadcast use vstd::seq::group_seq_axioms;

/// Every encoded value is at least one event long, and never begins with the
/// token that closes a collection.
pub proof fn lemma_enc_head(t: TypedS)
    ensures
        enc(t).len() >= 1,
        !(enc(t)[0] is EndCollection),
{
    match t {
        TypedS::Variant(n, arg) => {
            match arg {
                VariantArgS::Unit => {},
                VariantArgS::Value(_) => {},
            }
        },
        _ => {},
    }
}

/// What `find_variant` returns is one of the declared variants.
pub proof fn lemma_find_variant_mem(defs: Seq<(Seq<char>, VariantShapeS)>, name: Seq<char>)
    ensures
        find_variant(defs, name) is Some ==> exists|i: int|
            0 <= i < defs.len() && #[trigger] defs[i] == (name, find_variant(defs, name)->Some_0),
    decreases defs.len(),
{
    if defs.len() > 0 && defs[0].0 != name {
        let sub = defs.subrange(1, defs.len() as int);
        lemma_find_variant_mem(sub, name);
        if find_variant(defs, name) is Some {
            let i = choose|i: int|
                0 <= i < sub.len() && #[trigger] sub[i] == (name, find_variant(sub, name)->Some_0);
            assert(defs[i + 1] == (name, find_variant(defs, name)->Some_0));
        }
    }
}

/// A window into a window: a subrange of a matched event run is the matching
/// subrange of the run itself.
pub proof fn lemma_sub_sub(evs: Seq<EventS>, pos: int, e: Seq<EventS>, lo: int, hi: int)
    requires
        0 <= pos,
        pos + e.len() <= evs.len(),
        evs.subrange(pos, pos + e.len() as int) == e,
        0 <= lo <= hi <= e.len(),
    ensures
        evs.subrange(pos + lo, pos + hi) == e.subrange(lo, hi),
{
    assert(evs.subrange(pos + lo, pos + hi) =~= evs.subrange(pos, pos + e.len() as int).subrange(
        lo,
        hi,
    ));
}

/// Decoding reads back exactly what encoding wrote, wherever the stream
/// stands: the central round-trip step for one nested value.
pub proof fn lemma_rt(evs: Seq<EventS>, pos: int, v: TypedS, s: ShapeS)
    requires
        wf_shape(s),
        fits(v, s),
        0 <= pos,
        pos + enc(v).len() <= evs.len(),
        evs.subrange(pos, pos + enc(v).len()) == enc(v),
    ensures
        dec(evs, pos, s) == Ok::<(TypedS, int), crate::decode::ErrS>((v, pos + enc(v).len())),
    decreases v, 0nat, 0nat,
{
    reveal_strlit("None");
    reveal_strlit("Some");
    lemma_enc_head(v);
    let e = enc(v);
    match v {
        TypedS::Boolean(_) => {},
        TypedS::Integer(_) => {},
        TypedS::Real(_) => {},
        TypedS::String(_) => {},
        TypedS::Uid(_) => {},
        TypedS::Unit => {},
        TypedS::Array(es) => {
            let elem = s->Array_0;
            let body = enc_elems(es);
            assert(evs[pos] == e[0]);
            lemma_sub_sub(evs, pos, e, 1, 1 + body.len() as int);
            assert(e.subrange(1, 1 + body.len() as int) =~= body);
            assert(evs[pos + 1 + body.len()] == e[1 + body.len() as int]);
            lemma_rt_elems(evs, pos + 1, es, *elem);
        },
        TypedS::Dict(ps) => {
            let k = s->Dict_0;
            let w = s->Dict_1;
            let body = enc_pairs(ps);
            assert(evs[pos] == e[0]);
            lemma_sub_sub(evs, pos, e, 1, 1 + body.len() as int);
            assert(e.subrange(1, 1 + body.len() as int) =~= body);
            assert(evs[pos + 1 + body.len()] == e[1 + body.len() as int]);
            lemma_rt_pairs(evs, pos + 1, ps, *k, *w);
        },
        TypedS::Record(fs) => {
            let sfs = s->Record_0;
            let body = enc_fields(fs);
            assert(evs[pos] == e[0]);
            lemma_sub_sub(evs, pos, e, 1, 1 + body.len() as int);
            assert(e.subrange(1, 1 + body.len() as int) =~= body);
            assert(evs[pos + 1 + body.len()] == e[1 + body.len() as int]);
            let acc0 = empty_slots(sfs.len());
            assert(fs.subrange(0, fs.len() as int) =~= fs);
            assert(forall|i: int| 0 <= i < fs.len() ==> (#[trigger] acc0[i]) is None);
            lemma_rt_fields(evs, pos + 1, fs, sfs, 0, acc0);
        },
        TypedS::Absent => {
            let inner = s->Optional_0;
            assert(evs[pos] == e[0]);
            assert(evs[pos + 1] == e[1]);
            assert(evs[pos + 2] == e[2]);
            assert(evs[pos + 3] == e[3]);
            assert(dec_opt(evs, pos, *inner) == Ok::<(TypedS, int), crate::decode::ErrS>((TypedS::Absent, pos + 4)));
        },
        TypedS::Present(x) => {
            let inner = s->Optional_0;
            let body = enc(*x);
            assert(evs[pos] == e[0]);
            assert(evs[pos + 1] == e[1]);
            assert("Some"@ != "None"@) by {
                assert("Some"@[0] == 'S');
                assert("None"@[0] == 'N');
            }
            lemma_sub_sub(evs, pos, e, 2, 2 + body.len() as int);
            assert(e.subrange(2, 2 + body.len() as int) =~= body);
            lemma_rt(evs, pos + 2, *x, *inner);
            assert(evs[pos + 2 + body.len()] == e[2 + body.len() as int]);
            assert(dec_opt(evs, pos, *inner) == Ok::<(TypedS, int), crate::decode::ErrS>(
                (TypedS::Present(x), pos + 2 + body.len() + 1),
            ));
        },
        TypedS::Variant(n, arg) => {
            let defs = s->Variant_0;
            match arg {
                VariantArgS::Unit => {
                    assert(evs[pos] == e[0]);
                    assert(find_variant(defs, n) == Some(VariantShapeS::Unit));
                },
                VariantArgS::Value(p) => {
                    let ps = find_variant(defs, n)->Some_0->Value_0;
                    lemma_find_variant_mem(defs, n);
                    assert(wf_shape(*ps)) by {
                        let i = choose|i: int|
                            0 <= i < defs.len() && #[trigger] defs[i] == (
                                n,
                                find_variant(defs, n)->Some_0,
                            );
                        assert(defs[i].1 == VariantShapeS::Value(ps));
                    }
                    let body = enc(*p);
                    assert(evs[pos] == e[0]);
                    assert(evs[pos + 1] == e[1]);
                    lemma_sub_sub(evs, pos, e, 2, 2 + body.len() as int);
                    assert(e.subrange(2, 2 + body.len() as int) =~= body);
                    lemma_rt(evs, pos + 2, *p, *ps);
                    assert(evs[pos + 2 + body.len()] == e[2 + body.len() as int]);
                    assert(dec_variant(evs, pos, defs) == Ok::<
                        (TypedS, int),
                        crate::decode::ErrS,
                    >((v, pos + 2 + body.len() + 1)));
                },
            }
        },
    }
}

/// Round-trip step for the element run of a sequence.
pub proof fn lemma_rt_elems(evs: Seq<EventS>, pos: int, es: Seq<TypedS>, e: ShapeS)
    requires
        wf_shape(e),
        forall|i: int| 0 <= i < es.len() ==> fits(#[trigger] es[i], e),
        0 <= pos,
        pos + enc_elems(es).len() + 1 <= evs.len(),
        evs.subrange(pos, pos + enc_elems(es).len()) == enc_elems(es),
        evs[pos + enc_elems(es).len()] == EventS::EndCollection,
    ensures
        dec_elems(evs, pos, e) == Ok::<(Seq<TypedS>, int), crate::decode::ErrS>((es, pos + enc_elems(es).len() + 1)),
    decreases es, 0nat, 1nat,
{
    let body = enc_elems(es);
    if es.len() == 0 {
        assert(es =~= Seq::<TypedS>::empty());
        assert(evs[pos] is EndCollection);
    } else {
        let rest = es.subrange(1, es.len() as int);
        let head = enc(es[0]);
        lemma_enc_head(es[0]);
        assert(evs[pos] == body[0]);
        assert(body[0] == head[0]);
        assert(!(evs[pos] is EndCollection));
        lemma_sub_sub(evs, pos, body, 0, head.len() as int);
        assert(body.subrange(0, head.len() as int) =~= head);
        lemma_rt(evs, pos, es[0], e);
        let p1 = pos + head.len();
        lemma_sub_sub(evs, pos, body, head.len() as int, body.len() as int);
        assert(body.subrange(head.len() as int, body.len() as int) =~= enc_elems(rest));
        assert(evs[p1 + enc_elems(rest).len()] == EventS::EndCollection);
        lemma_rt_elems(evs, p1, rest, e);
        assert(seq![es[0]] + rest =~= es);
    }
}

/// Round-trip step for the key/value run of a dynamic map.
pub proof fn lemma_rt_pairs(evs: Seq<EventS>, pos: int, ps: Seq<(TypedS, TypedS)>, k: ShapeS, w: ShapeS)
    requires
        wf_shape(k),
        wf_shape(w),
        forall|i: int|
            0 <= i < ps.len() ==> fits((#[trigger] ps[i]).0, k) && fits(ps[i].1, w),
        0 <= pos,
        pos + enc_pairs(ps).len() + 1 <= evs.len(),
        evs.subrange(pos, pos + enc_pairs(ps).len()) == enc_pairs(ps),
        evs[pos + enc_pairs(ps).len()] == EventS::EndCollection,
    ensures
        dec_pairs(evs, pos, k, w) == Ok::<(Seq<(TypedS, TypedS)>, int), crate::decode::ErrS>((ps, pos + enc_pairs(ps).len() + 1)),
    decreases ps, 0nat, 1nat,
{
    let body = enc_pairs(ps);
    if ps.len() == 0 {
        assert(ps =~= Seq::<(TypedS, TypedS)>::empty());
        assert(evs[pos] is EndCollection);
    } else {
        let rest = ps.subrange(1, ps.len() as int);
        let khead = enc(ps[0].0);
        let vhead = enc(ps[0].1);
        lemma_enc_head(ps[0].0);
        lemma_enc_head(ps[0].1);
        assert(evs[pos] == body[0]);
        assert(body[0] == khead[0]);
        assert(!(evs[pos] is EndCollection));
        lemma_sub_sub(evs, pos, body, 0, khead.len() as int);
        assert(body.subrange(0, khead.len() as int) =~= khead);
        lemma_rt(evs, pos, ps[0].0, k);
        let p1 = pos + khead.len();
        lemma_sub_sub(evs, pos, body, khead.len() as int, khead.len() + vhead.len() as int);
        assert(body.subrange(khead.len() as int, khead.len() + vhead.len() as int) =~= vhead);
        lemma_rt(evs, p1, ps[0].1, w);
        let p2 = p1 + vhead.len();
        lemma_sub_sub(evs, pos, body, khead.len() + vhead.len() as int, body.len() as int);
        assert(body.subrange(khead.len() + vhead.len() as int, body.len() as int) =~= enc_pairs(rest));
        assert(evs[p2 + enc_pairs(rest).len()] == EventS::EndCollection);
        lemma_rt_pairs(evs, p2, rest, k, w);
        assert(seq![(ps[0].0, ps[0].1)] + rest =~= ps);
    }
}

/// The first declared field carrying one of a run of distinct names stands
/// at its own position.
pub proof fn lemma_find_field_at(sfs: Seq<(Seq<char>, ShapeS)>, j: int)
    requires
        distinct_names(sfs.map_values(|f: (Seq<char>, ShapeS)| f.0)),
        0 <= j < sfs.len(),
    ensures
        find_field(sfs, sfs[j].0) == Some(j),
    decreases j,
{
    let srest = sfs.subrange(1, sfs.len() as int);
    if j > 0 {
        let names = sfs.map_values(|f: (Seq<char>, ShapeS)| f.0);
        assert(names[0] == sfs[0].0 && names[j] == sfs[j].0);
        assert(sfs[0].0 != sfs[j].0);
        assert(distinct_names(srest.map_values(|f: (Seq<char>, ShapeS)| f.0))) by {
            let rnames = srest.map_values(|f: (Seq<char>, ShapeS)| f.0);
            assert(forall|i: int| 0 <= i < rnames.len() ==> rnames[i] == names[i + 1]);
        }
        assert(srest[j - 1] == sfs[j]);
        lemma_find_field_at(srest, j - 1);
    }
}

/// A complete slot table assembles to exactly the record's fields: decoded
/// slots carry the present values, empty slots the absent optionals.
pub proof fn lemma_fill_fields(
    fs: Seq<(Seq<char>, TypedS)>,
    sfs: Seq<(Seq<char>, ShapeS)>,
    acc: Seq<Option<TypedS>>,
)
    requires
        fs.len() == sfs.len(),
        acc.len() == fs.len(),
        forall|i: int| 0 <= i < fs.len() ==> (#[trigger] fs[i]).0 == sfs[i].0,
        forall|i: int| 0 <= i < fs.len() ==> fits((#[trigger] fs[i]).1, sfs[i].1),
        forall|i: int|
            0 <= i < fs.len() ==> acc[i] == (if (#[trigger] fs[i]).1 is Absent {
                None::<TypedS>
            } else {
                Some(fs[i].1)
            }),
    ensures
        fill_fields(sfs, acc) == Ok::<Seq<(Seq<char>, TypedS)>, ErrS>(fs),
    decreases fs.len(),
{
    if fs.len() == 0 {
        assert(fs =~= Seq::<(Seq<char>, TypedS)>::empty());
        assert(sfs =~= Seq::<(Seq<char>, ShapeS)>::empty());
    } else {
        let frest = fs.subrange(1, fs.len() as int);
        let srest = sfs.subrange(1, sfs.len() as int);
        let arest = acc.subrange(1, acc.len() as int);
        lemma_fill_fields(frest, srest, arest);
        if fs[0].1 is Absent {
            assert(sfs[0].1 is Optional);
            assert((sfs[0].0, TypedS::Absent) == fs[0]);
        } else {
            assert((sfs[0].0, fs[0].1) == fs[0]);
        }
        assert(seq![fs[0]] + frest =~= fs);
    }
}

/// Round-trip step for a record's body: the encoder writes the present
/// fields in declaration order, the decoder reads them back into the slot
/// table and assembles the record, omitted fields coming back absent.
pub proof fn lemma_rt_fields(
    evs: Seq<EventS>,
    pos: int,
    fs: Seq<(Seq<char>, TypedS)>,
    sfs: Seq<(Seq<char>, ShapeS)>,
    j: int,
    acc: Seq<Option<TypedS>>,
)
    requires
        distinct_names(sfs.map_values(|f: (Seq<char>, ShapeS)| f.0)),
        forall|i: int| 0 <= i < sfs.len() ==> wf_shape(#[trigger] sfs[i].1),
        fs.len() == sfs.len(),
        forall|i: int| 0 <= i < fs.len() ==> (#[trigger] fs[i]).0 == sfs[i].0,
        forall|i: int| 0 <= i < fs.len() ==> fits((#[trigger] fs[i]).1, sfs[i].1),
        0 <= j <= fs.len(),
        acc.len() == fs.len(),
        forall|i: int|
            0 <= i < j ==> acc[i] == (if (#[trigger] fs[i]).1 is Absent {
                None::<TypedS>
            } else {
                Some(fs[i].1)
            }),
        forall|i: int| j <= i < fs.len() ==> (#[trigger] acc[i]) is None,
        0 <= pos,
        pos + enc_fields(fs.subrange(j, fs.len() as int)).len() + 1 <= evs.len(),
        evs.subrange(pos, pos + enc_fields(fs.subrange(j, fs.len() as int)).len()) == enc_fields(
            fs.subrange(j, fs.len() as int),
        ),
        evs[pos + enc_fields(fs.subrange(j, fs.len() as int)).len()] == EventS::EndCollection,
    ensures
        dec_fields(evs, pos, sfs, acc) == Ok::<(Seq<(Seq<char>, TypedS)>, int), ErrS>(
            (fs, pos + enc_fields(fs.subrange(j, fs.len() as int)).len() + 1),
        ),
    decreases fs, fs.len() - j, 1nat,
{
    let tail = fs.subrange(j, fs.len() as int);
    let body = enc_fields(tail);
    if j == fs.len() {
        assert(tail =~= Seq::<(Seq<char>, TypedS)>::empty());
        assert(evs[pos] is EndCollection);
        lemma_fill_fields(fs, sfs, acc);
    } else {
        assert(tail[0] == fs[j]);
        assert(tail.subrange(1, tail.len() as int) =~= fs.subrange(j + 1, fs.len() as int));
        let rest2 = fs.subrange(j + 1, fs.len() as int);
        if fs[j].1 is Absent {
            assert(body == enc_fields(rest2));
            lemma_rt_fields(evs, pos, fs, sfs, j + 1, acc);
        } else {
            let vhead = enc_root(fs[j].1);
            assert(body == (seq![EventS::String(fs[j].0)] + vhead) + enc_fields(rest2));
            assert(evs[pos] == body[0]);
            assert(body[0] == EventS::String(sfs[j].0));
            lemma_find_field_at(sfs, j);
            assert(acc[j] is None);
            let p1 = pos + 1 + vhead.len();
            lemma_sub_sub(evs, pos, body, 1, 1 + vhead.len() as int);
            assert(body.subrange(1, 1 + vhead.len() as int) =~= vhead);
            match sfs[j].1 {
                ShapeS::Optional(inner) => {
                    assert(fs[j].1 is Present);
                    let x = fs[j].1->Present_0;
                    assert(vhead == enc(*x));
                    lemma_rt(evs, pos + 1, *x, *inner);
                },
                _ => {
                    assert(!is_opt(fs[j].1));
                    assert(vhead == enc(fs[j].1));
                    lemma_rt(evs, pos + 1, fs[j].1, sfs[j].1);
                },
            }
            lemma_sub_sub(evs, pos, body, 1 + vhead.len() as int, body.len() as int);
            assert(body.subrange(1 + vhead.len() as int, body.len() as int) =~= enc_fields(
                rest2,
            ));
            assert(evs[p1 + enc_fields(rest2).len()] == EventS::EndCollection);
            let acc2 = acc.update(j, Some(fs[j].1));
            lemma_rt_fields(evs, p1, fs, sfs, j + 1, acc2);
        }
    }
}

/// Round-trip: decoding an encoded document against the value's own shape
/// yields the value back, exactly, for every value that fits a well-formed
/// shape.
pub proof fn lemma_round_trip(v: TypedS, s: ShapeS)
    requires
        wf_shape(s),
        fits(v, s),
    ensures
        dec_root(enc_root(v), s) == Ok::<TypedS, crate::decode::ErrS>(v),
{
    match s {
        ShapeS::Optional(inner) => {
            match v {
                TypedS::Absent => {},
                TypedS::Present(x) => {
                    let e = enc(*x);
                    lemma_enc_head(*x);
                    assert(e.subrange(0, e.len() as int) =~= e);
                    lemma_rt(e, 0, *x, *inner);
                },
                _ => {},
            }
        },
        _ => {
            let e = enc(v);
            assert(enc_root(v) == e);
            assert(e.subrange(0, e.len() as int) =~= e);
            lemma_rt(e, 0, v, s);
        },
    }
}


/// Field omission: a fixed-record field whose value is absent contributes no
/// key/value pair at all — the record encodes exactly as if the field were
/// not there. (Decoding the result yields the field absent again: that is the
/// round-trip law applied to the record.)
pub proof fn lemma_field_omission(fs: Seq<(Seq<char>, TypedS)>, i: int)
    requires
        0 <= i < fs.len(),
        fs[i].1 is Absent,
    ensures
        enc(TypedS::Record(fs)) == enc(TypedS::Record(fs.remove(i))),
{
    lemma_fields_omission(fs, i);
    lemma_present_count_remove(fs, i);
}

/// Removing an absent field does not change the count of present fields.
pub proof fn lemma_present_count_remove(fs: Seq<(Seq<char>, TypedS)>, i: int)
    requires
        0 <= i < fs.len(),
        fs[i].1 is Absent,
    ensures
        present_count(fs) == present_count(fs.remove(i)),
    decreases i,
{
    let rest = fs.subrange(1, fs.len() as int);
    if i == 0 {
        assert(fs.remove(0) =~= rest);
    } else {
        lemma_present_count_remove(rest, i - 1);
        assert(fs.remove(i).subrange(1, fs.remove(i).len() as int) =~= rest.remove(i - 1));
        assert(fs.remove(i)[0] == fs[0]);
    }
}

/// The field-run form of field omission.
pub proof fn lemma_fields_omission(fs: Seq<(Seq<char>, TypedS)>, i: int)
    requires
        0 <= i < fs.len(),
        fs[i].1 is Absent,
    ensures
        enc_fields(fs) == enc_fields(fs.remove(i)),
    decreases i,
{
    let rest = fs.subrange(1, fs.len() as int);
    if i == 0 {
        assert(fs.remove(0) =~= rest);
    } else {
        lemma_fields_omission(rest, i - 1);
        assert(fs.remove(i).subrange(1, fs.remove(i).len() as int) =~= rest.remove(i - 1));
        assert(fs.remove(i)[0] == fs[0]);
    }
}

/// A dynamic map never omits an entry: a pair whose value is absent writes
/// its key and then the explicit `"None"` marker, at its own position in the
/// entry run.
pub proof fn lemma_dict_explicit_absence(ps: Seq<(TypedS, TypedS)>, i: int)
    requires
        0 <= i < ps.len(),
        ps[i].1 is Absent,
    ensures
        enc_pairs(ps) == enc_pairs(ps.subrange(0, i)) + enc(ps[i].0) + none_marker() + enc_pairs(
            ps.subrange(i + 1, ps.len() as int),
        ),
    decreases i,
{
    let rest = ps.subrange(1, ps.len() as int);
    if i == 0 {
        assert(ps.subrange(0, 0) =~= Seq::<(TypedS, TypedS)>::empty());
        assert(enc_pairs(ps.subrange(0, 0)) + enc(ps[0].0) =~= enc(ps[0].0));
        assert(ps.subrange(1, ps.len() as int) =~= rest);
    } else {
        lemma_dict_explicit_absence(rest, i - 1);
        assert(rest.subrange(0, i - 1) =~= ps.subrange(1, i));
        assert(rest.subrange(i, rest.len() as int) =~= ps.subrange(i + 1, ps.len() as int));
        assert(ps.subrange(0, i)[0] == ps[0]);
        assert(ps.subrange(0, i).subrange(1, i) =~= ps.subrange(1, i));
        assert(enc_pairs(ps.subrange(0, i)) == enc(ps[0].0) + enc(ps[0].1) + enc_pairs(
            ps.subrange(1, i),
        ));
        assert(enc_pairs(ps) == enc(ps[0].0) + enc(ps[0].1) + enc_pairs(rest));
        assert(enc_pairs(ps) =~= enc_pairs(ps.subrange(0, i)) + enc(ps[i].0) + none_marker()
            + enc_pairs(ps.subrange(i + 1, ps.len() as int)));
    }
}

/// The shapes of the five scalar kinds.
pub open spec fn scalar_shape(s: ShapeS) -> bool {
    s is Boolean || s is Integer || s is Real || s is String || s is Uid
}

/// Nested optionals keep their depth on the wire: at the document root, for
/// any scalar payload, the four values `absent`, `present(x)`,
/// `present(absent)` and `present(present(x))` take four pairwise different
/// wire shapes, and each decodes back to exactly its own nesting.
pub proof fn lemma_nested_optional_depth(x: TypedS, sx: ShapeS)
    requires
        scalar_shape(sx),
        fits(x, sx),
    ensures
        enc_root(TypedS::Absent) != enc_root(TypedS::Present(Box::new(x))),
        enc_root(TypedS::Absent) != enc_root(TypedS::Present(Box::new(TypedS::Absent))),
        enc_root(TypedS::Absent) != enc_root(
            TypedS::Present(Box::new(TypedS::Present(Box::new(x)))),
        ),
        enc_root(TypedS::Present(Box::new(x))) != enc_root(
            TypedS::Present(Box::new(TypedS::Absent)),
        ),
        enc_root(TypedS::Present(Box::new(x))) != enc_root(
            TypedS::Present(Box::new(TypedS::Present(Box::new(x)))),
        ),
        enc_root(TypedS::Present(Box::new(TypedS::Absent))) != enc_root(
            TypedS::Present(Box::new(TypedS::Present(Box::new(x)))),
        ),
        dec_root(enc_root(TypedS::Absent), ShapeS::Optional(Box::new(sx))) == Ok::<TypedS, crate::decode::ErrS>(TypedS::Absent),
        dec_root(enc_root(TypedS::Present(Box::new(x))), ShapeS::Optional(Box::new(sx))) == Ok::<
            TypedS,
            crate::decode::ErrS,
        >(TypedS::Present(Box::new(x))),
        dec_root(
            enc_root(TypedS::Present(Box::new(TypedS::Absent))),
            ShapeS::Optional(Box::new(ShapeS::Optional(Box::new(sx)))),
        ) == Ok::<TypedS, crate::decode::ErrS>(TypedS::Present(Box::new(TypedS::Absent))),
        dec_root(
            enc_root(TypedS::Present(Box::new(TypedS::Present(Box::new(x))))),
            ShapeS::Optional(Box::new(ShapeS::Optional(Box::new(sx)))),
        ) == Ok::<TypedS, crate::decode::ErrS>(TypedS::Present(Box::new(TypedS::Present(Box::new(x))))),
{
    reveal_strlit("None");
    reveal_strlit("Some");
    assert("Some"@ != "None"@) by {
        assert("Some"@[0] == 'S');
        assert("None"@[0] == 'N');
    }
    lemma_enc_head(x);
    assert(enc(x).len() == 1);
    let so = ShapeS::Optional(Box::new(sx));
    let soo = ShapeS::Optional(Box::new(so));
    assert(wf_shape(sx)) by {
        match sx {
            ShapeS::Boolean => {},
            ShapeS::Integer => {},
            ShapeS::Real => {},
            ShapeS::String => {},
            ShapeS::Uid => {},
            _ => {},
        }
    }
    assert(wf_shape(so));
    assert(wf_shape(soo));
    assert(fits(TypedS::Absent, so));
    assert(fits(TypedS::Present(Box::new(x)), so)) by {
        assert(fits(x, sx));
    }
    assert(fits(TypedS::Present(Box::new(TypedS::Absent)), soo)) by {
        assert(fits(TypedS::Absent, so));
    }
    assert(fits(TypedS::Present(Box::new(TypedS::Present(Box::new(x)))), soo)) by {
        assert(fits(TypedS::Present(Box::new(x)), so));
    }
    lemma_round_trip(TypedS::Absent, ShapeS::Optional(Box::new(sx)));
    lemma_round_trip(TypedS::Present(Box::new(x)), ShapeS::Optional(Box::new(sx)));
    lemma_round_trip(
        TypedS::Present(Box::new(TypedS::Absent)),
        ShapeS::Optional(Box::new(ShapeS::Optional(Box::new(sx)))),
    );
    lemma_round_trip(
        TypedS::Present(Box::new(TypedS::Present(Box::new(x)))),
        ShapeS::Optional(Box::new(ShapeS::Optional(Box::new(sx)))),
    );
}

/// Unit-variant compatibility: the legacy single-pair shape `{name: ""}`
/// decodes to exactly the same no-payload variant as the bare tag string the
/// encoder writes today, whatever count hint the legacy producer gave.
pub proof fn lemma_legacy_unit_variant(
    defs: Seq<(Seq<char>, VariantShapeS)>,
    name: Seq<char>,
    hint: Option<u64>,
)
    requires
        find_variant(defs, name) == Some(VariantShapeS::Unit),
    ensures
        dec_root(
            seq![
                EventS::StartDictionary(hint),
                EventS::String(name),
                EventS::String(Seq::empty()),
                EventS::EndCollection,
            ],
            ShapeS::Variant(defs),
        ) == Ok::<TypedS, crate::decode::ErrS>(TypedS::Variant(name, VariantArgS::Unit)),
        dec_root(seq![EventS::String(name)], ShapeS::Variant(defs)) == Ok::<
            TypedS,
            crate::decode::ErrS,
        >(TypedS::Variant(name, VariantArgS::Unit)),
{
}

/// The ordering invariant: a dictionary's entries, keys included, come back
/// from a round trip in exactly the order they were inserted — the encoder
/// walks them in order and the decoder rebuilds them in stream order.
pub proof fn lemma_dictionary_order(ps: Seq<(TypedS, TypedS)>, k: ShapeS, w: ShapeS)
    requires
        wf_shape(k),
        wf_shape(w),
        forall|i: int| 0 <= i < ps.len() ==> fits((#[trigger] ps[i]).0, k) && fits(ps[i].1, w),
    ensures
        dec_root(enc_root(TypedS::Dict(ps)), ShapeS::Dict(Box::new(k), Box::new(w))) == Ok::<
            TypedS,
            crate::decode::ErrS,
        >(TypedS::Dict(ps)),
{
    lemma_round_trip(TypedS::Dict(ps), ShapeS::Dict(Box::new(k), Box::new(w)));
}


/// The nesting contribution of one token: openers count one up, the closer
/// one down.
pub open spec fn nest_delta(e: EventS) -> int {
    match e {
        EventS::StartDictionary(_) => 1,
        EventS::StartArray(_) => 1,
        EventS::EndCollection => -1,
        _ => 0,
    }
}

/// The nesting count over a whole stream.
pub open spec fn nest_total(s: Seq<EventS>) -> int
    decreases s.len(),
{
    if s.len() == 0 {
        0
    } else {
        nest_delta(s[0]) + nest_total(s.subrange(1, s.len() as int))
    }
}

/// A well-nested stream: openers and closers balance out, and no prefix
/// closes a collection that is not open.
pub open spec fn well_nested(s: Seq<EventS>) -> bool {
    &&& nest_total(s) == 0
    &&& forall|i: int| 0 <= i <= s.len() ==> nest_total(#[trigger] s.subrange(0, i)) >= 0
}

/// Nesting counts add up over concatenation.
pub proof fn lemma_nest_total_concat(a: Seq<EventS>, b: Seq<EventS>)
    ensures
        nest_total(a + b) == nest_total(a) + nest_total(b),
    decreases a.len(),
{
    if a.len() == 0 {
        assert(a + b =~= b);
    } else {
        assert((a + b).subrange(1, (a + b).len() as int) =~= a.subrange(1, a.len() as int) + b);
        lemma_nest_total_concat(a.subrange(1, a.len() as int), b);
        assert((a + b)[0] == a[0]);
    }
}

/// Balanced streams with non-negative prefixes stay that way when joined.
pub proof fn lemma_nested_concat(a: Seq<EventS>, b: Seq<EventS>)
    requires
        well_nested(a),
        well_nested(b),
    ensures
        well_nested(a + b),
{
    lemma_nest_total_concat(a, b);
    assert forall|i: int| 0 <= i <= (a + b).len() implies nest_total(
        #[trigger] (a + b).subrange(0, i),
    ) >= 0 by {
        if i <= a.len() {
            assert((a + b).subrange(0, i) =~= a.subrange(0, i));
        } else {
            assert((a + b).subrange(0, i) =~= a + b.subrange(0, i - a.len()));
            lemma_nest_total_concat(a, b.subrange(0, i - a.len()));
        }
    }
}

/// A stream of one opener, a well-nested body and the matching closer is
/// well-nested.
pub proof fn lemma_nested_wrap(open_ev: EventS, body: Seq<EventS>)
    requires
        nest_delta(open_ev) == 1,
        well_nested(body),
    ensures
        well_nested(seq![open_ev] + body + seq![EventS::EndCollection]),
{
    let a = seq![open_ev] + body;
    let whole = a + seq![EventS::EndCollection];
    assert(nest_total(Seq::<EventS>::empty()) == 0);
    lemma_nest_total_concat(seq![open_ev], body);
    assert(seq![open_ev].subrange(1, 1) =~= Seq::<EventS>::empty());
    assert(nest_total(seq![open_ev]) == 1);
    assert(seq![EventS::EndCollection].subrange(1, 1) =~= Seq::<EventS>::empty());
    assert(nest_total(seq![EventS::EndCollection]) == -1);
    lemma_nest_total_concat(a, seq![EventS::EndCollection]);
    assert(nest_total(whole) == 0);
    assert forall|i: int| 0 <= i <= whole.len() implies nest_total(
        #[trigger] whole.subrange(0, i),
    ) >= 0 by {
        if i == 0 {
            assert(whole.subrange(0, 0) =~= Seq::<EventS>::empty());
        } else if i <= a.len() {
            assert(whole.subrange(0, i) =~= seq![open_ev] + body.subrange(0, i - 1));
            lemma_nest_total_concat(seq![open_ev], body.subrange(0, i - 1));
        } else {
            assert(whole.subrange(0, i) =~= whole);
        }
    }
}

/// Every encoded value is a well-nested stream: each opener the encoder
/// writes is matched by exactly one closer before control returns to the
/// surrounding scope, and a closer never appears for a collection that is
/// not open.
pub proof fn lemma_enc_well_nested(t: TypedS)
    ensures
        well_nested(enc(t)),
    decreases t, 0nat, 0nat,
{
    let single = |e: EventS| nest_delta(e) == 0;
    match t {
        TypedS::Array(es) => {
            lemma_elems_well_nested(es);
            lemma_nested_wrap(EventS::StartArray(Some(es.len() as u64)), enc_elems(es));
            assert(seq![EventS::StartArray(Some(es.len() as u64))] + enc_elems(es) + seq![
                EventS::EndCollection,
            ] =~= enc(t));
        },
        TypedS::Dict(ps) => {
            lemma_pairs_well_nested(ps);
            lemma_nested_wrap(EventS::StartDictionary(Some(ps.len() as u64)), enc_pairs(ps));
            assert(seq![EventS::StartDictionary(Some(ps.len() as u64))] + enc_pairs(ps) + seq![
                EventS::EndCollection,
            ] =~= enc(t));
        },
        TypedS::Record(fs) => {
            lemma_fields_well_nested(fs);
            lemma_nested_wrap(
                EventS::StartDictionary(Some(present_count(fs) as u64)),
                enc_fields(fs),
            );
            assert(seq![EventS::StartDictionary(Some(present_count(fs) as u64))] + enc_fields(fs)
                + seq![EventS::EndCollection] =~= enc(t));
        },
        TypedS::Absent => {
            let body = seq![EventS::String("None"@), EventS::String(Seq::<char>::empty())];
            assert(well_nested(body)) by {
                assert forall|i: int| 0 <= i <= body.len() implies nest_total(
                    #[trigger] body.subrange(0, i),
                ) >= 0 by {
                    lemma_nest_total_flat(body.subrange(0, i));
                }
                lemma_nest_total_flat(body);
            }
            lemma_nested_wrap(EventS::StartDictionary(Some(1u64)), body);
            assert(seq![EventS::StartDictionary(Some(1u64))] + body + seq![
                EventS::EndCollection,
            ] =~= enc(t));
        },
        TypedS::Present(x) => {
            lemma_enc_well_nested(*x);
            let body = seq![EventS::String("Some"@)] + enc(*x);
            assert(well_nested(seq![EventS::String("Some"@)])) by {
                lemma_nest_total_flat(seq![EventS::String("Some"@)]);
                assert forall|i: int| 0 <= i <= 1 implies nest_total(
                    #[trigger] seq![EventS::String("Some"@)].subrange(0, i),
                ) >= 0 by {
                    lemma_nest_total_flat(seq![EventS::String("Some"@)].subrange(0, i));
                }
            }
            lemma_nested_concat(seq![EventS::String("Some"@)], enc(*x));
            lemma_nested_wrap(EventS::StartDictionary(Some(1u64)), body);
            assert(seq![EventS::StartDictionary(Some(1u64))] + body + seq![
                EventS::EndCollection,
            ] =~= enc(t));
        },
        TypedS::Variant(n, arg) => match arg {
            VariantArgS::Unit => {
                lemma_nest_total_flat(enc(t));
                assert forall|i: int| 0 <= i <= enc(t).len() implies nest_total(
                    #[trigger] enc(t).subrange(0, i),
                ) >= 0 by {
                    lemma_nest_total_flat(enc(t).subrange(0, i));
                }
            },
            VariantArgS::Value(p) => {
                lemma_enc_well_nested(*p);
                let body = seq![EventS::String(n)] + enc(*p);
                assert(well_nested(seq![EventS::String(n)])) by {
                    lemma_nest_total_flat(seq![EventS::String(n)]);
                    assert forall|i: int| 0 <= i <= 1 implies nest_total(
                        #[trigger] seq![EventS::String(n)].subrange(0, i),
                    ) >= 0 by {
                        lemma_nest_total_flat(seq![EventS::String(n)].subrange(0, i));
                    }
                }
                lemma_nested_concat(seq![EventS::String(n)], enc(*p));
                lemma_nested_wrap(EventS::StartDictionary(Some(1u64)), body);
                assert(seq![EventS::StartDictionary(Some(1u64))] + body + seq![
                    EventS::EndCollection,
                ] =~= enc(t));
            },
        },
        _ => {
            lemma_nest_total_flat(enc(t));
            assert forall|i: int| 0 <= i <= enc(t).len() implies nest_total(
                #[trigger] enc(t).subrange(0, i),
            ) >= 0 by {
                lemma_nest_total_flat(enc(t).subrange(0, i));
            }
        },
    }
}

/// A stream of scalar tokens alone has nesting count zero.
pub proof fn lemma_nest_total_flat(s: Seq<EventS>)
    requires
        forall|i: int| 0 <= i < s.len() ==> nest_delta(#[trigger] s[i]) == 0,
    ensures
        nest_total(s) == 0,
    decreases s.len(),
{
    if s.len() > 0 {
        lemma_nest_total_flat(s.subrange(1, s.len() as int));
    }
}

/// An array's element run is well-nested.
pub proof fn lemma_elems_well_nested(es: Seq<TypedS>)
    ensures
        well_nested(enc_elems(es)),
    decreases es, 0nat, 1nat,
{
    if es.len() == 0 {
        assert(nest_total(enc_elems(es)) == 0);
        assert forall|i: int| 0 <= i <= enc_elems(es).len() implies nest_total(
            #[trigger] enc_elems(es).subrange(0, i),
        ) >= 0 by {
            assert(enc_elems(es).subrange(0, i) =~= enc_elems(es));
        }
    } else {
        lemma_enc_well_nested(es[0]);
        lemma_elems_well_nested(es.subrange(1, es.len() as int));
        lemma_nested_concat(enc(es[0]), enc_elems(es.subrange(1, es.len() as int)));
    }
}

/// A dynamic map's entry run is well-nested.
pub proof fn lemma_pairs_well_nested(ps: Seq<(TypedS, TypedS)>)
    ensures
        well_nested(enc_pairs(ps)),
    decreases ps, 0nat, 1nat,
{
    if ps.len() == 0 {
        assert(nest_total(enc_pairs(ps)) == 0);
        assert forall|i: int| 0 <= i <= enc_pairs(ps).len() implies nest_total(
            #[trigger] enc_pairs(ps).subrange(0, i),
        ) >= 0 by {
            assert(enc_pairs(ps).subrange(0, i) =~= enc_pairs(ps));
        }
    } else {
        lemma_enc_well_nested(ps[0].0);
        lemma_enc_well_nested(ps[0].1);
        lemma_pairs_well_nested(ps.subrange(1, ps.len() as int));
        lemma_nested_concat(enc(ps[0].0), enc(ps[0].1));
        lemma_nested_concat(
            enc(ps[0].0) + enc(ps[0].1),
            enc_pairs(ps.subrange(1, ps.len() as int)),
        );
    }
}

/// A record's field run is well-nested.
pub proof fn lemma_fields_well_nested(fs: Seq<(Seq<char>, TypedS)>)
    ensures
        well_nested(enc_fields(fs)),
    decreases fs, 0nat, 1nat,
{
    if fs.len() == 0 {
        assert(nest_total(enc_fields(fs)) == 0);
        assert forall|i: int| 0 <= i <= enc_fields(fs).len() implies nest_total(
            #[trigger] enc_fields(fs).subrange(0, i),
        ) >= 0 by {
            assert(enc_fields(fs).subrange(0, i) =~= enc_fields(fs));
        }
    } else {
        lemma_fields_well_nested(fs.subrange(1, fs.len() as int));
        if fs[0].1 is Absent {
            assert(Seq::<EventS>::empty() + enc_fields(fs.subrange(1, fs.len() as int))
                =~= enc_fields(fs.subrange(1, fs.len() as int)));
        } else {
            let head = seq![EventS::String(fs[0].0)];
            assert(well_nested(head)) by {
                lemma_nest_total_flat(head);
                assert forall|i: int| 0 <= i <= 1 implies nest_total(
                    #[trigger] head.subrange(0, i),
                ) >= 0 by {
                    lemma_nest_total_flat(head.subrange(0, i));
                }
            }
            assert(well_nested(enc_root(fs[0].1))) by {
                match fs[0].1 {
                    TypedS::Present(x) => {
                        lemma_enc_well_nested(*x);
                    },
                    _ => {
                        lemma_enc_well_nested(fs[0].1);
                        assert(well_nested(Seq::<EventS>::empty())) by {
                            assert forall|i: int| 0 <= i <= 0 implies nest_total(
                                #[trigger] Seq::<EventS>::empty().subrange(0, i),
                            ) >= 0 by {
                                assert(Seq::<EventS>::empty().subrange(0, i)
                                    =~= Seq::<EventS>::empty());
                            }
                        }
                    },
                }
            }
            lemma_nested_concat(head, enc_root(fs[0].1));
            lemma_nested_concat(
                head + enc_root(fs[0].1),
                enc_fields(fs.subrange(1, fs.len() as int)),
            );
        }
    }
}

/// Every whole encoded document is well-nested.
pub proof fn lemma_encode_well_nested(t: TypedS)
    ensures
        well_nested(enc_root(t)),
{
    match t {
        TypedS::Absent => {
            assert(nest_total(enc_root(t)) == 0);
            assert forall|i: int| 0 <= i <= enc_root(t).len() implies nest_total(
                #[trigger] enc_root(t).subrange(0, i),
            ) >= 0 by {
                assert(enc_root(t).subrange(0, i) =~= enc_root(t));
            }
        },
        TypedS::Present(x) => {
            lemma_enc_well_nested(*x);
        },
        _ => {
            lemma_enc_well_nested(t);
        },
    }
}

} // verus!
