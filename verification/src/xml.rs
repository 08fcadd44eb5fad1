//! A writer for the XML rendering of a tree value. The concrete format
//! codecs proper are outside this crate's scope; this renderer covers the
//! plain document shapes and writes text content as it stands, without
//! escaping markup characters.

use vstd::prelude::*;
use vstd::string::StringExecFns;
use crate::value::{Value, ValueS, Dictionary};
use crate::integer::Integer;

verus! {

broadcast use vstd::seq::group_seq_axioms, vstd::std_specs::vec::axiom_vec_index_decreases,
    vstd::std_specs::vec::axiom_vec_decreases_to_view, crate::value::lemma_entries_view,
    crate::value::lemma_vals_view;

/// The character standing for one decimal digit.
pub open spec fn digit_char(n: nat) -> char {
    if n % 10 == 0 {
        '0'
    } else if n % 10 == 1 {
        '1'
    } else if n % 10 == 2 {
        '2'
    } else if n % 10 == 3 {
        '3'
    } else if n % 10 == 4 {
        '4'
    } else if n % 10 == 5 {
        '5'
    } else if n % 10 == 6 {
        '6'
    } else if n % 10 == 7 {
        '7'
    } else if n % 10 == 8 {
        '8'
    } else {
        '9'
    }
}

/// The base-ten rendering of a natural number, most significant digit first.
pub open spec fn dec_digits(n: nat) -> Seq<char>
    decreases n,
{
    if n < 10 {
        seq![digit_char(n)]
    } else {
        dec_digits(n / 10).push(digit_char(n % 10))
    }
}

/// The base-ten rendering of an integer, with a leading minus sign when it
/// is strictly negative.
pub open spec fn int_text(i: int) -> Seq<char> {
    if i < 0 {
        "-"@ + dec_digits((-i) as nat)
    } else {
        dec_digits(i as nat)
    }
}

/// Append the character standing for one decimal digit.
fn push_digit(out: &mut String, d: u64)
    requires
        d < 10,
    ensures
        final(out)@ == old(out)@ + seq![digit_char(d as nat)],
{
    proof {
        reveal_strlit("0");
        reveal_strlit("1");
        reveal_strlit("2");
        reveal_strlit("3");
        reveal_strlit("4");
        reveal_strlit("5");
        reveal_strlit("6");
        reveal_strlit("7");
        reveal_strlit("8");
        reveal_strlit("9");
    }
    if d == 0 {
        out.append("0");
    } else if d == 1 {
        out.append("1");
    } else if d == 2 {
        out.append("2");
    } else if d == 3 {
        out.append("3");
    } else if d == 4 {
        out.append("4");
    } else if d == 5 {
        out.append("5");
    } else if d == 6 {
        out.append("6");
    } else if d == 7 {
        out.append("7");
    } else if d == 8 {
        out.append("8");
    } else {
        out.append("9");
    }
    proof {
        assert(out@ =~= old(out)@ + seq![digit_char(d as nat)]);
    }
}

/// Render an unsigned 64-bit number in base ten, most significant digit
/// first.
fn fmt_u64(n: u64) -> (r: String)
    ensures
        r@ == dec_digits(n as nat),
    decreases n,
{
    if n < 10 {
        let mut out = String::new();
        push_digit(&mut out, n);
        out
    } else {
        let mut out = fmt_u64(n / 10);
        push_digit(&mut out, n % 10);
        proof {
            assert(out@ =~= dec_digits(n as nat));
        }
        out
    }
}

/// The document head: the declaration, the document type, and the opening
/// root element.
pub open spec fn xml_header() -> Seq<char> {
    "<?xml version=\"1.0\" encoding=\"UTF-8\"?>\n<!DOCTYPE plist PUBLIC \"-//Apple//DTD PLIST 1.0//EN\" \"http://www.apple.com/DTDs/PropertyList-1.0.dtd\">\n<plist version=\"1.0\">\n"@
}

/// The rendering of one value, with the given whitespace standing before
/// every nested line.
pub open spec fn xml_value(v: ValueS, pad: Seq<char>) -> Seq<char>
    decreases v, 0nat,
{
    match v {
        ValueS::Boolean(b) => if b {
            "<t/>"@
        } else {
            "<f/>"@
        },
        ValueS::Integer(i) => "<i>"@ + int_text(i) + "</i>"@,
        ValueS::Real(t) => "<r>"@ + t + "</r>"@,
        ValueS::String(t) => "<s>"@ + t + "</s>"@,
        ValueS::Uid(u) => "<d>\n"@ + pad + "\t<k>CF$UID</k>\n"@ + pad + "\t<i>"@ + dec_digits(
            u as nat,
        ) + "</i>\n"@ + pad + "</d>"@,
        ValueS::Dictionary(es) => "<d>\n"@ + xml_entries(es, pad + "\t"@) + pad + "</d>"@,
        ValueS::Array(vs) => "<a>\n"@ + xml_elems(vs, pad + "\t"@) + pad + "</a>"@,
    }
}

/// The rendering of a dictionary's entries, one key line and one value line
/// each.
pub open spec fn xml_entries(es: Seq<(Seq<char>, ValueS)>, pad: Seq<char>) -> Seq<char>
    decreases es, 1nat,
{
    if es.len() == 0 {
        Seq::empty()
    } else {
        pad + "<k>"@ + es[0].0 + "</k>\n"@ + pad + xml_value(es[0].1, pad) + "\n"@ + xml_entries(
            es.subrange(1, es.len() as int),
            pad,
        )
    }
}

/// The rendering of an array's elements, one line each.
pub open spec fn xml_elems(vs: Seq<ValueS>, pad: Seq<char>) -> Seq<char>
    decreases vs, 1nat,
{
    if vs.len() == 0 {
        Seq::empty()
    } else {
        pad + xml_value(vs[0], pad) + "\n"@ + xml_elems(vs.subrange(1, vs.len() as int), pad)
    }
}

/// The whole document's rendering.
pub open spec fn xml_doc(v: ValueS) -> Seq<char> {
    xml_header() + xml_value(v, Seq::empty()) + "\n</plist>"@
}

/// Render a tree value as a whole document.
pub fn to_xml(value: &Value) -> (r: String)
    ensures
        r@ == xml_doc(value@),
{
    let mut out = String::from_str(
        "<?xml version=\"1.0\" encoding=\"UTF-8\"?>\n<!DOCTYPE plist PUBLIC \"-//Apple//DTD PLIST 1.0//EN\" \"http://www.apple.com/DTDs/PropertyList-1.0.dtd\">\n<plist version=\"1.0\">\n",
    );
    let pad = String::new();
    write_value(value, &pad, &mut out);
    out.append("\n</plist>");
    proof {
        assert(out@ =~= xml_doc(value@));
    }
    out
}

/// Append one value's rendering.
fn write_value(value: &Value, pad: &String, out: &mut String)
    ensures
        final(out)@ == old(out)@ + xml_value(value@, pad@),
    decreases value, 0nat, 0nat,
{
    match value {
        Value::Boolean(b) => {
            if *b {
                out.append("<t/>");
            } else {
                out.append("<f/>");
            }
            proof {
                assert(out@ =~= old(out)@ + xml_value(value@, pad@));
            }
        },
        Value::Integer(i) => {
            out.append("<i>");
            if i.is_negative() {
                out.append("-");
                let digits = fmt_u64(i.magnitude());
                out.append(digits.as_str());
                proof {
                    assert("-"@ + dec_digits((-i.value()) as nat) =~= int_text(i.value()));
                }
            } else {
                let digits = fmt_u64(i.magnitude());
                out.append(digits.as_str());
            }
            out.append("</i>");
            proof {
                assert(out@ =~= old(out)@ + xml_value(value@, pad@));
            }
        },
        Value::Real(t) => {
            out.append("<r>");
            out.append(t.as_text());
            out.append("</r>");
            proof {
                assert(out@ =~= old(out)@ + xml_value(value@, pad@));
            }
        },
        Value::String(t) => {
            out.append("<s>");
            out.append(t.as_str());
            out.append("</s>");
            proof {
                assert(out@ =~= old(out)@ + xml_value(value@, pad@));
            }
        },
        Value::Uid(u) => {
            out.append("<d>\n");
            out.append(pad.as_str());
            out.append("\t<k>CF$UID</k>\n");
            out.append(pad.as_str());
            out.append("\t<i>");
            let digits = fmt_u64(u.get());
            out.append(digits.as_str());
            out.append("</i>\n");
            out.append(pad.as_str());
            out.append("</d>");
            proof {
                assert(out@ =~= old(out)@ + xml_value(value@, pad@));
            }
        },
        Value::Dictionary(d) => {
            out.append("<d>\n");
            let deeper = pad.clone().concat("\t");
            write_entries(&d.entries, 0, &deeper, out);
            out.append(pad.as_str());
            out.append("</d>");
            proof {
                crate::value::lemma_dict_view(d);
                assert(deeper@ == pad@ + "\t"@);
                let es = value@->Dictionary_0;
                assert(es == Value::entries_view(d.entries@));
                assert(es.subrange(0, es.len() as int) =~= es);
                assert(out@ =~= old(out)@ + xml_value(value@, pad@));
            }
        },
        Value::Array(vs) => {
            out.append("<a>\n");
            let deeper = pad.clone().concat("\t");
            write_elems(vs, 0, &deeper, out);
            out.append(pad.as_str());
            out.append("</a>");
            proof {
                assert(deeper@ == pad@ + "\t"@);
                let es = value@->Array_0;
                assert(es == Value::vals_view(vs@));
                assert(es.subrange(0, es.len() as int) =~= es);
                assert(out@ =~= old(out)@ + xml_value(value@, pad@));
            }
        },
    }
}

/// Append a dictionary's entries from the given index on.
fn write_entries(entries: &Vec<(String, Value)>, idx: usize, pad: &String, out: &mut String)
    requires
        idx <= entries.len(),
    ensures
        final(out)@ == old(out)@ + xml_entries(
            Value::entries_view(entries@).subrange(idx as int, entries@.len() as int),
            pad@,
        ),
    decreases entries, entries.len() - idx, 1nat,
{
    proof {
        let ev = Value::entries_view(entries@);
        let tail = ev.subrange(idx as int, entries@.len() as int);
        if idx < entries.len() {
            assert(tail[0] == (entries@[idx as int].0@, entries@[idx as int].1@));
            assert(tail.subrange(1, tail.len() as int) =~= ev.subrange(
                idx + 1,
                entries@.len() as int,
            ));
        } else {
            assert(tail =~= Seq::<(Seq<char>, ValueS)>::empty());
        }
    }
    if idx < entries.len() {
        out.append(pad.as_str());
        out.append("<k>");
        out.append(entries[idx].0.as_str());
        out.append("</k>\n");
        out.append(pad.as_str());
        write_value(&entries[idx].1, pad, out);
        out.append("\n");
        write_entries(entries, idx + 1, pad, out);
        proof {
            assert(out@ =~= old(out)@ + xml_entries(
                Value::entries_view(entries@).subrange(idx as int, entries@.len() as int),
                pad@,
            ));
        }
    }
}

/// Append an array's elements from the given index on.
fn write_elems(vs: &Vec<Value>, idx: usize, pad: &String, out: &mut String)
    requires
        idx <= vs.len(),
    ensures
        final(out)@ == old(out)@ + xml_elems(
            Value::vals_view(vs@).subrange(idx as int, vs@.len() as int),
            pad@,
        ),
    decreases vs, vs.len() - idx, 1nat,
{
    proof {
        crate::value::lemma_vals_view(vs@);
        let ev = Value::vals_view(vs@);
        let tail = ev.subrange(idx as int, vs@.len() as int);
        if idx < vs.len() {
            assert(tail[0] == vs@[idx as int]@);
            assert(tail.subrange(1, tail.len() as int) =~= ev.subrange(
                idx + 1,
                vs@.len() as int,
            ));
        } else {
            assert(tail =~= Seq::<ValueS>::empty());
        }
    }
    if idx < vs.len() {
        out.append(pad.as_str());
        write_value(&vs[idx], pad, out);
        out.append("\n");
        write_elems(vs, idx + 1, pad, out);
        proof {
            assert(out@ =~= old(out)@ + xml_elems(
                Value::vals_view(vs@).subrange(idx as int, vs@.len() as int),
                pad@,
            ));
        }
    }
}

} // verus!
