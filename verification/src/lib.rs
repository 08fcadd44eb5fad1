//! A bidirectional codec between a statically typed object model (records,
//! variants, optionals, ordered maps, sequences and a fixed set of scalars)
//! and the self-describing tree-event stream spoken by property-list
//! documents.
//!
//! The heart of the crate is the pair of engines in [`encode`] and [`decode`]:
//! a typed value is lowered to a stream of [`Event`] tokens, and such a
//! stream is raised back to a typed value, resolving the ambiguity that the
//! tree format has no native optional or sum type.

mod decode;
mod encode;
mod event;
mod integer;
mod laws;
mod scalar;
mod typed;
mod untyped;
mod value;
mod xml;

pub use event::{Event, EventS, VecWriter};
pub use decode::{dec, dec_elems, dec_fields, dec_opt, dec_pairs, dec_root, dec_variant, decode, decode_value, empty_slots, fill_fields, find_field, lemma_events_view, lemma_slots_view, opt_depth, ErrS, Error};
pub use encode::{enc, enc_elems, enc_fields, enc_pairs, enc_root, encode, encode_root, encode_value, none_marker, present_count};
pub use integer::Integer;
pub use laws::{lemma_elems_well_nested, lemma_enc_well_nested, lemma_encode_well_nested, lemma_fields_well_nested, lemma_nest_total_concat, lemma_nest_total_flat, lemma_nested_concat, lemma_nested_wrap, lemma_pairs_well_nested, nest_delta, nest_total, well_nested, lemma_find_field_at, lemma_fill_fields, lemma_present_count_remove, lemma_dict_explicit_absence, lemma_dictionary_order, lemma_enc_head, lemma_field_omission, lemma_fields_omission, lemma_find_variant_mem, lemma_legacy_unit_variant, lemma_nested_optional_depth, lemma_round_trip, lemma_rt, lemma_rt_elems, lemma_rt_fields, lemma_rt_pairs, lemma_sub_sub, scalar_shape};
pub use scalar::{Real, Uid};
pub use untyped::{decode_untyped, fold_insert, udec, udec_elems, udec_pairs, udec_root};
pub use xml::{dec_digits, digit_char, int_text, to_xml, xml_doc, xml_elems, xml_entries, xml_header, xml_value};
pub use value::{lemma_vals_view, dict_get, dict_insert, dict_keys, lemma_dict_insert_found, lemma_dict_insert_keys, lemma_dict_insert_missing, lemma_entries_view, Dictionary, Value, ValueS};
pub use typed::{Shape, ShapeS, Typed, TypedS, VariantArg, VariantArgS, VariantShape, VariantShapeS};
pub use typed::{distinct_names, find_variant, fits, is_opt, wf_shape};
