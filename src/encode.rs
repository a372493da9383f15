//! Encoding native values into attribute values and attribute maps.
use vstd::prelude::*;
use crate::ident::hyphenated_text;
use crate::time::format_rfc3339;
use crate::number::{decimal, decimals, number_text};
use crate::error::ErrorView;
use crate::semantics::{dec, enc, enc_fields, enc_items, enc_pairs, enc_into, field_value, insert_all, skips};
use crate::types::{ints_view, FieldSchema, SkipRule, Value, ValueType, ValueView};
use crate::value::{lemma_map_value_view, copy_blobs, copy_bytes, copy_strings, strings_view, AttributeValue, Attributes};

verus! {

broadcast use vstd::std_specs::vec::group_vec_axioms;

/// Whether `rule` leaves out `v`.
pub fn skip_applies(rule: SkipRule, v: &Value) -> (r: bool)
    ensures
        r == skips(rule, v@),
{
    match rule {
        SkipRule::IsEmpty => match v {
            Value::Text(s) => s.as_str().unicode_len() == 0,
            Value::Binary(b) => b.len() == 0,
            Value::TextSet(s) => s.len() == 0,
            Value::NumberSet(s) => s.len() == 0,
            Value::BinarySet(s) => s.len() == 0,
            Value::List(s) => s.len() == 0,
            Value::MapOf(s) => s.len() == 0,
            _ => false,
        },
        SkipRule::IsZero => match v {
            Value::Number(n) => *n == 0,
            _ => false,
        },
        SkipRule::IsNone => match v {
            Value::Null => true,
            _ => false,
        },
        SkipRule::IsFalse => match v {
            Value::Bool(b) => !*b,
            _ => false,
        },
    }
}

fn numbers_text(ns: &Vec<i128>) -> (r: Vec<String>)
    ensures
        strings_view(r@) == decimals(ints_view(ns@)),
{
    let mut r: Vec<String> = Vec::new();
    let mut i: usize = 0;
    while i < ns.len()
        invariant
            i <= ns.len(),
            r.len() == i,
            forall|j: int| 0 <= j < i ==> r[j]@ == decimal(ns[j] as int),
        decreases ns.len() - i,
    {
        r.push(number_text(ns[i]));
        i = i + 1;
    }
    assert(strings_view(r@) =~= decimals(ints_view(ns@)));
    r
}

/// Encodes `v` as an attribute value of type `ty`. An identifier decodes
/// back from its encoding.
pub fn encode(ty: &ValueType, v: &Value) -> (r: AttributeValue)
    ensures
        r@ == enc(*ty, v@),
        (*ty == ValueType::Uuid && v@ is Uuid) ==> dec(*ty, r@) == Ok::<ValueView, ErrorView>(v@),
    decreases ty, 3nat, 0nat,
{
    match ty {
        ValueType::Text => match v {
            Value::Text(s) => AttributeValue::S(s.clone()),
            _ => AttributeValue::Null,
        },
        ValueType::Bool => match v {
            Value::Bool(b) => AttributeValue::Bool(*b),
            _ => AttributeValue::Null,
        },
        ValueType::Binary => match v {
            Value::Binary(b) => AttributeValue::B(copy_bytes(b)),
            _ => AttributeValue::Null,
        },
        ValueType::Number(_) => match v {
            Value::Number(n) => AttributeValue::N(number_text(*n)),
            _ => AttributeValue::Null,
        },
        ValueType::Uuid => match v {
            Value::Uuid(u) => AttributeValue::S(hyphenated_text(*u)),
            _ => AttributeValue::Null,
        },
        ValueType::Timestamp => match v {
            Value::Timestamp(s, n, o) => match format_rfc3339(*s, *n, *o) {
                Some(t) => AttributeValue::S(t),
                None => AttributeValue::Null,
            },
            _ => AttributeValue::Null,
        },
        ValueType::Enumeration(names) => match v {
            Value::Choice(i) => if *i < names.len() {
                AttributeValue::S(names[*i].clone())
            } else {
                AttributeValue::Null
            },
            _ => AttributeValue::Null,
        },
        ValueType::TextSet => match v {
            Value::TextSet(s) => AttributeValue::SS(copy_strings(s)),
            _ => AttributeValue::Null,
        },
        ValueType::NumberSet(_) => match v {
            Value::NumberSet(s) => AttributeValue::NS(numbers_text(s)),
            _ => AttributeValue::Null,
        },
        ValueType::BinarySet => match v {
            Value::BinarySet(s) => AttributeValue::BS(copy_blobs(s)),
            _ => AttributeValue::Null,
        },
        ValueType::List(et) => match v {
            Value::List(items) => {
                let mut out: Vec<AttributeValue> = Vec::new();
                let mut i: usize = 0;
                while i < items.len()
                    invariant
                        *ty == ValueType::List(*et),
                        i <= items.len(),
                        out.len() == i,
                        forall|j: int| 0 <= j < i ==> out[j]@ == enc(**et, items[j]@),
                    decreases items.len() - i,
                {
                    proof {
                        assert(decreases_to!(*ty => ty->List_0));
                    }
                    out.push(encode(et, &items[i]));
                    i = i + 1;
                }
                let r = AttributeValue::L(out);
                assert(r@->L_0 =~= enc_items(**et, v@->List_0));
                r
            },
            _ => AttributeValue::Null,
        },
        ValueType::Optional(et) => match v {
            Value::Null => AttributeValue::Null,
            _ => {
                proof {
                    assert(decreases_to!(*ty => ty->Optional_0));
                }
                encode(et, v)
            },
        },
        ValueType::Raw => match v {
            Value::Raw(a) => a.copy(),
            _ => AttributeValue::Null,
        },
        ValueType::MapOf(_) | ValueType::Record(_) | ValueType::Union(_) => {
            let mut m = Attributes::new();
            encode_into(ty, v, &mut m);
            proof {
                lemma_map_value_view(m);
            }
            AttributeValue::M(m)
        },
    }
}

/// Writes the attributes of the map-shaped value `v` of type `ty` into `sink`.
pub fn encode_into(ty: &ValueType, v: &Value, sink: &mut Attributes)
    ensures
        final(sink)@ == enc_into(*ty, v@, old(sink)@),
    decreases ty, 2nat, 0nat,
{
    match ty {
        ValueType::MapOf(et) => match v {
            Value::MapOf(es) => {
                let ghost vv = v@;
                let ghost pairs = Seq::new(es.len() as nat, |i: int| (es[i].0@, enc(**et, es[i].1@)));
                let ghost sink0 = sink@;
                let mut i: usize = 0;
                while i < es.len()
                    invariant
                        *ty == ValueType::MapOf(*et),
                        *v == Value::MapOf(*es),
                        vv == v@,
                        sink0 == old(sink)@,
                        i <= es.len(),
                        pairs == Seq::new(es.len() as nat, |i: int| (es[i].0@, enc(**et, es[i].1@))),
                        sink@ == insert_all(sink0, pairs.subrange(0, i as int)),
                    decreases es.len() - i,
                {
                    proof {
                        assert(decreases_to!(*ty => ty->MapOf_0));
                    }
                    let a = encode(et, &es[i].1);
                    sink.insert(es[i].0.clone(), a);
                    proof {
                        assert(pairs.subrange(0, i + 1).drop_last() =~= pairs.subrange(0, i as int));
                    }
                    i = i + 1;
                }
                proof {
                    assert(pairs.subrange(0, i as int) =~= pairs);
                    if let ValueView::MapOf(ev) = vv {
                        assert(pairs =~= enc_pairs(**et, ev));
                    }
                }
            },
            _ => {},
        },
        ValueType::Record(schema) => match v {
            Value::Record(vals) => {
                proof {
                    assert(decreases_to!(*ty => ty->Record_0));
                }
                encode_fields(&schema.fields, vals, sink);
            },
            _ => {},
        },
        ValueType::Union(u) => match v {
            Value::Variant(i, p) => {
                if *i < u.variants.len() {
                    proof {
                        assert(decreases_to!(*ty => ty->Union_0));
                        assert(decreases_to!(u.variants => u.variants[*i as int]));
                    }
                    encode_into(&u.variants[*i].payload, p, sink);
                    sink.insert(u.tag.clone(), AttributeValue::S(u.variants[*i].wire_tag.clone()));
                }
            },
            _ => {},
        },
        _ => {},
    }
}

/// The attribute map of the map-shaped value `v` of type `ty`.
pub fn into_attributes(ty: &ValueType, v: &Value) -> (r: Attributes)
    ensures
        r@ == enc_into(*ty, v@, Seq::empty()),
{
    let mut m = Attributes::new();
    encode_into(ty, v, &mut m);
    m
}

/// Writes the record fields `vals`, described by `fields`, into `sink` in
/// declaration order.
fn encode_fields(fields: &Vec<FieldSchema>, vals: &Vec<Value>, sink: &mut Attributes)
    ensures
        final(sink)@ == enc_fields(fields@, Value::Record(*vals)@->Record_0, old(sink)@, fields@.len()),
    decreases fields, 0nat, 0nat,
{
    let ghost vv = Value::Record(*vals)@->Record_0;
    let ghost sink0 = sink@;
    let null = Value::Null;
    let mut i: usize = 0;
    while i < fields.len()
        invariant
            i <= fields.len(),
            vv == Value::Record(*vals)@->Record_0,
            null == Value::Null,
            sink@ == enc_fields(fields@, vv, sink0, i as nat),
        decreases fields.len() - i,
    {
        let f = &fields[i];
        let v = if i < vals.len() {
            &vals[i]
        } else {
            &null
        };
        assert(v@ == field_value(vv, i as int));
        proof {
            assert(decreases_to!(*fields => fields[i as int]));
            assert(decreases_to!(fields[i as int] => fields[i as int].ty));
        }
        if f.flatten {
            encode_into(&f.ty, v, sink);
        } else {
            let skip = match f.skip_if {
                Some(rule) => skip_applies(rule, v),
                None => false,
            };
            if !skip {
                let a = encode(&f.ty, v);
                sink.insert(f.wire_name.clone(), a);
            }
        }
        i = i + 1;
    }
}

} // verus!
