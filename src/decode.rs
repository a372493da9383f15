//! Decoding attribute values and attribute maps into native values.
use vstd::prelude::*;
use crate::error::{AttributeError, ErrorView};
use crate::ident::parse_uuid_text;
use crate::time::parse_rfc3339;
use crate::number::parse_number_text;
use crate::semantics::{dec, dec_entries, dec_fields, dec_from, dec_list, lemma_dec_entries_err, lemma_dec_fields_err, lemma_dec_list_err, lemma_name_index_prefix, lemma_parse_all_err, name_index, parse_all, tag_index, zero};
use crate::types::{ints_view, FieldSchema, Value, ValueType, ValueView, VariantSchema};
use crate::value::{lemma_map_value_view, strings_view, AttrView, AttributeValue, Attributes};

verus! {

broadcast use vstd::std_specs::vec::group_vec_axioms;

pub open spec fn result_view(r: Result<Value, AttributeError>) -> Result<ValueView, ErrorView> {
    match r {
        Ok(v) => Ok(v@),
        Err(e) => Err(e@),
    }
}

/// The zero value of `ty`.
pub fn zero_value(ty: &ValueType) -> (r: Value)
    ensures
        r@ == zero(*ty),
    decreases ty,
{
    match ty {
        ValueType::Text => Value::Text(String::new()),
        ValueType::Bool => Value::Bool(false),
        ValueType::Binary => Value::Binary(Vec::new()),
        ValueType::Number(_) => Value::Number(0),
        ValueType::Uuid => Value::Uuid(0),
        ValueType::Timestamp => Value::Timestamp(0, 0, 0),
        ValueType::Enumeration(_) => Value::Choice(0),
        ValueType::TextSet => {
            let r = Value::TextSet(Vec::new());
            assert(r@ == zero(*ty)) by {
                assert(strings_view(Seq::<String>::empty()) =~= Seq::empty());
            }
            r
        },
        ValueType::NumberSet(_) => {
            let r = Value::NumberSet(Vec::new());
            assert(r@ == zero(*ty)) by {
                assert(ints_view(Seq::<i128>::empty()) =~= Seq::empty());
            }
            r
        },
        ValueType::BinarySet => {
            let r = Value::BinarySet(Vec::new());
            assert(r@ == zero(*ty)) by {
                assert(crate::value::blobs_view(Seq::<Vec<u8>>::empty()) =~= Seq::empty());
            }
            r
        },
        ValueType::List(_) => {
            let r = Value::List(Vec::new());
            assert(r@ == zero(*ty)) by {
                assert(r@->List_0 =~= Seq::empty());
            }
            r
        },
        ValueType::Optional(_) => Value::Null,
        ValueType::MapOf(_) => {
            let r = Value::MapOf(Vec::new());
            assert(r@ == zero(*ty)) by {
                assert(r@->MapOf_0 =~= Seq::empty());
            }
            r
        },
        ValueType::Raw => Value::Raw(AttributeValue::Null),
        ValueType::Record(schema) => {
            let mut out: Vec<Value> = Vec::new();
            let mut i: usize = 0;
            while i < schema.fields.len()
                invariant
                    *ty == ValueType::Record(*schema),
                    i <= schema.fields.len(),
                    out.len() == i,
                    forall|j: int| 0 <= j < i ==> out[j]@ == zero(schema.fields[j].ty),
                decreases schema.fields.len() - i,
            {
                proof {
                    assert(decreases_to!(*ty => ty->Record_0));
                    assert(decreases_to!(schema.fields => schema.fields[i as int]));
                    assert(decreases_to!(schema.fields[i as int] => schema.fields[i as int].ty));
                }
                out.push(zero_value(&schema.fields[i].ty));
                i = i + 1;
            }
            let r = Value::Record(out);
            assert(r@ == zero(*ty)) by {
                assert(r@->Record_0 =~= zero(*ty)->Record_0);
            }
            r
        },
        ValueType::Union(_) => Value::Null,
    }
}

/// Decodes `a` as a value of type `ty`.
pub fn decode(ty: &ValueType, a: AttributeValue) -> (r: Result<Value, AttributeError>)
    ensures
        result_view(r) == dec(*ty, a@),
    decreases ty, 2nat, 0nat,
{
    match ty {
        ValueType::Text => match a {
            AttributeValue::S(s) => Ok(Value::Text(s)),
            _ => Err(AttributeError::InvalidType),
        },
        ValueType::Bool => match a {
            AttributeValue::Bool(b) => Ok(Value::Bool(b)),
            _ => Err(AttributeError::InvalidType),
        },
        ValueType::Binary => match a {
            AttributeValue::B(b) => Ok(Value::Binary(b)),
            _ => Err(AttributeError::InvalidType),
        },
        ValueType::Number(k) => match a {
            AttributeValue::N(t) => match parse_number_text(*k, t.as_str()) {
                Some(n) => Ok(Value::Number(n)),
                None => Err(AttributeError::InvalidFormat),
            },
            _ => Err(AttributeError::InvalidType),
        },
        ValueType::Uuid => match a {
            AttributeValue::S(t) => match parse_uuid_text(t.as_str()) {
                Some(u) => Ok(Value::Uuid(u)),
                None => Err(AttributeError::InvalidFormat),
            },
            _ => Err(AttributeError::InvalidType),
        },
        ValueType::Timestamp => match a {
            AttributeValue::S(t) => match parse_rfc3339(t.as_str()) {
                Some(p) => Ok(Value::Timestamp(p.0, p.1, p.2)),
                None => Err(AttributeError::InvalidFormat),
            },
            _ => Err(AttributeError::InvalidType),
        },
        ValueType::Enumeration(names) => match a {
            AttributeValue::S(t) => match find_name(names, &t) {
                Some(i) => Ok(Value::Choice(i)),
                None => Err(AttributeError::InvalidFormat),
            },
            _ => Err(AttributeError::InvalidType),
        },
        ValueType::TextSet => match a {
            AttributeValue::SS(s) => Ok(Value::TextSet(s)),
            _ => Err(AttributeError::InvalidType),
        },
        ValueType::NumberSet(k) => match a {
            AttributeValue::NS(ts) => {
                let ghost tv = strings_view(ts@);
                let mut out: Vec<i128> = Vec::new();
                let mut i: usize = 0;
                while i < ts.len()
                    invariant
                        *ty == ValueType::NumberSet(*k),
                        a@ == AttrView::NS(tv),
                        tv == strings_view(ts@),
                        i <= ts.len(),
                        parse_all(*k, tv.subrange(0, i as int)) == Some(ints_view(out@)),
                    decreases ts.len() - i,
                {
                    assert(tv.subrange(0, i + 1).drop_last() =~= tv.subrange(0, i as int));
                    match parse_number_text(*k, ts[i].as_str()) {
                        Some(n) => {
                            let ghost prev = ints_view(out@);
                            out.push(n);
                            assert(ints_view(out@) =~= prev.push(n as int));
                        },
                        None => {
                            proof {
                                assert(tv.subrange(0, i + 1).last() == tv[i as int]);
                                lemma_parse_all_err(*k, tv, (i + 1) as nat, tv.len());
                                assert(tv.subrange(0, tv.len() as int) =~= tv);
                            }
                            return Err(AttributeError::InvalidFormat);
                        },
                    }
                    i = i + 1;
                }
                assert(tv.subrange(0, i as int) =~= tv);
                Ok(Value::NumberSet(out))
            },
            _ => Err(AttributeError::InvalidType),
        },
        ValueType::BinarySet => match a {
            AttributeValue::BS(s) => Ok(Value::BinarySet(s)),
            _ => Err(AttributeError::InvalidType),
        },
        ValueType::List(et) => match a {
            AttributeValue::L(items) => {
                let ghost lv = AttributeValue::L(items)@->L_0;
                let ghost n = items.len();
                let mut rest = items;
                let mut out: Vec<Value> = Vec::new();
                let mut i: usize = 0;
                while rest.len() > 0
                    invariant
                        *ty == ValueType::List(*et),
                        a@ == AttrView::L(lv),
                        lv.len() == n,
                        i + rest.len() == n,
                        forall|j: int| 0 <= j < rest.len() ==> #[trigger] rest[j]@ == lv[i + j],
                        dec_list(**et, lv, i as nat) is Ok,
                        dec_list(**et, lv, i as nat)->Ok_0.len() == i,
                        out.len() == i,
                        forall|j: int| 0 <= j < i ==> out[j]@ == dec_list(**et, lv, i as nat)->Ok_0[j],
                    decreases rest.len(),
                {
                    assert(rest[0]@ == lv[i as int]);
                    let item = rest.remove(0);
                    assert(item@ == lv[i as int]);
                    proof {
                        assert(decreases_to!(*ty => ty->List_0));
                    }
                    match decode(et, item) {
                        Ok(v) => {
                            out.push(v);
                        },
                        Err(e) => {
                            proof {
                                lemma_dec_list_err(**et, lv, (i + 1) as nat, n as nat);
                            }
                            return Err(e);
                        },
                    }
                    i = i + 1;
                }
                let r = Value::List(out);
                assert(r@->List_0 =~= dec_list(**et, lv, n as nat)->Ok_0);
                Ok(r)
            },
            _ => Err(AttributeError::InvalidType),
        },
        ValueType::Optional(et) => match a {
            AttributeValue::Null => Ok(Value::Null),
            _ => {
                proof {
                    assert(decreases_to!(*ty => ty->Optional_0));
                }
                decode(et, a)
            },
        },
        ValueType::Raw => Ok(Value::Raw(a)),
        ValueType::MapOf(_) | ValueType::Record(_) | ValueType::Union(_) => match a {
            AttributeValue::M(m) => {
                proof {
                    lemma_map_value_view(m);
                }
                let mut m = m;
                decode_from(ty, &mut m)
            },
            _ => Err(AttributeError::InvalidType),
        },
    }
}

/// Decodes the map-shaped type `ty` out of `attrs`, taking out the entries it
/// recognises and leaving the rest for the fields declared after it.
pub fn decode_from(ty: &ValueType, attrs: &mut Attributes) -> (r: Result<Value, AttributeError>)
    ensures
        (result_view(r), final(attrs)@) == dec_from(*ty, old(attrs)@),
    decreases ty, 1nat, 0nat,
{
    match ty {
        ValueType::MapOf(et) => {
            let ghost ev = attrs@;
            let mut es: Vec<(String, AttributeValue)> = Vec::new();
            std::mem::swap(&mut attrs.entries, &mut es);
            assert(attrs@ =~= Seq::<(Seq<char>, AttrView)>::empty());
            let ghost n = es.len();
            let mut rest = es;
            let mut out: Vec<(String, Value)> = Vec::new();
            let mut i: usize = 0;
            while rest.len() > 0
                invariant
                    *ty == ValueType::MapOf(*et),
                    ev == old(attrs)@,
                    ev.len() == n,
                    i + rest.len() == n,
                    attrs@ == Seq::<(Seq<char>, AttrView)>::empty(),
                    forall|j: int|
                        0 <= j < rest.len() ==> #[trigger] rest[j].0@ == ev[i + j].0 && rest[j].1@ == ev[i + j].1,
                    dec_entries(**et, ev, i as nat) is Ok,
                    dec_entries(**et, ev, i as nat)->Ok_0.len() == i,
                    out.len() == i,
                    forall|j: int|
                        0 <= j < i ==> #[trigger] out[j].0@ == dec_entries(**et, ev, i as nat)->Ok_0[j].0
                            && out[j].1@ == dec_entries(**et, ev, i as nat)->Ok_0[j].1,
                decreases rest.len(),
            {
                assert(rest[0].0@ == ev[i as int].0);
                let (k, v) = rest.remove(0);
                proof {
                    assert(decreases_to!(*ty => ty->MapOf_0));
                }
                match decode(et, v) {
                    Ok(x) => {
                        out.push((k, x));
                    },
                    Err(e) => {
                        proof {
                            lemma_dec_entries_err(**et, ev, (i + 1) as nat, n as nat);
                        }
                        return Err(e);
                    },
                }
                i = i + 1;
            }
            let r = Value::MapOf(out);
            assert(r@->MapOf_0 =~= dec_entries(**et, ev, n as nat)->Ok_0);
            Ok(r)
        },
        ValueType::Record(schema) => {
            proof {
                assert(decreases_to!(*ty => ty->Record_0));
            }
            match decode_fields(&schema.fields, attrs) {
                Ok(vs) => Ok(Value::Record(vs)),
                Err(e) => Err(e),
            }
        },
        ValueType::Union(u) => {
            let tagv = attrs.remove(u.tag.as_str());
            match tagv {
                Some(AttributeValue::S(t)) => match find_variant(&u.variants, &t) {
                    Some(i) => {
                        proof {
                            assert(decreases_to!(*ty => ty->Union_0));
                            assert(decreases_to!(u.variants => u.variants[i as int]));
                        }
                        match decode_from(&u.variants[i].payload, attrs) {
                            Ok(p) => Ok(Value::Variant(i, Box::new(p))),
                            Err(e) => Err(e),
                        }
                    },
                    None => Err(AttributeError::InvalidFormat),
                },
                Some(_) => Err(AttributeError::InvalidType),
                None => Err(AttributeError::InvalidType),
            }
        },
        _ => Err(AttributeError::InvalidType),
    }
}

/// Decodes a whole attribute map as the map-shaped type `ty`.
pub fn from_attributes(ty: &ValueType, attrs: Attributes) -> (r: Result<Value, AttributeError>)
    ensures
        result_view(r) == dec_from(*ty, attrs@).0,
{
    let mut attrs = attrs;
    decode_from(ty, &mut attrs)
}

/// Position of the first name equal to `t`.
pub fn find_name(names: &Vec<String>, t: &String) -> (r: Option<usize>)
    ensures
        match r {
            Some(i) => i < names.len() && name_index(names@, t@) == i as int,
            None => name_index(names@, t@) == -1,
        },
{
    let mut i: usize = 0;
    while i < names.len()
        invariant
            i <= names.len(),
            name_index(names@.subrange(0, i as int), t@) == -1,
        decreases names.len() - i,
    {
        assert(names@.subrange(0, i + 1).drop_last() =~= names@.subrange(0, i as int));
        if names[i] == *t {
            proof {
                lemma_name_index_prefix(names@, t@, i as int);
            }
            return Some(i);
        }
        i = i + 1;
    }
    assert(names@.subrange(0, i as int) =~= names@);
    None
}

/// Position of the first variant whose wire tag is `t`.
pub fn find_variant(vs: &Vec<VariantSchema>, t: &String) -> (r: Option<usize>)
    ensures
        match r {
            Some(i) => i < vs.len() && tag_index(vs@, t@) == i as int,
            None => tag_index(vs@, t@) == -1,
        },
{
    let mut i: usize = 0;
    while i < vs.len()
        invariant
            i <= vs.len(),
            tag_index(vs@.subrange(0, i as int), t@) == -1,
        decreases vs.len() - i,
    {
        assert(vs@.subrange(0, i + 1).drop_last() =~= vs@.subrange(0, i as int));
        if vs[i].wire_tag == *t {
            proof {
                lemma_tag_index_prefix(vs@, t@, i as int);
            }
            return Some(i);
        }
        i = i + 1;
    }
    assert(vs@.subrange(0, i as int) =~= vs@);
    None
}

proof fn lemma_tag_index_prefix(vs: Seq<VariantSchema>, t: Seq<char>, i: int)
    requires
        0 <= i < vs.len(),
        tag_index(vs.subrange(0, i), t) == -1,
        vs[i].wire_tag@ == t,
    ensures
        tag_index(vs, t) == i,
    decreases vs.len(),
{
    if i == vs.len() - 1 {
        assert(vs.drop_last() =~= vs.subrange(0, i));
    } else {
        assert(vs.drop_last().subrange(0, i) =~= vs.subrange(0, i));
        lemma_tag_index_prefix(vs.drop_last(), t, i);
    }
}

/// Decodes the fields of a record in declaration order, each taking its
/// attribute out of `attrs`.
fn decode_fields(fields: &Vec<FieldSchema>, attrs: &mut Attributes) -> (r: Result<Vec<Value>, AttributeError>)
    ensures
        match r {
            Ok(vs) => dec_fields(fields@, old(attrs)@, fields@.len()) == (
                Ok::<Seq<ValueView>, ErrorView>(Value::Record(vs)@->Record_0),
                final(attrs)@,
            ),
            Err(e) => dec_fields(fields@, old(attrs)@, fields@.len()) == (
                Err::<Seq<ValueView>, ErrorView>(e@),
                final(attrs)@,
            ),
        },
    decreases fields, 0nat, 0nat,
{
    let ghost m0 = attrs@;
    let mut out: Vec<Value> = Vec::new();
    let mut i: usize = 0;
    while i < fields.len()
        invariant
            i <= fields.len(),
            m0 == old(attrs)@,
            dec_fields(fields@, m0, i as nat).0 is Ok,
            dec_fields(fields@, m0, i as nat).1 == attrs@,
            dec_fields(fields@, m0, i as nat).0->Ok_0.len() == i,
            out.len() == i,
            forall|j: int| 0 <= j < i ==> out[j]@ == dec_fields(fields@, m0, i as nat).0->Ok_0[j],
        decreases fields.len() - i,
    {
        let f = &fields[i];
        proof {
            assert(decreases_to!(*fields => fields[i as int]));
            assert(decreases_to!(fields[i as int] => fields[i as int].ty));
        }
        let r = if f.flatten {
            decode_from(&f.ty, attrs)
        } else {
            match attrs.remove(f.wire_name.as_str()) {
                Some(a) => decode(&f.ty, a),
                None => if f.default_on_absent {
                    Ok(zero_value(&f.ty))
                } else {
                    Err(AttributeError::MissingField { name: f.wire_name.clone() })
                },
            }
        };
        match r {
            Ok(v) => {
                out.push(v);
            },
            Err(e) => {
                proof {
                    lemma_dec_fields_err(fields@, m0, (i + 1) as nat, fields@.len());
                }
                return Err(e);
            },
        }
        i = i + 1;
    }
    assert(Value::Record(out)@->Record_0 =~= dec_fields(fields@, m0, i as nat).0->Ok_0);
    Ok(out)
}

} // verus!
