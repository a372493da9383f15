//! What encoding and decoding mean, stated over the mathematical views.
use vstd::prelude::*;
use crate::error::ErrorView;
use crate::ident::{uuid_hyphenated, uuid_parsed};
use crate::time::{rfc3339_parts, rfc3339_text};
use crate::number::{decimal, decimals, parse_number, NumKind};
use crate::types::{FieldSchema, SkipRule, ValueType, ValueView, VariantSchema};
use crate::value::{entries_insert, entries_remove, lookup, AttrView};

verus! {

broadcast use vstd::std_specs::vec::group_vec_axioms;

pub type Entries = Seq<(Seq<char>, AttrView)>;

/// Inserts each pair in order.
pub open spec fn insert_all(sink: Entries, pairs: Entries) -> Entries
    decreases pairs.len(),
{
    if pairs.len() == 0 {
        sink
    } else {
        entries_insert(insert_all(sink, pairs.drop_last()), pairs.last().0, pairs.last().1)
    }
}

/// Whether `rule` leaves out value `v`.
pub open spec fn skips(rule: SkipRule, v: ValueView) -> bool {
    match rule {
        SkipRule::IsEmpty => match v {
            ValueView::Text(s) => s.len() == 0,
            ValueView::Binary(b) => b.len() == 0,
            ValueView::TextSet(s) => s.len() == 0,
            ValueView::NumberSet(s) => s.len() == 0,
            ValueView::BinarySet(s) => s.len() == 0,
            ValueView::List(s) => s.len() == 0,
            ValueView::MapOf(s) => s.len() == 0,
            _ => false,
        },
        SkipRule::IsZero => v == ValueView::Number(0),
        SkipRule::IsNone => v == ValueView::Null,
        SkipRule::IsFalse => v == ValueView::Bool(false),
    }
}

/// The value of field `i`, or `Null` past the end.
pub open spec fn field_value(vals: Seq<ValueView>, i: int) -> ValueView {
    if 0 <= i < vals.len() {
        vals[i]
    } else {
        ValueView::Null
    }
}

/// The attribute value that encodes `v` as type `ty`. A value that does not
/// have the shape of `ty`, or a timestamp that chrono does not accept,
/// encodes as `Null`.
pub open spec fn enc(ty: ValueType, v: ValueView) -> AttrView
    decreases ty, 3nat, 0nat,
{
    match ty {
        ValueType::Text => match v {
            ValueView::Text(s) => AttrView::S(s),
            _ => AttrView::Null,
        },
        ValueType::Bool => match v {
            ValueView::Bool(b) => AttrView::Bool(b),
            _ => AttrView::Null,
        },
        ValueType::Binary => match v {
            ValueView::Binary(b) => AttrView::B(b),
            _ => AttrView::Null,
        },
        ValueType::Number(_) => match v {
            ValueView::Number(n) => AttrView::N(decimal(n)),
            _ => AttrView::Null,
        },
        ValueType::Uuid => match v {
            ValueView::Uuid(u) => AttrView::S(uuid_hyphenated(u)),
            _ => AttrView::Null,
        },
        ValueType::Timestamp => match v {
            ValueView::Timestamp(s, n, o) => match rfc3339_text(s, n, o) {
                Some(t) => AttrView::S(t),
                None => AttrView::Null,
            },
            _ => AttrView::Null,
        },
        ValueType::Enumeration(names) => match v {
            ValueView::Choice(i) => if i < names@.len() {
                AttrView::S(names@[i as int]@)
            } else {
                AttrView::Null
            },
            _ => AttrView::Null,
        },
        ValueType::TextSet => match v {
            ValueView::TextSet(s) => AttrView::SS(s),
            _ => AttrView::Null,
        },
        ValueType::NumberSet(_) => match v {
            ValueView::NumberSet(s) => AttrView::NS(decimals(s)),
            _ => AttrView::Null,
        },
        ValueType::BinarySet => match v {
            ValueView::BinarySet(s) => AttrView::BS(s),
            _ => AttrView::Null,
        },
        ValueType::List(et) => match v {
            ValueView::List(s) => AttrView::L(enc_items(*et, s)),
            _ => AttrView::Null,
        },
        ValueType::Optional(et) => match v {
            ValueView::Null => AttrView::Null,
            _ => enc(*et, v),
        },
        ValueType::Raw => match v {
            ValueView::Raw(a) => a,
            _ => AttrView::Null,
        },
        ValueType::MapOf(_) | ValueType::Record(_) | ValueType::Union(_) => AttrView::M(
            enc_into(ty, v, Seq::empty()),
        ),
    }
}

/// Each item of a native list encoded as `et`.
pub open spec fn enc_items(et: ValueType, s: Seq<ValueView>) -> Seq<AttrView>
    decreases et, 4nat, 0nat,
{
    Seq::new(s.len(), |i: int| enc(et, s[i]))
}

/// Each value of a native map encoded as `et`, keys kept.
pub open spec fn enc_pairs(et: ValueType, es: Seq<(Seq<char>, ValueView)>) -> Entries
    decreases et, 4nat, 0nat,
{
    Seq::new(es.len(), |i: int| (es[i].0, enc(et, es[i].1)))
}

/// The entries of `sink` after the map-shaped value `v` of type `ty` has
/// written its attributes into it. Other types write nothing.
pub open spec fn enc_into(ty: ValueType, v: ValueView, sink: Entries) -> Entries
    decreases ty, 2nat, 0nat,
{
    match ty {
        ValueType::MapOf(et) => match v {
            ValueView::MapOf(es) => insert_all(sink, enc_pairs(*et, es)),
            _ => sink,
        },
        ValueType::Record(schema) => match v {
            ValueView::Record(vals) => enc_fields(schema.fields@, vals, sink, schema.fields@.len()),
            _ => sink,
        },
        ValueType::Union(u) => match v {
            ValueView::Variant(i, p) => if i < u.variants@.len() {
                entries_insert(
                    enc_into(u.variants@[i as int].payload, *p, sink),
                    u.tag@,
                    AttrView::S(u.variants@[i as int].wire_tag@),
                )
            } else {
                sink
            },
            _ => sink,
        },
        _ => sink,
    }
}

/// The first `n` fields of a record written into `sink`, in declaration order.
pub open spec fn enc_fields(fields: Seq<FieldSchema>, vals: Seq<ValueView>, sink: Entries, n: nat) -> Entries
    decreases fields, 0nat, n,
{
    if n == 0 || n > fields.len() {
        sink
    } else {
        let s = enc_fields(fields, vals, sink, (n - 1) as nat);
        let f = fields[n - 1];
        let v = field_value(vals, n - 1);
        if f.flatten {
            enc_into(f.ty, v, s)
        } else if f.skip_if is Some && skips(f.skip_if->0, v) {
            s
        } else {
            entries_insert(s, f.wire_name@, enc(f.ty, v))
        }
    }
}

/// The zero value of a type, used for absent `default` fields.
pub open spec fn zero(ty: ValueType) -> ValueView
    decreases ty,
{
    match ty {
        ValueType::Text => ValueView::Text(Seq::empty()),
        ValueType::Bool => ValueView::Bool(false),
        ValueType::Binary => ValueView::Binary(Seq::empty()),
        ValueType::Number(_) => ValueView::Number(0),
        ValueType::Uuid => ValueView::Uuid(0),
        ValueType::Timestamp => ValueView::Timestamp(0, 0, 0),
        ValueType::Enumeration(_) => ValueView::Choice(0),
        ValueType::TextSet => ValueView::TextSet(Seq::empty()),
        ValueType::NumberSet(_) => ValueView::NumberSet(Seq::empty()),
        ValueType::BinarySet => ValueView::BinarySet(Seq::empty()),
        ValueType::List(_) => ValueView::List(Seq::empty()),
        ValueType::Optional(_) => ValueView::Null,
        ValueType::MapOf(_) => ValueView::MapOf(Seq::empty()),
        ValueType::Raw => ValueView::Raw(AttrView::Null),
        ValueType::Record(schema) => ValueView::Record(
            Seq::new(
                schema.fields@.len(),
                |i: int|
                    if 0 <= i < schema.fields@.len() {
                        zero(schema.fields@[i].ty)
                    } else {
                        ValueView::Null
                    },
            ),
        ),
        ValueType::Union(_) => ValueView::Null,
    }
}

/// Whether decoding as `ty` has a zero value to fall back on.
pub open spec fn has_zero(ty: ValueType) -> bool
    decreases ty,
{
    match ty {
        ValueType::Union(_) => false,
        ValueType::Enumeration(names) => names@.len() > 0,
        ValueType::Record(schema) => forall|i: int|
            0 <= i < schema.fields@.len() ==> has_zero(#[trigger] schema.fields@[i].ty),
        _ => true,
    }
}

/// Position of the first name equal to `t`, or -1.
pub open spec fn name_index(names: Seq<String>, t: Seq<char>) -> int
    decreases names.len(),
{
    if names.len() == 0 {
        -1
    } else {
        let j = name_index(names.drop_last(), t);
        if j >= 0 {
            j
        } else if names.last()@ == t {
            names.len() - 1
        } else {
            -1
        }
    }
}

pub proof fn lemma_name_index_prefix(names: Seq<String>, t: Seq<char>, i: int)
    requires
        0 <= i < names.len(),
        name_index(names.subrange(0, i), t) == -1,
        names[i]@ == t,
    ensures
        name_index(names, t) == i,
    decreases names.len(),
{
    if i == names.len() - 1 {
        assert(names.drop_last() =~= names.subrange(0, i));
    } else {
        assert(names.drop_last().subrange(0, i) =~= names.subrange(0, i));
        lemma_name_index_prefix(names.drop_last(), t, i);
    }
}

/// Position of the first variant with wire tag `t`, or -1.
pub open spec fn tag_index(vs: Seq<VariantSchema>, t: Seq<char>) -> int
    decreases vs.len(),
{
    if vs.len() == 0 {
        -1
    } else {
        let j = tag_index(vs.drop_last(), t);
        if j >= 0 {
            j
        } else if vs.last().wire_tag@ == t {
            vs.len() - 1
        } else {
            -1
        }
    }
}

/// Each number text read as kind `k`; `None` if one of them is malformed.
pub open spec fn parse_all(k: NumKind, ts: Seq<Seq<char>>) -> Option<Seq<int>>
    decreases ts.len(),
{
    if ts.len() == 0 {
        Some(Seq::empty())
    } else {
        match parse_all(k, ts.drop_last()) {
            Some(ns) => match parse_number(k, ts.last()) {
                Some(n) => Some(ns.push(n)),
                None => None,
            },
            None => None,
        }
    }
}

/// The native value that attribute value `a` decodes to as type `ty`.
pub open spec fn dec(ty: ValueType, a: AttrView) -> Result<ValueView, ErrorView>
    decreases ty, 2nat, 0nat,
{
    match ty {
        ValueType::Text => match a {
            AttrView::S(s) => Ok(ValueView::Text(s)),
            _ => Err(ErrorView::InvalidType),
        },
        ValueType::Bool => match a {
            AttrView::Bool(b) => Ok(ValueView::Bool(b)),
            _ => Err(ErrorView::InvalidType),
        },
        ValueType::Binary => match a {
            AttrView::B(b) => Ok(ValueView::Binary(b)),
            _ => Err(ErrorView::InvalidType),
        },
        ValueType::Number(k) => match a {
            AttrView::N(t) => match parse_number(k, t) {
                Some(n) => Ok(ValueView::Number(n)),
                None => Err(ErrorView::InvalidFormat),
            },
            _ => Err(ErrorView::InvalidType),
        },
        ValueType::Uuid => match a {
            AttrView::S(t) => match uuid_parsed(t) {
                Some(u) => Ok(ValueView::Uuid(u)),
                None => Err(ErrorView::InvalidFormat),
            },
            _ => Err(ErrorView::InvalidType),
        },
        ValueType::Timestamp => match a {
            AttrView::S(t) => match rfc3339_parts(t) {
                Some(p) => Ok(ValueView::Timestamp(p.0, p.1, p.2)),
                None => Err(ErrorView::InvalidFormat),
            },
            _ => Err(ErrorView::InvalidType),
        },
        ValueType::Enumeration(names) => match a {
            AttrView::S(t) => {
                let i = name_index(names@, t);
                if i >= 0 {
                    Ok(ValueView::Choice(i as nat))
                } else {
                    Err(ErrorView::InvalidFormat)
                }
            },
            _ => Err(ErrorView::InvalidType),
        },
        ValueType::TextSet => match a {
            AttrView::SS(s) => Ok(ValueView::TextSet(s)),
            _ => Err(ErrorView::InvalidType),
        },
        ValueType::NumberSet(k) => match a {
            AttrView::NS(ts) => match parse_all(k, ts) {
                Some(ns) => Ok(ValueView::NumberSet(ns)),
                None => Err(ErrorView::InvalidFormat),
            },
            _ => Err(ErrorView::InvalidType),
        },
        ValueType::BinarySet => match a {
            AttrView::BS(s) => Ok(ValueView::BinarySet(s)),
            _ => Err(ErrorView::InvalidType),
        },
        ValueType::List(et) => match a {
            AttrView::L(items) => match dec_list(*et, items, items.len()) {
                Ok(vs) => Ok(ValueView::List(vs)),
                Err(e) => Err(e),
            },
            _ => Err(ErrorView::InvalidType),
        },
        ValueType::Optional(et) => match a {
            AttrView::Null => Ok(ValueView::Null),
            _ => dec(*et, a),
        },
        ValueType::Raw => Ok(ValueView::Raw(a)),
        ValueType::MapOf(_) | ValueType::Record(_) | ValueType::Union(_) => match a {
            AttrView::M(es) => dec_from(ty, es).0,
            _ => Err(ErrorView::InvalidType),
        },
    }
}

/// The first `n` list items decoded in order; the first failure wins.
pub open spec fn dec_list(et: ValueType, items: Seq<AttrView>, n: nat) -> Result<Seq<ValueView>, ErrorView>
    decreases et, 3nat, n,
{
    if n == 0 || n > items.len() {
        Ok(Seq::empty())
    } else {
        match dec_list(et, items, (n - 1) as nat) {
            Ok(vs) => match dec(et, items[n - 1]) {
                Ok(v) => Ok(vs.push(v)),
                Err(e) => Err(e),
            },
            Err(e) => Err(e),
        }
    }
}

/// The first `n` map entries decoded in order, keys kept; the first failure wins.
pub open spec fn dec_entries(et: ValueType, es: Entries, n: nat) -> Result<Seq<(Seq<char>, ValueView)>, ErrorView>
    decreases et, 3nat, n,
{
    if n == 0 || n > es.len() {
        Ok(Seq::empty())
    } else {
        match dec_entries(et, es, (n - 1) as nat) {
            Ok(vs) => match dec(et, es[n - 1].1) {
                Ok(v) => Ok(vs.push((es[n - 1].0, v))),
                Err(e) => Err(e),
            },
            Err(e) => Err(e),
        }
    }
}

/// Decodes the map-shaped type `ty` out of the entries `m`: the result, and
/// the entries that remain once it has taken what it recognises. A catch-all
/// map takes every entry. A union first takes its tag, which must be text
/// (`InvalidType` when absent or of another variant) naming a variant
/// (`InvalidFormat` otherwise), then decodes that variant's payload.
pub open spec fn dec_from(ty: ValueType, m: Entries) -> (Result<ValueView, ErrorView>, Entries)
    decreases ty, 1nat, 0nat,
{
    match ty {
        ValueType::MapOf(et) => (
            match dec_entries(*et, m, m.len()) {
                Ok(es) => Ok(ValueView::MapOf(es)),
                Err(e) => Err(e),
            },
            Seq::empty(),
        ),
        ValueType::Record(schema) => {
            let (r, rest) = dec_fields(schema.fields@, m, schema.fields@.len());
            (
                match r {
                    Ok(vs) => Ok(ValueView::Record(vs)),
                    Err(e) => Err(e),
                },
                rest,
            )
        },
        ValueType::Union(u) => match lookup(m, u.tag@) {
            Some(AttrView::S(t)) => {
                let rest = entries_remove(m, u.tag@);
                let i = tag_index(u.variants@, t);
                if 0 <= i < u.variants@.len() {
                    let (r, rest2) = dec_from(u.variants@[i].payload, rest);
                    (
                        match r {
                            Ok(p) => Ok(ValueView::Variant(i as nat, Box::new(p))),
                            Err(e) => Err(e),
                        },
                        rest2,
                    )
                } else {
                    (Err(ErrorView::InvalidFormat), rest)
                }
            },
            Some(_) => (Err(ErrorView::InvalidType), entries_remove(m, u.tag@)),
            None => (Err(ErrorView::InvalidType), m),
        },
        _ => (Err(ErrorView::InvalidType), m),
    }
}

/// The first `n` fields of a record decoded in declaration order, each
/// taking its attribute out of the map.
pub open spec fn dec_fields(fields: Seq<FieldSchema>, m: Entries, n: nat) -> (Result<Seq<ValueView>, ErrorView>, Entries)
    decreases fields, 0nat, n,
{
    if n == 0 || n > fields.len() {
        (Ok(Seq::empty()), m)
    } else {
        let (r, m1) = dec_fields(fields, m, (n - 1) as nat);
        match r {
            Err(e) => (Err(e), m1),
            Ok(vs) => {
                let f = fields[n - 1];
                let (r2, m2) = if f.flatten {
                    dec_from(f.ty, m1)
                } else {
                    match lookup(m1, f.wire_name@) {
                        Some(a) => (dec(f.ty, a), entries_remove(m1, f.wire_name@)),
                        None => if f.default_on_absent {
                            (Ok(zero(f.ty)), m1)
                        } else {
                            (Err(ErrorView::MissingField(f.wire_name@)), m1)
                        },
                    }
                };
                match r2 {
                    Ok(v) => (Ok(vs.push(v)), m2),
                    Err(e) => (Err(e), m2),
                }
            },
        }
    }
}

pub proof fn lemma_tag_index(vs: Seq<VariantSchema>, t: Seq<char>)
    ensures
        -1 <= tag_index(vs, t) < vs.len(),
        tag_index(vs, t) >= 0 ==> vs[tag_index(vs, t)].wire_tag@ == t,
        tag_index(vs, t) == -1 <==> forall|j: int| 0 <= j < vs.len() ==> vs[j].wire_tag@ != t,
    decreases vs.len(),
{
    if vs.len() > 0 {
        let w = vs.drop_last();
        lemma_tag_index(w, t);
        assert(forall|j: int| 0 <= j < w.len() ==> w[j] == vs[j]);
    }
}

/// Once decoding a prefix of a list fails, every longer prefix fails alike.
pub proof fn lemma_dec_list_err(et: ValueType, items: Seq<AttrView>, k: nat, n: nat)
    requires
        k <= n <= items.len(),
        dec_list(et, items, k) is Err,
    ensures
        dec_list(et, items, n) == dec_list(et, items, k),
    decreases n - k,
{
    if n > k {
        lemma_dec_list_err(et, items, k, (n - 1) as nat);
    }
}

/// Once decoding a prefix of the entries fails, every longer prefix fails alike.
pub proof fn lemma_dec_entries_err(et: ValueType, es: Entries, k: nat, n: nat)
    requires
        k <= n <= es.len(),
        dec_entries(et, es, k) is Err,
    ensures
        dec_entries(et, es, n) == dec_entries(et, es, k),
    decreases n - k,
{
    if n > k {
        lemma_dec_entries_err(et, es, k, (n - 1) as nat);
    }
}

/// Once a number of a set fails to parse, so does every longer prefix.
pub proof fn lemma_parse_all_err(k: NumKind, ts: Seq<Seq<char>>, i: nat, n: nat)
    requires
        i <= n <= ts.len(),
        parse_all(k, ts.subrange(0, i as int)) is None,
    ensures
        parse_all(k, ts.subrange(0, n as int)) is None,
    decreases n - i,
{
    if n > i {
        lemma_parse_all_err(k, ts, i, (n - 1) as nat);
        assert(ts.subrange(0, n as int).drop_last() =~= ts.subrange(0, n - 1));
    }
}

/// Once decoding the first fields fails, every longer prefix fails alike,
/// with the same remaining entries.
pub proof fn lemma_dec_fields_err(fields: Seq<FieldSchema>, m: Entries, k: nat, n: nat)
    requires
        k <= n <= fields.len(),
        dec_fields(fields, m, k).0 is Err,
    ensures
        dec_fields(fields, m, n) == dec_fields(fields, m, k),
    decreases n - k,
{
    if n > k {
        lemma_dec_fields_err(fields, m, k, (n - 1) as nat);
    }
}

} // verus!
