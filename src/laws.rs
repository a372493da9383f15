//! Properties that hold of the codec, the entity mapper and the schemas.
use vstd::prelude::*;
use crate::error::ErrorView;
use crate::key::{key_entries, lemma_key_indices, partition_index, sort_index};
use crate::number::{decimals, lemma_number_round_trip, NumKind};
use crate::schema::{first_duplicate_tag, union_check};
use crate::semantics::{
    dec, dec_entries, dec_fields, dec_from, dec_list, enc, enc_fields, enc_into, enc_items, enc_pairs,
    field_value, insert_all, name_index, lemma_dec_fields_err, lemma_tag_index, parse_all, skips, tag_index, zero, Entries,
};
use crate::types::{EntitySchema, FieldSchema, UnionSchema, ValueType, ValueView, VariantSchema};
use crate::value::{
    entries_insert, entries_remove, has_key, index_of, keys_unique, lemma_index_of, lemma_index_unique,
    lemma_lookup_insert, lookup, AttrView,
};

verus! {

/// Values of type `ty` that survive encoding: numbers within their kind,
/// a variant of an enumeration whose name no earlier variant has, keys of a
/// map distinct, and a present optional value that does not
/// encode as `Null`. Records and unions are not scalar or collection types;
/// identifiers and timestamps rest on the parsers of the uuid and chrono
/// crates, which nothing here states.
pub open spec fn conforms(ty: ValueType, v: ValueView) -> bool
    decreases ty,
{
    match ty {
        ValueType::Text => v is Text,
        ValueType::Bool => v is Bool,
        ValueType::Binary => v is Binary,
        ValueType::Number(k) => v is Number && k.holds(v->Number_0),
        ValueType::TextSet => v is TextSet,
        ValueType::NumberSet(k) => v is NumberSet && forall|i: int|
            0 <= i < v->NumberSet_0.len() ==> k.holds(#[trigger] v->NumberSet_0[i]),
        ValueType::BinarySet => v is BinarySet,
        ValueType::List(et) => v is List && forall|i: int|
            0 <= i < v->List_0.len() ==> conforms(*et, #[trigger] v->List_0[i]),
        ValueType::Optional(et) => v is Null || (conforms(*et, v) && enc(*et, v) != AttrView::Null),
        ValueType::MapOf(et) => v is MapOf && keys_unique(v->MapOf_0) && forall|i: int|
            0 <= i < v->MapOf_0.len() ==> conforms(*et, #[trigger] v->MapOf_0[i].1),
        ValueType::Raw => v is Raw,
        ValueType::Enumeration(names) => v is Choice && v->Choice_0 < names@.len()
            && name_index(names@, names@[v->Choice_0 as int]@) == v->Choice_0,
        ValueType::Uuid | ValueType::Timestamp | ValueType::Record(_) | ValueType::Union(_) => false,
    }
}

proof fn lemma_parse_decimals(k: NumKind, ns: Seq<int>)
    requires
        forall|i: int| 0 <= i < ns.len() ==> k.holds(#[trigger] ns[i]),
    ensures
        parse_all(k, decimals(ns)) == Some(ns),
    decreases ns.len(),
{
    if ns.len() > 0 {
        let w = ns.drop_last();
        assert(decimals(ns).drop_last() =~= decimals(w));
        assert(forall|i: int| 0 <= i < w.len() ==> w[i] == ns[i]);
        lemma_parse_decimals(k, w);
        lemma_number_round_trip(k, ns.last());
        assert(ns =~= w.push(ns.last()));
    }
}

proof fn lemma_dec_list_each(et: ValueType, items: Seq<AttrView>, vs: Seq<ValueView>, n: nat)
    requires
        n <= items.len() == vs.len(),
        forall|i: int| 0 <= i < items.len() ==> dec(et, #[trigger] items[i]) == Ok::<ValueView, ErrorView>(vs[i]),
    ensures
        dec_list(et, items, n) == Ok::<Seq<ValueView>, ErrorView>(vs.subrange(0, n as int)),
    decreases n,
{
    if n > 0 {
        lemma_dec_list_each(et, items, vs, (n - 1) as nat);
        assert(vs.subrange(0, n as int) =~= vs.subrange(0, n - 1).push(vs[n - 1]));
    } else {
        assert(vs.subrange(0, 0) =~= Seq::<ValueView>::empty());
    }
}

proof fn lemma_dec_entries_each(et: ValueType, es: Entries, vs: Seq<(Seq<char>, ValueView)>, n: nat)
    requires
        n <= es.len() == vs.len(),
        forall|i: int| 0 <= i < es.len() ==> (#[trigger] es[i]).0 == vs[i].0 && dec(et, es[i].1) == Ok::<ValueView, ErrorView>(vs[i].1),
    ensures
        dec_entries(et, es, n) == Ok::<Seq<(Seq<char>, ValueView)>, ErrorView>(vs.subrange(0, n as int)),
    decreases n,
{
    if n > 0 {
        lemma_dec_entries_each(et, es, vs, (n - 1) as nat);
        assert(vs.subrange(0, n as int) =~= vs.subrange(0, n - 1).push(vs[n - 1]));
    } else {
        assert(vs.subrange(0, 0) =~= Seq::<(Seq<char>, ValueView)>::empty());
    }
}

/// Inserting pairs with distinct keys into an empty map keeps them in order.
pub proof fn lemma_insert_all_distinct(pairs: Entries)
    requires
        keys_unique(pairs),
    ensures
        insert_all(Seq::empty(), pairs) == pairs,
    decreases pairs.len(),
{
    if pairs.len() > 0 {
        let w = pairs.drop_last();
        assert(forall|i: int| 0 <= i < w.len() ==> w[i] == pairs[i]);
        lemma_insert_all_distinct(w);
        lemma_index_of(w, pairs.last().0);
        assert(index_of(w, pairs.last().0) == -1);
        assert(pairs =~= w.push(pairs.last()));
    }
}

/// A list whose items each decode back from their encoding decodes back
/// from its encoding.
pub proof fn law_list_round_trip(et: ValueType, items: Seq<ValueView>)
    requires
        forall|i: int| 0 <= i < items.len() ==> dec(et, enc(et, #[trigger] items[i])) == Ok::<ValueView, ErrorView>(items[i]),
    ensures
        dec(ValueType::List(Box::new(et)), enc(ValueType::List(Box::new(et)), ValueView::List(items)))
            == Ok::<ValueView, ErrorView>(ValueView::List(items)),
{
    let encoded = enc_items(et, items);
    assert forall|i: int| 0 <= i < encoded.len() implies dec(et, #[trigger] encoded[i])
        == Ok::<ValueView, ErrorView>(items[i]) by {
        assert(encoded[i] == enc(et, items[i]));
    }
    lemma_dec_list_each(et, encoded, items, items.len());
    assert(items.subrange(0, items.len() as int) =~= items);
}

/// A map with distinct keys whose values each decode back from their
/// encoding decodes back from its encoding; read as a catch-all it takes
/// every entry and leaves none.
pub proof fn law_map_round_trip(et: ValueType, es: Seq<(Seq<char>, ValueView)>)
    requires
        keys_unique(es),
        forall|i: int|
            0 <= i < es.len() ==> dec(et, enc(et, (#[trigger] es[i]).1)) == Ok::<ValueView, ErrorView>(es[i].1),
    ensures
        ({
            let ty = ValueType::MapOf(Box::new(et));
            let v = ValueView::MapOf(es);
            &&& dec(ty, enc(ty, v)) == Ok::<ValueView, ErrorView>(v)
            &&& dec_from(ty, enc_into(ty, v, Seq::empty()))
                == (Ok::<ValueView, ErrorView>(v), Seq::<(Seq<char>, AttrView)>::empty())
        }),
{
    let ty = ValueType::MapOf(Box::new(et));
    let v = ValueView::MapOf(es);
    let pairs = enc_pairs(et, es);
    assert(keys_unique(pairs));
    lemma_insert_all_distinct(pairs);
    assert forall|i: int| 0 <= i < pairs.len() implies (#[trigger] pairs[i]).0 == es[i].0
        && dec(et, pairs[i].1) == Ok::<ValueView, ErrorView>(es[i].1) by {
        assert(pairs[i] == (es[i].0, enc(et, es[i].1)));
    }
    lemma_dec_entries_each(et, pairs, es, pairs.len());
    assert(es.subrange(0, es.len() as int) =~= es);
    assert(enc_into(ty, v, Seq::empty()) == pairs);
    assert(enc(ty, v) == AttrView::M(pairs));
    assert(dec_from(ty, pairs).0 == Ok::<ValueView, ErrorView>(v));
    assert(dec(ty, AttrView::M(pairs)) == dec_from(ty, pairs).0);
}

/// Round trip: decoding the encoding of a value of a scalar or collection
/// type gives the value back, empty collections and absent optionals
/// included.
pub proof fn law_round_trip(ty: ValueType, v: ValueView)
    requires
        conforms(ty, v),
    ensures
        dec(ty, enc(ty, v)) == Ok::<ValueView, ErrorView>(v),
    decreases ty,
{
    match ty {
        ValueType::Number(k) => {
            lemma_number_round_trip(k, v->Number_0);
        },
        ValueType::NumberSet(k) => {
            lemma_parse_decimals(k, v->NumberSet_0);
        },
        ValueType::List(et) => {
            let items = v->List_0;
            assert forall|i: int| 0 <= i < items.len() implies dec(*et, enc(*et, #[trigger] items[i]))
                == Ok::<ValueView, ErrorView>(items[i]) by {
                law_round_trip(*et, items[i]);
            }
            law_list_round_trip(*et, items);
        },
        ValueType::Optional(et) => {
            if !(v is Null) {
                law_round_trip(*et, v);
            }
        },
        ValueType::MapOf(et) => {
            let es = v->MapOf_0;
            assert forall|i: int| 0 <= i < es.len() implies dec(*et, enc(*et, (#[trigger] es[i]).1))
                == Ok::<ValueView, ErrorView>(es[i].1) by {
                law_round_trip(*et, es[i].1);
            }
            law_map_round_trip(*et, es);
        },
        _ => {},
    }
}

/// Field `q` is the only one that writes the entry of key `k`: every other
/// field either has another wire name or, flattened, leaves `k` as it is.
pub open spec fn sole_writer(fs: Seq<FieldSchema>, vals: Seq<ValueView>, q: int, k: Seq<char>) -> bool {
    &&& 0 <= q < fs.len()
    &&& !fs[q].flatten
    &&& fs[q].skip_if is None
    &&& fs[q].wire_name@ == k
    &&& forall|i: int|
        0 <= i < fs.len() && i != q ==> if (#[trigger] fs[i]).flatten {
            forall|s: Entries| lookup(enc_into(fs[i].ty, field_value(vals, i), s), k) == lookup(s, k)
        } else {
            fs[i].wire_name@ != k
        }
}

proof fn lemma_enc_fields_lookup(fs: Seq<FieldSchema>, vals: Seq<ValueView>, n: nat, q: int, k: Seq<char>)
    requires
        n <= fs.len(),
        sole_writer(fs, vals, q, k),
    ensures
        lookup(enc_fields(fs, vals, Seq::empty(), n), k) == if q < n {
            Some(enc(fs[q].ty, field_value(vals, q)))
        } else {
            None
        },
    decreases n,
{
    if n > 0 {
        lemma_enc_fields_lookup(fs, vals, (n - 1) as nat, q, k);
        let s = enc_fields(fs, vals, Seq::empty(), (n - 1) as nat);
        let f = fs[n - 1];
        let v = field_value(vals, n - 1);
        if f.flatten {
            assert(lookup(enc_into(f.ty, v, s), k) == lookup(s, k));
        } else if !(f.skip_if is Some && skips(f.skip_if->0, v)) {
            lemma_lookup_insert(s, f.wire_name@, enc(f.ty, v), k);
        }
    }
}

/// Key extraction: the key of a record holds, under each key wire name,
/// exactly what the record's full encoding holds there, and nothing under
/// any other name. This needs the key fields to be plain fields, the two
/// key wire names to differ, and no other field to write a key wire name.
pub proof fn law_key_matches_encoding(schema: EntitySchema, v: ValueView, k: Seq<char>)
    requires
        v is Record,
        partition_index(schema.fields@) >= 0,
        ({
            let fs = schema.fields@;
            let vals = v->Record_0;
            let p = partition_index(fs);
            let s = sort_index(fs);
            &&& k == fs[p].wire_name@ ==> sole_writer(fs, vals, p, k)
            &&& s >= 0 && k == fs[s].wire_name@ ==> sole_writer(fs, vals, s, k)
        }),
    ensures
        ({
            let fs = schema.fields@;
            let p = partition_index(fs);
            let s = sort_index(fs);
            lookup(key_entries(fs, v), k) == if k == fs[p].wire_name@ || (s >= 0 && k == fs[s].wire_name@) {
                lookup(enc_into(ValueType::Record(Box::new(schema)), v, Seq::empty()), k)
            } else {
                None
            }
        }),
{
    let fs = schema.fields@;
    let vals = v->Record_0;
    let p = partition_index(fs);
    let s = sort_index(fs);
    lemma_key_indices(fs);
    let empty = Seq::<(Seq<char>, AttrView)>::empty();
    let pv = enc(fs[p].ty, field_value(vals, p));
    let with_p = entries_insert(empty, fs[p].wire_name@, pv);
    lemma_lookup_insert(empty, fs[p].wire_name@, pv, k);
    if s >= 0 {
        lemma_lookup_insert(with_p, fs[s].wire_name@, enc(fs[s].ty, field_value(vals, s)), k);
    }
    if k == fs[p].wire_name@ {
        lemma_enc_fields_lookup(fs, vals, fs.len(), p, k);
    } else if s >= 0 && k == fs[s].wire_name@ {
        lemma_enc_fields_lookup(fs, vals, fs.len(), s, k);
    }
}

proof fn lemma_duplicate_found(vs: Seq<VariantSchema>, i: int, j: int)
    requires
        0 <= i < j < vs.len(),
        vs[i].wire_tag@ == vs[j].wire_tag@,
    ensures
        first_duplicate_tag(vs) is Some,
    decreases vs.len(),
{
    let w = vs.drop_last();
    assert(forall|x: int| 0 <= x < w.len() ==> w[x] == vs[x]);
    if j < vs.len() - 1 {
        lemma_duplicate_found(w, i, j);
    } else {
        lemma_tag_index(w, vs.last().wire_tag@);
    }
}

/// Tag uniqueness: a union whose variants share a wire tag has a schema
/// error, so `UnionSchema::new` refuses it.
pub proof fn law_duplicate_tag_rejected(vs: Seq<VariantSchema>, i: int, j: int)
    requires
        0 <= i < vs.len(),
        0 <= j < vs.len(),
        i != j,
        vs[i].wire_tag@ == vs[j].wire_tag@,
    ensures
        union_check(vs) is Some,
{
    if i < j {
        lemma_duplicate_found(vs, i, j);
    } else {
        lemma_duplicate_found(vs, j, i);
    }
}

proof fn lemma_remove_keeps_absent(s: Entries, k: Seq<char>, k2: Seq<char>)
    requires
        !has_key(s, k2),
    ensures
        !has_key(entries_remove(s, k), k2),
{
    lemma_index_of(s, k);
    lemma_index_of(s, k2);
    let t = entries_remove(s, k);
    lemma_index_of(t, k2);
    if index_of(s, k) >= 0 {
        let i = index_of(s, k);
        assert forall|j: int| 0 <= j < t.len() implies t[j].0 != k2 by {
            if j < i {
                assert(t[j] == s[j]);
            } else {
                assert(t[j] == s[j + 1]);
            }
        }
    }
}

/// Decoding a map-shaped value only takes entries out: a key absent before
/// is absent from what remains.
pub proof fn lemma_dec_from_keeps_absent(ty: ValueType, m: Entries, k: Seq<char>)
    requires
        !has_key(m, k),
    ensures
        !has_key(dec_from(ty, m).1, k),
    decreases ty, 1nat, 0nat,
{
    match ty {
        ValueType::MapOf(_) => {
            lemma_index_of(Seq::<(Seq<char>, AttrView)>::empty(), k);
        },
        ValueType::Record(schema) => {
            lemma_dec_fields_keeps_absent(schema.fields@, m, schema.fields@.len(), k);
        },
        ValueType::Union(u) => {
            lemma_remove_keeps_absent(m, u.tag@, k);
            let rest = entries_remove(m, u.tag@);
            match lookup(m, u.tag@) {
                Some(AttrView::S(t)) => {
                    let i = tag_index(u.variants@, t);
                    if 0 <= i < u.variants@.len() {
                        lemma_dec_from_keeps_absent(u.variants@[i].payload, rest, k);
                    }
                },
                _ => {},
            }
        },
        _ => {},
    }
}

pub proof fn lemma_dec_fields_keeps_absent(fs: Seq<FieldSchema>, m: Entries, n: nat, k: Seq<char>)
    requires
        !has_key(m, k),
    ensures
        !has_key(dec_fields(fs, m, n).1, k),
    decreases fs, 0nat, n,
{
    if 0 < n <= fs.len() {
        lemma_dec_fields_keeps_absent(fs, m, (n - 1) as nat, k);
        let m1 = dec_fields(fs, m, (n - 1) as nat).1;
        let f = fs[n - 1];
        if f.flatten {
            lemma_dec_from_keeps_absent(f.ty, m1, k);
        } else {
            lemma_remove_keeps_absent(m1, f.wire_name@, k);
        }
    }
}

/// Missing required field: when the fields before a plain field decode, and
/// the map lacks that field's wire name, decoding the record fails with
/// `MissingField` naming exactly that wire name.
pub proof fn law_missing_field(schema: EntitySchema, m: Entries, j: int)
    requires
        0 <= j < schema.fields@.len(),
        !schema.fields@[j].flatten,
        !schema.fields@[j].default_on_absent,
        !has_key(m, schema.fields@[j].wire_name@),
        dec_fields(schema.fields@, m, j as nat).0 is Ok,
    ensures
        dec_from(ValueType::Record(Box::new(schema)), m).0
            == Err::<ValueView, ErrorView>(ErrorView::MissingField(schema.fields@[j].wire_name@)),
{
    let fs = schema.fields@;
    lemma_dec_fields_keeps_absent(fs, m, j as nat, fs[j].wire_name@);
    lemma_dec_fields_err(fs, m, (j + 1) as nat, fs.len());
}

/// Default fallback: a `default` field whose wire name is absent decodes to
/// the zero value of its type without error; one that is present and
/// malformed still makes the record fail with its error.
pub proof fn law_default_fallback(schema: EntitySchema, m: Entries, j: int)
    requires
        0 <= j < schema.fields@.len(),
        !schema.fields@[j].flatten,
        schema.fields@[j].default_on_absent,
        dec_fields(schema.fields@, m, j as nat).0 is Ok,
    ensures
        ({
            let fs = schema.fields@;
            let before = dec_fields(fs, m, j as nat);
            let name = fs[j].wire_name@;
            &&& !has_key(m, name) ==> dec_fields(fs, m, (j + 1) as nat).0
                == Ok::<Seq<ValueView>, ErrorView>(before.0->Ok_0.push(zero(fs[j].ty)))
            &&& (lookup(before.1, name) is Some && dec(fs[j].ty, lookup(before.1, name)->Some_0) is Err)
                ==> dec_from(ValueType::Record(Box::new(schema)), m).0
                == Err::<ValueView, ErrorView>(dec(fs[j].ty, lookup(before.1, name)->Some_0)->Err_0)
        }),
{
    let fs = schema.fields@;
    let name = fs[j].wire_name@;
    if !has_key(m, name) {
        lemma_dec_fields_keeps_absent(fs, m, j as nat, name);
    }
    let before = dec_fields(fs, m, j as nat);
    if lookup(before.1, name) is Some && dec(fs[j].ty, lookup(before.1, name)->Some_0) is Err {
        lemma_dec_fields_err(fs, m, (j + 1) as nat, fs.len());
    }
}

/// A record that decodes keeps, for its first `k` fields, what decoding
/// those fields alone gave.
proof fn lemma_dec_fields_prefix(fs: Seq<FieldSchema>, m: Entries, k: nat, n: nat)
    requires
        k <= n <= fs.len(),
        dec_fields(fs, m, n).0 is Ok,
    ensures
        dec_fields(fs, m, k).0 is Ok,
        dec_fields(fs, m, n).0->Ok_0.len() == n,
        forall|i: int|
            0 <= i < k ==> dec_fields(fs, m, n).0->Ok_0[i] == #[trigger] dec_fields(fs, m, k).0->Ok_0[i],
    decreases n,
{
    if n > 0 {
        if dec_fields(fs, m, (n - 1) as nat).0 is Err {
            lemma_dec_fields_err(fs, m, (n - 1) as nat, n);
        }
        lemma_dec_fields_prefix(fs, m, (n - 1) as nat, (n - 1) as nat);
        if k < n {
            lemma_dec_fields_prefix(fs, m, k, (n - 1) as nat);
        }
    }
}

/// Default fallback, whole record: where a `default` field's wire name is
/// absent and the record decodes, that field holds the zero value of its
/// type.
pub proof fn law_default_in_record(schema: EntitySchema, m: Entries, j: int)
    requires
        0 <= j < schema.fields@.len(),
        !schema.fields@[j].flatten,
        schema.fields@[j].default_on_absent,
        !has_key(m, schema.fields@[j].wire_name@),
    ensures
        ({
            let r = dec_from(ValueType::Record(Box::new(schema)), m).0;
            r is Ok ==> r->Ok_0 is Record && r->Ok_0->Record_0[j] == zero(schema.fields@[j].ty)
        }),
{
    let fs = schema.fields@;
    let n = fs.len();
    if dec_fields(fs, m, n).0 is Ok {
        lemma_dec_fields_prefix(fs, m, (j + 1) as nat, n);
        lemma_dec_fields_prefix(fs, m, j as nat, (j + 1) as nat);
        lemma_dec_fields_keeps_absent(fs, m, j as nat, fs[j].wire_name@);
        let pre = dec_fields(fs, m, j as nat).0->Ok_0;
        assert(dec_fields(fs, m, (j + 1) as nat).0->Ok_0 == pre.push(zero(fs[j].ty)));
        assert(dec_fields(fs, m, (j + 1) as nat).0->Ok_0[j] == zero(fs[j].ty));
    }
}

/// Fields that are all plain (no flatten, no skip rule) with distinct wire
/// names other than `avoid`, and one conforming value for each.
pub open spec fn plain_record(fs: Seq<FieldSchema>, vals: Seq<ValueView>, avoid: Seq<char>) -> bool {
    &&& vals.len() == fs.len()
    &&& forall|i: int|
        0 <= i < fs.len() ==> !(#[trigger] fs[i]).flatten && fs[i].skip_if is None
            && conforms(fs[i].ty, vals[i]) && fs[i].wire_name@ != avoid
    &&& forall|i: int, j: int|
        0 <= i < fs.len() && 0 <= j < fs.len() && i != j ==> (#[trigger] fs[i]).wire_name@ != (#[trigger] fs[j]).wire_name@
}

/// The entries of the first `n` plain fields, in declaration order.
pub open spec fn plain_pairs(fs: Seq<FieldSchema>, vals: Seq<ValueView>, n: nat) -> Entries {
    Seq::new(n, |j: int| (fs[j].wire_name@, enc(fs[j].ty, vals[j])))
}

proof fn lemma_plain_enc(fs: Seq<FieldSchema>, vals: Seq<ValueView>, avoid: Seq<char>, n: nat)
    requires
        n <= fs.len(),
        plain_record(fs, vals, avoid),
    ensures
        enc_fields(fs, vals, Seq::empty(), n) == plain_pairs(fs, vals, n),
    decreases n,
{
    if n == 0 {
        assert(plain_pairs(fs, vals, 0) =~= Seq::<(Seq<char>, AttrView)>::empty());
    } else {
        lemma_plain_enc(fs, vals, avoid, (n - 1) as nat);
        let prev = plain_pairs(fs, vals, (n - 1) as nat);
        let f = fs[n - 1];
        lemma_index_of(prev, f.wire_name@);
        assert(forall|j: int| 0 <= j < prev.len() ==> prev[j].0 == fs[j].wire_name@);
        assert(index_of(prev, f.wire_name@) == -1);
        assert(plain_pairs(fs, vals, n) =~= prev.push((f.wire_name@, enc(f.ty, vals[n - 1]))));
    }
}

proof fn lemma_plain_dec(fs: Seq<FieldSchema>, vals: Seq<ValueView>, avoid: Seq<char>, j: nat)
    requires
        j <= fs.len(),
        plain_record(fs, vals, avoid),
    ensures
        ({
            let p = plain_pairs(fs, vals, fs.len());
            dec_fields(fs, p, j) == (
                Ok::<Seq<ValueView>, ErrorView>(vals.subrange(0, j as int)),
                p.subrange(j as int, fs.len() as int),
            )
        }),
    decreases j,
{
    let p = plain_pairs(fs, vals, fs.len());
    if j == 0 {
        assert(vals.subrange(0, 0) =~= Seq::<ValueView>::empty());
        assert(p.subrange(0, fs.len() as int) =~= p);
    } else {
        lemma_plain_dec(fs, vals, avoid, (j - 1) as nat);
        let m1 = p.subrange(j - 1, fs.len() as int);
        let f = fs[j - 1];
        lemma_index_of(m1, f.wire_name@);
        assert(m1[0].0 == f.wire_name@);
        assert(index_of(m1, f.wire_name@) == 0);
        assert(m1.remove(0) =~= p.subrange(j as int, fs.len() as int));
        law_round_trip(f.ty, vals[j - 1]);
        assert(vals.subrange(0, j as int) =~= vals.subrange(0, j - 1).push(vals[j - 1]));
    }
}

/// Tagged union round trip: where a variant's payload decodes back from its
/// own encoding and does not write the tag's name, encoding the variant and
/// decoding the result gives the same variant and payload back and leaves
/// nothing over; the tag sits beside the payload's attributes, under its own
/// name, in exactly one entry.
pub proof fn law_union_round_trip(u: UnionSchema, i: nat, p: ValueView)
    requires
        i < u.variants@.len(),
        tag_index(u.variants@, u.variants@[i as int].wire_tag@) == i,
        dec_from(u.variants@[i as int].payload, enc_into(u.variants@[i as int].payload, p, Seq::empty()))
            == (Ok::<ValueView, ErrorView>(p), Seq::<(Seq<char>, AttrView)>::empty()),
        !has_key(enc_into(u.variants@[i as int].payload, p, Seq::empty()), u.tag@),
    ensures
        ({
            let ty = ValueType::Union(Box::new(u));
            let v = ValueView::Variant(i, Box::new(p));
            let e = enc_into(ty, v, Seq::empty());
            &&& dec_from(ty, e) == (Ok::<ValueView, ErrorView>(v), Seq::<(Seq<char>, AttrView)>::empty())
            &&& lookup(e, u.tag@) == Some(AttrView::S(u.variants@[i as int].wire_tag@))
            &&& forall|j: int| 0 <= j < e.len() ==> ((#[trigger] e[j]).0 == u.tag@ <==> j == e.len() - 1)
        }),
{
    let ty = ValueType::Union(Box::new(u));
    let var = u.variants@[i as int];
    let pe = enc_into(var.payload, p, Seq::empty());
    let v = ValueView::Variant(i, Box::new(p));
    let e = enc_into(ty, v, Seq::empty());
    assert(e == entries_insert(pe, u.tag@, AttrView::S(var.wire_tag@)));
    lemma_index_of(pe, u.tag@);
    assert(e == pe.push((u.tag@, AttrView::S(var.wire_tag@))));
    lemma_lookup_insert(pe, u.tag@, AttrView::S(var.wire_tag@), u.tag@);
    lemma_index_of(e, u.tag@);
    assert(index_of(e, u.tag@) == pe.len());
    assert(entries_remove(e, u.tag@) =~= pe);
}

/// Tagged union round trip for a payload that is a record of plain fields
/// with distinct wire names other than the tag's, one conforming value each;
/// the encoding then has distinct keys.
pub proof fn law_union_round_trip_plain(u: UnionSchema, i: nat, vals: Seq<ValueView>)
    requires
        i < u.variants@.len(),
        tag_index(u.variants@, u.variants@[i as int].wire_tag@) == i,
        u.variants@[i as int].payload is Record,
        plain_record(u.variants@[i as int].payload->Record_0.fields@, vals, u.tag@),
    ensures
        ({
            let ty = ValueType::Union(Box::new(u));
            let v = ValueView::Variant(i, Box::new(ValueView::Record(vals)));
            let e = enc_into(ty, v, Seq::empty());
            &&& dec_from(ty, e) == (Ok::<ValueView, ErrorView>(v), Seq::<(Seq<char>, AttrView)>::empty())
            &&& lookup(e, u.tag@) == Some(AttrView::S(u.variants@[i as int].wire_tag@))
            &&& keys_unique(e)
        }),
{
    let var = u.variants@[i as int];
    let pty = var.payload;
    let fs = pty->Record_0.fields@;
    let n = fs.len();
    let pv = ValueView::Record(vals);
    let p = plain_pairs(fs, vals, n);
    lemma_plain_enc(fs, vals, u.tag@, n);
    assert(enc_into(pty, pv, Seq::empty()) == p);
    lemma_plain_dec(fs, vals, u.tag@, n);
    assert(vals.subrange(0, n as int) =~= vals);
    assert(p.subrange(n as int, n as int) =~= Seq::<(Seq<char>, AttrView)>::empty());
    assert(dec_from(pty, p) == (Ok::<ValueView, ErrorView>(pv), Seq::<(Seq<char>, AttrView)>::empty()));
    lemma_index_of(p, u.tag@);
    assert(forall|j: int| 0 <= j < p.len() ==> p[j].0 == fs[j].wire_name@);
    law_union_round_trip(u, i, pv);
}

proof fn lemma_remove_unique(s: Entries, k: Seq<char>, k2: Seq<char>)
    requires
        keys_unique(s),
    ensures
        keys_unique(entries_remove(s, k)),
        has_key(entries_remove(s, k), k2) <==> has_key(s, k2) && k2 != k,
{
    lemma_index_of(s, k);
    lemma_index_of(s, k2);
    let t = entries_remove(s, k);
    lemma_index_of(t, k2);
    if index_of(s, k) >= 0 {
        let i = index_of(s, k);
        assert(forall|j: int| 0 <= j < t.len() ==> #[trigger] t[j] == if j < i { s[j] } else { s[j + 1] });
        if has_key(s, k2) && k2 != k {
            let j = index_of(s, k2);
            assert(j != i);
            if j < i {
                assert(t[j].0 == k2);
            } else {
                assert(t[j - 1].0 == k2);
            }
        }
    }
}

proof fn lemma_plain_fields_residual(fs: Seq<FieldSchema>, m: Entries, n: nat, k: Seq<char>)
    requires
        n <= fs.len(),
        keys_unique(m),
        forall|i: int| 0 <= i < fs.len() ==> !(#[trigger] fs[i]).flatten,
        dec_fields(fs, m, n).0 is Ok,
    ensures
        keys_unique(dec_fields(fs, m, n).1),
        has_key(dec_fields(fs, m, n).1, k) <==> has_key(m, k) && forall|i: int|
            0 <= i < n ==> (#[trigger] fs[i]).wire_name@ != k,
    decreases n,
{
    if n > 0 {
        if dec_fields(fs, m, (n - 1) as nat).0 is Err {
            lemma_dec_fields_err(fs, m, (n - 1) as nat, n);
        }
        lemma_plain_fields_residual(fs, m, (n - 1) as nat, k);
        let m1 = dec_fields(fs, m, (n - 1) as nat).1;
        let name = fs[n - 1].wire_name@;
        lemma_remove_unique(m1, name, k);
        if lookup(m1, name) is None {
            lemma_index_of(m1, name);
        }
    }
}

proof fn lemma_raw_entries(es: Entries, n: nat)
    requires
        n <= es.len(),
    ensures
        dec_entries(ValueType::Raw, es, n) is Ok,
        dec_entries(ValueType::Raw, es, n)->Ok_0.len() == n,
        forall|i: int|
            0 <= i < n ==> (#[trigger] dec_entries(ValueType::Raw, es, n)->Ok_0[i]).0 == es[i].0,
    decreases n,
{
    if n > 0 {
        lemma_raw_entries(es, (n - 1) as nat);
        assert(dec(ValueType::Raw, es[n - 1].1) == Ok::<ValueView, ErrorView>(ValueView::Raw(es[n - 1].1)));
    }
}

/// Flatten order: when a flattened record of plain fields is declared
/// before a flattened catch-all map, decoding a map with distinct keys gives
/// the catch-all exactly the keys that the record's fields do not claim.
pub proof fn law_flatten_remainder(schema: EntitySchema, m: Entries, k: Seq<char>)
    requires
        schema.fields@.len() == 2,
        schema.fields@[0].flatten,
        schema.fields@[0].ty is Record,
        forall|i: int|
            0 <= i < schema.fields@[0].ty->Record_0.fields@.len()
                ==> !(#[trigger] schema.fields@[0].ty->Record_0.fields@[i]).flatten,
        schema.fields@[1].flatten,
        schema.fields@[1].ty == ValueType::MapOf(Box::new(ValueType::Raw)),
        keys_unique(m),
        dec_from(schema.fields@[0].ty, m).0 is Ok,
    ensures
        ({
            let fa = schema.fields@[0].ty->Record_0.fields@;
            let r = dec_from(ValueType::Record(Box::new(schema)), m).0;
            &&& r is Ok
            &&& r->Ok_0 is Record
            &&& r->Ok_0->Record_0.len() == 2
            &&& r->Ok_0->Record_0[1] is MapOf
            &&& (has_key(r->Ok_0->Record_0[1]->MapOf_0, k) <==> has_key(m, k) && forall|i: int|
                0 <= i < fa.len() ==> (#[trigger] fa[i]).wire_name@ != k)
        }),
{
    let fs = schema.fields@;
    let a = fs[0].ty;
    let fa = a->Record_0.fields@;
    lemma_plain_fields_residual(fa, m, fa.len(), k);
    let m1 = dec_from(a, m).1;
    assert(m1 == dec_fields(fa, m, fa.len()).1);
    lemma_raw_entries(m1, m1.len());
    let rem = dec_entries(ValueType::Raw, m1, m1.len())->Ok_0;
    lemma_index_unique(rem, m1, k);
    let r0 = dec_from(a, m).0->Ok_0;
    assert(dec_fields(fs, m, 0) == (Ok::<Seq<ValueView>, ErrorView>(Seq::empty()), m));
    let one = Seq::<ValueView>::empty().push(r0);
    assert(dec_fields(fs, m, 1) == (Ok::<Seq<ValueView>, ErrorView>(one), m1));
    assert(dec_from(fs[1].ty, m1).0 == Ok::<ValueView, ErrorView>(ValueView::MapOf(rem)));
    assert(dec_fields(fs, m, 2).0 == Ok::<Seq<ValueView>, ErrorView>(one.push(ValueView::MapOf(rem))));
}

} // verus!
