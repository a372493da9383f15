//! Key projection: the partition and sort key of a record schema.
use vstd::prelude::*;
use crate::encode::encode;
use crate::error::{SchemaError, SchemaErrorView};
use crate::schema::key_typed;
use crate::semantics::{enc, field_value, Entries};
use crate::types::{EntitySchema, FieldSchema, Value, ValueType, ValueView};
use crate::value::{entries_insert, AttributeValue, Attributes};

verus! {

broadcast use vstd::std_specs::vec::group_vec_axioms;

/// Position of the first field marked as partition key, or -1.
pub open spec fn partition_index(fs: Seq<FieldSchema>) -> int
    decreases fs.len(),
{
    if fs.len() == 0 {
        -1
    } else {
        let j = partition_index(fs.drop_last());
        if j >= 0 {
            j
        } else if fs.last().partition_key {
            fs.len() - 1
        } else {
            -1
        }
    }
}

/// Position of the first field marked as sort key, or -1.
pub open spec fn sort_index(fs: Seq<FieldSchema>) -> int
    decreases fs.len(),
{
    if fs.len() == 0 {
        -1
    } else {
        let j = sort_index(fs.drop_last());
        if j >= 0 {
            j
        } else if fs.last().sort_key {
            fs.len() - 1
        } else {
            -1
        }
    }
}

pub proof fn lemma_key_indices(fs: Seq<FieldSchema>)
    ensures
        -1 <= partition_index(fs) < fs.len(),
        -1 <= sort_index(fs) < fs.len(),
        partition_index(fs) >= 0 ==> fs[partition_index(fs)].partition_key,
        sort_index(fs) >= 0 ==> fs[sort_index(fs)].sort_key,
        partition_index(fs) == -1 <==> forall|j: int| 0 <= j < fs.len() ==> !fs[j].partition_key,
        sort_index(fs) == -1 <==> forall|j: int| 0 <= j < fs.len() ==> !fs[j].sort_key,
    decreases fs.len(),
{
    if fs.len() > 0 {
        let w = fs.drop_last();
        lemma_key_indices(w);
        assert(forall|j: int| 0 <= j < w.len() ==> w[j] == fs[j]);
    }
}

/// `g` is key field `f` of a projection: same names, key marks and type;
/// no other directive.
pub open spec fn key_field_of(f: FieldSchema, g: FieldSchema) -> bool {
    &&& g.name@ == f.name@
    &&& g.wire_name@ == f.wire_name@
    &&& g.partition_key == f.partition_key
    &&& g.sort_key == f.sort_key
    &&& !g.flatten
    &&& !g.default_on_absent
    &&& g.skip_if is None
    &&& g.ty == f.ty
}

/// The key entries of a record value: its partition key, then its sort key
/// if the schema has one, each under its wire name.
pub open spec fn key_entries(fs: Seq<FieldSchema>, v: ValueView) -> Entries {
    let vals = match v {
        ValueView::Record(vs) => vs,
        _ => Seq::empty(),
    };
    let p = partition_index(fs);
    let s = sort_index(fs);
    let with_p = if p >= 0 {
        entries_insert(Seq::empty(), fs[p].wire_name@, enc(fs[p].ty, field_value(vals, p)))
    } else {
        Seq::empty()
    };
    if s >= 0 {
        entries_insert(with_p, fs[s].wire_name@, enc(fs[s].ty, field_value(vals, s)))
    } else {
        with_p
    }
}

fn partition_position(fs: &Vec<FieldSchema>) -> (r: Option<usize>)
    ensures
        match r {
            Some(i) => i < fs.len() && partition_index(fs@) == i as int,
            None => partition_index(fs@) == -1,
        },
{
    let mut i: usize = 0;
    while i < fs.len()
        invariant
            i <= fs.len(),
            partition_index(fs@.subrange(0, i as int)) == -1,
        decreases fs.len() - i,
    {
        assert(fs@.subrange(0, i + 1).drop_last() =~= fs@.subrange(0, i as int));
        if fs[i].partition_key {
            proof {
                lemma_first_mark(fs@, i as int, true);
            }
            return Some(i);
        }
        i = i + 1;
    }
    assert(fs@.subrange(0, i as int) =~= fs@);
    None
}

fn sort_position(fs: &Vec<FieldSchema>) -> (r: Option<usize>)
    ensures
        match r {
            Some(i) => i < fs.len() && sort_index(fs@) == i as int,
            None => sort_index(fs@) == -1,
        },
{
    let mut i: usize = 0;
    while i < fs.len()
        invariant
            i <= fs.len(),
            sort_index(fs@.subrange(0, i as int)) == -1,
        decreases fs.len() - i,
    {
        assert(fs@.subrange(0, i + 1).drop_last() =~= fs@.subrange(0, i as int));
        if fs[i].sort_key {
            proof {
                lemma_first_mark(fs@, i as int, false);
            }
            return Some(i);
        }
        i = i + 1;
    }
    assert(fs@.subrange(0, i as int) =~= fs@);
    None
}

proof fn lemma_first_mark(fs: Seq<FieldSchema>, i: int, partition: bool)
    requires
        0 <= i < fs.len(),
        partition ==> partition_index(fs.subrange(0, i)) == -1 && fs[i].partition_key,
        !partition ==> sort_index(fs.subrange(0, i)) == -1 && fs[i].sort_key,
    ensures
        partition ==> partition_index(fs) == i,
        !partition ==> sort_index(fs) == i,
    decreases fs.len(),
{
    if i == fs.len() - 1 {
        assert(fs.drop_last() =~= fs.subrange(0, i));
    } else {
        assert(fs.drop_last().subrange(0, i) =~= fs.subrange(0, i));
        lemma_first_mark(fs.drop_last(), i, partition);
    }
}

fn copy_key_type(ty: &ValueType) -> (r: Option<ValueType>)
    ensures
        match r {
            Some(t) => key_typed(*ty) && t == *ty,
            None => !key_typed(*ty),
        },
{
    match ty {
        ValueType::Text => Some(ValueType::Text),
        ValueType::Number(k) => Some(ValueType::Number(*k)),
        ValueType::Binary => Some(ValueType::Binary),
        ValueType::Uuid => Some(ValueType::Uuid),
        _ => None,
    }
}

fn key_field(f: &FieldSchema) -> (r: Result<FieldSchema, SchemaError>)
    ensures
        match r {
            Ok(g) => key_typed(f.ty) && key_field_of(*f, g),
            Err(e) => !key_typed(f.ty) && e@ == SchemaErrorView::InvalidKeyType(f.name@),
        },
{
    match copy_key_type(&f.ty) {
        Some(ty) => Ok(
            FieldSchema {
                name: f.name.clone(),
                wire_name: f.wire_name.clone(),
                flatten: false,
                default_on_absent: false,
                partition_key: f.partition_key,
                sort_key: f.sort_key,
                skip_if: None,
                ty,
            },
        ),
        None => Err(SchemaError::InvalidKeyType { field: f.name.clone() }),
    }
}

/// The field values of a record value; none for any other value.
pub open spec fn record_fields(v: ValueView) -> Seq<ValueView> {
    match v {
        ValueView::Record(vs) => vs,
        _ => Seq::empty(),
    }
}

impl EntitySchema {
    /// Field `i` of `record` as an entry: its wire name and encoded value.
    fn field_entry(&self, i: usize, record: &Value) -> (r: (String, AttributeValue))
        requires
            i < self.fields@.len(),
        ensures
            r.0@ == self.fields@[i as int].wire_name@,
            r.1@ == enc(self.fields@[i as int].ty, field_value(record_fields(record@), i as int)),
    {
        let null = Value::Null;
        let v = match record {
            Value::Record(vs) => if i < vs.len() {
                &vs[i]
            } else {
                &null
            },
            _ => &null,
        };
        assert(v@ == field_value(record_fields(record@), i as int));
        (self.fields[i].wire_name.clone(), encode(&self.fields[i].ty, v))
    }

    /// The partition key entry of `record`, if the schema has a partition
    /// key: its wire name and encoded value.
    pub fn partition_key(&self, record: &Value) -> (r: Option<(String, AttributeValue)>)
        ensures
            ({
                let fs = self.fields@;
                let p = partition_index(fs);
                match r {
                    Some(e) => p >= 0 && e.0@ == fs[p].wire_name@
                        && e.1@ == enc(fs[p].ty, field_value(record_fields(record@), p)),
                    None => p == -1,
                }
            }),
    {
        match partition_position(&self.fields) {
            Some(p) => Some(self.field_entry(p, record)),
            None => None,
        }
    }

    /// The sort key entry of `record`, if the schema has a sort key: its
    /// wire name and encoded value.
    pub fn sort_key(&self, record: &Value) -> (r: Option<(String, AttributeValue)>)
        ensures
            ({
                let fs = self.fields@;
                let s = sort_index(fs);
                match r {
                    Some(e) => s >= 0 && e.0@ == fs[s].wire_name@
                        && e.1@ == enc(fs[s].ty, field_value(record_fields(record@), s)),
                    None => s == -1,
                }
            }),
    {
        match sort_position(&self.fields) {
            Some(s) => Some(self.field_entry(s, record)),
            None => None,
        }
    }

    /// The key projection: the partition key field, then the sort key field
    /// if there is one, with their wire names.
    pub fn key_schema(&self) -> (r: Result<EntitySchema, SchemaError>)
        ensures
            ({
                let fs = self.fields@;
                let p = partition_index(fs);
                let s = sort_index(fs);
                if p < 0 {
                    r is Err && r->Err_0@ == SchemaErrorView::MissingPartitionKey
                } else if !key_typed(fs[p].ty) {
                    r is Err && r->Err_0@ == SchemaErrorView::InvalidKeyType(fs[p].name@)
                } else if s >= 0 && !key_typed(fs[s].ty) {
                    r is Err && r->Err_0@ == SchemaErrorView::InvalidKeyType(fs[s].name@)
                } else {
                    &&& r is Ok
                    &&& r->Ok_0.fields@.len() == if s >= 0 { 2int } else { 1int }
                    &&& key_field_of(fs[p], r->Ok_0.fields@[0])
                    &&& s >= 0 ==> key_field_of(fs[s], r->Ok_0.fields@[1])
                }
            }),
    {
        proof {
            lemma_key_indices(self.fields@);
        }
        let p = match partition_position(&self.fields) {
            Some(p) => p,
            None => return Err(SchemaError::MissingPartitionKey),
        };
        let pk = key_field(&self.fields[p])?;
        let mut fields: Vec<FieldSchema> = Vec::new();
        fields.push(pk);
        match sort_position(&self.fields) {
            Some(s) => {
                let sk = key_field(&self.fields[s])?;
                fields.push(sk);
            },
            None => {},
        }
        Ok(EntitySchema { fields })
    }

    /// The primary key of `record`: its partition key and, if the schema
    /// has one, its sort key, each encoded under its wire name.
    pub fn key(&self, record: &Value) -> (r: Attributes)
        ensures
            r@ == key_entries(self.fields@, record@),
    {
        proof {
            lemma_key_indices(self.fields@);
        }
        let null = Value::Null;
        let vals: &Vec<Value> = match record {
            Value::Record(vs) => vs,
            _ => &Vec::new(),
        };
        let ghost vv = match record@ {
            ValueView::Record(vs) => vs,
            _ => Seq::empty(),
        };
        assert(vals.len() == vv.len());
        assert(forall|i: int| 0 <= i < vals.len() ==> vals[i]@ == vv[i]);
        let mut keys = Attributes::new();
        match partition_position(&self.fields) {
            Some(p) => {
                let v = if p < vals.len() { &vals[p] } else { &null };
                assert(v@ == field_value(vv, p as int));
                let a = encode(&self.fields[p].ty, v);
                keys.insert(self.fields[p].wire_name.clone(), a);
            },
            None => {},
        }
        match sort_position(&self.fields) {
            Some(s) => {
                let v = if s < vals.len() { &vals[s] } else { &null };
                assert(v@ == field_value(vv, s as int));
                let a = encode(&self.fields[s].ty, v);
                keys.insert(self.fields[s].wire_name.clone(), a);
            },
            None => {},
        }
        keys
    }
}

} // verus!
