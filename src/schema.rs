//! Field directives and the validated construction of schemas.
use vstd::prelude::*;
use crate::error::{SchemaError, SchemaErrorView};
use crate::semantics::{has_zero, lemma_tag_index, tag_index};
use crate::text::str_eq;
use crate::types::{EntitySchema, FieldSchema, SkipRule, UnionSchema, ValueType, VariantSchema};

verus! {

broadcast use vstd::std_specs::vec::group_vec_axioms;

/// One directive attached to a record field.
#[derive(Debug, PartialEq)]
pub enum FieldDirective {
    Rename(String),
    DefaultOnAbsent,
    Flatten,
    PartitionKey,
    SortKey,
    SkipIf(SkipRule),
}

/// Mathematical view of a [`FieldDirective`].
pub enum DirectiveView {
    Rename(Seq<char>),
    DefaultOnAbsent,
    Flatten,
    PartitionKey,
    SortKey,
    SkipIf(SkipRule),
}

impl FieldDirective {
    pub open spec fn view(&self) -> DirectiveView {
        match self {
            FieldDirective::Rename(n) => DirectiveView::Rename(n@),
            FieldDirective::DefaultOnAbsent => DirectiveView::DefaultOnAbsent,
            FieldDirective::Flatten => DirectiveView::Flatten,
            FieldDirective::PartitionKey => DirectiveView::PartitionKey,
            FieldDirective::SortKey => DirectiveView::SortKey,
            FieldDirective::SkipIf(r) => DirectiveView::SkipIf(*r),
        }
    }
}

pub open spec fn directives_view(ds: Seq<FieldDirective>) -> Seq<DirectiveView> {
    ds.map_values(|d: FieldDirective| d@)
}

pub open spec fn opt_text(v: Option<&str>) -> Option<Seq<char>> {
    match v {
        Some(s) => Some(s@),
        None => None,
    }
}

/// The skip rule that a predicate name denotes.
pub open spec fn skip_rule_named(n: Seq<char>) -> Option<SkipRule> {
    if n == "is_empty"@ {
        Some(SkipRule::IsEmpty)
    } else if n == "is_zero"@ {
        Some(SkipRule::IsZero)
    } else if n == "is_none"@ {
        Some(SkipRule::IsNone)
    } else if n == "is_false"@ {
        Some(SkipRule::IsFalse)
    } else {
        None
    }
}

/// A function that takes no value cannot serve as a skip rule: a token
/// naming it is refused. This one holds always.
pub fn invalid_fn() -> (r: bool)
    ensures
        r,
{
    true
}

/// A function that takes no value and returns nothing; a token naming it
/// as a skip rule is refused.
pub fn invalid_fn_in_module() {
}

/// The directive that token `key`, with its optional value, denotes.
pub open spec fn directive_of(key: Seq<char>, value: Option<Seq<char>>) -> Result<DirectiveView, SchemaErrorView> {
    if key == "rename"@ {
        match value {
            Some(v) => Ok(DirectiveView::Rename(v)),
            None => Err(SchemaErrorView::MissingDirectiveValue(key)),
        }
    } else if key == "skip_if"@ {
        match value {
            Some(v) => match skip_rule_named(v) {
                Some(r) => Ok(DirectiveView::SkipIf(r)),
                None => Err(SchemaErrorView::UnknownPredicate(v)),
            },
            None => Err(SchemaErrorView::MissingDirectiveValue(key)),
        }
    } else if key == "default"@ || key == "flatten"@ || key == "partition_key"@ || key == "sort_key"@ {
        match value {
            Some(_) => Err(SchemaErrorView::UnexpectedDirectiveValue(key)),
            None => Ok(
                if key == "default"@ {
                    DirectiveView::DefaultOnAbsent
                } else if key == "flatten"@ {
                    DirectiveView::Flatten
                } else if key == "partition_key"@ {
                    DirectiveView::PartitionKey
                } else {
                    DirectiveView::SortKey
                },
            ),
        }
    } else {
        Err(SchemaErrorView::UnknownDirective(key))
    }
}

fn skip_rule_from(n: &str) -> (r: Option<SkipRule>)
    ensures
        r == skip_rule_named(n@),
{
    if str_eq(n, "is_empty") {
        Some(SkipRule::IsEmpty)
    } else if str_eq(n, "is_zero") {
        Some(SkipRule::IsZero)
    } else if str_eq(n, "is_none") {
        Some(SkipRule::IsNone)
    } else if str_eq(n, "is_false") {
        Some(SkipRule::IsFalse)
    } else {
        None
    }
}

/// Parses one directive token: `key`, or `key = value`.
pub fn parse_directive(key: &str, value: Option<&str>) -> (r: Result<FieldDirective, SchemaError>)
    ensures
        match r {
            Ok(d) => directive_of(key@, opt_text(value)) == Ok::<DirectiveView, SchemaErrorView>(d@),
            Err(e) => directive_of(key@, opt_text(value)) == Err::<DirectiveView, SchemaErrorView>(e@),
        },
{
    if str_eq(key, "rename") {
        match value {
            Some(v) => Ok(FieldDirective::Rename(String::from_str(v))),
            None => Err(SchemaError::MissingDirectiveValue { name: String::from_str(key) }),
        }
    } else if str_eq(key, "skip_if") {
        match value {
            Some(v) => match skip_rule_from(v) {
                Some(rule) => Ok(FieldDirective::SkipIf(rule)),
                None => Err(SchemaError::UnknownPredicate { name: String::from_str(v) }),
            },
            None => Err(SchemaError::MissingDirectiveValue { name: String::from_str(key) }),
        }
    } else {
        let d = if str_eq(key, "default") {
            Some(FieldDirective::DefaultOnAbsent)
        } else if str_eq(key, "flatten") {
            Some(FieldDirective::Flatten)
        } else if str_eq(key, "partition_key") {
            Some(FieldDirective::PartitionKey)
        } else if str_eq(key, "sort_key") {
            Some(FieldDirective::SortKey)
        } else {
            None
        };
        match d {
            Some(d) => match value {
                Some(_) => Err(SchemaError::UnexpectedDirectiveValue { name: String::from_str(key) }),
                None => Ok(d),
            },
            None => Err(SchemaError::UnknownDirective { name: String::from_str(key) }),
        }
    }
}

pub open spec fn has_directive(ds: Seq<DirectiveView>, d: DirectiveView) -> bool {
    exists|i: int| 0 <= i < ds.len() && ds[i] == d
}

/// The target of the first `rename`, if any.
pub open spec fn first_rename(ds: Seq<DirectiveView>) -> Option<Seq<char>>
    decreases ds.len(),
{
    if ds.len() == 0 {
        None
    } else {
        match first_rename(ds.drop_last()) {
            Some(n) => Some(n),
            None => match ds.last() {
                DirectiveView::Rename(n) => Some(n),
                _ => None,
            },
        }
    }
}

/// The rule of the first `skip_if`, if any.
pub open spec fn first_skip(ds: Seq<DirectiveView>) -> Option<SkipRule>
    decreases ds.len(),
{
    if ds.len() == 0 {
        None
    } else {
        match first_skip(ds.drop_last()) {
            Some(r) => Some(r),
            None => match ds.last() {
                DirectiveView::SkipIf(r) => Some(r),
                _ => None,
            },
        }
    }
}

/// Types whose values encode to a map.
pub open spec fn map_shaped(ty: ValueType) -> bool {
    ty is MapOf || ty is Record || ty is Union
}

/// Types that a partition or sort key may have.
pub open spec fn key_typed(ty: ValueType) -> bool {
    ty is Text || ty is Number || ty is Binary || ty is Uuid
}

/// The schema error, if any, of a field with directives `ds` and type `ty`.
pub open spec fn field_check(name: Seq<char>, ds: Seq<DirectiveView>, ty: ValueType) -> Option<SchemaErrorView> {
    let flatten = has_directive(ds, DirectiveView::Flatten);
    if flatten && exists|i: int| 0 <= i < ds.len() && ds[i] != DirectiveView::Flatten {
        Some(SchemaErrorView::FlattenNotExclusive(name))
    } else if flatten && !map_shaped(ty) {
        Some(SchemaErrorView::FlattenNotMap(name))
    } else if has_directive(ds, DirectiveView::DefaultOnAbsent) && !has_zero(ty) {
        Some(SchemaErrorView::NoDefault(name))
    } else if (has_directive(ds, DirectiveView::PartitionKey) || has_directive(ds, DirectiveView::SortKey))
        && !key_typed(ty) {
        Some(SchemaErrorView::InvalidKeyType(name))
    } else {
        None
    }
}

/// `f` is the field named `name` with directives `ds` and type `ty`.
pub open spec fn built_field(name: Seq<char>, ds: Seq<DirectiveView>, ty: ValueType, f: FieldSchema) -> bool {
    &&& f.name@ == name
    &&& f.wire_name@ == match first_rename(ds) {
        Some(n) => n,
        None => name,
    }
    &&& f.flatten == has_directive(ds, DirectiveView::Flatten)
    &&& f.default_on_absent == has_directive(ds, DirectiveView::DefaultOnAbsent)
    &&& f.partition_key == has_directive(ds, DirectiveView::PartitionKey)
    &&& f.sort_key == has_directive(ds, DirectiveView::SortKey)
    &&& f.skip_if == first_skip(ds)
    &&& f.ty == ty
}

fn is_map_shaped(ty: &ValueType) -> (r: bool)
    ensures
        r == map_shaped(*ty),
{
    match ty {
        ValueType::MapOf(_) | ValueType::Record(_) | ValueType::Union(_) => true,
        _ => false,
    }
}

fn is_key_typed(ty: &ValueType) -> (r: bool)
    ensures
        r == key_typed(*ty),
{
    match ty {
        ValueType::Text | ValueType::Number(_) | ValueType::Binary | ValueType::Uuid => true,
        _ => false,
    }
}

/// Whether decoding as `ty` has a zero value to fall back on.
pub fn type_has_zero(ty: &ValueType) -> (r: bool)
    ensures
        r == has_zero(*ty),
    decreases ty,
{
    match ty {
        ValueType::Union(_) => false,
        ValueType::Enumeration(names) => names.len() > 0,
        ValueType::Record(schema) => {
            let mut i: usize = 0;
            while i < schema.fields.len()
                invariant
                    *ty == ValueType::Record(*schema),
                    i <= schema.fields.len(),
                    forall|j: int| 0 <= j < i ==> has_zero(#[trigger] schema.fields@[j].ty),
                decreases schema.fields.len() - i,
            {
                proof {
                    assert(decreases_to!(*ty => ty->Record_0));
                    assert(decreases_to!(schema.fields => schema.fields[i as int]));
                    assert(decreases_to!(schema.fields[i as int] => schema.fields[i as int].ty));
                }
                if !type_has_zero(&schema.fields[i].ty) {
                    return false;
                }
                i = i + 1;
            }
            true
        },
        _ => true,
    }
}

impl FieldSchema {
    /// A field named `name` of type `ty` with the given directives, or the
    /// schema error that they cause.
    pub fn new(name: String, directives: Vec<FieldDirective>, ty: ValueType) -> (r: Result<FieldSchema, SchemaError>)
        ensures
            match field_check(name@, directives_view(directives@), ty) {
                Some(e) => r is Err && r->Err_0@ == e,
                None => r is Ok && built_field(name@, directives_view(directives@), ty, r->Ok_0),
            },
    {
        let ghost dv = directives_view(directives@);
        let mut flatten = false;
        let mut other = false;
        let mut default_on_absent = false;
        let mut partition_key = false;
        let mut sort_key = false;
        let mut rename: Option<String> = None;
        let mut skip_if: Option<SkipRule> = None;
        let mut i: usize = 0;
        while i < directives.len()
            invariant
                dv == directives_view(directives@),
                i <= directives.len(),
                flatten == has_directive(dv.subrange(0, i as int), DirectiveView::Flatten),
                other == exists|j: int| 0 <= j < i && dv[j] != DirectiveView::Flatten,
                default_on_absent == has_directive(dv.subrange(0, i as int), DirectiveView::DefaultOnAbsent),
                partition_key == has_directive(dv.subrange(0, i as int), DirectiveView::PartitionKey),
                sort_key == has_directive(dv.subrange(0, i as int), DirectiveView::SortKey),
                first_rename(dv.subrange(0, i as int)) == match rename {
                    Some(n) => Some(n@),
                    None => None::<Seq<char>>,
                },
                first_skip(dv.subrange(0, i as int)) == skip_if,
            decreases directives.len() - i,
        {
            let ghost pre = dv.subrange(0, i as int);
            let ghost post = dv.subrange(0, i + 1);
            assert(post.drop_last() =~= pre);
            assert(post.last() == dv[i as int]);
            assert(forall|j: int| 0 <= j < i ==> post[j] == pre[j]);
            match &directives[i] {
                FieldDirective::Rename(n) => {
                    other = true;
                    if rename.is_none() {
                        rename = Some(n.clone());
                    }
                },
                FieldDirective::DefaultOnAbsent => {
                    other = true;
                    default_on_absent = true;
                },
                FieldDirective::Flatten => {
                    flatten = true;
                },
                FieldDirective::PartitionKey => {
                    other = true;
                    partition_key = true;
                },
                FieldDirective::SortKey => {
                    other = true;
                    sort_key = true;
                },
                FieldDirective::SkipIf(rule) => {
                    other = true;
                    if skip_if.is_none() {
                        skip_if = Some(*rule);
                    }
                },
            }
            proof {
                assert(has_directive(post, DirectiveView::Flatten) == (has_directive(pre, DirectiveView::Flatten) || post.last() == DirectiveView::Flatten));
                assert(has_directive(post, DirectiveView::DefaultOnAbsent) == (has_directive(pre, DirectiveView::DefaultOnAbsent) || post.last() == DirectiveView::DefaultOnAbsent));
                assert(has_directive(post, DirectiveView::PartitionKey) == (has_directive(pre, DirectiveView::PartitionKey) || post.last() == DirectiveView::PartitionKey));
                assert(has_directive(post, DirectiveView::SortKey) == (has_directive(pre, DirectiveView::SortKey) || post.last() == DirectiveView::SortKey));
            }
            i = i + 1;
        }
        assert(dv.subrange(0, i as int) =~= dv);
        if flatten && other {
            return Err(SchemaError::FlattenNotExclusive { field: name });
        }
        if flatten && !is_map_shaped(&ty) {
            return Err(SchemaError::FlattenNotMap { field: name });
        }
        if default_on_absent && !type_has_zero(&ty) {
            return Err(SchemaError::NoDefault { field: name });
        }
        if (partition_key || sort_key) && !is_key_typed(&ty) {
            return Err(SchemaError::InvalidKeyType { field: name });
        }
        let wire_name = match rename {
            Some(n) => n,
            None => name.clone(),
        };
        Ok(FieldSchema { name, wire_name, flatten, default_on_absent, partition_key, sort_key, skip_if, ty })
    }
}

/// The directives that a list of tokens denotes; the first bad token wins.
pub open spec fn directives_of(tokens: Seq<(Seq<char>, Option<Seq<char>>)>) -> Result<Seq<DirectiveView>, SchemaErrorView>
    decreases tokens.len(),
{
    if tokens.len() == 0 {
        Ok(Seq::empty())
    } else {
        match directives_of(tokens.drop_last()) {
            Ok(ds) => match directive_of(tokens.last().0, tokens.last().1) {
                Ok(d) => Ok(ds.push(d)),
                Err(e) => Err(e),
            },
            Err(e) => Err(e),
        }
    }
}

pub open spec fn tokens_view(tokens: Seq<(String, Option<String>)>) -> Seq<(Seq<char>, Option<Seq<char>>)> {
    tokens.map_values(
        |t: (String, Option<String>)|
            (
                t.0@,
                match t.1 {
                    Some(v) => Some(v@),
                    None => None,
                },
            ),
    )
}

proof fn lemma_directives_err(tokens: Seq<(Seq<char>, Option<Seq<char>>)>, k: int)
    requires
        0 <= k <= tokens.len(),
        directives_of(tokens.subrange(0, k)) is Err,
    ensures
        directives_of(tokens) == directives_of(tokens.subrange(0, k)),
    decreases tokens.len() - k,
{
    if k < tokens.len() {
        let t = tokens.subrange(0, k + 1);
        assert(t.drop_last() =~= tokens.subrange(0, k));
        lemma_directives_err(tokens, k + 1);
    } else {
        assert(tokens.subrange(0, k) =~= tokens);
    }
}

/// Parses directive tokens `key` or `key = value` in order.
pub fn parse_directives(tokens: &Vec<(String, Option<String>)>) -> (r: Result<Vec<FieldDirective>, SchemaError>)
    ensures
        match r {
            Ok(ds) => directives_of(tokens_view(tokens@)) == Ok::<Seq<DirectiveView>, SchemaErrorView>(directives_view(ds@)),
            Err(e) => directives_of(tokens_view(tokens@)) == Err::<Seq<DirectiveView>, SchemaErrorView>(e@),
        },
{
    let ghost tv = tokens_view(tokens@);
    let mut out: Vec<FieldDirective> = Vec::new();
    let mut i: usize = 0;
    assert(tv.subrange(0, 0) =~= Seq::<(Seq<char>, Option<Seq<char>>)>::empty());
    assert(directives_view(out@) =~= Seq::<DirectiveView>::empty());
    while i < tokens.len()
        invariant
            tv == tokens_view(tokens@),
            i <= tokens.len(),
            directives_of(tv.subrange(0, i as int)) == Ok::<Seq<DirectiveView>, SchemaErrorView>(directives_view(out@)),
        decreases tokens.len() - i,
    {
        let t = &tokens[i];
        let v: Option<&str> = match &t.1 {
            Some(s) => Some(s.as_str()),
            None => None,
        };
        assert(tv.subrange(0, i + 1).drop_last() =~= tv.subrange(0, i as int));
        assert(opt_text(v) == tv[i as int].1);
        match parse_directive(t.0.as_str(), v) {
            Ok(d) => {
                let ghost prev = directives_view(out@);
                out.push(d);
                assert(directives_view(out@) =~= prev.push(d@));
            },
            Err(e) => {
                proof {
                    lemma_directives_err(tv, i + 1);
                }
                return Err(e);
            },
        }
        i = i + 1;
    }
    assert(tv.subrange(0, i as int) =~= tv);
    Ok(out)
}

impl FieldSchema {
    /// A field named `name` of type `ty`, with directives given as tokens.
    pub fn from_tokens(name: String, tokens: &Vec<(String, Option<String>)>, ty: ValueType) -> (r: Result<FieldSchema, SchemaError>)
        ensures
            match directives_of(tokens_view(tokens@)) {
                Err(e) => r is Err && r->Err_0@ == e,
                Ok(ds) => match field_check(name@, ds, ty) {
                    Some(e) => r is Err && r->Err_0@ == e,
                    None => r is Ok && built_field(name@, ds, ty, r->Ok_0),
                },
            },
    {
        let ds = parse_directives(tokens)?;
        FieldSchema::new(name, ds, ty)
    }
}

pub open spec fn count_partition_keys(fs: Seq<FieldSchema>) -> nat
    decreases fs.len(),
{
    if fs.len() == 0 {
        0
    } else {
        count_partition_keys(fs.drop_last()) + if fs.last().partition_key { 1nat } else { 0nat }
    }
}

pub open spec fn count_sort_keys(fs: Seq<FieldSchema>) -> nat
    decreases fs.len(),
{
    if fs.len() == 0 {
        0
    } else {
        count_sort_keys(fs.drop_last()) + if fs.last().sort_key { 1nat } else { 0nat }
    }
}

/// The schema error, if any, of a record with fields `fs`; `item` asks for
/// a partition key.
pub open spec fn entity_check(fs: Seq<FieldSchema>, item: bool) -> Option<SchemaErrorView> {
    if count_partition_keys(fs) > 1 {
        Some(SchemaErrorView::DuplicatePartitionKey)
    } else if count_sort_keys(fs) > 1 {
        Some(SchemaErrorView::DuplicateSortKey)
    } else if item && count_partition_keys(fs) == 0 {
        Some(SchemaErrorView::MissingPartitionKey)
    } else {
        None
    }
}

fn count_keys(fs: &Vec<FieldSchema>) -> (r: (usize, usize))
    ensures
        r.0 == count_partition_keys(fs@),
        r.1 == count_sort_keys(fs@),
{
    let mut p: usize = 0;
    let mut s: usize = 0;
    let mut i: usize = 0;
    while i < fs.len()
        invariant
            i <= fs.len(),
            p == count_partition_keys(fs@.subrange(0, i as int)),
            s == count_sort_keys(fs@.subrange(0, i as int)),
            p <= i,
            s <= i,
        decreases fs.len() - i,
    {
        assert(fs@.subrange(0, i + 1).drop_last() =~= fs@.subrange(0, i as int));
        if fs[i].partition_key {
            p = p + 1;
        }
        if fs[i].sort_key {
            s = s + 1;
        }
        i = i + 1;
    }
    assert(fs@.subrange(0, i as int) =~= fs@);
    (p, s)
}

impl EntitySchema {
    /// A record schema: at most one partition key and one sort key.
    pub fn new(fields: Vec<FieldSchema>) -> (r: Result<EntitySchema, SchemaError>)
        ensures
            match entity_check(fields@, false) {
                Some(e) => r is Err && r->Err_0@ == e,
                None => r is Ok && r->Ok_0.fields == fields,
            },
    {
        EntitySchema::build(fields, false)
    }

    /// A schema for a stored item: exactly one partition key, at most one
    /// sort key.
    pub fn new_item(fields: Vec<FieldSchema>) -> (r: Result<EntitySchema, SchemaError>)
        ensures
            match entity_check(fields@, true) {
                Some(e) => r is Err && r->Err_0@ == e,
                None => r is Ok && r->Ok_0.fields == fields,
            },
    {
        EntitySchema::build(fields, true)
    }

    fn build(fields: Vec<FieldSchema>, item: bool) -> (r: Result<EntitySchema, SchemaError>)
        ensures
            match entity_check(fields@, item) {
                Some(e) => r is Err && r->Err_0@ == e,
                None => r is Ok && r->Ok_0.fields == fields,
            },
    {
        let (p, s) = count_keys(&fields);
        if p > 1 {
            Err(SchemaError::DuplicatePartitionKey)
        } else if s > 1 {
            Err(SchemaError::DuplicateSortKey)
        } else if item && p == 0 {
            Err(SchemaError::MissingPartitionKey)
        } else {
            Ok(EntitySchema { fields })
        }
    }
}

impl VariantSchema {
    /// A variant named `name` whose tag is `rename`, or else its name.
    pub fn new(name: String, rename: Option<String>, payload: ValueType) -> (r: VariantSchema)
        ensures
            r.name@ == name@,
            r.wire_tag@ == match rename {
                Some(t) => t@,
                None => name@,
            },
            r.payload == payload,
    {
        let wire_tag = match rename {
            Some(t) => t,
            None => name.clone(),
        };
        VariantSchema { name, wire_tag, payload }
    }
}

/// The name of the first variant whose payload does not encode to a map.
pub open spec fn first_non_map_payload(vs: Seq<VariantSchema>) -> Option<Seq<char>>
    decreases vs.len(),
{
    if vs.len() == 0 {
        None
    } else {
        match first_non_map_payload(vs.drop_last()) {
            Some(n) => Some(n),
            None => if !map_shaped(vs.last().payload) {
                Some(vs.last().name@)
            } else {
                None
            },
        }
    }
}

/// The first wire tag, in declaration order, that an earlier variant already has.
pub open spec fn first_duplicate_tag(vs: Seq<VariantSchema>) -> Option<Seq<char>>
    decreases vs.len(),
{
    if vs.len() == 0 {
        None
    } else {
        match first_duplicate_tag(vs.drop_last()) {
            Some(t) => Some(t),
            None => if tag_index(vs.drop_last(), vs.last().wire_tag@) >= 0 {
                Some(vs.last().wire_tag@)
            } else {
                None
            },
        }
    }
}

pub open spec fn union_check(vs: Seq<VariantSchema>) -> Option<SchemaErrorView> {
    match first_non_map_payload(vs) {
        Some(n) => Some(SchemaErrorView::PayloadNotMap(n)),
        None => match first_duplicate_tag(vs) {
            Some(t) => Some(SchemaErrorView::DuplicateTag(t)),
            None => None,
        },
    }
}

impl UnionSchema {
    /// A union whose tag is stored under `tag`. Wire tags must be unique and
    /// every payload must encode to a map.
    pub fn new(tag: String, variants: Vec<VariantSchema>) -> (r: Result<UnionSchema, SchemaError>)
        ensures
            match union_check(variants@) {
                Some(e) => r is Err && r->Err_0@ == e,
                None => r is Ok && r->Ok_0.tag == tag && r->Ok_0.variants == variants,
            },
    {
        let ghost vs = variants@;
        let mut j: usize = 0;
        while j < variants.len()
            invariant
                vs == variants@,
                j <= variants.len(),
                first_non_map_payload(vs.subrange(0, j as int)) is None,
            decreases variants.len() - j,
        {
            assert(vs.subrange(0, j + 1).drop_last() =~= vs.subrange(0, j as int));
            if !is_map_shaped(&variants[j].payload) {
                proof {
                    lemma_first_some_stays(vs, j + 1);
                }
                return Err(SchemaError::PayloadNotMap { variant: variants[j].name.clone() });
            }
            j = j + 1;
        }
        assert(vs.subrange(0, j as int) =~= vs);
        let mut j: usize = 0;
        while j < variants.len()
            invariant
                vs == variants@,
                first_non_map_payload(vs) is None,
                j <= variants.len(),
                first_duplicate_tag(vs.subrange(0, j as int)) is None,
            decreases variants.len() - j,
        {
            let ghost pre = vs.subrange(0, j as int);
            assert(vs.subrange(0, j + 1).drop_last() =~= pre);
            let mut i: usize = 0;
            while i < j
                invariant
                    vs == variants@,
                    first_non_map_payload(vs) is None,
                    i <= j < variants.len(),
                    pre == vs.subrange(0, j as int),
                    vs.subrange(0, j + 1).drop_last() == pre,
                    first_duplicate_tag(pre) is None,
                    forall|k: int| 0 <= k < i ==> vs[k].wire_tag@ != vs[j as int].wire_tag@,
                decreases j - i,
            {
                if variants[i].wire_tag == variants[j].wire_tag {
                    proof {
                        assert(pre[i as int].wire_tag@ == vs[j as int].wire_tag@);
                        lemma_tag_index(pre, vs[j as int].wire_tag@);
                        assert(vs.subrange(0, j + 1).last() == vs[j as int]);
                        lemma_dup_stays(vs, j + 1);
                    }
                    return Err(SchemaError::DuplicateTag { tag: variants[j].wire_tag.clone() });
                }
                i = i + 1;
            }
            proof {
                assert(forall|k: int| 0 <= k < pre.len() ==> pre[k] == vs[k]);
                lemma_tag_index(pre, vs[j as int].wire_tag@);
                assert(vs.subrange(0, j + 1).last() == vs[j as int]);
            }
            j = j + 1;
        }
        assert(vs.subrange(0, j as int) =~= vs);
        Ok(UnionSchema { tag, variants })
    }
}

proof fn lemma_first_some_stays(vs: Seq<VariantSchema>, k: int)
    requires
        0 <= k <= vs.len(),
        first_non_map_payload(vs.subrange(0, k)) is Some,
    ensures
        first_non_map_payload(vs) == first_non_map_payload(vs.subrange(0, k)),
    decreases vs.len() - k,
{
    if k < vs.len() {
        assert(vs.subrange(0, k + 1).drop_last() =~= vs.subrange(0, k));
        lemma_first_some_stays(vs, k + 1);
    } else {
        assert(vs.subrange(0, k) =~= vs);
    }
}

proof fn lemma_dup_stays(vs: Seq<VariantSchema>, k: int)
    requires
        0 <= k <= vs.len(),
        first_duplicate_tag(vs.subrange(0, k)) is Some,
    ensures
        first_duplicate_tag(vs) == first_duplicate_tag(vs.subrange(0, k)),
    decreases vs.len() - k,
{
    if k < vs.len() {
        assert(vs.subrange(0, k + 1).drop_last() =~= vs.subrange(0, k));
        lemma_dup_stays(vs, k + 1);
    } else {
        assert(vs.subrange(0, k) =~= vs);
    }
}

} // verus!
