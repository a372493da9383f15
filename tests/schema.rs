use dynomite::schema::{invalid_fn, invalid_fn_in_module, parse_directives};
use dynomite::{
    parse_directive, EntitySchema, FieldDirective, FieldSchema, NumKind, SchemaError, SkipRule, UnionSchema,
    ValueType, VariantSchema,
};

fn s(x: &str) -> String {
    x.to_string()
}

fn toks(tokens: &[(&str, Option<&str>)]) -> Vec<(String, Option<String>)> {
    tokens.iter().map(|(k, v)| (k.to_string(), v.map(|x| x.to_string()))).collect()
}

fn field(name: &str, tokens: &[(&str, Option<&str>)], ty: ValueType) -> Result<FieldSchema, SchemaError> {
    FieldSchema::from_tokens(s(name), &toks(tokens), ty)
}

#[test]
fn directives_parse() {
    assert_eq!(parse_directive("rename", Some("x")), Ok(FieldDirective::Rename(s("x"))));
    assert_eq!(parse_directive("default", None), Ok(FieldDirective::DefaultOnAbsent));
    assert_eq!(parse_directive("flatten", None), Ok(FieldDirective::Flatten));
    assert_eq!(parse_directive("partition_key", None), Ok(FieldDirective::PartitionKey));
    assert_eq!(parse_directive("sort_key", None), Ok(FieldDirective::SortKey));
    assert_eq!(parse_directive("skip_if", Some("is_none")), Ok(FieldDirective::SkipIf(SkipRule::IsNone)));
}

#[test]
fn unknown_directive_is_refused() {
    assert_eq!(parse_directive("typo", None), Err(SchemaError::UnknownDirective { name: s("typo") }));
    assert_eq!(
        parse_directives(&toks(&[("partition_key", None), ("typo", None)])),
        Err(SchemaError::UnknownDirective { name: s("typo") })
    );
}

#[test]
fn directive_values_are_checked() {
    assert_eq!(parse_directive("rename", None), Err(SchemaError::MissingDirectiveValue { name: s("rename") }));
    assert_eq!(parse_directive("skip_if", None), Err(SchemaError::MissingDirectiveValue { name: s("skip_if") }));
    assert_eq!(parse_directive("default", Some("1")), Err(SchemaError::UnexpectedDirectiveValue { name: s("default") }));
}

#[test]
fn skip_if_rejects_unknown_predicates() {
    assert!(invalid_fn());
    invalid_fn_in_module();
    for p in ["true", "2 + 2", "|| true", "invalid_fn", "module::invalid_fn_in_module"] {
        assert_eq!(parse_directive("skip_if", Some(p)), Err(SchemaError::UnknownPredicate { name: s(p) }));
    }
}

#[test]
fn default_with_flatten_is_refused() {
    let flat = ValueType::Record(Box::new(EntitySchema::new(vec![]).unwrap()));
    assert_eq!(
        field("flat", &[("default", None), ("flatten", None)], flat).err(),
        Some(SchemaError::FlattenNotExclusive { field: s("flat") })
    );
}

#[test]
fn flatten_needs_a_map() {
    assert_eq!(
        field("x", &[("flatten", None)], ValueType::Text).err(),
        Some(SchemaError::FlattenNotMap { field: s("x") })
    );
}

#[test]
fn default_needs_a_zero() {
    let u = ValueType::Union(Box::new(UnionSchema::new(s("kind"), vec![]).unwrap()));
    assert_eq!(field("u", &[("default", None)], u).err(), Some(SchemaError::NoDefault { field: s("u") }));
}

#[test]
fn key_fields_need_key_types() {
    assert_eq!(
        field("k", &[("partition_key", None)], ValueType::Bool).err(),
        Some(SchemaError::InvalidKeyType { field: s("k") })
    );
}

#[test]
fn field_facts_follow_directives() {
    let f = field("id", &[("rename", Some("Id")), ("rename", Some("Other")), ("sort_key", None)], ValueType::Text).unwrap();
    assert_eq!(f.name, "id");
    assert_eq!(f.wire_name, "Id");
    assert!(f.sort_key && !f.partition_key && !f.flatten && !f.default_on_absent);
    assert_eq!(f.skip_if, None);
    let g = field("n", &[], ValueType::Number(NumKind::U16)).unwrap();
    assert_eq!(g.wire_name, "n");
}

#[test]
fn one_partition_and_sort_key_at_most() {
    let two_pk = vec![
        field("a", &[("partition_key", None)], ValueType::Text).unwrap(),
        field("b", &[("partition_key", None)], ValueType::Text).unwrap(),
    ];
    assert_eq!(EntitySchema::new(two_pk).err(), Some(SchemaError::DuplicatePartitionKey));
    let two_sk = vec![
        field("a", &[("sort_key", None)], ValueType::Text).unwrap(),
        field("b", &[("sort_key", None)], ValueType::Number(NumKind::I64)).unwrap(),
    ];
    assert_eq!(EntitySchema::new(two_sk).err(), Some(SchemaError::DuplicateSortKey));
}

#[test]
fn item_needs_partition_key() {
    let fields = vec![field("a", &[], ValueType::Text).unwrap()];
    assert_eq!(EntitySchema::new_item(fields).err(), Some(SchemaError::MissingPartitionKey));
    let projection = EntitySchema::new(vec![field("a", &[], ValueType::Text).unwrap()]).unwrap();
    assert_eq!(projection.key_schema().err(), Some(SchemaError::MissingPartitionKey));
}

#[test]
fn key_schema_keeps_key_fields_only() {
    let schema = EntitySchema::new_item(vec![
        field("when", &[("sort_key", None), ("rename", Some("When"))], ValueType::Number(NumKind::I64)).unwrap(),
        field("body", &[("default", None)], ValueType::Text).unwrap(),
        field("user", &[("partition_key", None)], ValueType::Text).unwrap(),
    ])
    .unwrap();
    let key = schema.key_schema().unwrap();
    assert_eq!(key.fields.len(), 2);
    assert_eq!(key.fields[0].wire_name, "user");
    assert!(key.fields[0].partition_key);
    assert_eq!(key.fields[1].wire_name, "When");
    assert!(key.fields[1].sort_key);
    assert!(!key.fields[1].default_on_absent);
}

#[test]
fn non_unique_union_tags_are_refused() {
    let payload = || ValueType::Record(Box::new(EntitySchema::new(vec![]).unwrap()));
    let r = UnionSchema::new(
        s("kind"),
        vec![
            VariantSchema::new(s("Bar"), None, payload()),
            VariantSchema::new(s("Baz"), Some(s("Bar")), payload()),
            VariantSchema::new(s("Bruh"), None, payload()),
        ],
    );
    assert_eq!(r.err(), Some(SchemaError::DuplicateTag { tag: s("Bar") }));
}

#[test]
fn union_payload_must_be_a_map() {
    let r = UnionSchema::new(s("kind"), vec![VariantSchema::new(s("A"), None, ValueType::Text)]);
    assert_eq!(r.err(), Some(SchemaError::PayloadNotMap { variant: s("A") }));
}
