use dynomite::{
    decode, decode_from, encode, from_attributes, into_attributes, AttributeError, AttributeValue, Attributes,
    EntitySchema, FieldSchema, NumKind, UnionSchema, Value, ValueType, VariantSchema,
};

fn s(x: &str) -> String {
    x.to_string()
}

fn field(name: &str, tokens: &[(&str, Option<&str>)], ty: ValueType) -> FieldSchema {
    let toks: Vec<(String, Option<String>)> = tokens.iter().map(|(k, v)| (k.to_string(), v.map(|x| x.to_string()))).collect();
    FieldSchema::from_tokens(s(name), &toks, ty).unwrap()
}

fn record(fields: Vec<FieldSchema>) -> ValueType {
    ValueType::Record(Box::new(EntitySchema::new(fields).unwrap()))
}

fn m(pairs: Vec<(&str, AttributeValue)>) -> Attributes {
    let mut a = Attributes::new();
    for (k, v) in pairs {
        a.insert(k.to_string(), v);
    }
    a
}

fn recipe_schema() -> EntitySchema {
    EntitySchema::new_item(vec![
        field("id", &[("partition_key", None), ("rename", Some("RecipeId"))], ValueType::Text),
        field("servings", &[], ValueType::Number(NumKind::U64)),
    ])
    .unwrap()
}

#[test]
fn derived_key() {
    let schema = recipe_schema();
    let value = Value::Record(vec![Value::Text(s("test")), Value::Number(1)]);
    let key_schema = ValueType::Record(Box::new(schema.key_schema().unwrap()));
    let key_value = Value::Record(vec![Value::Text(s("test"))]);
    assert_eq!(schema.key(&value), into_attributes(&key_schema, &key_value));
}

#[test]
fn field_rename() {
    let ty = ValueType::Record(Box::new(recipe_schema()));
    let value = Value::Record(vec![Value::Text(s("aaaaaaaa-bbbb-cccc-dddd-eeeeeeeeeeee")), Value::Number(2)]);
    let attrs = into_attributes(&ty, &value);
    assert!(attrs.contains_key("RecipeId"));
    assert!(!attrs.contains_key("id"));
    assert_eq!(from_attributes(&ty, attrs), Ok(value));
}

fn flatten_root() -> ValueType {
    let nested = record(vec![field("b", &[], ValueType::Number(NumKind::U64)), field("c", &[], ValueType::Bool)]);
    let flattened = record(vec![field("a", &[], ValueType::Bool), field("flat_nested", &[("flatten", None)], nested)]);
    ValueType::Record(Box::new(
        EntitySchema::new_item(vec![
            field("id", &[("partition_key", None)], ValueType::Text),
            field("flat", &[("flatten", None)], flattened),
        ])
        .unwrap(),
    ))
}

#[test]
fn flatten() {
    let ty = flatten_root();
    let value = Value::Record(vec![
        Value::Text(s("foo")),
        Value::Record(vec![Value::Bool(true), Value::Record(vec![Value::Number(42), Value::Bool(false)])]),
    ]);
    let attrs = into_attributes(&ty, &value);
    assert!(!attrs.contains_key("flat"));
    assert!(!attrs.contains_key("flat_nested"));
    assert!(attrs.contains_key("id"));
    assert!(attrs.contains_key("a"));
    assert!(attrs.contains_key("b"));
    assert!(attrs.contains_key("c"));
    assert_eq!(from_attributes(&ty, attrs), Ok(value));
}

fn additional_props_verbatim() -> ValueType {
    record(vec![
        field("a", &[], ValueType::Bool),
        field("b", &[], ValueType::Number(NumKind::U32)),
        field("c", &[], ValueType::Number(NumKind::U32)),
        field("d", &[], ValueType::Text),
        field("e", &[], ValueType::Number(NumKind::U32)),
    ])
}

fn remaining_props_in_map() -> ValueType {
    record(vec![
        field("a", &[], ValueType::Bool),
        field("b", &[], ValueType::Number(NumKind::U32)),
        field("original_c_collector", &[("flatten", None)], record(vec![field("c", &[], ValueType::Number(NumKind::U32))])),
        field("remainder", &[("flatten", None)], ValueType::MapOf(Box::new(ValueType::Raw))),
    ])
}

#[test]
fn additional_props() {
    let original = Value::Record(vec![
        Value::Bool(true),
        Value::Number(42),
        Value::Number(43),
        Value::Text(s("foo")),
        Value::Number(44),
    ]);
    let attrs = into_attributes(&additional_props_verbatim(), &original);
    let collected = from_attributes(&remaining_props_in_map(), attrs).unwrap();
    let fields = match collected {
        Value::Record(f) => f,
        _ => panic!("not a record"),
    };
    assert_eq!(fields[0], Value::Bool(true));
    assert_eq!(fields[1], Value::Number(42));
    assert_eq!(fields[2], Value::Record(vec![Value::Number(43)]));
    let remainder = match &fields[3] {
        Value::MapOf(es) => es,
        _ => panic!("not a map"),
    };
    let keys: Vec<&str> = remainder.iter().map(|(k, _)| k.as_str()).collect();
    assert!(!keys.contains(&"c"), "prev flattened field has collected field `c` due to the order of declaration and eval");
    assert!(keys.contains(&"d"));
    assert!(keys.contains(&"e"));
}

fn foo_payload() -> ValueType {
    record(vec![field("a", &[], ValueType::Text), field("b", &[], ValueType::Number(NumKind::U32))])
}

fn bar_payload() -> ValueType {
    record(vec![field("a", &[], ValueType::Text), field("c", &[], ValueType::Bool)])
}

fn nested_union() -> ValueType {
    let nv = record(vec![field("a", &[], ValueType::Text)]);
    ValueType::Union(Box::new(
        UnionSchema::new(s("nested_kind"), vec![VariantSchema::new(s("NestedVariant"), Some(s("renamed_nested_variant")), nv)])
            .unwrap(),
    ))
}

fn my_enum() -> ValueType {
    ValueType::Union(Box::new(
        UnionSchema::new(
            s("kind"),
            vec![
                VariantSchema::new(s("Foo"), None, foo_payload()),
                VariantSchema::new(s("Bar"), None, bar_payload()),
                VariantSchema::new(s("Nested"), None, nested_union()),
            ],
        )
        .unwrap(),
    ))
}

#[test]
fn flat_single_item_tuple_enum() {
    let ty = my_enum();
    let original = Value::Variant(0, Box::new(Value::Record(vec![Value::Text(s("Hello")), Value::Number(42)])));
    let attrs = into_attributes(&ty, &original);
    assert_eq!(attrs.len(), 3);
    assert!(attrs.contains_key("kind"));
    assert!(!attrs.contains_key("nested_kind"));
    assert!(attrs.contains_key("a"));
    assert!(attrs.contains_key("b"));
    assert!(!attrs.contains_key("c"));
    assert_eq!(from_attributes(&ty, attrs).unwrap(), original);
}

#[test]
fn nested_single_item_tuple_enum() {
    let ty = my_enum();
    let original = Value::Variant(2, Box::new(Value::Variant(0, Box::new(Value::Record(vec![Value::Text(s("hello"))])))));
    let attrs = into_attributes(&ty, &original);
    assert_eq!(attrs.len(), 3);
    let kind = decode(&ValueType::Text, attrs.get("nested_kind").unwrap().copy()).unwrap();
    assert_eq!(kind, Value::Text(s("renamed_nested_variant")));
    assert!(attrs.contains_key("kind"));
    assert!(attrs.contains_key("a"));
    assert_eq!(from_attributes(&ty, attrs).unwrap(), original);
}

#[test]
fn smoke_test() {
    let gamer = record(vec![
        field("name", &[("skip_if", Some("is_empty"))], ValueType::Text),
        field("surname", &[("skip_if", Some("is_empty"))], ValueType::Text),
        field("label", &[], ValueType::Text),
    ]);
    let ty = ValueType::Record(Box::new(
        EntitySchema::new_item(vec![
            field("card", &[("partition_key", None)], ValueType::Text),
            field("deck", &[("skip_if", Some("is_zero"))], ValueType::Number(NumKind::U32)),
            field("gamer", &[], gamer),
        ])
        .unwrap(),
    ));
    let item = Value::Record(vec![
        Value::Text(s("ace")),
        Value::Number(0),
        Value::Record(vec![Value::Text(s("")), Value::Text(s("Fish")), Value::Text(s(""))]),
    ]);
    let attrs = into_attributes(&ty, &item);
    let expected = m(vec![
        ("card", AttributeValue::S(s("ace"))),
        (
            "gamer",
            AttributeValue::M(m(vec![("surname", AttributeValue::S(s("Fish"))), ("label", AttributeValue::S(s("")))])),
        ),
    ]);
    assert_eq!(attrs, expected);
}

#[test]
fn example_record_encoding() {
    let ty = record(vec![
        field("id", &[], ValueType::Text),
        field("tags", &[], ValueType::List(Box::new(ValueType::Text))),
        field("score", &[], ValueType::Number(NumKind::U32)),
    ]);
    let v = Value::Record(vec![
        Value::Text(s("u1")),
        Value::List(vec![Value::Text(s("a")), Value::Text(s("b"))]),
        Value::Number(42),
    ]);
    let expected = m(vec![
        ("id", AttributeValue::S(s("u1"))),
        ("tags", AttributeValue::L(vec![AttributeValue::S(s("a")), AttributeValue::S(s("b"))])),
        ("score", AttributeValue::N(s("42"))),
    ]);
    let attrs = into_attributes(&ty, &v);
    assert_eq!(attrs, expected);
    assert_eq!(from_attributes(&ty, attrs), Ok(v));
}

#[test]
fn missing_required_field_names_wire_name() {
    let ty = ValueType::Record(Box::new(recipe_schema()));
    let attrs = m(vec![("servings", AttributeValue::N(s("2")))]);
    assert_eq!(from_attributes(&ty, attrs), Err(AttributeError::MissingField { name: s("RecipeId") }));
}

#[test]
fn default_fallback() {
    let ty = record(vec![
        field("items", &[("default", None)], ValueType::List(Box::new(ValueType::Text))),
        field("count", &[("default", None)], ValueType::Number(NumKind::I32)),
        field("list_name", &[], ValueType::Text),
    ]);
    let attrs = m(vec![("list_name", AttributeValue::S(s("todo")))]);
    assert_eq!(
        from_attributes(&ty, attrs),
        Ok(Value::Record(vec![Value::List(vec![]), Value::Number(0), Value::Text(s("todo"))]))
    );
    let attrs = m(vec![("count", AttributeValue::N(s("abc"))), ("list_name", AttributeValue::S(s("todo")))]);
    assert_eq!(from_attributes(&ty, attrs), Err(AttributeError::InvalidFormat));
}

#[test]
fn flatten_merge_order() {
    // A claims {a, b}; B collects what remains.
    let claims_ab = record(vec![
        field("a", &[], ValueType::Number(NumKind::I32)),
        field("b", &[], ValueType::Number(NumKind::I32)),
    ]);
    let ty = record(vec![
        field("first", &[("flatten", None)], claims_ab),
        field("rest", &[("flatten", None)], ValueType::MapOf(Box::new(ValueType::Number(NumKind::I32)))),
    ]);
    let v = Value::Record(vec![
        Value::Record(vec![Value::Number(1), Value::Number(2)]),
        Value::MapOf(vec![(s("c"), Value::Number(3))]),
    ]);
    let attrs = into_attributes(&ty, &v);
    assert_eq!(
        attrs,
        m(vec![
            ("a", AttributeValue::N(s("1"))),
            ("b", AttributeValue::N(s("2"))),
            ("c", AttributeValue::N(s("3"))),
        ])
    );
    assert_eq!(from_attributes(&ty, attrs), Ok(v));
}

#[test]
fn later_flatten_overwrites_earlier_key() {
    let ty = record(vec![
        field("first", &[("flatten", None)], record(vec![field("a", &[], ValueType::Number(NumKind::I32))])),
        field("rest", &[("flatten", None)], ValueType::MapOf(Box::new(ValueType::Number(NumKind::I32)))),
    ]);
    let v = Value::Record(vec![Value::Record(vec![Value::Number(1)]), Value::MapOf(vec![(s("a"), Value::Number(9))])]);
    assert_eq!(into_attributes(&ty, &v), m(vec![("a", AttributeValue::N(s("9")))]));
}

#[test]
fn union_decode_errors() {
    let ty = my_enum();
    assert_eq!(from_attributes(&ty, m(vec![("a", AttributeValue::S(s("x")))])), Err(AttributeError::InvalidType));
    assert_eq!(
        from_attributes(&ty, m(vec![("kind", AttributeValue::N(s("1"))), ("a", AttributeValue::S(s("x")))])),
        Err(AttributeError::InvalidType)
    );
    assert_eq!(
        from_attributes(&ty, m(vec![("kind", AttributeValue::S(s("Baz"))), ("a", AttributeValue::S(s("x")))])),
        Err(AttributeError::InvalidFormat)
    );
    assert_eq!(
        from_attributes(&ty, m(vec![("kind", AttributeValue::S(s("Bar"))), ("a", AttributeValue::S(s("x")))])),
        Err(AttributeError::MissingField { name: s("c") })
    );
}

#[test]
fn record_nests_as_map() {
    let ty = record(vec![field("inner", &[], foo_payload())]);
    let v = Value::Record(vec![Value::Record(vec![Value::Text(s("x")), Value::Number(5)])]);
    let a = encode(&ty, &v);
    assert_eq!(
        a,
        AttributeValue::M(m(vec![(
            "inner",
            AttributeValue::M(m(vec![("a", AttributeValue::S(s("x"))), ("b", AttributeValue::N(s("5")))]))
        )]))
    );
    assert_eq!(decode(&ty, a), Ok(v));
    assert_eq!(decode(&ty, AttributeValue::S(s("x"))), Err(AttributeError::InvalidType));
}

#[test]
fn decode_from_leaves_unclaimed_entries() {
    let ty = foo_payload();
    let mut attrs = m(vec![
        ("z", AttributeValue::Null),
        ("b", AttributeValue::N(s("1"))),
        ("a", AttributeValue::S(s("q"))),
    ]);
    assert_eq!(decode_from(&ty, &mut attrs), Ok(Value::Record(vec![Value::Text(s("q")), Value::Number(1)])));
    assert_eq!(attrs, m(vec![("z", AttributeValue::Null)]));
}

fn category() -> ValueType {
    ValueType::Enumeration(vec![s("Foo")])
}

fn author() -> ValueType {
    ValueType::Record(Box::new(
        EntitySchema::new_item(vec![field("name", &[("partition_key", None)], ValueType::Text)]).unwrap(),
    ))
}

#[test]
fn derived_derive_attr() {
    let ty = ValueType::Enumeration(vec![s("Bar")]);
    assert_eq!(encode(&ty, &Value::Choice(0)), AttributeValue::S(s("Bar")));
    assert_eq!(Value::Choice(0), decode(&ty, encode(&ty, &Value::Choice(0))).unwrap());
}

#[test]
fn derived_to_and_from_book() {
    let book = ValueType::Record(Box::new(
        EntitySchema::new_item(vec![
            field("title", &[("partition_key", None)], ValueType::Text),
            field("category", &[], category()),
            field("authors", &[], ValueType::Optional(Box::new(ValueType::List(Box::new(author()))))),
        ])
        .unwrap(),
    ));
    let value = Value::Record(vec![Value::Text(s("rust")), Value::Choice(0), Value::Null]);
    let attrs = into_attributes(&book, &value);
    assert_eq!(from_attributes(&book, attrs).unwrap(), value);
}

#[test]
fn enumeration_names_are_checked() {
    let ty = ValueType::Enumeration(vec![s("Admin"), s("Moderator"), s("Regular")]);
    assert_eq!(decode(&ty, AttributeValue::S(s("Regular"))), Ok(Value::Choice(2)));
    assert_eq!(decode(&ty, AttributeValue::S(s("admin"))), Err(AttributeError::InvalidFormat));
    assert_eq!(decode(&ty, AttributeValue::N(s("0"))), Err(AttributeError::InvalidType));
}

#[test]
fn partition_and_sort_key_entries() {
    let schema = EntitySchema::new_item(vec![
        field("body", &[], ValueType::Text),
        field("when", &[("sort_key", None), ("rename", Some("When"))], ValueType::Number(NumKind::I64)),
        field("user", &[("partition_key", None)], ValueType::Text),
    ])
    .unwrap();
    let v = Value::Record(vec![Value::Text(s("hi")), Value::Number(7), Value::Text(s("u1"))]);
    assert_eq!(schema.partition_key(&v), Some((s("user"), AttributeValue::S(s("u1")))));
    assert_eq!(schema.sort_key(&v), Some((s("When"), AttributeValue::N(s("7")))));
    let no_sort = recipe_schema();
    let r = Value::Record(vec![Value::Text(s("x")), Value::Number(1)]);
    assert_eq!(no_sort.sort_key(&r), None);
    assert_eq!(no_sort.partition_key(&r), Some((s("RecipeId"), AttributeValue::S(s("x")))));
}
