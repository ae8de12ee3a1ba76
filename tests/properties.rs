use luao3::codec::{
    decode, decode_struct, encode, encode_struct, expect_table, parse_enum_externally_tagged,
    parse_field, write_field, Data, EnumVariant,
};
use luao3::schema::{EnumSchema, FieldSpec, FieldType, StructSchema, VariantSpec};
use luao3::tostring::LuaToString;
use luao3::utils::collect_vec_combining_errors;
use luao3::value::{LuaNumber, Table, TableKey, Value};

fn field(name: &str, ty: FieldType, has_default: bool) -> FieldSpec {
    FieldSpec { name: Some(name.to_string()), ty, has_default }
}

fn positional(ty: FieldType) -> FieldSpec {
    FieldSpec { name: None, ty, has_default: false }
}

fn unit(name: &str) -> VariantSpec {
    VariantSpec { name: name.to_string(), fields: vec![], is_unit: true }
}

fn number(x: f64) -> Value {
    Value::Number(LuaNumber { bits: x.to_bits(), text: format!("{}", x) })
}

fn s(x: &str) -> Value {
    Value::Str(x.to_string())
}

fn skey(x: &str) -> TableKey {
    TableKey::Str(x.to_string())
}

fn table(pairs: Vec<(TableKey, Value)>) -> Value {
    let mut t = Table::new();
    for (k, v) in pairs {
        t.set(k, v);
    }
    Value::Table(t)
}

fn render_data(d: &Data) -> String {
    match d {
        Data::Leaf(v) => v.to_lua_string(),
        Data::Record(ds) => {
            format!("R({})", ds.iter().map(render_data).collect::<Vec<_>>().join(";"))
        }
        Data::Variant(i, ds) => {
            format!("V{}({})", i, ds.iter().map(render_data).collect::<Vec<_>>().join(";"))
        }
        Data::Absent => "None".to_string(),
        Data::Present(x) => format!("Some({})", render_data(x)),
    }
}

fn mixed_enum() -> EnumSchema {
    EnumSchema {
        default: None,
        name: "MixedEnum".to_string(),
        variants: vec![
            unit("Foo"),
            unit("Bar"),
            VariantSpec {
                name: "Baz".to_string(),
                fields: vec![field("k", FieldType::U32, false)],
                is_unit: false,
            },
            VariantSpec {
                name: "Bacon".to_string(),
                fields: vec![positional(FieldType::Text), positional(FieldType::Number)],
                is_unit: false,
            },
        ],
    }
}

fn inner_schema() -> StructSchema {
    StructSchema {
        default: None,
        name: "Inner".to_string(),
        fields: vec![field("count", FieldType::U32, false), field("flag", FieldType::Boolean, false)],
    }
}

fn outer_type() -> FieldType {
    FieldType::Struct(StructSchema {
        default: None,
        name: "Outer".to_string(),
        fields: vec![
            field("name", FieldType::Text, false),
            field("nested", FieldType::Struct(inner_schema()), false),
            field("tag", FieldType::Enum(mixed_enum()), false),
            field("extra", FieldType::Any, false),
        ],
    })
}

#[test]
fn round_trip_nested_struct() {
    let ty = outer_type();
    let d = Data::Record(vec![
        Data::Leaf(s("widget")),
        Data::Record(vec![Data::Leaf(Value::Integer(3)), Data::Leaf(Value::Boolean(true))]),
        Data::Variant(3, vec![Data::Leaf(s("cook")), Data::Leaf(number(2.718))]),
        Data::Leaf(Value::Nil),
    ]);
    let encoded = encode(&d, &ty);
    assert_eq!(
        encoded.to_lua_string(),
        "{name=\"widget\",nested={count=3,flag=true},tag={Bacon={\"cook\",2.718}}}"
    );
    let decoded = decode(&encoded, &ty).unwrap();
    assert_eq!(render_data(&decoded), render_data(&d));
}

#[test]
fn default_fills_missing_key() {
    let ty = FieldType::Struct(StructSchema {
        default: None,
        name: "Foo".to_string(),
        fields: vec![
            field("foo", FieldType::Text, false),
            field("bar", FieldType::Text, true),
            field("inner", FieldType::Struct(inner_schema()), true),
        ],
    });
    let v = table(vec![(skey("foo"), s("x"))]);
    let d = decode(&v, &ty).unwrap();
    assert_eq!(render_data(&d), "R(\"x\";\"\";R(0;false))");
}

#[test]
fn default_never_replaces_present_value() {
    let ty = FieldType::Struct(StructSchema {
        default: None,
        name: "Foo".to_string(),
        fields: vec![field("foo", FieldType::Text, false), field("bar", FieldType::Text, true)],
    });
    let v = table(vec![(skey("foo"), s("x")), (skey("bar"), s("y"))]);
    let d = decode(&v, &ty).unwrap();
    assert_eq!(render_data(&d), "R(\"x\";\"y\")");
}

#[test]
fn default_does_not_mask_malformed_value() {
    let ty = FieldType::Struct(StructSchema {
        default: None,
        name: "Foo".to_string(),
        fields: vec![field("bar", FieldType::Text, true)],
    });
    let v = table(vec![(skey("bar"), Value::Integer(3))]);
    let e = decode(&v, &ty).unwrap_err();
    assert_eq!(e.from, "integer");
    assert_eq!(e.to, "Foo");
    assert_eq!(e.message.as_deref(), Some("field bar: Expected a string"));
}

#[test]
fn unit_variant_is_bare_string() {
    let ty = FieldType::Enum(mixed_enum());
    let encoded = encode(&Data::Variant(1, vec![]), &ty);
    assert!(matches!(&encoded, Value::Str(x) if x == "Bar"));
    let decoded = decode(&s("Bar"), &ty).unwrap();
    assert_eq!(render_data(&decoded), "V1()");
}

#[test]
fn enum_table_with_no_pairs_fails() {
    let ty = FieldType::Enum(mixed_enum());
    let e = decode(&table(vec![]), &ty).unwrap_err();
    assert_eq!(e.from, "table");
    assert_eq!(e.to, "MixedEnum");
    assert_eq!(
        e.message.as_deref(),
        Some("Externally tagged enum should have one field, but actually has 0")
    );
}

#[test]
fn enum_table_with_two_pairs_fails() {
    let ty = FieldType::Enum(mixed_enum());
    let v = table(vec![
        (skey("Baz"), table(vec![(skey("k"), Value::Integer(1))])),
        (skey("Bacon"), table(vec![])),
    ]);
    let e = decode(&v, &ty).unwrap_err();
    assert_eq!(
        e.message.as_deref(),
        Some("Externally tagged enum should have one field, but actually has 2")
    );
}

#[test]
fn enum_unknown_tag_fails() {
    let ty = FieldType::Enum(mixed_enum());
    let v = table(vec![(skey("Bacn"), table(vec![]))]);
    let e = decode(&v, &ty).unwrap_err();
    assert_eq!(e.from, "table");
    assert_eq!(e.message.as_deref(), Some("Unknown variant name: Bacn"));
    let unit_tag = table(vec![(skey("Foo"), table(vec![]))]);
    let e2 = decode(&unit_tag, &ty).unwrap_err();
    assert_eq!(e2.message.as_deref(), Some("Unknown variant name: Foo"));
}

#[test]
fn enum_numeric_tag_fails() {
    let ty = FieldType::Enum(EnumSchema {
        default: None,
        name: "E".to_string(),
        variants: vec![VariantSpec { name: "1".to_string(), fields: vec![], is_unit: false }],
    });
    let v = table(vec![(TableKey::Number(1), table(vec![]))]);
    let e = decode(&v, &ty).unwrap_err();
    assert_eq!(e.message.as_deref(), Some("Externally tagged enum key should be a string"));
    assert!(decode(&table(vec![(skey("1"), table(vec![]))]), &ty).is_ok());
}

#[test]
fn enum_string_naming_no_unit_variant_fails() {
    let ty = FieldType::Enum(mixed_enum());
    let e = decode(&s("Baz"), &ty).unwrap_err();
    assert_eq!(e.from, "string");
    assert_eq!(e.message.as_deref(), Some("Expected a table"));
}

#[test]
fn enum_payload_must_be_table() {
    let ty = FieldType::Enum(mixed_enum());
    let v = table(vec![(skey("Baz"), Value::Integer(4))]);
    let e = decode(&v, &ty).unwrap_err();
    assert_eq!(e.from, "integer");
    assert_eq!(e.message.as_deref(), Some("Expected a table"));
}

#[test]
fn error_path_composes_over_two_levels() {
    let ty = outer_type();
    let v = table(vec![
        (skey("name"), s("w")),
        (skey("nested"), table(vec![(skey("count"), Value::Integer(-1))])),
    ]);
    let e = decode(&v, &ty).unwrap_err();
    assert_eq!(e.to, "Outer");
    assert_eq!(
        e.message.as_deref(),
        Some("field nested: field count: Expected an integer in the u32 range")
    );
}

#[test]
fn positional_field_error_names_index() {
    let ty = FieldType::Enum(mixed_enum());
    let v = table(vec![(
        skey("Bacon"),
        table(vec![(TableKey::Number(1), s("cook")), (TableKey::Number(2), s("hot"))]),
    )]);
    let e = decode(&v, &ty).unwrap_err();
    assert_eq!(e.from, "string");
    assert_eq!(e.message.as_deref(), Some("field 2: Expected a number"));
}

#[test]
fn struct_requires_table() {
    let e = decode(&Value::Integer(5), &outer_type()).unwrap_err();
    assert_eq!(e.from, "integer");
    assert_eq!(e.to, "Outer");
    assert_eq!(e.message.as_deref(), Some("Expected a table"));
}

#[test]
fn leaf_type_mismatch() {
    let e = decode(&s("yes"), &FieldType::Boolean).unwrap_err();
    assert_eq!(e.from, "string");
    assert_eq!(e.to, "boolean");
    assert_eq!(e.message.as_deref(), Some("Expected a boolean"));
    let big = decode(&Value::Integer(4294967296), &FieldType::U32).unwrap_err();
    assert_eq!(big.to, "u32");
    assert!(decode(&Value::Integer(4294967295), &FieldType::U32).is_ok());
}

#[test]
fn missing_field_without_default_fails_as_nil() {
    let ty = FieldType::Struct(inner_schema());
    let e = decode(&table(vec![(skey("count"), Value::Integer(1))]), &ty).unwrap_err();
    assert_eq!(e.from, "nil");
    assert_eq!(e.message.as_deref(), Some("field flag: Expected a boolean"));
}

#[test]
fn dense_run_renders_bare_values() {
    let v = table(vec![
        (TableKey::Number(1), Value::Integer(10)),
        (TableKey::Number(2), Value::Integer(20)),
        (TableKey::Number(3), Value::Integer(30)),
    ]);
    assert_eq!(v.to_lua_string(), "{10,20,30}");
}

#[test]
fn gap_breaks_dense_run() {
    let v = table(vec![
        (TableKey::Number(1), Value::Integer(10)),
        (TableKey::Number(3), Value::Integer(30)),
    ]);
    assert_eq!(v.to_lua_string(), "{10,[3]=30}");
}

#[test]
fn end_to_end_mixed_enum() {
    let e = mixed_enum();
    let ty = FieldType::Enum(e);
    let baz = Data::Variant(2, vec![Data::Leaf(Value::Integer(52))]);
    let bacon = Data::Variant(3, vec![Data::Leaf(s("cook")), Data::Leaf(number(2.718))]);
    let foo = Data::Variant(0, vec![]);
    let vb = encode(&baz, &ty);
    let vc = encode(&bacon, &ty);
    let vf = encode(&foo, &ty);
    assert_eq!(vb.to_lua_string(), "{Baz={k=52}}");
    assert_eq!(vc.to_lua_string(), "{Bacon={\"cook\",2.718}}");
    assert_eq!(vf.to_lua_string(), "\"Foo\"");
    assert_eq!(render_data(&decode(&vb, &ty).unwrap()), render_data(&baz));
    assert_eq!(render_data(&decode(&vc, &ty).unwrap()), render_data(&bacon));
    assert_eq!(render_data(&decode(&vf, &ty).unwrap()), render_data(&foo));
}

#[test]
fn scalars_render() {
    assert_eq!(Value::Nil.to_lua_string(), "nil");
    assert_eq!(Value::Boolean(false).to_lua_string(), "false");
    assert_eq!(Value::Integer(-5).to_lua_string(), "-5");
    assert_eq!(Value::Integer(0).to_lua_string(), "0");
    assert_eq!(Value::Integer(i64::MIN).to_lua_string(), "-9223372036854775808");
    assert_eq!(Value::LightUserData(255).to_lua_string(), "LightUserData(255)");
    assert_eq!(number(-0.5).to_lua_string(), "-0.5");
}

#[test]
fn strings_render_quoted_and_escaped() {
    assert_eq!(s("a\"b\n").to_lua_string(), "\"a\\\"b\\n\"");
}

#[test]
fn string_keys_render_by_shape() {
    let v = table(vec![
        (skey("ok_name1"), Value::Integer(1)),
        (skey("not ok"), Value::Integer(2)),
        (skey("9lives"), Value::Integer(3)),
    ]);
    assert_eq!(v.to_lua_string(), "{ok_name1=1,[\"not ok\"]=2,[\"9lives\"]=3}");
}

#[test]
fn nested_tables_render() {
    let v = table(vec![
        (TableKey::Number(1), table(vec![])),
        (skey("t"), table(vec![(TableKey::Number(1), Value::Boolean(true))])),
    ]);
    assert_eq!(v.to_lua_string(), "{{},t={true}}");
}

#[test]
fn writing_nil_removes_key() {
    let mut t = Table::new();
    t.set(skey("a"), Value::Integer(1));
    t.set(skey("b"), Value::Integer(2));
    t.set(skey("a"), Value::Nil);
    assert_eq!(t.len(), 1);
    assert!(matches!(t.get(&skey("a")), Value::Nil));
    assert!(matches!(t.get(&skey("b")), Value::Integer(2)));
    t.set(skey("c"), Value::Nil);
    assert_eq!(t.len(), 1);
}

#[test]
fn overwriting_keeps_position() {
    let mut t = Table::new();
    t.set(skey("a"), Value::Integer(1));
    t.set(skey("b"), Value::Integer(2));
    t.set(skey("a"), Value::Integer(3));
    assert_eq!(Value::Table(t).to_lua_string(), "{a=3,b=2}");
}

#[test]
fn nil_field_is_not_written() {
    let fields = vec![field("x", FieldType::Any, false), field("y", FieldType::Any, false)];
    let t = encode_struct(&vec![Data::Leaf(Value::Nil), Data::Leaf(Value::Integer(1))], &fields);
    assert_eq!(t.len(), 1);
    let back = decode_struct(&t, "P", &fields).unwrap();
    assert_eq!(back.len(), 2);
    assert!(matches!(&back[0], Data::Leaf(Value::Nil)));
}

#[test]
fn write_field_uses_one_based_positions() {
    let mut t = Table::new();
    write_field(&mut t, &positional(FieldType::Integer), 0, Value::Integer(7));
    write_field(&mut t, &positional(FieldType::Integer), 1, Value::Integer(8));
    assert!(matches!(t.get(&TableKey::Number(1)), Value::Integer(7)));
    assert!(matches!(t.get(&TableKey::Number(2)), Value::Integer(8)));
    assert!(matches!(t.get(&TableKey::Number(0)), Value::Nil));
}

#[test]
fn parse_field_reads_named_key() {
    let t = match table(vec![(skey("k"), Value::Integer(9))]) {
        Value::Table(t) => t,
        _ => unreachable!(),
    };
    let d = parse_field(&t, "T", &field("k", FieldType::Integer, false), 0).unwrap();
    assert_eq!(render_data(&d), "9");
}

#[test]
fn parse_enum_externally_tagged_splits_pair() {
    let t = match table(vec![(skey("Baz"), Value::Integer(1))]) {
        Value::Table(t) => t,
        _ => unreachable!(),
    };
    let (EnumVariant::Named(name), payload) = parse_enum_externally_tagged("E", &t).unwrap();
    assert_eq!(name, "Baz");
    assert!(matches!(payload, Value::Integer(1)));
    let numbered = match table(vec![(TableKey::Number(12), Value::Integer(1))]) {
        Value::Table(t) => t,
        _ => unreachable!(),
    };
    let e = parse_enum_externally_tagged("E", &numbered).unwrap_err();
    assert_eq!(e.from, "table");
    assert_eq!(e.to, "E");
    assert_eq!(e.message.as_deref(), Some("Externally tagged enum key should be a string"));
}

#[test]
fn expect_table_reports_kind() {
    let e = expect_table(Value::Boolean(true), "Thing").unwrap_err();
    assert_eq!(e.from, "boolean");
    assert_eq!(e.to, "Thing");
    assert_eq!(e.message.as_deref(), Some("Expected a table"));
    assert!(expect_table(table(vec![]), "Thing").is_ok());
}

#[test]
fn kind_names() {
    assert_eq!(Value::Nil.kind_name(), "nil");
    assert_eq!(number(1.5).kind_name(), "number");
    assert_eq!(table(vec![]).kind_name(), "table");
    assert_eq!(Value::Function("f".to_string()).kind_name(), "function");
}

#[test]
fn key_display() {
    let mut buf = String::new();
    TableKey::Number(4021).push_text(&mut buf);
    buf.push('|');
    skey("name").push_text(&mut buf);
    assert_eq!(buf, "4021|name");
    assert!(matches!(TableKey::Number(3).to_lua(), Value::Integer(3)));
}

fn join_errors(errs: Vec<String>) -> Result<(), String> {
    if errs.is_empty() {
        Ok(())
    } else {
        Err(errs.join("+"))
    }
}

#[test]
fn collect_keeps_all_errors() {
    let all_ok: Vec<Result<u32, String>> = vec![Ok(1), Ok(2)];
    assert_eq!(collect_vec_combining_errors(all_ok, join_errors), Ok(vec![1, 2]));
    let mixed: Vec<Result<u32, String>> =
        vec![Ok(1), Err("a".to_string()), Ok(2), Err("b".to_string())];
    assert_eq!(collect_vec_combining_errors(mixed, join_errors), Err("a+b".to_string()));
    let empty: Vec<Result<u32, String>> = vec![];
    assert_eq!(collect_vec_combining_errors(empty, join_errors), Ok(vec![]));
}

#[test]
fn collect_with_tolerant_combiner_keeps_successes() {
    let mixed: Vec<Result<u32, String>> = vec![Ok(1), Err("a".to_string()), Ok(3)];
    let seen = std::cell::RefCell::new(Vec::new());
    let r = collect_vec_combining_errors(mixed, |errs: Vec<String>| {
        seen.borrow_mut().extend(errs);
        Ok(())
    });
    assert_eq!(r, Ok(vec![1, 3]));
    assert_eq!(seen.into_inner(), vec!["a".to_string()]);
}

#[test]
fn rendering_appends_to_buffer() {
    let mut buf = String::from("x=");
    Value::Integer(4).to_lua_string_with_buf(&mut buf);
    assert_eq!(buf, "x=4");
}

#[test]
fn number_field_accepts_integer() {
    let ty = FieldType::Enum(mixed_enum());
    let v = table(vec![(
        skey("Bacon"),
        table(vec![(TableKey::Number(1), s("cook")), (TableKey::Number(2), Value::Integer(3))]),
    )]);
    assert_eq!(render_data(&decode(&v, &ty).unwrap()), "V3(\"cook\";3)");
}

fn optional_struct() -> FieldType {
    FieldType::Struct(StructSchema {
        default: None,
        name: "Opt".to_string(),
        fields: vec![field("a", FieldType::Optional(Box::new(FieldType::U32)), false)],
    })
}

#[test]
fn optional_field_missing_is_absent() {
    let d = decode(&table(vec![]), &optional_struct()).unwrap();
    assert_eq!(render_data(&d), "R(None)");
    let back = encode(&d, &optional_struct());
    assert_eq!(back.to_lua_string(), "{}");
}

#[test]
fn optional_field_present_is_decoded() {
    let v = table(vec![(skey("a"), Value::Integer(5))]);
    let d = decode(&v, &optional_struct()).unwrap();
    assert_eq!(render_data(&d), "R(Some(5))");
    assert_eq!(encode(&d, &optional_struct()).to_lua_string(), "{a=5}");
    let bad = table(vec![(skey("a"), s("x"))]);
    let e = decode(&bad, &optional_struct()).unwrap_err();
    assert_eq!(e.message.as_deref(), Some("field a: Expected an integer in the u32 range"));
}

#[test]
fn registered_default_is_used() {
    let registered = StructSchema {
        default: Some(Data::Record(vec![
            Data::Leaf(Value::Integer(9)),
            Data::Leaf(Value::Boolean(true)),
        ])),
        name: "Inner".to_string(),
        fields: vec![field("count", FieldType::U32, false), field("flag", FieldType::Boolean, false)],
    };
    let tagged = EnumSchema {
        default: Some(Data::Variant(1, vec![])),
        ..mixed_enum()
    };
    let ty = FieldType::Struct(StructSchema {
        default: None,
        name: "Holder".to_string(),
        fields: vec![
            field("inner", FieldType::Struct(registered), true),
            field("tag", FieldType::Enum(tagged), true),
        ],
    });
    let d = decode(&table(vec![]), &ty).unwrap();
    assert_eq!(render_data(&d), "R(R(9;true);V1())");
}

#[test]
fn enum_without_variants() {
    let ty = FieldType::Enum(EnumSchema { default: None, name: "Never".to_string(), variants: vec![] });
    let e = decode(&s("x"), &ty).unwrap_err();
    assert_eq!(e.message.as_deref(), Some("Expected a table"));
    let e2 = decode(&table(vec![]), &ty).unwrap_err();
    assert_eq!(
        e2.message.as_deref(),
        Some("Externally tagged enum should have one field, but actually has 0")
    );
}
