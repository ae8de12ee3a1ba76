use luao3::codec::{decode, encode, Data};
use luao3::schema::{EnumSchema, FieldSpec, FieldType, StructSchema, VariantSpec};
use luao3::tostring::LuaToString;
use luao3::value::{LuaNumber, Table, TableKey, Value};

fn named(name: &str, ty: FieldType) -> FieldSpec {
    FieldSpec { name: Some(name.to_string()), ty, has_default: false }
}

fn positional(ty: FieldType) -> FieldSpec {
    FieldSpec { name: None, ty, has_default: false }
}

fn unit(name: &str) -> VariantSpec {
    VariantSpec { name: name.to_string(), fields: vec![], is_unit: true }
}

fn number(x: f64) -> Value {
    Value::Number(LuaNumber { bits: x.to_bits(), text: format!("{}", x) })
}

fn text(v: &Value) -> String {
    v.to_lua_string()
}

/// Structural comparison of decoded data, leaves by their rendering.
fn same(a: &Data, b: &Data) -> bool {
    match (a, b) {
        (Data::Leaf(x), Data::Leaf(y)) => text(x) == text(y),
        (Data::Record(xs), Data::Record(ys)) => {
            xs.len() == ys.len() && xs.iter().zip(ys.iter()).all(|(x, y)| same(x, y))
        }
        (Data::Variant(i, xs), Data::Variant(j, ys)) => {
            i == j && xs.len() == ys.len() && xs.iter().zip(ys.iter()).all(|(x, y)| same(x, y))
        }
        (Data::Absent, Data::Absent) => true,
        (Data::Present(x), Data::Present(y)) => same(x, y),
        _ => false,
    }
}

fn cenum_type() -> FieldType {
    FieldType::Enum(EnumSchema {
        default: None,
        name: "CEnum".to_string(),
        variants: vec![unit("Foo"), unit("Bar"), unit("Baz"), unit("UrMum")],
    })
}

fn mixed_enum_type() -> FieldType {
    FieldType::Enum(EnumSchema {
        default: None,
        name: "MixedEnum".to_string(),
        variants: vec![
            unit("Foo"),
            unit("Bar"),
            VariantSpec {
                name: "Baz".to_string(),
                fields: vec![named("k", FieldType::U32)],
                is_unit: false,
            },
            VariantSpec {
                name: "Bacon".to_string(),
                fields: vec![positional(FieldType::Text), positional(FieldType::Number)],
                is_unit: false,
            },
        ],
    })
}

fn simple_struct_type() -> FieldType {
    FieldType::Struct(StructSchema {
        default: None,
        name: "SimpleStruct".to_string(),
        fields: vec![
            named("a", FieldType::U32),
            named("b", FieldType::U32),
            named("c", FieldType::Text),
        ],
    })
}

fn table(pairs: Vec<(TableKey, Value)>) -> Value {
    let mut t = Table::new();
    for (k, v) in pairs {
        t.set(k, v);
    }
    Value::Table(t)
}

fn skey(s: &str) -> TableKey {
    TableKey::Str(s.to_string())
}

#[test]
fn cenum() {
    let ty = cenum_type();
    let expected = vec![(0usize, "Foo"), (1, "Bar"), (2, "Baz"), (3, "UrMum")];
    for (var, name) in expected {
        let decoded = decode(&Value::Str(name.to_string()), &ty).unwrap();
        assert!(same(&decoded, &Data::Variant(var, vec![])));
        let encoded = encode(&Data::Variant(var, vec![]), &ty);
        assert_eq!(text(&encoded), text(&Value::Str(name.to_string())));
    }
}

#[test]
fn mixed_enum() {
    let ty = mixed_enum_type();
    let expected: Vec<(Data, Value)> = vec![
        (Data::Variant(0, vec![]), Value::Str("Foo".to_string())),
        (Data::Variant(1, vec![]), Value::Str("Bar".to_string())),
        (
            Data::Variant(2, vec![Data::Leaf(Value::Integer(52))]),
            table(vec![(skey("Baz"), table(vec![(skey("k"), Value::Integer(52))]))]),
        ),
        (
            Data::Variant(
                3,
                vec![Data::Leaf(Value::Str("cook".to_string())), Data::Leaf(number(2.718))],
            ),
            table(vec![(
                skey("Bacon"),
                table(vec![
                    (TableKey::Number(1), Value::Str("cook".to_string())),
                    (TableKey::Number(2), number(2.718)),
                ]),
            )]),
        ),
    ];
    for (var, value) in expected {
        assert!(same(&decode(&value, &ty).unwrap(), &var));
        let tolua = encode(&var, &ty);
        assert_eq!(text(&value), text(&tolua));
    }
}

#[test]
fn simple_struct() {
    let ty = simple_struct_type();
    let expected: Vec<(Data, Value)> = vec![(
        Data::Record(vec![
            Data::Leaf(Value::Integer(7)),
            Data::Leaf(Value::Integer(19)),
            Data::Leaf(Value::Str("cool-cat".to_string())),
        ]),
        table(vec![
            (skey("a"), Value::Integer(7)),
            (skey("b"), Value::Integer(19)),
            (skey("c"), Value::Str("cool-cat".to_string())),
        ]),
    )];
    for (val, value) in expected {
        assert!(same(&decode(&value, &ty).unwrap(), &val));
        let tolua = encode(&val, &ty);
        assert_eq!(text(&value), text(&tolua));
    }
}
