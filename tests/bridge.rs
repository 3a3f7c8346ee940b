use flua::bridge::{fits_interpreter, from_interchange, to_interchange, ConversionError, Interchange, NativeValue};

fn s(t: &str) -> String {
    t.to_string()
}

fn same_native(a: &NativeValue, b: &NativeValue) -> bool {
    match (a, b) {
        (NativeValue::Nil, NativeValue::Nil) => true,
        (NativeValue::Boolean(x), NativeValue::Boolean(y)) => x == y,
        (NativeValue::Integer(x), NativeValue::Integer(y)) => x == y,
        (NativeValue::Number(x), NativeValue::Number(y)) => x == y,
        (NativeValue::Str(x), NativeValue::Str(y)) => x == y,
        (NativeValue::Table(x), NativeValue::Table(y)) => {
            x.len() == y.len()
                && x.iter().zip(y.iter()).all(|(p, q)| same_native(&p.0, &q.0) && same_native(&p.1, &q.1))
        }
        _ => false,
    }
}

fn same_inter(a: &Interchange, b: &Interchange) -> bool {
    match (a, b) {
        (Interchange::Null, Interchange::Null) => true,
        (Interchange::Bool(x), Interchange::Bool(y)) => x == y,
        (Interchange::Int(x), Interchange::Int(y)) => x == y,
        (Interchange::Float(x), Interchange::Float(y)) => x == y,
        (Interchange::Text(x), Interchange::Text(y)) => x == y,
        (Interchange::List(x), Interchange::List(y)) => {
            x.len() == y.len() && x.iter().zip(y.iter()).all(|(p, q)| same_inter(p, q))
        }
        (Interchange::Object(x), Interchange::Object(y)) => {
            x.len() == y.len() && x.iter().zip(y.iter()).all(|(p, q)| p.0 == q.0 && same_inter(&p.1, &q.1))
        }
        _ => false,
    }
}

fn round_trips(x: NativeValue) {
    let j = to_interchange(&x).expect("plain value converts");
    let back = from_interchange(&j);
    assert!(same_native(&back, &x));
}

#[test]
fn round_trip_scalars() {
    round_trips(NativeValue::Nil);
    round_trips(NativeValue::Boolean(true));
    round_trips(NativeValue::Boolean(false));
    round_trips(NativeValue::Integer(-42));
    round_trips(NativeValue::Number(2.5f64.to_bits()));
    round_trips(NativeValue::Str(s("hello")));
}

#[test]
fn round_trip_empty_list() {
    round_trips(NativeValue::Table(vec![]));
}

#[test]
fn round_trip_nested_list_of_maps() {
    let m1 = NativeValue::Table(vec![(NativeValue::Str(s("a")), NativeValue::Integer(1))]);
    let m2 = NativeValue::Table(vec![
        (NativeValue::Str(s("b")), NativeValue::Boolean(true)),
        (NativeValue::Str(s("c")), NativeValue::Str(s("x"))),
    ]);
    round_trips(NativeValue::Table(vec![
        (NativeValue::Integer(1), m1),
        (NativeValue::Integer(2), m2),
    ]));
}

#[test]
fn round_trip_string_keyed_map() {
    round_trips(NativeValue::Table(vec![
        (NativeValue::Str(s("name")), NativeValue::Str(s("Alice"))),
        (NativeValue::Str(s("age")), NativeValue::Integer(30)),
    ]));
}

#[test]
fn list_with_holes_and_out_of_order_keys() {
    let t = NativeValue::Table(vec![
        (NativeValue::Integer(3), NativeValue::Str(s("c"))),
        (NativeValue::Integer(1), NativeValue::Str(s("a"))),
    ]);
    let j = to_interchange(&t).unwrap();
    let want = Interchange::List(vec![
        Interchange::Text(s("a")),
        Interchange::Null,
        Interchange::Text(s("c")),
    ]);
    assert!(same_inter(&j, &want));
}

#[test]
fn conversion_errors() {
    let mixed = NativeValue::Table(vec![
        (NativeValue::Integer(1), NativeValue::Nil),
        (NativeValue::Str(s("k")), NativeValue::Nil),
    ]);
    assert_eq!(to_interchange(&mixed).err(), Some(ConversionError::NonStringKey));
    let zero_key = NativeValue::Table(vec![(NativeValue::Integer(0), NativeValue::Nil)]);
    assert_eq!(to_interchange(&zero_key).err(), Some(ConversionError::NonStringKey));
    let bool_key = NativeValue::Table(vec![(NativeValue::Boolean(true), NativeValue::Nil)]);
    assert_eq!(to_interchange(&bool_key).err(), Some(ConversionError::NonStringKey));
    assert_eq!(
        to_interchange(&NativeValue::Opaque(s("function"))).err(),
        Some(ConversionError::Unsupported)
    );
    assert_eq!(
        to_interchange(&NativeValue::Number(f64::NAN.to_bits())).err(),
        Some(ConversionError::NonFiniteNumber)
    );
    assert_eq!(
        to_interchange(&NativeValue::Number(f64::INFINITY.to_bits())).err(),
        Some(ConversionError::NonFiniteNumber)
    );
    let nested = NativeValue::Table(vec![(
        NativeValue::Integer(1),
        NativeValue::Opaque(s("userdata")),
    )]);
    assert_eq!(to_interchange(&nested).err(), Some(ConversionError::Unsupported));
}

#[test]
fn from_interchange_builds_one_based_tables() {
    let j = Interchange::List(vec![Interchange::Int(7), Interchange::Text(s("x"))]);
    let want = NativeValue::Table(vec![
        (NativeValue::Integer(1), NativeValue::Integer(7)),
        (NativeValue::Integer(2), NativeValue::Str(s("x"))),
    ]);
    assert!(same_native(&from_interchange(&j), &want));
    let o = Interchange::Object(vec![(s("k"), Interchange::Float(1.5f64.to_bits()))]);
    let want = NativeValue::Table(vec![(
        NativeValue::Str(s("k")),
        NativeValue::Number(1.5f64.to_bits()),
    )]);
    assert!(same_native(&from_interchange(&o), &want));
}

#[test]
fn ordinary_values_fit_the_interpreter() {
    let j = Interchange::Object(vec![(
        s("xs"),
        Interchange::List(vec![Interchange::Int(1), Interchange::List(vec![])]),
    )]);
    assert!(fits_interpreter(&j));
    assert!(fits_interpreter(&Interchange::Null));
}
