use unroll::transform::map_number;
use unroll::value::{Number, Value};

fn add_one(n: Number) -> Number {
    let x = match n {
        Number::PosInt(u) => u as f64,
        Number::NegInt(i) => i as f64,
        Number::Float(bits) => f64::from_bits(bits),
    };
    Number::Float((x + 1.0).to_bits())
}

fn inc(val: Option<Value>) -> Option<Value> {
    map_number(val, add_one)
}

#[test]
fn inc_adds_one_to_a_number() {
    assert_eq!(
        inc(Some(Value::Number(Number::PosInt(1)))),
        Some(Value::Number(Number::Float(2.0f64.to_bits())))
    );
    assert_eq!(
        inc(Some(Value::Number(Number::NegInt(-3)))),
        Some(Value::Number(Number::Float((-2.0f64).to_bits())))
    );
    assert_eq!(
        inc(Some(Value::Number(Number::Float(0.5f64.to_bits())))),
        Some(Value::Number(Number::Float(1.5f64.to_bits())))
    );
}

#[test]
fn inc_leaves_an_absent_value_absent() {
    assert_eq!(inc(None), None);
}

#[test]
fn inc_hands_back_what_is_no_number() {
    assert_eq!(inc(Some(Value::Null)), Some(Value::Null));
    assert_eq!(inc(Some(Value::Bool(true))), Some(Value::Bool(true)));
    assert_eq!(
        inc(Some(Value::String("1".to_string()))),
        Some(Value::String("1".to_string()))
    );
    let list = Value::Array(vec![Value::Number(Number::PosInt(1))]);
    assert_eq!(inc(Some(list.clone())), Some(list));
    let object = Value::Object(vec![("n".to_string(), Value::Number(Number::PosInt(1)))]);
    assert_eq!(inc(Some(object.clone())), Some(object));
}
