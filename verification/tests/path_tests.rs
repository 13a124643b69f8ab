use std::rc::Rc;

use valpath::bounds::{abs_index, skip_take, wrap};
use valpath::eval::SelfEval;
use valpath::path::{Part, Path};
use valpath::update::{Discard, Keep, SetTo};
use valpath::val::{Error, Opt, Value};

fn s(text: &str) -> Rc<Vec<char>> {
    Rc::new(text.chars().collect())
}

fn vstr(text: &str) -> Value {
    Value::Str(s(text))
}

fn arr(items: Vec<Value>) -> Value {
    Value::Arr(Rc::new(items))
}

fn obj(entries: Vec<(&str, Value)>) -> Value {
    Value::Obj(Rc::new(entries.into_iter().map(|(k, v)| (s(k), v)).collect()))
}

fn veq(a: &Value, b: &Value) -> bool {
    match (a, b) {
        (Value::Null, Value::Null) => true,
        (Value::Bool(x), Value::Bool(y)) => x == y,
        (Value::Int(x), Value::Int(y)) => x == y,
        (Value::Str(x), Value::Str(y)) => x == y,
        (Value::Arr(x), Value::Arr(y)) => {
            x.len() == y.len() && x.iter().zip(y.iter()).all(|(i, j)| veq(i, j))
        }
        (Value::Obj(x), Value::Obj(y)) => {
            x.len() == y.len()
                && x.iter()
                    .zip(y.iter())
                    .all(|(i, j)| i.0 == j.0 && veq(&i.1, &j.1))
        }
        _ => false,
    }
}

fn single(part: Part<Vec<Value>>, opt: Opt) -> Path<Vec<Value>> {
    Path(vec![(part, opt)])
}

#[test]
fn wrap_test() {
    let len = 4;
    assert_eq!(wrap(0, len), Some(0));
    assert_eq!(wrap(8, len), Some(8));
    assert_eq!(wrap(-1, len), Some(3));
    assert_eq!(wrap(-4, len), Some(0));
    assert_eq!(wrap(-8, len), None);
}

#[test]
fn abs_index_filters_against_len() {
    assert_eq!(abs_index(3, 4), Some(3));
    assert_eq!(abs_index(4, 4), None);
    assert_eq!(abs_index(-1, 4), Some(3));
    assert_eq!(abs_index(-5, 4), None);
}

#[test]
fn skip_take_clamps_reversed_ranges() {
    assert_eq!(skip_take(2, 5), (2, 3));
    assert_eq!(skip_take(5, 2), (5, 0));
    assert_eq!(skip_take(3, 3), (3, 0));
}

#[test]
fn empty_path_collect_returns_root() {
    let p: Path<Vec<Value>> = Path(Vec::new());
    let got = p.collect(Value::Int(7)).unwrap();
    assert_eq!(got.len(), 1);
    assert!(veq(&got[0], &Value::Int(7)));
}

#[test]
fn whole_range_iterates_array_in_order() {
    let p = single(Part::Range(None, None), Opt::Essential);
    let got = p
        .collect(arr(vec![Value::Int(1), Value::Int(2), Value::Int(3)]))
        .unwrap();
    assert_eq!(got.len(), 3);
    assert!(veq(&got[0], &Value::Int(1)));
    assert!(veq(&got[1], &Value::Int(2)));
    assert!(veq(&got[2], &Value::Int(3)));
}

#[test]
fn whole_range_iterates_mapping_values_in_insertion_order() {
    let p = single(Part::Range(None, None), Opt::Essential);
    let got = p
        .collect(obj(vec![("b", Value::Int(2)), ("a", Value::Int(1))]))
        .unwrap();
    assert_eq!(got.len(), 2);
    assert!(veq(&got[0], &Value::Int(2)));
    assert!(veq(&got[1], &Value::Int(1)));
}

#[test]
fn missing_key_reads_null_under_both_policies() {
    let target = obj(vec![("a", Value::Int(1))]);
    for opt in [Opt::Essential, Opt::Optional] {
        let p = single(Part::Index(vec![vstr("missing")]), opt);
        let got = p
            .collect(match &target {
                Value::Obj(o) => Value::Obj(Rc::clone(o)),
                _ => unreachable!(),
            })
            .unwrap();
        assert_eq!(got.len(), 1);
        assert!(veq(&got[0], &Value::Null));
    }
}

#[test]
fn array_read_out_of_range_yields_null() {
    let p = single(Part::Index(vec![Value::Int(5)]), Opt::Essential);
    let got = p.collect(arr(vec![Value::Int(1)])).unwrap();
    assert_eq!(got.len(), 1);
    assert!(veq(&got[0], &Value::Null));
}

#[test]
fn negative_index_reads_from_end() {
    let p = single(Part::Index(vec![Value::Int(-1)]), Opt::Essential);
    let got = p
        .collect(arr(vec![Value::Int(1), Value::Int(2), Value::Int(3)]))
        .unwrap();
    assert!(veq(&got[0], &Value::Int(3)));
}

#[test]
fn range_collect_slices_with_negative_bounds() {
    let p = single(
        Part::Range(Some(vec![Value::Int(1)]), Some(vec![Value::Int(-1)])),
        Opt::Essential,
    );
    let got = p
        .collect(arr(vec![
            Value::Int(1),
            Value::Int(2),
            Value::Int(3),
            Value::Int(4),
        ]))
        .unwrap();
    assert_eq!(got.len(), 1);
    assert!(veq(&got[0], &arr(vec![Value::Int(2), Value::Int(3)])));
}

#[test]
fn range_collect_on_string_slices_chars() {
    let p = single(
        Part::Range(Some(vec![Value::Int(1)]), Some(vec![Value::Int(3)])),
        Opt::Essential,
    );
    let got = p.collect(vstr("hello")).unwrap();
    assert!(veq(&got[0], &vstr("el")));
}

#[test]
fn indexing_scalar_is_type_error() {
    let p = single(Part::Index(vec![Value::Int(0)]), Opt::Essential);
    assert!(p.collect(Value::Int(3)).is_err());
}

#[test]
fn optional_drops_failing_branch() {
    let p = single(Part::Index(vec![Value::Int(0)]), Opt::Optional);
    let got = p.collect(Value::Int(3)).unwrap();
    assert_eq!(got.len(), 0);
}

#[test]
fn essential_out_of_range_update_fails_optional_is_noop() {
    let target = arr(vec![Value::Int(1), Value::Int(2), Value::Int(3)]);
    let p = single(Part::Index(vec![Value::Int(5)]), Opt::Essential);
    let mut got = p.update(
        match &target {
            Value::Arr(a) => Value::Arr(Rc::clone(a)),
            _ => unreachable!(),
        },
        &SetTo(Value::Int(0)),
    );
    assert_eq!(got.len(), 1);
    match got.remove(0) {
        Err(Error::IndexOutOfBounds(i)) => assert_eq!(i, 5),
        other => panic!("expected IndexOutOfBounds, got {:?}", other),
    }

    let p2 = single(Part::Index(vec![Value::Int(5)]), Opt::Optional);
    let mut got2 = p2.update(
        match &target {
            Value::Arr(a) => Value::Arr(Rc::clone(a)),
            _ => unreachable!(),
        },
        &SetTo(Value::Int(0)),
    );
    assert_eq!(got2.len(), 1);
    let out = got2.remove(0).unwrap();
    assert!(veq(&out, &target));
}

#[test]
fn update_replaces_array_element() {
    let p = single(Part::Index(vec![Value::Int(1)]), Opt::Essential);
    let mut got = p.update(
        arr(vec![Value::Int(1), Value::Int(2), Value::Int(3)]),
        &SetTo(Value::Int(9)),
    );
    let out = got.remove(0).unwrap();
    assert!(veq(
        &out,
        &arr(vec![Value::Int(1), Value::Int(9), Value::Int(3)])
    ));
}

#[test]
fn deleting_transformer_removes_mapping_key() {
    let p = single(Part::Index(vec![vstr("a")]), Opt::Essential);
    let mut got = p.update(
        obj(vec![("a", Value::Int(1)), ("b", Value::Int(2))]),
        &Discard,
    );
    let out = got.remove(0).unwrap();
    assert!(veq(&out, &obj(vec![("b", Value::Int(2))])));
}

#[test]
fn deleting_transformer_shifts_array_elements() {
    let p = single(Part::Index(vec![Value::Int(0)]), Opt::Essential);
    let mut got = p.update(
        arr(vec![Value::Int(1), Value::Int(2), Value::Int(3)]),
        &Discard,
    );
    let out = got.remove(0).unwrap();
    assert!(veq(&out, &arr(vec![Value::Int(2), Value::Int(3)])));
}

#[test]
fn deleting_transformer_splices_range_out() {
    let p = single(
        Part::Range(Some(vec![Value::Int(1)]), Some(vec![Value::Int(3)])),
        Opt::Essential,
    );
    let mut got = p.update(
        arr(vec![
            Value::Int(1),
            Value::Int(2),
            Value::Int(3),
            Value::Int(4),
        ]),
        &Discard,
    );
    let out = got.remove(0).unwrap();
    assert!(veq(&out, &arr(vec![Value::Int(1), Value::Int(4)])));
}

#[test]
fn update_inserts_at_missing_key() {
    let p = single(Part::Index(vec![vstr("new")]), Opt::Essential);
    let mut got = p.update(obj(vec![("a", Value::Int(1))]), &SetTo(Value::Int(7)));
    let out = got.remove(0).unwrap();
    assert!(veq(
        &out,
        &obj(vec![("a", Value::Int(1)), ("new", Value::Int(7))])
    ));
}

#[test]
fn identity_update_round_trips_existing_locations() {
    let target = obj(vec![(
        "a",
        arr(vec![Value::Int(1), Value::Int(2), Value::Int(3)]),
    )]);
    let p = Path(vec![
        (Part::Index(vec![vstr("a")]), Opt::Essential),
        (Part::Index(vec![Value::Int(1)]), Opt::Essential),
    ]);
    let mut got = p.update(
        match &target {
            Value::Obj(o) => Value::Obj(Rc::clone(o)),
            _ => unreachable!(),
        },
        &Keep,
    );
    assert_eq!(got.len(), 1);
    let out = got.remove(0).unwrap();
    assert!(veq(&out, &target));
}

#[test]
fn range_update_requires_sequence_result() {
    let p = single(
        Part::Range(Some(vec![Value::Int(0)]), Some(vec![Value::Int(2)])),
        Opt::Essential,
    );
    let mut got = p.update(
        arr(vec![Value::Int(1), Value::Int(2), Value::Int(3)]),
        &SetTo(Value::Int(9)),
    );
    match got.remove(0) {
        Err(Error::Type(_, _)) => {}
        other => panic!("expected a type error, got {:?}", other),
    }
}

#[test]
fn range_update_splices_replacement_sequence() {
    let p = single(
        Part::Range(Some(vec![Value::Int(0)]), Some(vec![Value::Int(2)])),
        Opt::Essential,
    );
    let mut got = p.update(
        arr(vec![Value::Int(1), Value::Int(2), Value::Int(3)]),
        &SetTo(arr(vec![Value::Int(9)])),
    );
    let out = got.remove(0).unwrap();
    assert!(veq(&out, &arr(vec![Value::Int(9), Value::Int(3)])));
}

#[test]
fn multi_index_step_fans_out_collect() {
    let p = single(
        Part::Index(vec![Value::Int(0), Value::Int(2)]),
        Opt::Essential,
    );
    let got = p
        .collect(arr(vec![Value::Int(10), Value::Int(20), Value::Int(30)]))
        .unwrap();
    assert_eq!(got.len(), 2);
    assert!(veq(&got[0], &Value::Int(10)));
    assert!(veq(&got[1], &Value::Int(30)));
}

#[test]
fn eval_resolves_raw_values_into_concrete_path() {
    let raw: Path<Value> = Path(vec![(Part::Index(Value::Int(1)), Opt::Essential)]);
    let concrete = raw.eval(&SelfEval).unwrap();
    let got = concrete
        .collect(arr(vec![Value::Int(4), Value::Int(5)]))
        .unwrap();
    assert!(veq(&got[0], &Value::Int(5)));
}

#[test]
fn whole_range_update_maps_every_element() {
    let p = single(Part::Range(None, None), Opt::Essential);
    let mut got = p.update(
        arr(vec![Value::Int(1), Value::Int(2)]),
        &SetTo(Value::Int(0)),
    );
    let out = got.remove(0).unwrap();
    assert!(veq(&out, &arr(vec![Value::Int(0), Value::Int(0)])));
}

#[test]
fn non_string_mapping_key_is_error_under_essential() {
    let p = single(Part::Index(vec![Value::Int(0)]), Opt::Essential);
    let got = p.collect(obj(vec![("a", Value::Int(1))]));
    assert!(got.is_err());
}
