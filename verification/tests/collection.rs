use lovm2::stdlib::collection::{all, any, append, contains, count};
use lovm2::stdlib::sort::sort;
use lovm2::value::heap::Heap;
use lovm2::value::Value;

fn s(text: &str) -> Value {
    Value::Str(text.to_string())
}

/// The value a reference stands for, or the value itself.
fn resolved(heap: &Heap, v: &Value) -> Value {
    v.clone_inner(heap).ok().expect("dangling reference")
}

fn is_int(heap: &Heap, v: &Value, n: i64) -> bool {
    matches!(resolved(heap, v), Value::Int(x) if x == n)
}

fn is_str(heap: &Heap, v: &Value, t: &str) -> bool {
    matches!(resolved(heap, v), Value::Str(ref x) if x == t)
}

#[test]
fn native_set_predicates() {
    let mut heap = Heap::new();
    let a = heap.box_value(Value::List(vec![Value::Bool(true)]));
    let b = heap.box_value(Value::List(vec![Value::Bool(true), s("abc"), Value::Int(1)]));
    let c = heap.box_value(Value::List(vec![Value::Bool(true), s(""), Value::Int(1)]));
    let d = heap.box_value(Value::List(vec![]));
    let e = heap.box_value(Value::List(vec![Value::Bool(false), Value::Bool(true)]));
    let f = heap.box_value(Value::List(vec![Value::Bool(false)]));

    assert!(matches!(all(&heap, &a), Ok(true)));
    assert!(matches!(all(&heap, &b), Ok(true)));
    assert!(matches!(all(&heap, &c), Ok(false)));
    assert!(matches!(all(&heap, &d), Ok(true)));
    assert!(matches!(all(&heap, &e), Ok(false)));
    assert!(matches!(all(&heap, &f), Ok(false)));

    assert!(matches!(any(&heap, &a), Ok(true)));
    assert!(matches!(any(&heap, &b), Ok(true)));
    assert!(matches!(any(&heap, &c), Ok(true)));
    assert!(matches!(any(&heap, &d), Ok(false)));
    assert!(matches!(any(&heap, &e), Ok(true)));
    assert!(matches!(any(&heap, &f), Ok(false)));
}

#[test]
fn native_contains() {
    let mut heap = Heap::new();
    let n = Value::Int(10);
    let st = s("abc10d");
    let mut d = Value::dict();
    d.set(&mut heap, &Value::Int(10), Value::Int(1)).ok().unwrap();
    d.set(&mut heap, &s("b"), Value::Int(2)).ok().unwrap();
    let ls = heap.box_value(Value::List(vec![s("a"), Value::Bool(true), Value::Int(10)]));

    assert!(matches!(contains(&heap, &st, &n), Ok(Some(true))));
    assert!(matches!(contains(&heap, &d, &n), Ok(Some(true))));
    assert!(matches!(contains(&heap, &ls, &n), Ok(Some(true))));
    assert!(matches!(contains(&heap, &d, &st), Ok(Some(false))));
}

#[test]
fn native_delete() {
    let mut heap = Heap::new();
    let mut ls = heap.box_value(Value::List(vec![Value::Int(1), Value::Int(2)]));

    assert!(matches!(ls.len(&heap), Ok(2)));
    assert!(ls.delete(&mut heap, &Value::Int(1)).is_ok());
    assert!(matches!(ls.len(&heap), Ok(1)));
    assert!(ls.get(&heap, &Value::Int(0)).is_ok());
    assert!(ls.get(&heap, &Value::Int(1)).is_err());
}

#[test]
fn native_get() {
    let mut heap = Heap::new();
    let st = s("abcd");
    let ls = heap.box_value(Value::List(vec![Value::Int(1)]));
    let mut d = Value::dict();
    d.set(&mut heap, &Value::Int(1), Value::Int(2)).ok().unwrap();
    let d = heap.box_value(d);

    assert!(is_str(&heap, &st.get(&heap, &Value::Int(2)).ok().unwrap(), "c"));
    assert!(is_int(&heap, &ls.get(&heap, &Value::Int(0)).ok().unwrap(), 1));
    assert!(is_int(&heap, &d.get(&heap, &Value::Int(1)).ok().unwrap(), 2));
}

#[test]
fn native_set() {
    let mut heap = Heap::new();
    let mut ls = heap.box_value(Value::List(vec![Value::Int(1)]));
    let mut d = Value::dict();
    d.set(&mut heap, &Value::Int(1), Value::Int(2)).ok().unwrap();
    let mut d = heap.box_value(d);

    assert!(is_int(&heap, &ls.get(&heap, &Value::Int(0)).ok().unwrap(), 1));
    assert!(ls.set(&mut heap, &Value::Int(0), Value::Int(2)).is_ok());
    assert!(is_int(&heap, &ls.get(&heap, &Value::Int(0)).ok().unwrap(), 2));
    assert!(matches!(ls.len(&heap), Ok(1)));

    assert!(d.get(&heap, &s("ab")).is_err());
    assert!(d.set(&mut heap, &s("ab"), Value::Int(3)).is_ok());
    assert!(is_int(&heap, &d.get(&heap, &s("ab")).ok().unwrap(), 3));
}

#[test]
fn native_append() {
    let mut heap = Heap::new();
    let ls = heap.box_value(Value::List(vec![]));
    assert!(matches!(ls.len(&heap), Ok(0)));
    assert!(append(&mut heap, &ls, Value::Int(2)).is_ok());
    assert!(matches!(ls.len(&heap), Ok(1)));
    assert!(is_int(&heap, &ls.get(&heap, &Value::Int(0)).ok().unwrap(), 2));

    assert!(append(&mut heap, &Value::Int(1), Value::Int(2)).is_err());
}

#[test]
fn contains_on_plain_list_and_string_needle() {
    let heap = Heap::new();
    let ls = Value::List(vec![s("x"), Value::Int(3)]);
    assert!(matches!(contains(&heap, &ls, &Value::Int(3)), Ok(Some(true))));
    assert!(matches!(contains(&heap, &ls, &Value::Int(4)), Ok(Some(false))));
    assert!(matches!(contains(&heap, &s("hello"), &s("ell")), Ok(Some(true))));
    assert!(matches!(contains(&heap, &s("hello"), &s("lle")), Ok(Some(false))));
    assert!(contains(&heap, &Value::Int(1), &Value::Int(1)).is_err());
}

#[test]
fn all_any_on_non_list_fail() {
    let heap = Heap::new();
    assert!(all(&heap, &Value::Int(1)).is_err());
    assert!(any(&heap, &s("abc")).is_err());
}

#[test]
fn get_after_set_on_plain_dict() {
    let mut heap = Heap::new();
    let mut d = Value::dict();
    assert!(d.set(&mut heap, &s("k"), Value::Int(7)).is_ok());
    assert!(matches!(d, Value::Dict(_)));
    assert!(is_int(&heap, &d.get(&heap, &s("k")).ok().unwrap(), 7));
    assert!(d.get(&heap, &s("missing")).is_err());
    assert!(d.delete(&mut heap, &s("k")).is_ok());
    assert!(matches!(d.len(&heap), Ok(0)));
}

#[test]
fn list_append_then_get_by_index() {
    let mut heap = Heap::new();
    let mut ls = Value::list();
    assert!(ls.append(&mut heap, Value::Int(5)).is_ok());
    assert!(ls.append(&mut heap, Value::Int(6)).is_ok());
    let item = ls.get_by_index(&mut heap, 1).ok().unwrap();
    assert!(is_int(&heap, &item, 6));
    assert!(ls.get_by_index(&mut heap, 2).is_err());
}

#[test]
fn string_index_out_of_range_fails() {
    let heap = Heap::new();
    let st = s("ab");
    assert!(st.get(&heap, &Value::Int(5)).is_err());
    assert!(matches!(st.len(&heap), Ok(2)));
}

#[test]
fn native_deep_clone() {
    let mut heap = Heap::new();
    let ls = heap.box_value(Value::List(vec![Value::Int(1), Value::Int(2)]));
    let mut d = Value::dict();
    d.set(&mut heap, &Value::Int(1), Value::Int(2)).ok().unwrap();
    let d = heap.box_value(d);

    let mut dc = d.deep_clone(&mut heap).unwrap();
    assert!(dc.set(&mut heap, &Value::Int(1), Value::Int(3)).is_ok());
    assert!(is_int(&heap, &d.get(&heap, &Value::Int(1)).ok().unwrap(), 2));
    assert!(is_int(&heap, &dc.get(&heap, &Value::Int(1)).ok().unwrap(), 3));

    let mut lsc = d.deep_clone(&mut heap).unwrap();
    assert!(lsc.delete(&mut heap, &Value::Int(0)).is_ok());
    assert!(matches!(ls.len(&heap), Ok(2)));

    let mut lc = ls.deep_clone(&mut heap).unwrap();
    assert!(lc.delete(&mut heap, &Value::Int(0)).is_ok());
    assert!(matches!(lc.len(&heap), Ok(1)));
    assert!(matches!(ls.len(&heap), Ok(2)));
}

#[test]
fn native_sort() {

    let mut heap = Heap::new();
    let d = heap.box_value(Value::Dict(vec![(s("b"), Value::Int(1)), (s("a"), Value::Int(1))]));
    let ls = heap.box_value(Value::List(vec![Value::Int(3), Value::Int(1), Value::Int(2)]));

    let sorted = sort(&mut heap, &s("bcda")).ok().unwrap().unwrap();
    assert!(is_str(&heap, &sorted, "abcd"));

    let plain = ls.clone_inner(&heap).ok().unwrap();
    let sorted = sort(&mut heap, &plain).ok().unwrap().unwrap();
    let items: Vec<Value> = (0..3).map(|i| sorted.get(&heap, &Value::Int(i)).ok().unwrap()).collect();
    assert!(is_int(&heap, &items[0], 1));
    assert!(is_int(&heap, &items[1], 2));
    assert!(is_int(&heap, &items[2], 3));
    // the input is left as it was
    assert!(is_int(&heap, &ls.get(&heap, &Value::Int(0)).ok().unwrap(), 3));

    let plain = d.clone_inner(&heap).ok().unwrap();
    let sorted = sort(&mut heap, &plain).ok().unwrap().unwrap();
    match resolved(&heap, &sorted) {
        Value::Dict(entries) => {
            assert_eq!(2, entries.len());
            assert!(is_str(&heap, &entries[0].0, "a"));
            assert!(is_str(&heap, &entries[1].0, "b"));
        }
        _ => panic!("no dictionary"),
    }

    assert!(sort(&mut heap, &Value::Int(1)).is_err());
}

#[test]
fn sort_with_floats_is_left_to_the_host() {

    let mut heap = Heap::new();
    let ls = Value::List(vec![Value::Int(3), Value::Float(1.5f64.to_bits())]);
    assert!(matches!(sort(&mut heap, &ls), Ok(None)));
}

#[test]
fn native_count() {
    let mut heap = Heap::new();
    let n = Value::Int(10);
    let st = s("abc10d");
    let mut d = Value::dict();
    d.set(&mut heap, &Value::Int(10), Value::Int(1)).ok().unwrap();
    d.set(&mut heap, &s("b"), Value::Int(2)).ok().unwrap();
    let ls = heap.box_value(Value::List(vec![s("a"), Value::Bool(true), Value::Int(10)]));

    assert!(matches!(count(&heap, &st), Ok(6)));
    assert!(matches!(count(&heap, &d), Ok(2)));
    assert!(matches!(count(&heap, &ls), Ok(3)));
    assert!(count(&heap, &n).is_err());
}

#[test]
fn deep_clone_of_dict_is_independent() {
    let mut heap = Heap::new();
    let inner = heap.box_value(Value::List(vec![Value::Int(1)]));
    let d = heap.box_value(Value::Dict(vec![(s("k"), inner)]));
    let copy = d.deep_clone(&mut heap).unwrap();
    let copied_inner = copy.get(&heap, &s("k")).ok().unwrap();
    let mut target = copied_inner.duplicate();
    assert!(target.append(&mut heap, Value::Int(2)).is_ok());
    let first_inner = d.get(&heap, &s("k")).ok().unwrap();
    assert!(matches!(first_inner.len(&heap), Ok(1)));
    assert!(matches!(copied_inner.len(&heap), Ok(2)));
}

#[test]
fn deep_clone_reads_as_the_same_value() {
    let mut heap = Heap::new();
    let inner = heap.box_value(Value::List(vec![Value::Int(1), s("x")]));
    let d = heap.box_value(Value::Dict(vec![(s("k"), inner), (Value::Int(2), Value::Bool(true))]));
    let copy = d.deep_clone(&mut heap).unwrap();
    assert!(matches!(copy.equals(&heap, &d, 100), Some(true)));
    assert!(matches!(d.equals(&heap, &copy, 100), Some(true)));
    assert!(matches!(copy.len(&heap), Ok(2)));
    let copied_inner = copy.get(&heap, &s("k")).ok().unwrap();
    assert!(is_str(&heap, &copied_inner.get(&heap, &Value::Int(1)).ok().unwrap(), "x"));
}

#[test]
fn sorted_strings_come_out_in_order() {
    let mut heap = Heap::new();
    let ls = Value::List(vec![s("pear"), s("apple"), s("pea"), s("b")]);
    let sorted = sort(&mut heap, &ls).ok().unwrap().unwrap();
    let items: Vec<Value> = (0..4).map(|i| sorted.get(&heap, &Value::Int(i)).ok().unwrap()).collect();
    assert!(is_str(&heap, &items[0], "apple"));
    assert!(is_str(&heap, &items[1], "b"));
    assert!(is_str(&heap, &items[2], "pea"));
    assert!(is_str(&heap, &items[3], "pear"));

    let d = Value::Dict(vec![(s("zeta"), Value::Int(1)), (s("alpha"), Value::Int(2)), (s("mid"), Value::Int(3))]);
    let sorted = sort(&mut heap, &d).ok().unwrap().unwrap();
    match resolved(&heap, &sorted) {
        Value::Dict(entries) => {
            assert_eq!(3, entries.len());
            assert!(is_str(&heap, &entries[0].0, "alpha"));
            assert!(is_str(&heap, &entries[1].0, "mid"));
            assert!(is_str(&heap, &entries[2].0, "zeta"));
        }
        _ => panic!("no dictionary"),
    }
}
