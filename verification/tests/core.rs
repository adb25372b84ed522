use lovm2::args::{ArgSpec, ArgType, CallPlan, FunctionArg, FunctionArgs, PassMode, PopStep};
use lovm2::stdlib::string::{chr, ord};
use lovm2::error::{Lovm2Error, Lovm2ErrorTy};
use lovm2::lir::{LirElement, Operator, Operator1, Operator2};
use lovm2::module::slots::Slots;
use lovm2::code::Callable;
use lovm2::opt::{NoOptimizer, Optimizer, StandardOptimizer};
use lovm2::text::{i64_to_string, parse_i64, usize_to_string};
use lovm2::util::to_lower_camel_case;
use lovm2::value::conv::ValueType;
use lovm2::value::heap::Heap;
use lovm2::value::iter::Iter;
use lovm2::value::op::{checked_int_pow, Arith, Order};
use lovm2::value::{Reference, Value};
use lovm2::var::Variable;

fn ints(vs: &[Value]) -> Vec<i64> {
    vs.iter()
        .map(|v| match v {
            Value::Int(n) => *n,
            _ => panic!("not an integer"),
        })
        .collect()
}

fn is_int(v: &Value, n: i64) -> bool {
    matches!(v, Value::Int(x) if *x == n)
}

#[test]
fn ranged_iterators_collect() {
    let mut heap = Heap::new();
    assert_eq!(vec![0, 1, 2], ints(&Iter::ranged(0, 3).collect(&mut heap)));
    assert_eq!(vec![3, 2, 1], ints(&Iter::ranged(3, 0).collect(&mut heap)));
    assert_eq!(vec![5, 4, 3, 2, 1], ints(&Iter::ranged(5, 0).collect(&mut heap)));
    assert_eq!(Vec::<i64>::new(), ints(&Iter::ranged(2, 2).collect(&mut heap)));
}

#[test]
fn reversed_twice_is_the_same() {
    let mut heap = Heap::new();
    let it = Iter::ranged(0, 4);
    let back = it.duplicate().reverse(&heap).reverse(&heap);
    assert_eq!(ints(&it.collect(&mut heap)), ints(&back.collect(&mut heap)));
    let once = Iter::ranged(0, 4).reverse(&heap);
    assert_eq!(vec![3, 2, 1, 0], ints(&once.collect(&mut heap)));
}

#[test]
fn iterator_over_list() {
    let mut heap = Heap::new();
    let mut it = Iter::over(Value::List(vec![Value::Int(4), Value::Int(5)]));
    assert!(it.has_next(&mut heap));
    assert!(is_int(&it.next(&mut heap).ok().unwrap(), 4));
    assert!(is_int(&it.next(&mut heap).ok().unwrap(), 5));
    assert!(!it.has_next(&mut heap));
    assert!(it.next(&mut heap).is_err());
}

#[test]
fn arithmetic() {
    assert!(is_int(&Value::arith(Arith::Add, Value::Int(2), Value::Int(3)).ok().unwrap(), 5));
    assert!(is_int(&Value::arith(Arith::Sub, Value::Int(2), Value::Int(3)).ok().unwrap(), -1));
    assert!(is_int(&Value::arith(Arith::Mul, Value::Int(4), Value::Int(3)).ok().unwrap(), 12));
    assert!(is_int(&Value::arith(Arith::Div, Value::Int(7), Value::Int(2)).ok().unwrap(), 3));
    assert!(is_int(&Value::arith(Arith::Rem, Value::Int(7), Value::Int(2)).ok().unwrap(), 1));
    assert!(is_int(&Value::arith(Arith::Shl, Value::Int(1), Value::Int(4)).ok().unwrap(), 16));
    let joined = Value::arith(Arith::Add, Value::Str("ab".into()), Value::Str("cd".into())).ok().unwrap();
    assert!(matches!(joined, Value::Str(ref s) if s == "abcd"));
    assert!(Value::arith(Arith::Sub, Value::Str("a".into()), Value::Int(1)).is_err());
}

#[test]
fn integer_power() {
    assert_eq!(Some(1024), checked_int_pow(2, 10));
    assert_eq!(Some(1), checked_int_pow(5, 0));
    assert_eq!(None, checked_int_pow(i64::MAX, 2));
    let heap = Heap::new();
    assert!(is_int(&Value::Int(3).pow(&heap, Value::Int(3)).ok().unwrap(), 27));
}

#[test]
fn comparison() {
    let heap = Heap::new();
    assert!(matches!(Value::Int(1).compare(&heap, &Value::Int(2)), Some(Order::Less)));
    assert!(matches!(Value::Str("b".into()).compare(&heap, &Value::Str("a".into())), Some(Order::Greater)));
    assert!(Value::Int(1).lt(&heap, &Value::Int(2)));
    assert!(Value::Int(2).ge(&heap, &Value::Int(2)));
    assert!(!Value::Int(2).gt(&heap, &Value::Int(2)));
}

#[test]
fn equality_follows_references() {
    let mut heap = Heap::new();
    let a = heap.box_value(Value::List(vec![Value::Int(1)]));
    let b = Value::List(vec![Value::Int(1)]);
    assert_eq!(Some(true), a.equals(&heap, &b, 100));
    assert_eq!(Some(false), a.equals(&heap, &Value::List(vec![]), 100));
}

#[test]
fn conversions() {
    let heap = Heap::new();
    assert!(matches!(Value::Str("42".into()).as_integer_inner(&heap), Ok(42)));
    assert!(Value::Str("4x".into()).as_integer_inner(&heap).is_err());
    assert!(matches!(Value::Int(0).as_bool_inner(&heap), Ok(false)));
    assert!(matches!(Value::Str("".into()).as_bool_inner(&heap), Ok(false)));
    assert!(matches!(Value::Int(3).type_id(&heap), Ok(ValueType::Int)));
}

#[test]
fn value_type_codes() {
    for n in 0..=6u16 {
        assert_eq!(n, ValueType::from_raw(n).ok().unwrap().raw());
    }
    let e = ValueType::from_raw(7).err().unwrap();
    assert_eq!("not a valid type", e.msg);
}

#[test]
fn numbers_as_text() {
    assert_eq!("-120", i64_to_string(-120));
    assert_eq!("0", usize_to_string(0));
    assert_eq!(Some(-17), parse_i64("-17"));
    assert_eq!(None, parse_i64("x1"));
    assert_eq!(None, parse_i64("99999999999999999999"));
}

#[test]
fn errors() {
    let e = Lovm2Error::with_msg(Lovm2ErrorTy::KeyNotFound, "k");
    assert!(e.is_key_not_found());
    assert!(!Lovm2Error::from_msg("x").is_key_not_found());
    assert!(!Lovm2Error::from_ty(Lovm2ErrorTy::Basic).describe().is_empty());
}

#[test]
fn lower_camel_case() {
    assert_eq!("helloWorld", to_lower_camel_case("hello_world"));
    assert_eq!("_private", to_lower_camel_case("_private"));
    assert_eq!("abc", to_lower_camel_case("ABC"));
}

#[test]
fn slots_insert_and_get() {
    let mut slots = Slots::new();
    slots.insert(Variable::from_str("a"), Callable::Extern(1));
    slots.insert(Variable::from_str("b"), Callable::Extern(2));
    slots.insert(Variable::from_str("a"), Callable::Extern(3));
    assert_eq!(2, slots.iter().len());
    assert!(matches!(slots.get(&Variable::from_str("a")), Some(Callable::Extern(3))));
    assert!(matches!(slots.get(&Variable::from_str("b")), Some(Callable::Extern(2))));
    assert!(slots.get(&Variable::from_str("c")).is_none());
}

fn konst(n: i64) -> LirElement {
    LirElement::PushConstant { value: Value::Int(n) }
}

/// Emits the elements one by one, as the compiler does, letting the
/// optimizer rewrite the end of the code after each.
fn emit_all(opt: &mut StandardOptimizer, elems: Vec<LirElement>) -> Vec<LirElement> {
    let mut code = Vec::new();
    for e in elems {
        code.push(e);
        opt.transform(&mut code);
    }
    code
}

#[test]
fn optimizer_folds_constants() {
    let mut opt = StandardOptimizer::new();
    let mut code = vec![konst(2), konst(3), LirElement::Operation(Operator::Operator2(Operator2::Add))];
    opt.transform(&mut code);
    assert_eq!(1, code.len());
    assert!(matches!(code[0], LirElement::PushConstant { value: Value::Int(5) }));

    let code = emit_all(&mut opt, vec![
        konst(2),
        konst(3),
        konst(4),
        LirElement::Operation(Operator::Operator2(Operator2::Mul)),
        LirElement::Operation(Operator::Operator2(Operator2::Add)),
    ]);
    assert_eq!(1, code.len());
    assert!(matches!(code[0], LirElement::PushConstant { value: Value::Int(14) }));

    let code = emit_all(&mut opt, vec![
        konst(1),
        konst(0),
        LirElement::Operation(Operator::Operator2(Operator2::Div)),
    ]);
    assert_eq!(3, code.len());
}

#[test]
fn optimizer_rewrites_jumps() {
    let mut opt = StandardOptimizer::new();
    let mut code = vec![
        LirElement::Operation(Operator::Operator1(Operator1::Not)),
        LirElement::Jump { condition: Some(true), label: 1 },
    ];
    opt.transform(&mut code);
    assert_eq!(1, code.len());
    assert!(matches!(code[0], LirElement::Jump { condition: Some(false), label: 1 }));

    let mut code = vec![
        LirElement::PushConstant { value: Value::Bool(true) },
        LirElement::Jump { condition: Some(true), label: 2 },
    ];
    opt.transform(&mut code);
    assert!(matches!(code[..], [LirElement::Jump { condition: None, label: 2 }]));

    let mut code = vec![
        LirElement::PushConstant { value: Value::Bool(false) },
        LirElement::Jump { condition: Some(true), label: 2 },
    ];
    opt.transform(&mut code);
    assert!(code.is_empty());
}

#[test]
fn optimizer_transform_twice_changes_nothing() {
    let mut opt = StandardOptimizer::new();
    let mut code = vec![konst(1), konst(1), LirElement::Operation(Operator::Operator2(Operator2::Equal))];
    opt.transform(&mut code);
    let n = code.len();
    opt.transform(&mut code);
    assert_eq!(n, code.len());
    assert!(matches!(code[0], LirElement::PushConstant { value: Value::Bool(true) }));
}

#[test]
fn optimizer_removes_dead_code() {
    let mut opt = StandardOptimizer::new();
    let mut code = vec![
        LirElement::Entry { name: Variable::from_str("main") },
        konst(1),
        LirElement::Jump { condition: None, label: 7 },
        konst(2),
        LirElement::Label(7),
        LirElement::Ret,
        konst(3),
    ];
    opt.postprocess(&mut code);
    assert_eq!(5, code.len());
    assert!(matches!(code[2], LirElement::Jump { condition: None, label: 7 }));
    assert!(matches!(code[3], LirElement::Label(7)));
    assert!(matches!(code[4], LirElement::Ret));
    assert_eq!(3, opt.scan_back_for(&LirElement::Operation(Operator::Operator2(Operator2::Sub))));
    assert_eq!(0, opt.scan_back_for(&LirElement::Ret));
}

#[test]
fn no_optimizer_keeps_code() {
    let mut opt = NoOptimizer;
    let mut code = vec![konst(2), konst(3), LirElement::Operation(Operator::Operator2(Operator2::Add))];
    opt.transform(&mut code);
    opt.postprocess(&mut code);
    assert_eq!(3, code.len());
}

fn typed(name: &str, mutable: bool, ty: ArgType) -> ArgSpec {
    ArgSpec::Typed { pattern: Some((name.to_string(), mutable)), ty }
}

#[test]
fn function_arguments() {
    let args = FunctionArgs::from(vec![
        typed("vm", false, ArgType::Reference { elem: Some("LV2Vm".to_string()), mutable: true }),
        typed("a", false, ArgType::Path("i64".to_string())),
        typed("b", true, ArgType::Reference { elem: Some("Buffer".to_string()), mutable: true }),
    ])
    .ok()
    .unwrap();
    assert_eq!(Some("vm".to_string()), args.vm);
    assert_eq!(2, args.simple.len());
    let steps = args.generate();
    assert!(matches!(&steps[0], PopStep::Downcast { name, ty_name, mutable: true } if name == "b" && ty_name == "Buffer"));
    assert!(matches!(&steps[1], PopStep::Convert { name, ty_name, mutable: false } if name == "a" && ty_name == "i64"));
    assert!(matches!(args.generate_call(), CallPlan::Direct));

    assert!(FunctionArgs::from(vec![ArgSpec::Receiver]).is_err());
    assert!(FunctionArgs::from(vec![typed("x", false, ArgType::Other)]).is_err());
    let twice = FunctionArgs::from(vec![
        typed("v1", false, ArgType::Reference { elem: Some("LV2Vm".to_string()), mutable: true }),
        typed("v2", false, ArgType::Reference { elem: Some("LV2Vm".to_string()), mutable: true }),
    ]);
    assert_eq!("vm reference declared twice.", twice.err().unwrap());
}

#[test]
fn reference_to_value_is_followed() {
    let args = FunctionArgs::from(vec![typed("v", false, ArgType::Reference {
        elem: Some("LV2Value".to_string()),
        mutable: true,
    })])
    .ok()
    .unwrap();
    assert!(matches!(args.generate_call(), CallPlan::DerefFirst { name, mutable: true } if name == "v"));
}

#[test]
fn argument_description() {
    let a = FunctionArg { name: "x".into(), ty_name: "i64".into(), is_ref: false, is_mut: true };
    assert_eq!("mut x: i64", a.describe());
    assert!(!a.is_custom_ty());
    let b = FunctionArg { name: "b".into(), ty_name: "Buffer".into(), is_ref: true, is_mut: true };
    assert_eq!("b: &mut Buffer", b.describe());
    assert!(b.is_custom_ty());
}

#[test]
fn reference_bound_to_a_value() {
    let mut heap = Heap::new();
    let r = heap.allocate(Value::Int(1));
    assert!(r.is_empty());
    assert!(!Reference(None).is_empty());
}

#[test]
fn arguments_in_call_position() {
    let args = FunctionArgs::from(vec![
        typed("v", false, ArgType::Reference { elem: Some("LV2Value".to_string()), mutable: true }),
        typed("s", false, ArgType::Reference { elem: Some("String".to_string()), mutable: false }),
        typed("n", false, ArgType::Path("i64".to_string())),
    ])
    .ok()
    .unwrap();
    let plain = args.call_position(false);
    assert!(plain.iter().all(|m| *m == PassMode::Plain));
    let by_ref = args.call_position(true);
    assert!(matches!(by_ref[..], [PassMode::RefMut, PassMode::Ref, PassMode::Plain]));
}

#[test]
fn chr_of_ord_gives_the_character_back() {
    for c in ["a", "é", "€", "😀"] {
        let n = ord(c).ok().unwrap();
        assert_eq!(c, chr(n).ok().unwrap());
    }
}

#[test]
fn slots_grow_only_for_new_names() {
    let mut slots = Slots::new();
    slots.insert(Variable::from_str("a"), Callable::Extern(1));
    assert_eq!(1, slots.iter().len());
    slots.insert(Variable::from_str("a"), Callable::Extern(2));
    assert_eq!(1, slots.iter().len());
    assert!(matches!(slots.get(&Variable::from_str("a")), Some(Callable::Extern(2))));
    slots.insert(Variable::from_str("b"), Callable::Extern(3));
    assert_eq!(2, slots.iter().len());
}

#[test]
fn optimizer_scan_follows_loops_and_branches() {
    let mut opt = StandardOptimizer::new();
    let mut code = vec![
        LirElement::Entry { name: Variable::from_str("main") },
        LirElement::Label(1),
        konst(1),
        LirElement::Jump { condition: Some(true), label: 2 },
        LirElement::Jump { condition: None, label: 1 },
        LirElement::Label(2),
        LirElement::Ret,
        konst(9),
    ];
    opt.postprocess(&mut code);
    assert_eq!(7, code.len());
    assert!(matches!(code[4], LirElement::Jump { condition: None, label: 1 }));
    assert!(matches!(code[5], LirElement::Label(2)));
    assert!(matches!(code[6], LirElement::Ret));
}
