use lovm2::code::{Callable, CodeObject, Instruction};
use lovm2::module::builder::{CompileOptions, ModuleBuilder};
use lovm2::value::Value;
use lovm2::var::Variable;
use lovm2::vm::context::Context;
use lovm2::vm::exec::Step;
use lovm2::vm::machine::{default_import_hook, Vm};

fn is_int(v: &Value, n: i64) -> bool {
    matches!(v, Value::Int(x) if *x == n)
}

/// Runs the code from `start` until the outermost function returns; local
/// calls get a frame of their own.
fn run(ctx: &mut Context, co: &CodeObject, start: usize) {
    let mut ip = start;
    let mut returns: Vec<usize> = Vec::new();
    for _ in 0..10_000 {
        match ctx.step(co, ip).ok().expect("step failed") {
            Step::Next => ip += 1,
            Step::Jump(t) => ip = t,
            Step::Return => match returns.pop() {
                Some(back) => {
                    ctx.pop_frame();
                    ip = back;
                }
                None => return,
            },
            Step::LocalCall { argn, offset } => {
                ctx.push_frame(argn);
                returns.push(ip + 1);
                ip = offset;
            }
            _ => panic!("step needs the host"),
        }
    }
    panic!("program did not finish");
}

fn call_main(vm: &mut Vm) -> Value {
    let callable = vm.prepare_call("main", &[]).ok().expect("main missing");
    match callable {
        Callable::Function { code, offset } => run(&mut vm.ctx, &code, offset),
        _ => panic!("main is no bytecode function"),
    }
    vm.finish_call().ok().expect("no result")
}

fn global_int(vm: &Vm, name: &str) -> i64 {
    match vm.ctx.value_of(name) {
        Ok(Value::Int(n)) => *n,
        _ => panic!("global is no integer"),
    }
}

#[test]
fn build_and_run_arithmetic() {
    let mut builder = ModuleBuilder::new();
    builder.consts.push(Value::Int(2));
    builder.consts.push(Value::Int(3));
    builder.idents.push(Variable::from_str("x"));
    let hir = builder.add(Variable::from_str("main"));
    hir.push(Instruction::CPush(0));
    hir.push(Instruction::CPush(1));
    hir.push(Instruction::Add);
    hir.push(Instruction::GMove(0));
    hir.push(Instruction::CPush(0));
    hir.push(Instruction::Ret);
    let module = builder.build().ok().expect("build failed");

    let mut vm = Vm::with_home("/home/user");
    assert!(vm.add_main_module(module).is_ok());
    let result = call_main(&mut vm);
    assert!(is_int(&result, 2));
    assert_eq!(5, global_int(&vm, "x"));
}

#[test]
fn loop_counts_down() {
    // x = 0; i = 4; while i > 0 { x = x + i; i = i - 1 }
    let mut builder = ModuleBuilder::new();
    builder.consts.push(Value::Int(0));
    builder.consts.push(Value::Int(4));
    builder.consts.push(Value::Int(1));
    builder.idents.push(Variable::from_str("x"));
    builder.idents.push(Variable::from_str("i"));
    let hir = builder.add(Variable::from_str("main"));
    hir.push(Instruction::CPush(0)); // 0
    hir.push(Instruction::GMove(0)); // 1
    hir.push(Instruction::CPush(1)); // 2
    hir.push(Instruction::GMove(1)); // 3
    hir.push(Instruction::GPush(1)); // 4: loop head
    hir.push(Instruction::CPush(0)); // 5
    hir.push(Instruction::Gt); // 6
    hir.push(Instruction::Jf(17)); // 7
    hir.push(Instruction::GPush(0)); // 8
    hir.push(Instruction::GPush(1)); // 9
    hir.push(Instruction::Add); // 10
    hir.push(Instruction::GMove(0)); // 11
    hir.push(Instruction::GPush(1)); // 12
    hir.push(Instruction::CPush(2)); // 13
    hir.push(Instruction::Sub); // 14
    hir.push(Instruction::GMove(1)); // 15
    hir.push(Instruction::Jmp(4)); // 16
    hir.push(Instruction::GPush(0)); // 17
    hir.push(Instruction::Ret); // 18
    let module = builder.build().ok().expect("build failed");

    let mut vm = Vm::with_home("/home/user");
    assert!(vm.add_main_module(module).is_ok());
    let result = call_main(&mut vm);
    assert!(is_int(&result, 10));
    assert_eq!(0, global_int(&vm, "i"));
}

#[test]
fn local_call_with_argument() {
    let mut builder = ModuleBuilder::new();
    builder.consts.push(Value::Int(20));
    builder.consts.push(Value::Int(1));
    builder.idents.push(Variable::from_str("inc"));
    builder.idents.push(Variable::from_str("n"));
    let inc = builder.add_with_args(Variable::from_str("inc"), vec![Variable::from_str("n")]);
    inc.push(Instruction::LPush(1));
    inc.push(Instruction::CPush(1));
    inc.push(Instruction::Add);
    inc.push(Instruction::Ret);
    let main = builder.add(Variable::from_str("main"));
    main.push(Instruction::CPush(0));
    main.push(Instruction::LCall(1, 0));
    main.push(Instruction::Ret);
    let module = builder.build_with_options(CompileOptions { main_first: true }).ok().expect("build failed");
    // The main function is laid out first, at offset 0.
    assert!(matches!(module.code_object.code[0], Instruction::CPush(0)));

    let mut vm = Vm::with_home("/h");
    assert!(vm.add_main_module(module).is_ok());
    let result = call_main(&mut vm);
    assert!(is_int(&result, 21));
}

#[test]
fn parameters_are_moved_into_locals() {
    let mut builder = ModuleBuilder::new();
    let f = builder.add_with_args(
        Variable::from_str("f"),
        vec![Variable::from_str("a"), Variable::from_str("b")],
    );
    f.push(Instruction::Ret);
    let module = builder.build().ok().expect("build failed");
    let co = &module.code_object;
    // last parameter first: it is on top of the stack
    assert_eq!(3, co.code.len());
    match (co.code[0], co.code[1]) {
        (Instruction::LMove(i), Instruction::LMove(j)) => {
            assert_eq!("b", co.idents[i as usize].as_ref());
            assert_eq!("a", co.idents[j as usize].as_ref());
        }
        _ => panic!("parameters not moved"),
    }
    assert!(module.slot(&Variable::from_str("f")).is_some());
    assert!(module.slot(&Variable::from_str("g")).is_none());
}

#[test]
fn push_then_pop_gives_value_back() {
    let mut ctx = Context::new();
    ctx.push_value(Value::Int(42));
    assert!(is_int(&ctx.pop_value().ok().unwrap(), 42));
    assert!(ctx.pop_value().is_err());
}

#[test]
fn dup_then_drop_keeps_stack() {
    let mut ctx = Context::new();
    let mut co = CodeObject::new();
    co.code.push(Instruction::Dup);
    co.code.push(Instruction::Drop);
    ctx.push_frame(0);
    ctx.push_value(Value::Int(7));
    assert!(matches!(ctx.step(&co, 0), Ok(Step::Next)));
    assert_eq!(2, ctx.vstack.len());
    assert!(matches!(ctx.step(&co, 1), Ok(Step::Next)));
    assert_eq!(1, ctx.vstack.len());
    assert!(is_int(&ctx.vstack[0], 7));
}

#[test]
fn step_past_end_returns() {
    let mut ctx = Context::new();
    let co = CodeObject::new();
    assert!(matches!(ctx.step(&co, 0), Ok(Step::Return)));
}

#[test]
fn add_on_empty_stack_fails() {
    let mut ctx = Context::new();
    let mut co = CodeObject::new();
    co.code.push(Instruction::Add);
    ctx.push_frame(0);
    assert!(ctx.step(&co, 0).is_err());
}

#[test]
fn jumps_and_conditions() {
    let mut ctx = Context::new();
    let mut co = CodeObject::new();
    co.code.push(Instruction::Jmp(5));
    co.code.push(Instruction::Jt(9));
    ctx.push_frame(0);
    assert!(matches!(ctx.step(&co, 0), Ok(Step::Jump(5))));
    ctx.push_value(Value::Bool(true));
    assert!(matches!(ctx.step(&co, 1), Ok(Step::Jump(9))));
    ctx.push_value(Value::Bool(false));
    assert!(matches!(ctx.step(&co, 1), Ok(Step::Next)));
}

#[test]
fn globals_and_locals() {
    let mut ctx = Context::new();
    ctx.set_global("g", Value::Int(1));
    ctx.set_global("g", Value::Int(2));
    assert!(matches!(ctx.value_of("g"), Ok(Value::Int(2))));
    assert!(ctx.value_of("h").is_err());
    assert_eq!(1, ctx.globals.len());
}

#[test]
fn function_conflict_is_reported() {
    let mut vm = Vm::with_home("/h");
    assert_eq!(1, vm.load_paths.len());
    assert_eq!("/h/.local/lib/lovm2/", vm.load_paths[0]);
    let f = Callable::Extern(0);
    assert!(vm.add_function(Variable::from_str("f"), f).is_ok());
    assert!(vm.add_function(Variable::from_str("f"), Callable::Extern(1)).is_err());
    assert!(matches!(vm.ctx.lookup_code_object(&Variable::from_str("f")), Ok(Callable::Extern(1))));
    assert!(vm.ctx.lookup_code_object(&Variable::from_str("nope")).is_err());
}

#[test]
fn main_module_without_main_is_refused() {
    let mut builder = ModuleBuilder::new();
    let f = builder.add(Variable::from_str("f"));
    f.push(Instruction::Ret);
    let module = builder.build().ok().unwrap();
    let mut vm = Vm::with_home("/h");
    assert!(vm.add_main_module(module).is_err());
}

#[test]
fn call_of_unknown_function_fails() {
    let mut vm = Vm::with_home("/h");
    assert!(vm.prepare_call("missing", &[]).is_err());
}

#[test]
fn import_hook_names() {
    assert_eq!("b", default_import_hook(None, "b"));
    assert_eq!("m.b", default_import_hook(Some("m"), "b"));
}

#[test]
fn dependency_recorded_once() {
    let mut builder = ModuleBuilder::new();
    builder.add_dependency("io".to_string());
    builder.add_dependency("io".to_string());
    builder.add_dependency("net".to_string());
    assert_eq!(vec!["io".to_string(), "net".to_string()], builder.meta.uses);
}

#[test]
fn entry_twice_is_entry_once() {
    let mut builder = ModuleBuilder::new();
    builder.entry().push(Instruction::Ret);
    let again = builder.entry();
    assert_eq!(1, again.code.len());
    assert_eq!(1, builder.hirs.len());
}

#[test]
fn add_replaces_what_a_name_held() {
    let mut builder = ModuleBuilder::new();
    builder.add_with_args(Variable::from_str("f"), vec![Variable::from_str("a")]).push(Instruction::Ret);
    let f = builder.add(Variable::from_str("f"));
    assert!(f.args.is_empty() && f.code.is_empty());
    assert_eq!(1, builder.hirs.len());
}
