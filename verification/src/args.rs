//! Parameters of native functions: how their values are taken from the
//! stack and how the function is called.

use vstd::prelude::*;
use vstd::string::StringExecFns;

verus! {

/// Type of a parameter as written in the function's signature.
pub enum ArgType {
    /// A reference; `elem` is the name of the referenced type where it is a
    /// plain path.
    Reference { elem: Option<String>, mutable: bool },
    /// A plain type name.
    Path(String),
    /// Any other type.
    Other,
}

/// A parameter as written in the function's signature.
pub enum ArgSpec {
    /// A typed parameter; `pattern` is the bound name and whether it is
    /// bound mutably, where the pattern is a plain name.
    Typed { pattern: Option<(String, bool)>, ty: ArgType },
    /// A `self` parameter.
    Receiver,
}

/// A parameter taken from the value stack.
pub struct FunctionArg {
    pub name: String,
    pub ty_name: String,
    pub is_ref: bool,
    pub is_mut: bool,
}

/// The parameters of a native function: the one that receives the machine,
/// and the others.
pub struct FunctionArgs {
    pub vm: Option<String>,
    pub simple: Vec<FunctionArg>,
}

/// Mathematical view of [FunctionArg].
pub struct ArgV {
    pub name: Seq<char>,
    pub ty_name: Seq<char>,
    pub is_ref: bool,
    pub is_mut: bool,
}

impl View for FunctionArg {
    type V = ArgV;

    open spec fn view(&self) -> ArgV {
        ArgV { name: self.name@, ty_name: self.ty_name@, is_ref: self.is_ref, is_mut: self.is_mut }
    }
}

/// Views of parameters.
pub open spec fn args_v(s: Seq<FunctionArg>) -> Seq<ArgV> {
    s.map_values(|a: FunctionArg| a@)
}

/// View of an optional name.
pub open spec fn name_v(o: Option<String>) -> Option<Seq<char>> {
    match o {
        Some(n) => Some(n@),
        None => None,
    }
}

/// Name of the type of the machine.
pub open spec fn vm_type_name() -> Seq<char> {
    "LV2Vm"@
}

/// Whether a type name is one that converts from a value directly.
pub open spec fn plain_type(t: Seq<char>) -> bool {
    t == "LV2Value"@ || t == "bool"@ || t == "i64"@ || t == "f64"@ || t == "String"@
}

/// Machine parameter and other parameters after reading `specs[i..]`, or
/// the error text of the first parameter that is not accepted.
pub open spec fn args_from(
    specs: Seq<ArgSpec>,
    i: int,
    vm: Option<Seq<char>>,
    simple: Seq<ArgV>,
) -> Result<(Option<Seq<char>>, Seq<ArgV>), Seq<char>>
    decreases specs.len() - i,
{
    if i < 0 || i >= specs.len() {
        Ok((vm, simple))
    } else {
        match specs[i] {
            ArgSpec::Receiver => Err("1 not allowed as argument"@),
            ArgSpec::Typed { pattern, ty } => match pattern {
                None => Err("pattern 2 not allowed"@),
                Some((name, is_mut)) => match ty {
                    ArgType::Reference { elem, mutable } => match elem {
                        Some(t) => if t@ == vm_type_name() {
                            if vm is Some {
                                Err("vm reference declared twice."@)
                            } else {
                                args_from(specs, i + 1, Some(name@), simple)
                            }
                        } else {
                            args_from(
                                specs,
                                i + 1,
                                vm,
                                simple.push(ArgV { name: name@, ty_name: t@, is_ref: true, is_mut: mutable }),
                            )
                        },
                        None => args_from(specs, i + 1, vm, simple),
                    },
                    ArgType::Path(t) => args_from(
                        specs,
                        i + 1,
                        vm,
                        simple.push(ArgV { name: name@, ty_name: t@, is_ref: false, is_mut }),
                    ),
                    ArgType::Other => Err("this type is not allowed in argument position"@),
                },
            },
        }
    }
}

/// How one parameter is taken from the stack.
pub enum PopStep {
    /// Downcast a host object to the named type.
    Downcast { name: String, ty_name: String, mutable: bool },
    /// Convert the value to the named type.
    Convert { name: String, ty_name: String, mutable: bool },
}

/// How the function is called.
pub enum CallPlan {
    /// The first parameter is a reference: a value that is a reference is
    /// followed first.
    DerefFirst { name: String, mutable: bool },
    /// All parameters are passed as they are.
    Direct,
}

impl FunctionArg {
    /// Whether the parameter's type is an object of the host rather than a
    /// value type.
    pub fn is_custom_ty(&self) -> (r: bool)
        ensures
            r == !plain_type(self.ty_name@),
    {
        let t = &self.ty_name;
        !(*t == String::from_str("LV2Value") || *t == String::from_str("bool") || *t == String::from_str("i64")
            || *t == String::from_str("f64") || *t == String::from_str("String"))
    }

    /// The parameter as written in a signature.
    pub fn describe(&self) -> (r: String)
        ensures
            r@ == (if self.is_ref && self.is_mut {
                self.name@ + ": &mut "@ + self.ty_name@
            } else if self.is_ref {
                self.name@ + ": &"@ + self.ty_name@
            } else if self.is_mut {
                "mut "@ + self.name@ + ": "@ + self.ty_name@
            } else {
                self.name@ + ": "@ + self.ty_name@
            }),
    {
        if self.is_mut && self.is_ref {
            let mut s = self.name.clone();
            s.append(": &mut ");
            s.append(self.ty_name.as_str());
            s
        } else if self.is_ref {
            let mut s = self.name.clone();
            s.append(": &");
            s.append(self.ty_name.as_str());
            s
        } else if self.is_mut {
            let mut s = String::from_str("mut ");
            s.append(self.name.as_str());
            s.append(": ");
            s.append(self.ty_name.as_str());
            s
        } else {
            let mut s = self.name.clone();
            s.append(": ");
            s.append(self.ty_name.as_str());
            s
        }
    }
}

impl FunctionArgs {
    /// Read the parameters of a signature: the reference to the machine
    /// becomes `vm`, others become simple parameters in order.
    pub fn from(inputs: Vec<ArgSpec>) -> (r: Result<FunctionArgs, String>)
        ensures
            match (r, args_from(inputs@, 0, None, Seq::empty())) {
                (Ok(a), Ok((vm, simple))) => name_v(a.vm) == vm && args_v(a.simple@) == simple,
                (Err(e), Err(m)) => e@ == m,
                _ => false,
            },
    {
        let mut vm: Option<String> = None;
        let mut simple: Vec<FunctionArg> = Vec::new();
        let mut i: usize = 0;
        assert(args_v(simple@) =~= Seq::<ArgV>::empty());
        while i < inputs.len()
            invariant
                i <= inputs@.len(),
                args_from(inputs@, 0, None, Seq::empty()) == args_from(
                    inputs@,
                    i as int,
                    name_v(vm),
                    args_v(simple@),
                ),
            decreases inputs@.len() - i,
        {
            let ghost sv = args_v(simple@);
            match &inputs[i] {
                ArgSpec::Receiver => {
                    return Err(String::from_str("1 not allowed as argument"));
                },
                ArgSpec::Typed { pattern, ty } => match pattern {
                    None => {
                        return Err(String::from_str("pattern 2 not allowed"));
                    },
                    Some((name, is_mut)) => match ty {
                        ArgType::Reference { elem, mutable } => match elem {
                            Some(t) => {
                                if *t == String::from_str("LV2Vm") {
                                    if vm.is_some() {
                                        return Err(String::from_str("vm reference declared twice."));
                                    }
                                    vm = Some(name.clone());
                                } else {
                                    simple.push(
                                        FunctionArg { name: name.clone(), ty_name: t.clone(), is_ref: true, is_mut: *mutable },
                                    );
                                    assert(args_v(simple@) =~= sv.push(
                                        ArgV { name: name@, ty_name: t@, is_ref: true, is_mut: *mutable },
                                    ));
                                }
                            },
                            None => {},
                        },
                        ArgType::Path(t) => {
                            simple.push(FunctionArg { name: name.clone(), ty_name: t.clone(), is_ref: false, is_mut: *is_mut });
                            assert(args_v(simple@) =~= sv.push(
                                ArgV { name: name@, ty_name: t@, is_ref: false, is_mut: *is_mut },
                            ));
                        },
                        ArgType::Other => {
                            return Err(String::from_str("this type is not allowed in argument position"));
                        },
                    },
                },
            }
            i += 1;
        }
        Ok(FunctionArgs { vm, simple })
    }

    /// How the parameters are taken from the stack: the last parameter
    /// first, as it is on top; host objects are downcast, other values
    /// converted.
    pub fn generate(&self) -> (r: Vec<PopStep>)
        ensures
            r@.len() == self.simple@.len(),
            forall|k: int|
                0 <= k < r@.len() ==> {
                    let a = self.simple@[self.simple@.len() - 1 - k]@;
                    match #[trigger] r@[k] {
                        PopStep::Downcast { name, ty_name, mutable } => !plain_type(a.ty_name) && name@ == a.name
                            && ty_name@ == a.ty_name && mutable == a.is_mut,
                        PopStep::Convert { name, ty_name, mutable } => plain_type(a.ty_name) && name@ == a.name
                            && ty_name@ == a.ty_name && mutable == a.is_mut,
                    }
                },
    {
        let mut steps: Vec<PopStep> = Vec::new();
        let n = self.simple.len();
        let mut k: usize = 0;
        while k < n
            invariant
                n == self.simple@.len(),
                k <= n,
                steps@.len() == k,
                forall|j: int|
                    0 <= j < k ==> {
                        let a = self.simple@[n - 1 - j]@;
                        match #[trigger] steps@[j] {
                            PopStep::Downcast { name, ty_name, mutable } => !plain_type(a.ty_name) && name@
                                == a.name && ty_name@ == a.ty_name && mutable == a.is_mut,
                            PopStep::Convert { name, ty_name, mutable } => plain_type(a.ty_name) && name@ == a.name
                                && ty_name@ == a.ty_name && mutable == a.is_mut,
                        }
                    },
            decreases n - k,
        {
            let arg = &self.simple[n - 1 - k];
            let step = if arg.is_custom_ty() {
                PopStep::Downcast { name: arg.name.clone(), ty_name: arg.ty_name.clone(), mutable: arg.is_mut }
            } else {
                PopStep::Convert { name: arg.name.clone(), ty_name: arg.ty_name.clone(), mutable: arg.is_mut }
            };
            steps.push(step);
            k += 1;
        }
        steps
    }

    /// How the function is called: where the first parameter is a reference
    /// to a value type, a value that is a reference is followed first.
    pub fn generate_call(&self) -> (r: CallPlan)
        ensures
            match r {
                CallPlan::DerefFirst { name, mutable } => self.simple@.len() > 0 && !(!plain_type(
                    self.simple@[0].ty_name@,
                )) && self.simple@[0].is_ref && name@ == self.simple@[0].name@ && mutable
                    == self.simple@[0].is_mut,
                CallPlan::Direct => self.simple@.len() == 0 || !plain_type(self.simple@[0].ty_name@)
                    || !self.simple@[0].is_ref,
            },
    {
        if self.simple.len() > 0 {
            let first = &self.simple[0];
            if !first.is_custom_ty() && first.is_ref {
                return CallPlan::DerefFirst { name: first.name.clone(), mutable: first.is_mut };
            }
        }
        CallPlan::Direct
    }
}

/// How an argument is written where the function is called.
#[derive(Clone, Copy, PartialEq, Eq, Structural)]
pub enum PassMode {
    /// The name alone.
    Plain,
    /// A shared borrow of the name.
    Ref,
    /// A mutable borrow of the name.
    RefMut,
}

/// How a parameter is written in call position: borrowed as its reference
/// type says, where references are passed as such, else by name.
pub open spec fn pass_mode(a: ArgV, pass_as_reference: bool) -> PassMode {
    if pass_as_reference && a.is_ref {
        if a.is_mut {
            PassMode::RefMut
        } else {
            PassMode::Ref
        }
    } else {
        PassMode::Plain
    }
}

impl FunctionArgs {
    /// How each simple parameter is written in call position, in order.
    pub fn call_position(&self, pass_as_reference: bool) -> (r: Vec<PassMode>)
        ensures
            r@.len() == self.simple@.len(),
            forall|k: int| 0 <= k < r@.len() ==> #[trigger] r@[k] == pass_mode(self.simple@[k]@, pass_as_reference),
    {
        let mut out: Vec<PassMode> = Vec::new();
        let mut k: usize = 0;
        while k < self.simple.len()
            invariant
                k <= self.simple@.len(),
                out@.len() == k,
                forall|j: int| 0 <= j < k ==> #[trigger] out@[j] == pass_mode(self.simple@[j]@, pass_as_reference),
            decreases self.simple@.len() - k,
        {
            let a = &self.simple[k];
            let m = if pass_as_reference && a.is_ref {
                if a.is_mut {
                    PassMode::RefMut
                } else {
                    PassMode::Ref
                }
            } else {
                PassMode::Plain
            };
            out.push(m);
            k += 1;
        }
        out
    }
}

} // verus!
