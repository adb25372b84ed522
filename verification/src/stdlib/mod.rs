//! The standard library of builtin functions.

use vstd::prelude::*;

pub mod collection;
pub mod data;
pub mod fs;
pub mod pattern;
pub mod sort;
pub mod string;
use vstd::string::StringExecFns;

use crate::code::{Builtin, Callable, CodeObject};
use crate::module::Module;
use crate::var::Variable;

verus! {

/// Name under which a builtin function is called.
pub open spec fn builtin_name(b: Builtin) -> Seq<char> {
    match b {
        Builtin::Absolute => "absolute"@,
        Builtin::Acos => "acos"@,
        Builtin::All => "all"@,
        Builtin::Any => "any"@,
        Builtin::Append => "append"@,
        Builtin::Argn => "argn"@,
        Builtin::Asin => "asin"@,
        Builtin::Atan => "atan"@,
        Builtin::Atan2 => "atan2"@,
        Builtin::Basename => "basename"@,
        Builtin::Call => "call"@,
        Builtin::Captures => "captures"@,
        Builtin::Ceil => "ceil"@,
        Builtin::Chr => "chr"@,
        Builtin::Clamp => "clamp"@,
        Builtin::Contains => "contains"@,
        Builtin::Count => "count"@,
        Builtin::Cos => "cos"@,
        Builtin::CreateFile => "create_file"@,
        Builtin::Decode => "decode"@,
        Builtin::DeepClone => "deep_clone"@,
        Builtin::Delete => "delete"@,
        Builtin::E => "e"@,
        Builtin::Encode => "encode"@,
        Builtin::Exists => "exists"@,
        Builtin::Filter => "filter"@,
        Builtin::Floor => "floor"@,
        Builtin::Format => "format"@,
        Builtin::Get => "get"@,
        Builtin::HasData => "has_data"@,
        Builtin::IndexOf => "index_of"@,
        Builtin::Input => "input"@,
        Builtin::IsDir => "is_dir"@,
        Builtin::IsMatch => "is_match"@,
        Builtin::Join => "join"@,
        Builtin::Len => "len"@,
        Builtin::ListDir => "list_dir"@,
        Builtin::Log => "log"@,
        Builtin::MapEach => "map"@,
        Builtin::Mkdir => "mkdir"@,
        Builtin::NewBuffer => "new_buffer"@,
        Builtin::NewRegex => "new_regex"@,
        Builtin::OpenFile => "open_file"@,
        Builtin::Ord => "ord"@,
        Builtin::Parent => "parent"@,
        Builtin::Pi => "pi"@,
        Builtin::PopVstack => "pop_vstack"@,
        Builtin::Print => "print"@,
        Builtin::PushVstack => "push_vstack"@,
        Builtin::ReadAll => "read_all"@,
        Builtin::ReadLine => "read_line"@,
        Builtin::Readn => "readn"@,
        Builtin::Rename => "rename"@,
        Builtin::Replace => "replace"@,
        Builtin::Rmdir => "rmdir"@,
        Builtin::Round => "round"@,
        Builtin::SetItem => "set"@,
        Builtin::Sin => "sin"@,
        Builtin::Sort => "sort"@,
        Builtin::Split => "split"@,
        Builtin::Sqrt => "sqrt"@,
        Builtin::Tan => "tan"@,
        Builtin::ToLower => "to_lower"@,
        Builtin::ToUpper => "to_upper"@,
        Builtin::Trim => "trim"@,
        Builtin::Unlink => "unlink"@,
        Builtin::WriteAll => "write_all"@,
        Builtin::Writes => "writes"@,
        Builtin::Exec => "exec"@,
        Builtin::GetBodyAsBuffer => "get_body_as_buffer"@,
        Builtin::GetBodyAsString => "get_body_as_string"@,
        Builtin::GetUrl => "get_url"@,
        Builtin::GetStatus => "get_status"@,
        Builtin::NewRequest => "new_request"@,
        Builtin::Serve => "serve"@,
        Builtin::SetBody => "set_body"@,
        Builtin::SetHeader => "set_header"@,
        Builtin::SetMethod => "set_method"@,
    }
}

impl Builtin {
    /// Name under which the function is called.
    pub fn name(&self) -> (r: &'static str)
        ensures
            r@ == builtin_name(*self),
    {
        match self {
            Builtin::Absolute => "absolute",
            Builtin::Acos => "acos",
            Builtin::All => "all",
            Builtin::Any => "any",
            Builtin::Append => "append",
            Builtin::Argn => "argn",
            Builtin::Asin => "asin",
            Builtin::Atan => "atan",
            Builtin::Atan2 => "atan2",
            Builtin::Basename => "basename",
            Builtin::Call => "call",
            Builtin::Captures => "captures",
            Builtin::Ceil => "ceil",
            Builtin::Chr => "chr",
            Builtin::Clamp => "clamp",
            Builtin::Contains => "contains",
            Builtin::Count => "count",
            Builtin::Cos => "cos",
            Builtin::CreateFile => "create_file",
            Builtin::Decode => "decode",
            Builtin::DeepClone => "deep_clone",
            Builtin::Delete => "delete",
            Builtin::E => "e",
            Builtin::Encode => "encode",
            Builtin::Exists => "exists",
            Builtin::Filter => "filter",
            Builtin::Floor => "floor",
            Builtin::Format => "format",
            Builtin::Get => "get",
            Builtin::HasData => "has_data",
            Builtin::IndexOf => "index_of",
            Builtin::Input => "input",
            Builtin::IsDir => "is_dir",
            Builtin::IsMatch => "is_match",
            Builtin::Join => "join",
            Builtin::Len => "len",
            Builtin::ListDir => "list_dir",
            Builtin::Log => "log",
            Builtin::MapEach => "map",
            Builtin::Mkdir => "mkdir",
            Builtin::NewBuffer => "new_buffer",
            Builtin::NewRegex => "new_regex",
            Builtin::OpenFile => "open_file",
            Builtin::Ord => "ord",
            Builtin::Parent => "parent",
            Builtin::Pi => "pi",
            Builtin::PopVstack => "pop_vstack",
            Builtin::Print => "print",
            Builtin::PushVstack => "push_vstack",
            Builtin::ReadAll => "read_all",
            Builtin::ReadLine => "read_line",
            Builtin::Readn => "readn",
            Builtin::Rename => "rename",
            Builtin::Replace => "replace",
            Builtin::Rmdir => "rmdir",
            Builtin::Round => "round",
            Builtin::SetItem => "set",
            Builtin::Sin => "sin",
            Builtin::Sort => "sort",
            Builtin::Split => "split",
            Builtin::Sqrt => "sqrt",
            Builtin::Tan => "tan",
            Builtin::ToLower => "to_lower",
            Builtin::ToUpper => "to_upper",
            Builtin::Trim => "trim",
            Builtin::Unlink => "unlink",
            Builtin::WriteAll => "write_all",
            Builtin::Writes => "writes",
            Builtin::Exec => "exec",
            Builtin::GetBodyAsBuffer => "get_body_as_buffer",
            Builtin::GetBodyAsString => "get_body_as_string",
            Builtin::GetUrl => "get_url",
            Builtin::GetStatus => "get_status",
            Builtin::NewRequest => "new_request",
            Builtin::Serve => "serve",
            Builtin::SetBody => "set_body",
            Builtin::SetHeader => "set_header",
            Builtin::SetMethod => "set_method",
        }
    }
}

/// The functions of the standard module, in the order they are added.
pub open spec fn std_builtins() -> Seq<Builtin> {
    seq![
        Builtin::Absolute,
        Builtin::Acos,
        Builtin::All,
        Builtin::Any,
        Builtin::Append,
        Builtin::Argn,
        Builtin::Asin,
        Builtin::Atan,
        Builtin::Atan2,
        Builtin::Basename,
        Builtin::Call,
        Builtin::Captures,
        Builtin::Ceil,
        Builtin::Chr,
        Builtin::Clamp,
        Builtin::Contains,
        Builtin::Count,
        Builtin::Cos,
        Builtin::CreateFile,
        Builtin::Decode,
        Builtin::DeepClone,
        Builtin::Delete,
        Builtin::E,
        Builtin::Encode,
        Builtin::Exists,
        Builtin::Filter,
        Builtin::Floor,
        Builtin::Format,
        Builtin::Get,
        Builtin::HasData,
        Builtin::IndexOf,
        Builtin::Input,
        Builtin::IsDir,
        Builtin::IsMatch,
        Builtin::Join,
        Builtin::Len,
        Builtin::ListDir,
        Builtin::Log,
        Builtin::MapEach,
        Builtin::Mkdir,
        Builtin::NewBuffer,
        Builtin::NewRegex,
        Builtin::OpenFile,
        Builtin::Ord,
        Builtin::Parent,
        Builtin::Pi,
        Builtin::PopVstack,
        Builtin::Print,
        Builtin::PushVstack,
        Builtin::ReadAll,
        Builtin::ReadLine,
        Builtin::Readn,
        Builtin::Rename,
        Builtin::Replace,
        Builtin::Rmdir,
        Builtin::Round,
        Builtin::SetItem,
        Builtin::Sin,
        Builtin::Sort,
        Builtin::Split,
        Builtin::Sqrt,
        Builtin::Tan,
        Builtin::ToLower,
        Builtin::ToUpper,
        Builtin::Trim,
        Builtin::Unlink,
        Builtin::WriteAll,
        Builtin::Writes,
        Builtin::Exec,
        Builtin::GetBodyAsBuffer,
        Builtin::GetBodyAsString,
        Builtin::GetUrl,
        Builtin::GetStatus,
        Builtin::NewRequest,
        Builtin::Serve,
        Builtin::SetBody,
        Builtin::SetHeader,
        Builtin::SetMethod
    ]
}

/// The functions of the standard module.
pub fn all_builtins() -> (r: Vec<Builtin>)
    ensures
        r@ == std_builtins(),
{
    let v: Vec<Builtin> = vec![
        Builtin::Absolute,
        Builtin::Acos,
        Builtin::All,
        Builtin::Any,
        Builtin::Append,
        Builtin::Argn,
        Builtin::Asin,
        Builtin::Atan,
        Builtin::Atan2,
        Builtin::Basename,
        Builtin::Call,
        Builtin::Captures,
        Builtin::Ceil,
        Builtin::Chr,
        Builtin::Clamp,
        Builtin::Contains,
        Builtin::Count,
        Builtin::Cos,
        Builtin::CreateFile,
        Builtin::Decode,
        Builtin::DeepClone,
        Builtin::Delete,
        Builtin::E,
        Builtin::Encode,
        Builtin::Exists,
        Builtin::Filter,
        Builtin::Floor,
        Builtin::Format,
        Builtin::Get,
        Builtin::HasData,
        Builtin::IndexOf,
        Builtin::Input,
        Builtin::IsDir,
        Builtin::IsMatch,
        Builtin::Join,
        Builtin::Len,
        Builtin::ListDir,
        Builtin::Log,
        Builtin::MapEach,
        Builtin::Mkdir,
        Builtin::NewBuffer,
        Builtin::NewRegex,
        Builtin::OpenFile,
        Builtin::Ord,
        Builtin::Parent,
        Builtin::Pi,
        Builtin::PopVstack,
        Builtin::Print,
        Builtin::PushVstack,
        Builtin::ReadAll,
        Builtin::ReadLine,
        Builtin::Readn,
        Builtin::Rename,
        Builtin::Replace,
        Builtin::Rmdir,
        Builtin::Round,
        Builtin::SetItem,
        Builtin::Sin,
        Builtin::Sort,
        Builtin::Split,
        Builtin::Sqrt,
        Builtin::Tan,
        Builtin::ToLower,
        Builtin::ToUpper,
        Builtin::Trim,
        Builtin::Unlink,
        Builtin::WriteAll,
        Builtin::Writes,
        Builtin::Exec,
        Builtin::GetBodyAsBuffer,
        Builtin::GetBodyAsString,
        Builtin::GetUrl,
        Builtin::GetStatus,
        Builtin::NewRequest,
        Builtin::Serve,
        Builtin::SetBody,
        Builtin::SetHeader,
        Builtin::SetMethod,
    ];
    assert(v@ =~= std_builtins());
    v
}

/// Create the module `std` holding every builtin function under its name.
pub fn create_std_module() -> (r: Module)
    ensures
        r.code_object.name@ == "std"@,
        r.code_object.loc is None,
        r.code_object.uses@.len() == 0,
        r.code_object.entries@.len() == 0,
        r.slots@.len() == std_builtins().len(),
        forall|i: int|
            0 <= i < std_builtins().len() ==> (#[trigger] r.slots@[i]).0@ == builtin_name(std_builtins()[i])
                && r.slots@[i].1 == Callable::Builtin(std_builtins()[i]),
{
    let mut module = Module::from(CodeObject::named(String::from_str("std")));
    let all = all_builtins();
    let mut slots: Vec<(Variable, Callable)> = Vec::new();
    let mut i: usize = 0;
    while i < all.len()
        invariant
            i <= all@.len(),
            all@ == std_builtins(),
            slots@.len() == i,
            forall|j: int|
                0 <= j < i ==> (#[trigger] slots@[j]).0@ == builtin_name(all@[j]) && slots@[j].1
                    == Callable::Builtin(all@[j]),
        decreases all@.len() - i,
    {
        let b = all[i];
        slots.push((Variable::from_str(b.name()), Callable::Builtin(b)));
        i += 1;
    }
    module.slots = crate::module::Slots::from(slots);
    module
}

} // verus!
