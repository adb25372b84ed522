//! Bytecode, code objects and the callables of the virtual machine.

use std::rc::Rc;

use vstd::prelude::*;
use vstd::string::StringExecFns;

use crate::value::{view_values, Value, ValueV};
use crate::var::Variable;

verus! {

/// Name of the function that is a program's starting point.
pub const ENTRY_POINT: &'static str = "main";

/// Name given to modules that do not say otherwise.
pub const DEFAULT_MODULE_NAME: &'static str = "_unknown_";

/// One bytecode instruction. Operands that name an identifier, a constant or
/// a code offset index the tables of the [CodeObject] that holds the code.
#[derive(Clone, Copy, Debug, PartialEq, Eq, Structural)]
pub enum Instruction {
    /// Push the local variable named by an identifier.
    LPush(u16),
    /// Push the global variable named by an identifier.
    GPush(u16),
    /// Push a constant.
    CPush(u16),
    /// Pop into the local variable named by an identifier.
    LMove(u16),
    /// Pop into the global variable named by an identifier.
    GMove(u16),
    Drop,
    Dup,
    Get,
    RGet,
    /// Write the value on top into the cell the reference below it names.
    Store,
    Add,
    Sub,
    Mul,
    Div,
    Pow,
    Rem,
    Shl,
    Shr,
    And,
    Or,
    XOr,
    Not,
    Eq,
    Ne,
    Ge,
    Gt,
    Le,
    Lt,
    Jmp(u16),
    Jt(u16),
    Jf(u16),
    /// Call the function named by an identifier with the given number of
    /// arguments.
    Call(u8, u16),
    /// Call a function of the same code object, found by its identifier.
    LCall(u8, u16),
    Ret,
    Interrupt(u16),
    Cast(u16),
    Import,
    NImport,
    Box,
    Slice,
    IterCreate,
    IterCreateRanged,
    IterHasNext,
    IterNext,
    IterReverse,
}

/// Compiled code of a module with its tables.
pub struct CodeObject {
    pub name: String,
    pub loc: Option<String>,
    pub uses: Vec<String>,
    /// Functions defined in the code: identifier index and code offset.
    pub entries: Vec<(usize, usize)>,
    pub consts: Vec<Value>,
    pub idents: Vec<Variable>,
    pub code: Vec<Instruction>,
}

/// Whether every operand of the instruction names an existing table entry.
pub open spec fn operands_in_range(co: CodeObject, inx: Instruction) -> bool {
    match inx {
        Instruction::LPush(i) | Instruction::GPush(i) | Instruction::LMove(i)
        | Instruction::GMove(i) => i < co.idents@.len(),
        Instruction::Call(_, i) => i < co.idents@.len(),
        Instruction::CPush(i) => i < co.consts@.len(),
        _ => true,
    }
}

/// Whether the entries of the code object name existing identifiers.
pub open spec fn entries_in_range(co: CodeObject) -> bool {
    forall|i: int| 0 <= i < co.entries@.len() ==> #[trigger] co.entries@[i].0 < co.idents@.len()
}

impl CodeObject {
    /// Empty code object under the default module name.
    pub fn new() -> (r: CodeObject)
        ensures
            r.name@ == DEFAULT_MODULE_NAME@,
            r.loc is None,
            r.uses@.len() == 0,
            r.entries@.len() == 0,
            r.consts@.len() == 0,
            r.idents@.len() == 0,
            r.code@.len() == 0,
    {
        CodeObject {
            name: String::from_str(DEFAULT_MODULE_NAME),
            loc: None,
            uses: Vec::new(),
            entries: Vec::new(),
            consts: Vec::new(),
            idents: Vec::new(),
            code: Vec::new(),
        }
    }

    /// Empty code object with the given name.
    pub fn named(name: String) -> (r: CodeObject)
        ensures
            r.name@ == name@,
            r.loc is None,
            r.uses@.len() == 0,
            r.entries@.len() == 0,
            r.consts@.len() == 0,
            r.idents@.len() == 0,
            r.code@.len() == 0,
    {
        CodeObject {
            name,
            loc: None,
            uses: Vec::new(),
            entries: Vec::new(),
            consts: Vec::new(),
            idents: Vec::new(),
            code: Vec::new(),
        }
    }

    /// Name of the module the code belongs to.
    pub fn module(&self) -> (r: Option<String>)
        ensures
            r matches Some(n) && n@ == self.name@,
    {
        Some(self.name.clone())
    }

    /// View of the constants.
    pub open spec fn consts_v(&self) -> Seq<ValueV> {
        view_values(self.consts@)
    }
}

/// Functions of the standard library, run by the machine without bytecode.
#[derive(Clone, Copy, PartialEq, Eq, Structural)]
pub enum Builtin {
    Absolute,
    Acos,
    All,
    Any,
    Append,
    Argn,
    Asin,
    Atan,
    Atan2,
    Basename,
    Call,
    Captures,
    Ceil,
    Chr,
    Clamp,
    Contains,
    Count,
    Cos,
    CreateFile,
    Decode,
    DeepClone,
    Delete,
    E,
    Encode,
    Exists,
    Filter,
    Floor,
    Format,
    Get,
    HasData,
    IndexOf,
    Input,
    IsDir,
    IsMatch,
    Join,
    Len,
    ListDir,
    Log,
    MapEach,
    Mkdir,
    NewBuffer,
    NewRegex,
    OpenFile,
    Ord,
    Parent,
    Pi,
    PopVstack,
    Print,
    PushVstack,
    ReadAll,
    ReadLine,
    Readn,
    Rename,
    Replace,
    Rmdir,
    Round,
    SetItem,
    Sin,
    Sort,
    Split,
    Sqrt,
    Tan,
    ToLower,
    ToUpper,
    Trim,
    Unlink,
    WriteAll,
    Writes,
    Exec,
    GetBodyAsBuffer,
    GetBodyAsString,
    GetUrl,
    GetStatus,
    NewRequest,
    Serve,
    SetBody,
    SetHeader,
    SetMethod,
}

/// Something the machine can call.
pub enum Callable {
    /// Bytecode of a code object, starting at an offset.
    Function { code: Rc<CodeObject>, offset: usize },
    /// A function of the standard library.
    Builtin(Builtin),
    /// A function the host provides, such as one of a shared object,
    /// named by its position in the host's table.
    Extern(usize),
}

/// Shares a code object (`Rc::clone`).
#[verifier::external_body]
pub(crate) fn share_code(code: &Rc<CodeObject>) -> (r: Rc<CodeObject>)
    ensures
        r == *code,
{
    Rc::clone(code)
}

impl Callable {
    /// Copy of the callable; code objects are shared.
    pub fn duplicate(&self) -> (r: Callable)
        ensures
            r == *self,
    {
        match self {
            Callable::Function { code, offset } => Callable::Function { code: share_code(code), offset: *offset },
            Callable::Builtin(b) => Callable::Builtin(*b),
            Callable::Extern(i) => Callable::Extern(*i),
        }
    }
}

} // verus!
