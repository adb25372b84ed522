//! Building modules from function bodies.

use vstd::prelude::*;

use crate::code::{entries_in_range, CodeObject, Instruction, ENTRY_POINT};
use crate::error::{Lovm2CompileError, Lovm2CompileResult};
use crate::value::Value;
use crate::var::Variable;

use super::meta::ModuleMeta;
use super::{entry_slots, Module};

verus! {

/// Body of a function: the parameters, bound to locals in order, and the
/// bytecode. Jump targets count from the first instruction of the body;
/// identifiers and constants index the tables of the [ModuleBuilder].
pub struct Hir {
    pub args: Vec<Variable>,
    pub code: Vec<Instruction>,
}

impl Hir {
    /// Function without parameters and without code.
    pub fn new() -> (r: Hir)
        ensures
            r.args@.len() == 0,
            r.code@.len() == 0,
    {
        Hir { args: Vec::new(), code: Vec::new() }
    }

    /// Function with the given parameters and without code.
    pub fn with_args(args: Vec<Variable>) -> (r: Hir)
        ensures
            r.args == args,
            r.code@.len() == 0,
    {
        Hir { args, code: Vec::new() }
    }

    /// Append an instruction to the body.
    pub fn push(&mut self, inx: Instruction)
        ensures
            final(self).args == old(self).args,
            final(self).code@ == old(self).code@.push(inx),
    {
        self.code.push(inx);
    }
}

/// Options of the compilation.
pub struct CompileOptions {
    /// Whether the main function is laid out before all others, so that a
    /// program starts at offset 0.
    pub main_first: bool,
}

impl Default for CompileOptions {
    fn default() -> (r: CompileOptions)
        ensures
            r.main_first,
    {
        CompileOptions { main_first: true }
    }
}

/// Names of a list of variables.
pub open spec fn var_names(s: Seq<Variable>) -> Seq<Seq<char>> {
    s.map_values(|v: Variable| v@)
}

/// Position of `name` in `ids`.
#[verifier::opaque]
pub open spec fn index_of_name(ids: Seq<Seq<char>>, name: Seq<char>) -> Option<int> {
    if exists|i: int| 0 <= i < ids.len() && ids[i] == name {
        Some(choose|i: int| 0 <= i < ids.len() && ids[i] == name && forall|j: int| 0 <= j < i ==> ids[j] != name)
    } else {
        None
    }
}

/// Identifier table after making sure it holds `name`, and the position of
/// `name` in it.
pub open spec fn intern(ids: Seq<Seq<char>>, name: Seq<char>) -> (Seq<Seq<char>>, int) {
    match index_of_name(ids, name) {
        Some(i) => (ids, i),
        None => (ids.push(name), ids.len() as int),
    }
}

/// Instruction with its jump target moved by `base`; `None` where the target
/// leaves the range of `u16`.
pub open spec fn relocate(inx: Instruction, base: int) -> Option<Instruction> {
    match inx {
        Instruction::Jmp(t) => if t + base <= u16::MAX {
            Some(Instruction::Jmp((t + base) as u16))
        } else {
            None
        },
        Instruction::Jt(t) => if t + base <= u16::MAX {
            Some(Instruction::Jt((t + base) as u16))
        } else {
            None
        },
        Instruction::Jf(t) => if t + base <= u16::MAX {
            Some(Instruction::Jf((t + base) as u16))
        } else {
            None
        },
        _ => Some(inx),
    }
}

/// Identifier table and code after moving the parameters `args` into
/// locals, the last parameter first (it is on top of the stack).
pub open spec fn move_args(ids: Seq<Seq<char>>, code: Seq<Instruction>, args: Seq<Seq<char>>) -> Option<
    (Seq<Seq<char>>, Seq<Instruction>),
>
    decreases args.len(),
{
    if args.len() == 0 {
        Some((ids, code))
    } else {
        let (ids1, k) = intern(ids, args.last());
        if k > u16::MAX {
            None
        } else {
            move_args(ids1, code.push(Instruction::LMove(k as u16)), args.drop_last())
        }
    }
}

/// Lowered state: identifier table, entries and code.
pub struct LoweredV {
    pub idents: Seq<Seq<char>>,
    pub entries: Seq<(usize, usize)>,
    pub code: Seq<Instruction>,
}

/// State after lowering one function: its entry is recorded at the current
/// end of the code, its parameters are moved into locals, then its body
/// follows with jump targets moved to where the body starts.
#[verifier::opaque]
pub open spec fn lower_fn(st: LoweredV, name: Seq<char>, args: Seq<Seq<char>>, body: Seq<Instruction>) -> Option<LoweredV> {
    let (ids1, iidx) = intern(st.idents, name);
    let entry = (iidx as usize, st.code.len() as usize);
    match move_args(ids1, st.code, args) {
        None => None,
        Some((ids2, code2)) => if forall|i: int| 0 <= i < body.len() ==> (#[trigger] relocate(body[i], code2.len() as int)) is Some {
            Some(LoweredV {
                idents: ids2,
                entries: st.entries.push(entry),
                code: code2 + body.map_values(|x: Instruction| relocate(x, code2.len() as int)->Some_0),
            })
        } else {
            None
        },
    }
}

/// Whether a function takes part in a pass: `None` takes every function,
/// `Some(true)` only the main function, `Some(false)` all but the main one.
pub open spec fn selected(name: Seq<char>, sel: Option<bool>) -> bool {
    match sel {
        None => true,
        Some(main) => (name == ENTRY_POINT@) == main,
    }
}

/// Lowering of the selected functions among the first `n` of `fs`, in order.
pub open spec fn lower_pass(st: LoweredV, fs: Seq<(Variable, Hir)>, sel: Option<bool>, n: int) -> Option<LoweredV>
    decreases n,
{
    if n <= 0 {
        Some(st)
    } else {
        match lower_pass(st, fs, sel, n - 1) {
            None => None,
            Some(s1) => if selected(fs[n - 1].0@, sel) {
                lower_fn(s1, fs[n - 1].0@, var_names(fs[n - 1].1.args@), fs[n - 1].1.code@)
            } else {
                Some(s1)
            },
        }
    }
}

/// Layout of a module's functions: with `main_first` the main function
/// comes first, so that a program starts at offset 0, and the others follow
/// in the order they were added; otherwise all go in the order they were
/// added. `None` where a jump or an identifier leaves the range of `u16`.
pub open spec fn lower_module(idents: Seq<Seq<char>>, fs: Seq<(Variable, Hir)>, main_first: bool) -> Option<LoweredV> {
    let st = LoweredV { idents, entries: Seq::empty(), code: Seq::empty() };
    if main_first {
        match lower_pass(st, fs, Some(true), fs.len() as int) {
            None => None,
            Some(s1) => lower_pass(s1, fs, Some(false), fs.len() as int),
        }
    } else {
        lower_pass(st, fs, None, fs.len() as int)
    }
}

/// Dependencies after recording `name`: a name already recorded is not
/// added again.
pub open spec fn with_dependency(uses: Seq<String>, name: String) -> Seq<String> {
    if super::meta::names(uses).contains(name@) {
        uses
    } else {
        uses.push(name)
    }
}

/// Collects the functions of a module and lays them out as bytecode.
pub struct ModuleBuilder {
    pub meta: ModuleMeta,
    /// Functions by name, in the order they were first added.
    pub hirs: Vec<(Variable, Hir)>,
    /// Identifier table shared by all functions.
    pub idents: Vec<Variable>,
    /// Constant table shared by all functions.
    pub consts: Vec<Value>,
}

/// Position of the function named `name`.
pub open spec fn hir_find(hirs: Seq<(Variable, Hir)>, name: Seq<char>) -> Option<int> {
    if exists|i: int| 0 <= i < hirs.len() && hirs[i].0@ == name {
        Some(choose|i: int| 0 <= i < hirs.len() && hirs[i].0@ == name && forall|j: int| 0 <= j < i ==> hirs[j].0@ != name)
    } else {
        None
    }
}

/// Where [hir_find] finds a name: the first function of that name.
pub proof fn lemma_hir_find(hirs: Seq<(Variable, Hir)>, name: Seq<char>)
    ensures
        match hir_find(hirs, name) {
            Some(i) => 0 <= i < hirs.len() && hirs[i].0@ == name && forall|j: int| 0 <= j < i ==> hirs[j].0@ != name,
            None => forall|j: int| 0 <= j < hirs.len() ==> hirs[j].0@ != name,
        },
{
    if exists|i: int| 0 <= i < hirs.len() && hirs[i].0@ == name {
        let m = choose|i: int| 0 <= i < hirs.len() && hirs[i].0@ == name;
        lemma_first_hir(hirs, name, m);
    }
}

proof fn lemma_first_hir(hirs: Seq<(Variable, Hir)>, name: Seq<char>, m: int)
    requires
        0 <= m < hirs.len(),
        hirs[m].0@ == name,
    ensures
        exists|k: int| 0 <= k < hirs.len() && hirs[k].0@ == name && forall|j: int| 0 <= j < k ==> hirs[j].0@ != name,
    decreases m,
{
    if exists|j: int| 0 <= j < m && hirs[j].0@ == name {
        let j = choose|j: int| 0 <= j < m && hirs[j].0@ == name;
        lemma_first_hir(hirs, name, j);
    } else {
        assert(0 <= m < hirs.len() && hirs[m].0@ == name && forall|j: int| 0 <= j < m ==> hirs[j].0@ != name);
    }
}

/// Functions after storing `h` under `name`: a function already stored
/// under that name is replaced in its place, keeping its name; otherwise the
/// function goes last.
pub open spec fn hirs_with(hirs: Seq<(Variable, Hir)>, name: Variable, h: Hir) -> Seq<(Variable, Hir)> {
    match hir_find(hirs, name@) {
        Some(i) => hirs.update(i, (hirs[i].0, h)),
        None => hirs.push((name, h)),
    }
}

impl ModuleBuilder {
    /// Builder of a module without name.
    pub fn new() -> (r: ModuleBuilder)
        ensures
            r.meta.name@ == crate::code::DEFAULT_MODULE_NAME@,
            r.meta.loc is None,
            r.meta.uses@.len() == 0,
            r.hirs@.len() == 0,
            r.idents@.len() == 0,
            r.consts@.len() == 0,
    {
        ModuleBuilder::with_meta(ModuleMeta::default())
    }

    /// Builder of a module with the given name.
    pub fn named(name: String) -> (r: ModuleBuilder)
        ensures
            r.meta.name == name,
            r.meta.loc is None,
            r.meta.uses@.len() == 0,
            r.hirs@.len() == 0,
            r.idents@.len() == 0,
            r.consts@.len() == 0,
    {
        ModuleBuilder::with_meta(ModuleMeta::from_name(name))
    }

    /// Builder of a module with the given meta data.
    pub fn with_meta(meta: ModuleMeta) -> (r: ModuleBuilder)
        ensures
            r.meta == meta,
            r.hirs@.len() == 0,
            r.idents@.len() == 0,
            r.consts@.len() == 0,
    {
        ModuleBuilder { meta, hirs: Vec::new(), idents: Vec::new(), consts: Vec::new() }
    }

    /// Record a module the built module depends on; a name already recorded
    /// is not added again.
    pub fn add_dependency(&mut self, name: String)
        ensures
            final(self).meta.name == old(self).meta.name,
            final(self).meta.loc == old(self).meta.loc,
            final(self).hirs == old(self).hirs,
            final(self).idents == old(self).idents,
            final(self).consts == old(self).consts,
            final(self).meta.uses@ == with_dependency(old(self).meta.uses@, name),
    {
        let mut i: usize = 0;
        let ghost u = self.meta.uses@;
        while i < self.meta.uses.len()
            invariant
                i <= u.len(),
                u == self.meta.uses@,
                forall|j: int| 0 <= j < i ==> u[j]@ != name@,
            decreases u.len() - i,
        {
            if self.meta.uses[i] == name {
                assert(super::meta::names(u)[i as int] == name@);
                return;
            }
            i += 1;
        }
        assert(!super::meta::names(u).contains(name@));
        self.meta.uses.push(name);
    }

    /// Position of the function named `name`.
    fn find_hir(&self, name: &Variable) -> (r: Option<usize>)
        ensures
            match r {
                Some(i) => hir_find(self.hirs@, name@) == Some(i as int) && i < self.hirs@.len(),
                None => hir_find(self.hirs@, name@) is None,
            },
    {
        let mut i: usize = 0;
        while i < self.hirs.len()
            invariant
                i <= self.hirs@.len(),
                forall|j: int| 0 <= j < i ==> self.hirs@[j].0@ != name@,
            decreases self.hirs@.len() - i,
        {
            if self.hirs[i].0 == *name {
                assert(hir_find(self.hirs@, name@) == Some(i as int)) by {
                    let c = choose|k: int| 0 <= k < self.hirs@.len() && self.hirs@[k].0@ == name@
                        && forall|j: int| 0 <= j < k ==> self.hirs@[j].0@ != name@;
                    if c < i {
                    } else if c > i {
                        assert(self.hirs@[i as int].0@ == name@);
                    }
                }
                return Some(i);
            }
            i += 1;
        }
        None
    }

    /// Add a function without parameters, replacing one of the same name,
    /// and return its body.
    pub fn add(&mut self, name: Variable) -> (r: &mut Hir)
        ensures
            r.args@.len() == 0,
            r.code@.len() == 0,
            final(self).hirs@ == hirs_with(old(self).hirs@, name, *final(r)),
            final(self).meta == old(self).meta,
            final(self).idents == old(self).idents,
            final(self).consts == old(self).consts,
    {
        self.add_with_args(name, Vec::new())
    }

    /// Add a function with the given parameters, replacing one of the same
    /// name, and return its body.
    pub fn add_with_args(&mut self, name: Variable, args: Vec<Variable>) -> (r: &mut Hir)
        ensures
            r.args == args,
            r.code@.len() == 0,
            final(self).hirs@ == hirs_with(old(self).hirs@, name, *final(r)),
            final(self).meta == old(self).meta,
            final(self).idents == old(self).idents,
            final(self).consts == old(self).consts,
    {
        let idx = match self.find_hir(&name) {
            Some(i) => {
                let ghost before = self.hirs@;
                let (key, _previous) = self.hirs.remove(i);
                self.hirs.insert(i, (key, Hir::with_args(args)));
                assert(self.hirs@ =~= before.update(i as int, (before[i as int].0, self.hirs@[i as int].1)));
                i
            },
            None => {
                self.hirs.push((name, Hir::with_args(args)));
                self.hirs.len() - 1
            },
        };
        &mut self.hirs[idx].1
    }

    /// Body of the main function, added without parameters if missing.
    pub fn entry(&mut self) -> (r: &mut Hir)
        ensures
            final(self).meta == old(self).meta,
            final(self).idents == old(self).idents,
            final(self).consts == old(self).consts,
            match hir_find(old(self).hirs@, ENTRY_POINT@) {
                Some(i) => *r == old(self).hirs@[i].1 && final(self).hirs@ == hirs_with(old(self).hirs@, old(self).hirs@[i].0, *final(r)),
                None => r.args@.len() == 0 && r.code@.len() == 0 && final(self).hirs@.len() == old(self).hirs@.len() + 1
                    && final(self).hirs@.last().0@ == ENTRY_POINT@
                    && final(self).hirs@ == hirs_with(old(self).hirs@, final(self).hirs@.last().0, *final(r)),
            },
    {
        let name = Variable::from_str(ENTRY_POINT);
        proof {
            lemma_hir_find(self.hirs@, ENTRY_POINT@);
        }
        let idx = match self.find_hir(&name) {
            Some(i) => i,
            None => {
                self.hirs.push((name, Hir::new()));
                self.hirs.len() - 1
            },
        };
        &mut self.hirs[idx].1
    }
}



/// Some position of `name` comes first.
proof fn lemma_first_name(ids: Seq<Seq<char>>, name: Seq<char>, m: int)
    requires
        0 <= m < ids.len(),
        ids[m] == name,
    ensures
        exists|k: int| 0 <= k < ids.len() && ids[k] == name && forall|j: int| 0 <= j < k ==> ids[j] != name,
    decreases m,
{
    if exists|j: int| 0 <= j < m && ids[j] == name {
        let j = choose|j: int| 0 <= j < m && ids[j] == name;
        lemma_first_name(ids, name, j);
    } else {
        assert(0 <= m < ids.len() && ids[m] == name && forall|j: int| 0 <= j < m ==> ids[j] != name);
    }
}

/// What [index_of_name] gives is a position of the name, and where it gives
/// none the name does not occur.
pub proof fn lemma_index_of_name_found(ids: Seq<Seq<char>>, name: Seq<char>)
    ensures
        match index_of_name(ids, name) {
            Some(i) => 0 <= i < ids.len() && ids[i] == name,
            None => forall|i: int| 0 <= i < ids.len() ==> ids[i] != name,
        },
{
    reveal(index_of_name);
    if exists|i: int| 0 <= i < ids.len() && ids[i] == name {
        let m = choose|i: int| 0 <= i < ids.len() && ids[i] == name;
        lemma_first_name(ids, name, m);
    }
}

/// Proof that the first position of `name` is what [index_of_name] picks.
proof fn lemma_index_of_name(ids: Seq<Seq<char>>, name: Seq<char>, i: int)
    requires
        0 <= i < ids.len(),
        ids[i] == name,
        forall|j: int| 0 <= j < i ==> ids[j] != name,
    ensures
        index_of_name(ids, name) == Some(i),
{
    reveal(index_of_name);
    let c = choose|k: int| 0 <= k < ids.len() && ids[k] == name && forall|j: int| 0 <= j < k ==> ids[j] != name;
    assert(0 <= c < ids.len() && ids[c] == name && forall|j: int| 0 <= j < c ==> ids[j] != name);
    if c < i {
    } else if c > i {
    }
}

/// Make sure `ids` holds `name` and return its position.
fn intern_name(ids: &mut Vec<Variable>, name: &Variable) -> (r: usize)
    ensures
        (var_names(final(ids)@), r as int) == intern(var_names(old(ids)@), name@),
        r < final(ids)@.len(),
        old(ids)@.len() <= final(ids)@.len(),
{
    let ghost names = var_names(ids@);
    let mut i: usize = 0;
    while i < ids.len()
        invariant
            i <= ids@.len(),
            names == var_names(ids@),
            forall|j: int| 0 <= j < i ==> names[j] != name@,
        decreases ids@.len() - i,
    {
        if ids[i] == *name {
            proof {
                lemma_index_of_name(names, name@, i as int);
            }
            return i;
        }
        i += 1;
    }
    assert(index_of_name(names, name@) is None) by {
        reveal(index_of_name);
    }
    ids.push(name.duplicate());
    assert(var_names(ids@) =~= names.push(name@));
    ids.len() - 1
}

/// Code being laid out.
struct Lowering {
    idents: Vec<Variable>,
    entries: Vec<(usize, usize)>,
    code: Vec<Instruction>,
}

impl Lowering {
    spec fn view_lowered(&self) -> LoweredV {
        LoweredV { idents: var_names(self.idents@), entries: self.entries@, code: self.code@ }
    }

    spec fn entries_ok(&self) -> bool {
        forall|i: int| 0 <= i < self.entries@.len() ==> #[trigger] self.entries@[i].0 < self.idents@.len()
    }

    /// Lay out one function; false where a position leaves `u16`, and then
    /// the state is of no further use.
    fn lower_function(&mut self, name: &Variable, hir: &Hir) -> (ok: bool)
        requires
            old(self).entries_ok(),
        ensures
            ok ==> final(self).entries_ok(),
            match lower_fn(old(self).view_lowered(), name@, var_names(hir.args@), hir.code@) {
                Some(l) => ok && final(self).view_lowered() == l,
                None => !ok,
            },
    {
        proof {
            reveal(lower_fn);
        }
        let ghost st = self.view_lowered();
        let start = self.code.len();
        let iidx = intern_name(&mut self.idents, name);
        let ghost ids1 = var_names(self.idents@);
        let ghost args = var_names(hir.args@);
        assert(intern(st.idents, name@) == (ids1, iidx as int));
        // parameters, the last one first
        let mut k: usize = hir.args.len();
        assert(args.take(k as int) =~= args);
        while k > 0
            invariant
                k <= hir.args@.len(),
                args == var_names(hir.args@),
                iidx < self.idents@.len(),
                intern(st.idents, name@) == (ids1, iidx as int),
                st == old(self).view_lowered(),
                self.entries@ == st.entries,
                forall|i: int| 0 <= i < self.entries@.len() ==> #[trigger] self.entries@[i].0 < self.idents@.len(),
                move_args(ids1, st.code, args) == move_args(var_names(self.idents@), self.code@, args.take(k as int)),
            decreases k,
        {
            proof {
                let a = args.take(k as int);
                assert(a.last() == hir.args@[k - 1]@);
                assert(a.drop_last() =~= args.take(k - 1));
            }
            let ghost ids_before = var_names(self.idents@);
            let ghost code_before = self.code@;
            let idx = intern_name(&mut self.idents, &hir.args[k - 1]);
            if idx > 65535 {
                assert(move_args(ids_before, code_before, args.take(k as int)) is None);
                assert(lower_fn(st, name@, args, hir.code@) is None) by {
                    reveal(lower_fn);
                }
                return false;
            }
            self.code.push(Instruction::LMove(idx as u16));
            k -= 1;
        }
        assert(args.take(0) =~= Seq::<Seq<char>>::empty());
        let ghost code2 = self.code@;
        let base = self.code.len();
        let mut j: usize = 0;
        while j < hir.code.len()
            invariant
                j <= hir.code@.len(),
                base == code2.len(),
                args == var_names(hir.args@),
                iidx < self.idents@.len(),
                intern(st.idents, name@) == (ids1, iidx as int),
                st == old(self).view_lowered(),
                self.entries@ == st.entries,
                forall|i: int| 0 <= i < self.entries@.len() ==> #[trigger] self.entries@[i].0 < self.idents@.len(),
                move_args(ids1, st.code, args) == Some((var_names(self.idents@), code2)),
                self.code@.len() == base + j,
                self.code@.take(base as int) == code2,
                forall|i: int| 0 <= i < j ==> (#[trigger] relocate(hir.code@[i], base as int)) is Some
                    && self.code@[base + i] == relocate(hir.code@[i], base as int)->Some_0,
            decreases hir.code@.len() - j,
        {
            let inx = hir.code[j];
            let moved = match inx {
                Instruction::Jmp(t) => if base <= 65535 && (t as usize) <= 65535 - base {
                    Some(Instruction::Jmp((t as usize + base) as u16))
                } else {
                    None
                },
                Instruction::Jt(t) => if base <= 65535 && (t as usize) <= 65535 - base {
                    Some(Instruction::Jt((t as usize + base) as u16))
                } else {
                    None
                },
                Instruction::Jf(t) => if base <= 65535 && (t as usize) <= 65535 - base {
                    Some(Instruction::Jf((t as usize + base) as u16))
                } else {
                    None
                },
                other => Some(other),
            };
            assert(moved == relocate(inx, base as int));
            match moved {
                Some(m) => self.code.push(m),
                None => {
                    assert(relocate(hir.code@[j as int], code2.len() as int) is None);
                    assert(lower_fn(st, name@, args, hir.code@) is None) by {
                    reveal(lower_fn);
                }
                    return false;
                },
            }
            j += 1;
        }
        let ghost body = hir.code@.map_values(|x: Instruction| relocate(x, base as int)->Some_0);
        assert(self.code@ =~= code2 + body);
        self.entries.push((iidx, start));
        true
    }

    /// Lay out the selected functions of `hirs` in order; false where one
    /// does not fit, and then the state is of no further use.
    fn run_pass(&mut self, hirs: &Vec<(Variable, Hir)>, sel: Option<bool>) -> (ok: bool)
        requires
            old(self).entries_ok(),
        ensures
            ok ==> final(self).entries_ok(),
            match lower_pass(old(self).view_lowered(), hirs@, sel, hirs@.len() as int) {
                Some(l) => ok && final(self).view_lowered() == l,
                None => !ok,
            },
    {
        let ghost sp = self.view_lowered();
        let mut i: usize = 0;
        while i < hirs.len()
            invariant
                i <= hirs@.len(),
                self.entries_ok(),
                lower_pass(sp, hirs@, sel, i as int) == Some(self.view_lowered()),
                sp == old(self).view_lowered(),
            decreases hirs@.len() - i,
        {
            let is_main = hirs[i].0.is_named(ENTRY_POINT);
            let take = match sel {
                None => true,
                Some(m) => is_main == m,
            };
            if take {
                let ok = self.lower_function(&hirs[i].0, &hirs[i].1);
                if !ok {
                    proof {
                        assert(selected(hirs@[i as int].0@, sel));
                        assert(lower_pass(sp, hirs@, sel, (i + 1) as int) is None);
                        lemma_lower_pass_none(sp, hirs@, sel, (i + 1) as int, hirs@.len() as int);
                    }
                    return false;
                }
            }
            i += 1;
        }
        true
    }
}

impl ModuleBuilder {
    /// Lay out the functions; see [lower_module].
    pub fn build_with_options(self, options: CompileOptions) -> (r: Lovm2CompileResult<Module>)
        ensures
            match (r, lower_module(var_names(self.idents@), self.hirs@, options.main_first)) {
                (Ok(m), Some(l)) => {
                    &&& m.code_object.name == self.meta.name
                    &&& m.code_object.loc == self.meta.loc
                    &&& m.code_object.uses == self.meta.uses
                    &&& m.code_object.consts == self.consts
                    &&& var_names(m.code_object.idents@) == l.idents
                    &&& m.code_object.entries@ == l.entries
                    &&& m.code_object.code@ == l.code
                    &&& m.slots@ == entry_slots(m.code_object, l.entries.len() as int)
                },
                (Err(_), None) => true,
                _ => false,
            },
    {
        let ModuleBuilder { meta, hirs, idents, consts } = self;
        let mut low = Lowering { idents, entries: Vec::new(), code: Vec::new() };
        let ghost st0 = low.view_lowered();
        assert(st0 == (LoweredV { idents: var_names(self.idents@), entries: Seq::empty(), code: Seq::empty() }));
        if options.main_first {
            if !low.run_pass(&hirs, Some(true)) {
                return Err(Lovm2CompileError::from_msg("code does not fit the bytecode format"));
            }
            if !low.run_pass(&hirs, Some(false)) {
                return Err(Lovm2CompileError::from_msg("code does not fit the bytecode format"));
            }
        } else {
            if !low.run_pass(&hirs, None) {
                return Err(Lovm2CompileError::from_msg("code does not fit the bytecode format"));
            }
        }
        let co = CodeObject {
            name: meta.name,
            loc: meta.loc,
            uses: meta.uses,
            entries: low.entries,
            consts,
            idents: low.idents,
            code: low.code,
        };
        assert(entries_in_range(co));
        Ok(Module::from(co))
    }

    /// Lay out the functions with the main function first.
    pub fn build(self) -> (r: Lovm2CompileResult<Module>)
        ensures
            match (r, lower_module(var_names(self.idents@), self.hirs@, true)) {
                (Ok(m), Some(l)) => {
                    &&& m.code_object.name == self.meta.name
                    &&& m.code_object.loc == self.meta.loc
                    &&& m.code_object.uses == self.meta.uses
                    &&& m.code_object.consts == self.consts
                    &&& var_names(m.code_object.idents@) == l.idents
                    &&& m.code_object.entries@ == l.entries
                    &&& m.code_object.code@ == l.code
                    &&& m.slots@ == entry_slots(m.code_object, l.entries.len() as int)
                },
                (Err(_), None) => true,
                _ => false,
            },
    {
        self.build_with_options(CompileOptions::default())
    }
}

/// Once a pass fails it stays failed.
proof fn lemma_lower_pass_none(st: LoweredV, fs: Seq<(Variable, Hir)>, sel: Option<bool>, m: int, n: int)
    requires
        m <= n,
        lower_pass(st, fs, sel, m) is None,
    ensures
        lower_pass(st, fs, sel, n) is None,
    decreases n - m,
{
    if m < n {
        lemma_lower_pass_none(st, fs, sel, m, n - 1);
    }
}

} // verus!
