use vstd::prelude::*;

use crate::chunk::Instruction;
use crate::gc::Gc;
use crate::objects::{value_refs, Function, FunctionUpvalue, GcObject, ObjectType};
use crate::token::{bytes_eq, Token};
use crate::value::{GcRef, Value};
use vstd::string::StringSliceAdditionalSpecFns;

verus! {

/// The kind of function a compiler is working on.
#[derive(Debug, Clone, Copy, PartialEq, Eq, Structural)]
pub enum FunctionType {
    Function,
    Initializer,
    Method,
    Script,
}

/// A local variable: its name, the depth of the scope that declared it (-1
/// until its initializer has run), and whether a closure captures it.
#[derive(Debug)]
pub struct Local {
    pub name: Token,
    pub depth: isize,
    pub is_captured: bool,
}

impl Local {
    pub fn new(name: Token, depth: isize) -> (l: Local)
        ensures
            l.name == name,
            l.depth == depth,
            !l.is_captured,
    {
        Local { name, depth, is_captured: false }
    }
}

/// The class whose body is being compiled, within those that enclose it.
#[derive(Debug)]
pub struct ClassCompiler {
    pub enclosing: Option<Box<ClassCompiler>>,
    pub has_superclass: bool,
}

impl ClassCompiler {
    pub fn new(enclosing: Option<Box<ClassCompiler>>) -> (c: Box<ClassCompiler>)
        ensures
            c.enclosing == enclosing,
            !c.has_superclass,
    {
        Box::new(ClassCompiler { enclosing, has_superclass: false })
    }
}

/// The most locals (and the most upvalues) that one function can have.
pub const LOCAL_COUNT: usize = 256;

/// The slot of the last local named `name`, if any.
pub open spec fn local_slot(locals: Seq<Local>, name: Seq<u8>) -> Option<int>
    decreases locals.len(),
{
    if locals.len() == 0 {
        None
    } else if locals.last().name.lexeme@ == name {
        Some(locals.len() - 1)
    } else {
        local_slot(locals.drop_last(), name)
    }
}

/// Whether a local named `name` was declared in the scope at `depth`: the
/// search goes back from the last local and stops at the first initialized
/// local of an outer scope.
pub open spec fn declared_in_scope(locals: Seq<Local>, name: Seq<u8>, depth: int) -> bool
    decreases locals.len(),
{
    if locals.len() == 0 {
        false
    } else if locals.last().depth != -1 && locals.last().depth < depth {
        false
    } else if locals.last().name.lexeme@ == name {
        true
    } else {
        declared_in_scope(locals.drop_last(), name, depth)
    }
}

/// The first position of `up` in `ups`, if any.
pub open spec fn upvalue_slot(ups: Seq<FunctionUpvalue>, up: FunctionUpvalue) -> Option<int>
    decreases ups.len(),
{
    if ups.len() == 0 {
        None
    } else {
        match upvalue_slot(ups.drop_last(), up) {
            Some(i) => Some(i),
            None => if ups.last() == up {
                Some(ups.len() - 1)
            } else {
                None
            },
        }
    }
}

/// `after` is `before` with one more message, `msg`.
pub open spec fn pushed_message(before: Seq<Vec<u8>>, after: Seq<Vec<u8>>, msg: Seq<u8>) -> bool {
    &&& after.len() == before.len() + 1
    &&& after.subrange(0, before.len() as int) == before
    &&& after.last()@ == msg
}

/// `after` is `before` with perhaps more messages after it.
pub open spec fn grows(before: Seq<Vec<u8>>, after: Seq<Vec<u8>>) -> bool {
    &&& before.len() <= after.len()
    &&& after.subrange(0, before.len() as int) == before
}

proof fn lemma_grows(a: Seq<Vec<u8>>, b: Seq<Vec<u8>>, c: Seq<Vec<u8>>)
    requires
        grows(a, b),
        grows(b, c),
    ensures
        grows(a, c),
        c == a ==> b == a,
{
    assert(c.subrange(0, b.len() as int).subrange(0, a.len() as int) =~= c.subrange(0, a.len() as int));
    if c == a {
        assert(b =~= a);
    }
}

/// The message for a local read in its own initializer.
pub open spec fn own_initializer_message() -> Seq<u8> {
    "Can't read local variable in its own initializer.".spec_bytes()
}

/// The message for a function with too many upvalues.
pub open spec fn too_many_upvalues_message() -> Seq<u8> {
    "Too many closure variables in function.".spec_bytes()
}

/// The state of the compilation of one function, and of those that enclose it.
#[derive(Debug)]
pub struct Compiler {
    pub enclosing: Option<Box<Compiler>>,
    pub function: Function,
    pub function_type: FunctionType,
    pub locals: Vec<Local>,
    pub scope_depth: isize,
}

impl Compiler {
    /// The number of compilers that enclose this one.
    pub open spec fn chain_len(&self) -> nat
        decreases self,
    {
        match self.enclosing {
            Some(e) => 1 + e.chain_len(),
            None => 0,
        }
    }

    /// What holds of one compiler: its locals and upvalues are within bounds,
    /// its scope depth is within one of `pidx`, its function is unmarked, and
    /// the objects its function refers to are on `gc`.
    pub open spec fn ok(&self, gc: Gc, pidx: int) -> bool {
        &&& 1 <= self.locals@.len() <= LOCAL_COUNT
        &&& self.locals@[0].depth == 0
        &&& 0 <= self.scope_depth <= pidx
        &&& self.function.upvalues@.len() <= LOCAL_COUNT
        &&& self.function.header == (GcObject { marked: false, obj_type: ObjectType::Function })
        &&& gc.live(self.function.name)
        &&& forall|k: int| 0 <= k < value_refs(self.function.chunk.constants@).len()
            ==> gc.live(#[trigger] value_refs(self.function.chunk.constants@)[k])
    }

    /// What the compilation of the enclosing functions has produced so far,
    /// innermost first: code, constants, name, header, arity, kind, scope
    /// depth and number of locals of each.
    pub open spec fn shape(&self) -> Seq<(Seq<Instruction>, Seq<Value>, GcRef, GcObject, usize, FunctionType, isize, int)>
        decreases self,
    {
        seq![(self.function.chunk.code@, self.function.chunk.constants@, self.function.name, self.function.header,
            self.function.arity, self.function_type, self.scope_depth, self.locals@.len() as int)]
            + match self.enclosing {
            Some(e) => e.shape(),
            None => Seq::empty(),
        }
    }

    /// The shape of the compilers that enclose this one.
    pub open spec fn enclosing_shape(&self) -> Seq<(Seq<Instruction>, Seq<Value>, GcRef, GcObject, usize, FunctionType, isize, int)> {
        match self.enclosing {
            Some(e) => e.shape(),
            None => Seq::empty(),
        }
    }

    pub proof fn lemma_same_shape_shape(a: &Compiler, b: &Compiler)
        requires
            a.same_shape(b),
        ensures
            a.shape() == b.shape(),
            a.enclosing_shape() == b.enclosing_shape(),
        decreases a,
    {
        match (a.enclosing, b.enclosing) {
            (Some(x), Some(y)) => Compiler::lemma_same_shape_shape(&*x, &*y),
            _ => {},
        }
    }

    pub proof fn lemma_chain_ok_bounds(c: &Compiler, gc: Gc, pidx: int)
        requires
            c.chain_ok(gc, pidx),
        ensures
            c.chain_ok_bounds(),
        decreases c,
    {
        match c.enclosing {
            Some(e) => Compiler::lemma_chain_ok_bounds(&*e, gc, pidx),
            None => {},
        }
    }

    /// `ok` holds of this compiler and of every one that encloses it.
    pub open spec fn chain_ok(&self, gc: Gc, pidx: int) -> bool
        decreases self,
    {
        &&& self.ok(gc, pidx)
        &&& match self.enclosing {
            Some(e) => e.chain_ok(gc, pidx),
            None => true,
        }
    }

    /// `later` is this compiler, and its enclosing ones, with at most some
    /// locals captured and some upvalues added, within bounds.
    pub open spec fn same_shape(&self, later: &Compiler) -> bool
        decreases self,
    {
        &&& later.function.chunk == self.function.chunk
        &&& later.function.name == self.function.name
        &&& later.function.header == self.function.header
        &&& later.function.arity == self.function.arity
        &&& later.function.upvalues@.len() <= LOCAL_COUNT
        &&& later.function_type == self.function_type
        &&& later.scope_depth == self.scope_depth
        &&& later.locals@.len() == self.locals@.len()
        &&& (self.locals@.len() > 0 ==> later.locals@[0].depth == self.locals@[0].depth)
        &&& match (self.enclosing, later.enclosing) {
            (Some(a), Some(b)) => a.same_shape(&*b),
            (None, None) => true,
            _ => false,
        }
    }

    pub proof fn lemma_same_shape_chain_ok(a: &Compiler, b: &Compiler, gc: Gc, pidx: int)
        requires
            a.same_shape(b),
            a.chain_ok(gc, pidx),
        ensures
            b.chain_ok(gc, pidx),
            b.chain_len() == a.chain_len(),
        decreases a,
    {
        match (a.enclosing, b.enclosing) {
            (Some(x), Some(y)) => Compiler::lemma_same_shape_chain_ok(&*x, &*y, gc, pidx),
            _ => {},
        }
    }

    /// `chain_ok` still holds once the heap has grown and more of the source is read.
    pub proof fn lemma_chain_ok_mono(c: &Compiler, gc1: Gc, gc2: Gc, p1: int, p2: int)
        requires
            c.chain_ok(gc1, p1),
            gc1.extends(&gc2),
            p1 <= p2,
        ensures
            c.chain_ok(gc2, p2),
        decreases c,
    {
        assert forall|k: int| 0 <= k < value_refs(c.function.chunk.constants@).len()
            implies gc2.live(#[trigger] value_refs(c.function.chunk.constants@)[k]) by {
            assert(gc1.live(value_refs(c.function.chunk.constants@)[k]));
        }
        assert(gc1.live(c.function.name));
        match c.enclosing {
            Some(e) => Compiler::lemma_chain_ok_mono(&*e, gc1, gc2, p1, p2),
            None => {},
        }
    }

    /// A compiler for a new function named `function_name`. Slot 0 is
    /// reserved: named `self` in methods and initializers, unnamed elsewhere.
    pub fn new(function_name: GcRef, kind: FunctionType) -> (c: Compiler)
        ensures
            c.enclosing is None,
            c.function.header == (GcObject { marked: false, obj_type: ObjectType::Function }),
            c.function.arity == 0,
            c.function.chunk.code@.len() == 0,
            c.function.chunk.constants@.len() == 0,
            c.function.name == function_name,
            c.function.upvalues@.len() == 0,
            c.function_type == kind,
            c.locals@.len() == 1,
            c.locals@[0].depth == 0,
            !c.locals@[0].is_captured,
            c.locals@[0].name.lexeme@ == (if kind == FunctionType::Method || kind == FunctionType::Initializer {
                "self".spec_bytes()
            } else {
                Seq::<u8>::empty()
            }),
            c.scope_depth == 0,
    {
        let mut locals: Vec<Local> = Vec::new();
        if kind == FunctionType::Method || kind == FunctionType::Initializer {
            locals.push(Local::new(Token::synthetic("self".as_bytes()), 0));
        } else {
            proof {
                reveal_strlit("");
            }
            locals.push(Local::new(Token::synthetic("".as_bytes()), 0));
        }
        Compiler { enclosing: None, function: Function::new(function_name), function_type: kind, locals, scope_depth: 0 }
    }

    /// The slot of the local named `name`, searching from the last; reading a
    /// local in its own initializer is reported in `errors`.
    pub fn resolve_local(&self, name: &Token, errors: &mut Vec<Vec<u8>>) -> (r: Option<u8>)
        requires
            self.locals@.len() <= LOCAL_COUNT,
        ensures
            r matches Some(i) ==> local_slot(self.locals@, name.lexeme@) == Some(i as int),
            r is None ==> local_slot(self.locals@, name.lexeme@) is None,
            (match local_slot(self.locals@, name.lexeme@) {
                Some(i) => self.locals@[i].depth == -1,
                None => false,
            }) ==> pushed_message(old(errors)@, final(errors)@, own_initializer_message()),
            !(match local_slot(self.locals@, name.lexeme@) {
                Some(i) => self.locals@[i].depth == -1,
                None => false,
            }) ==> final(errors)@ == old(errors)@,
            grows(old(errors)@, final(errors)@),
    {
        let mut i: usize = self.locals.len();
        assert(self.locals@.subrange(0, i as int) =~= self.locals@);
        assert(errors@.subrange(0, errors@.len() as int) =~= errors@);
        while i > 0
            invariant
                i <= self.locals@.len() <= LOCAL_COUNT,
                local_slot(self.locals@, name.lexeme@) == local_slot(self.locals@.subrange(0, i as int), name.lexeme@),
                errors@ == old(errors)@,
            decreases i,
        {
            let ghost prefix = self.locals@.subrange(0, i as int);
            assert(prefix.drop_last() =~= self.locals@.subrange(0, i - 1));
            let local = &self.locals[i - 1];
            if bytes_eq(local.name.lexeme.as_slice(), name.lexeme.as_slice()) {
                assert(errors@.subrange(0, errors@.len() as int) =~= errors@);
                if local.depth == -1 {
                    let msg: &str = "Can't read local variable in its own initializer.";
                    errors.push(vstd::slice::slice_to_vec(msg.as_bytes()));
                    assert(errors@.subrange(0, old(errors)@.len() as int) =~= old(errors)@);
                }
                return Some((i - 1) as u8);
            }
            i -= 1;
        }
        None
    }

    /// Whether a local named `name` is already declared in the current scope.
    pub fn is_local_declared(&self, name: &Token) -> (r: bool)
        ensures
            r == declared_in_scope(self.locals@, name.lexeme@, self.scope_depth as int),
    {
        let mut i: usize = self.locals.len();
        assert(self.locals@.subrange(0, i as int) =~= self.locals@);
        while i > 0
            invariant
                i <= self.locals@.len(),
                declared_in_scope(self.locals@, name.lexeme@, self.scope_depth as int)
                    == declared_in_scope(self.locals@.subrange(0, i as int), name.lexeme@, self.scope_depth as int),
            decreases i,
        {
            let ghost prefix = self.locals@.subrange(0, i as int);
            assert(prefix.drop_last() =~= self.locals@.subrange(0, i - 1));
            let local = &self.locals[i - 1];
            if local.depth != -1 && local.depth < self.scope_depth {
                return false;
            }
            if bytes_eq(local.name.lexeme.as_slice(), name.lexeme.as_slice()) {
                return true;
            }
            i -= 1;
        }
        false
    }

    /// The slot of the upvalue that captures `index` (a local slot of the
    /// enclosing function if `is_local`, else one of its upvalues); a new one
    /// is added if there is none yet and there is room.
    pub fn add_upvalue(&mut self, index: u8, is_local: bool, errors: &mut Vec<Vec<u8>>) -> (r: u8)
        requires
            old(self).function.upvalues@.len() <= LOCAL_COUNT,
        ensures
            final(self).enclosing == old(self).enclosing,
            final(self).locals == old(self).locals,
            final(self).function_type == old(self).function_type,
            final(self).scope_depth == old(self).scope_depth,
            final(self).function.chunk == old(self).function.chunk,
            final(self).function.name == old(self).function.name,
            final(self).function.header == old(self).function.header,
            final(self).function.arity == old(self).function.arity,
            final(self).function.upvalues@.len() <= LOCAL_COUNT,
            grows(old(errors)@, final(errors)@),
            upvalue_slot(old(self).function.upvalues@, FunctionUpvalue { index, is_local }) matches Some(i)
                ==> r == i && final(self).function.upvalues@ == old(self).function.upvalues@ && final(errors)@ == old(errors)@,
            upvalue_slot(old(self).function.upvalues@, FunctionUpvalue { index, is_local }) is None
                && old(self).function.upvalues@.len() == LOCAL_COUNT
                ==> r == 0 && final(self).function.upvalues@ == old(self).function.upvalues@
                && pushed_message(old(errors)@, final(errors)@, too_many_upvalues_message()),
            upvalue_slot(old(self).function.upvalues@, FunctionUpvalue { index, is_local }) is None
                && old(self).function.upvalues@.len() < LOCAL_COUNT
                ==> r == old(self).function.upvalues@.len()
                && final(self).function.upvalues@ == old(self).function.upvalues@.push(FunctionUpvalue { index, is_local })
                && final(errors)@ == old(errors)@,
    {
        let up = FunctionUpvalue { index, is_local };
        let count = self.function.upvalues.len();
        let mut i: usize = 0;
        while i < count
            invariant
                count == self.function.upvalues@.len() <= LOCAL_COUNT,
                i <= count,
                upvalue_slot(self.function.upvalues@.subrange(0, i as int), up) is None,
                self.function.upvalues == old(self).function.upvalues,
                errors@ == old(errors)@,
                up == (FunctionUpvalue { index, is_local }),
            decreases count - i,
        {
            let ghost pre = self.function.upvalues@.subrange(0, i + 1);
            assert(pre.drop_last() =~= self.function.upvalues@.subrange(0, i as int));
            if self.function.upvalues[i] == up {
                proof {
                    assert(self.function.upvalues@[i as int] == up);
                    lemma_upvalue_slot_prefix(self.function.upvalues@, up, i + 1);
                    assert(upvalue_slot(old(self).function.upvalues@, up) == Some(i as int));
                    assert(i < 256);
                    assert(errors@.subrange(0, errors@.len() as int) =~= errors@);
                }
                return i as u8;
            }
            i += 1;
        }
        assert(self.function.upvalues@.subrange(0, count as int) =~= self.function.upvalues@);
        assert(errors@.subrange(0, errors@.len() as int) =~= errors@);
        if count == LOCAL_COUNT {
            let msg: &str = "Too many closure variables in function.";
            errors.push(vstd::slice::slice_to_vec(msg.as_bytes()));
            assert(errors@.subrange(0, old(errors)@.len() as int) =~= old(errors)@);
            return 0;
        }
        self.function.upvalues.push(up);
        count as u8
    }

    /// Whether `name` is a local of some enclosing function.
    pub open spec fn upvalue_resolves(&self, name: Seq<u8>) -> bool
        decreases self,
    {
        match self.enclosing {
            Some(e) => local_slot(e.locals@, name) is Some || e.upvalue_resolves(name),
            None => false,
        }
    }

    /// The bounds that `resolve_upvalue` needs of every compiler on the chain.
    pub open spec fn chain_ok_bounds(&self) -> bool
        decreases self,
    {
        &&& self.locals@.len() <= LOCAL_COUNT
        &&& self.function.upvalues@.len() <= LOCAL_COUNT
        &&& match self.enclosing {
            Some(e) => e.chain_ok_bounds(),
            None => true,
        }
    }

    /// The upvalue through which this function reaches the variable `name`
    /// of an enclosing function, added to each function on the way if
    /// needed; the local it captures is marked as captured. Where no error
    /// was reported, the upvalue returned records the slot of that local, or
    /// an upvalue of the enclosing function.
    pub fn resolve_upvalue(&mut self, name: &Token, errors: &mut Vec<Vec<u8>>) -> (r: Option<u8>)
        requires
            old(self).chain_ok_bounds(),
        ensures
            old(self).same_shape(final(self)),
            final(self).chain_ok_bounds(),
            r is Some <==> old(self).upvalue_resolves(name.lexeme@),
            grows(old(errors)@, final(errors)@),
            match (old(self).enclosing, r) {
                (Some(e), Some(k)) => final(errors)@ == old(errors)@ ==> {
                    &&& (k as int) < final(self).function.upvalues@.len()
                    &&& final(self).function.upvalues@[k as int].is_local == (local_slot(e.locals@, name.lexeme@) is Some)
                    &&& (local_slot(e.locals@, name.lexeme@) matches Some(slot)
                        ==> final(self).function.upvalues@[k as int].index == slot as u8)
                },
                _ => true,
            },
        decreases old(self).chain_len(),
    {
        let ghost errors0 = errors@;
        assert(errors@.subrange(0, errors@.len() as int) =~= errors@);
        match self.enclosing.take() {
            None => None,
            Some(mut enc) => {
                let ghost enc0 = *enc;
                let ghost ups0 = self.function.upvalues@;
                assert(enc.chain_ok_bounds());
                proof {
                    lemma_local_slot_bounds(enc.locals@, name.lexeme@);
                }
                let r = match enc.resolve_local(name, errors) {
                    Some(local) => {
                        enc.capture(local as usize);
                        let ghost errors1 = errors@;
                        let k = self.add_upvalue(local, true, errors);
                        proof {
                            lemma_grows(errors0, errors1, errors@);
                            lemma_upvalue_slot_some(ups0, FunctionUpvalue { index: local, is_local: true });
                        }
                        Some(k)
                    },
                    None => {
                        let ghost errors1 = errors@;
                        match enc.resolve_upvalue(name, errors) {
                            Some(up) => {
                                let ghost errors2 = errors@;
                                let k = self.add_upvalue(up, false, errors);
                                proof {
                                    lemma_grows(errors1, errors2, errors@);
                                    lemma_grows(errors0, errors1, errors@);
                                    lemma_upvalue_slot_some(ups0, FunctionUpvalue { index: up, is_local: false });
                                }
                                Some(k)
                            },
                            None => {
                                proof {
                                    lemma_grows(errors0, errors1, errors@);
                                    lemma_same_shape_refl(&self);
                                }
                                None
                            },
                        }
                    },
                };
                self.enclosing = Some(enc);
                r
            },
        }
    }

    /// Marks the local in `slot` as captured by a closure.
    fn capture(&mut self, slot: usize)
        requires
            slot < old(self).locals@.len(),
            old(self).chain_ok_bounds(),
        ensures
            old(self).same_shape(final(self)),
            final(self).chain_ok_bounds(),
            final(self).locals@[slot as int].is_captured,
    {
        self.locals[slot].is_captured = true;
        proof {
            if let Some(e) = &self.enclosing {
                lemma_same_shape_refl(&**e);
            }
        }
    }
}

pub proof fn lemma_same_shape_refl(c: &Compiler)
    requires
        c.chain_ok_bounds(),
    ensures
        c.same_shape(c),
    decreases c,
{
    match c.enclosing {
        Some(e) => lemma_same_shape_refl(&*e),
        None => {},
    }
}

proof fn lemma_upvalue_slot_some(ups: Seq<FunctionUpvalue>, up: FunctionUpvalue)
    ensures
        upvalue_slot(ups, up) matches Some(i) ==> 0 <= i < ups.len() && ups[i] == up,
    decreases ups.len(),
{
    if ups.len() > 0 {
        lemma_upvalue_slot_some(ups.drop_last(), up);
    }
}

proof fn lemma_upvalue_slot_prefix(ups: Seq<FunctionUpvalue>, up: FunctionUpvalue, n: int)
    requires
        0 < n <= ups.len(),
        upvalue_slot(ups.subrange(0, n - 1), up) is None,
        ups[n - 1] == up,
    ensures
        upvalue_slot(ups, up) == Some(n - 1),
{
    let pre = ups.subrange(0, n);
    assert(pre.drop_last() =~= ups.subrange(0, n - 1));
    assert(pre.last() == up);
    lemma_upvalue_slot_prefix_ext(ups, up, n, ups.len() as int);
    assert(ups.subrange(0, ups.len() as int) =~= ups);
}

/// The slot of a local is one of the slots.
pub proof fn lemma_local_slot_bounds(locals: Seq<Local>, name: Seq<u8>)
    ensures
        local_slot(locals, name) matches Some(i) ==> 0 <= i < locals.len() && locals[i].name.lexeme@ == name,
    decreases locals.len(),
{
    if locals.len() > 0 {
        lemma_local_slot_bounds(locals.drop_last(), name);
    }
}

proof fn lemma_upvalue_slot_prefix_ext(ups: Seq<FunctionUpvalue>, up: FunctionUpvalue, n: int, m: int)
    requires
        0 < n <= m <= ups.len(),
        upvalue_slot(ups.subrange(0, n), up) == Some(n - 1),
    ensures
        upvalue_slot(ups.subrange(0, m), up) == Some(n - 1),
    decreases m - n,
{
    if m > n {
        lemma_upvalue_slot_prefix_ext(ups, up, n, m - 1);
        assert(ups.subrange(0, m).drop_last() =~= ups.subrange(0, m - 1));
    }
}

} // verus!
