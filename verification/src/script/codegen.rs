//! What the script compiler emits for each node of the syntax tree, as
//! functions from the compiler's state to its state afterwards. Locals live
//! on the stack and are found by name ignoring case; forward jumps are
//! emitted with a zero offset and patched once their target is known.
use vstd::prelude::*;
use crate::text::lowercase;
use crate::assoc::put;
use crate::script::ast::{
    Statement, Expression, Literal, StringPart, FunctionBody, ClassMember, AssignmentTarget, CatchClause,
};
use crate::script::chunk::Chunk;
use crate::script::opcode::OpCode;
use crate::script::types::{BxCompiledFunction, BxClass};
use crate::vm::chunk::string_views;

verus! {

broadcast use {
    vstd::std_specs::vec::axiom_vec_decreases_to_view,
    vstd::seq::axiom_seq_subrange_decreases,
    vstd::seq::axiom_seq_index_decreases,
};

/// A constant of a compiled script. A number is held as the bit pattern of
/// its double.
#[derive(Debug, PartialEq)]
pub enum Constant {
    String(String),
    Number(u64),
    Boolean(bool),
    Null,
    CompiledFunction(Box<BxCompiledFunction<Constant>>),
    Class(Box<BxClass<Constant>>),
}

/// A chunk, mathematically.
pub struct ChunkView {
    pub code: Seq<OpCode>,
    pub constants: Seq<ConstView>,
    pub lines: Seq<usize>,
    pub filename: Seq<char>,
}

/// A compiled function, mathematically.
pub struct FuncView {
    pub name: Seq<char>,
    pub arity: usize,
    pub chunk: ChunkView,
}

/// A compiled class, mathematically.
pub struct ClassView {
    pub name: Seq<char>,
    pub constructor: ChunkView,
    pub methods: Seq<(Seq<char>, FuncView)>,
}

/// A constant, mathematically.
pub enum ConstView {
    Str(Seq<char>),
    Number(u64),
    Bool(bool),
    Null,
    Function(FuncView),
    Class(ClassView),
}

/// A constant, mathematically.
pub open spec fn const_v(c: Constant) -> ConstView
    decreases c,
{
    match c {
        Constant::String(s) => ConstView::Str(s@),
        Constant::Number(n) => ConstView::Number(n),
        Constant::Boolean(b) => ConstView::Bool(b),
        Constant::Null => ConstView::Null,
        Constant::CompiledFunction(f) => ConstView::Function(func_v(*f)),
        Constant::Class(k) => ConstView::Class(ClassView {
            name: k.name@,
            constructor: chunk_v(k.constructor),
            methods: methods_v(k.methods@),
        }),
    }
}

/// A compiled function, mathematically.
pub open spec fn func_v(f: BxCompiledFunction<Constant>) -> FuncView
    decreases f,
{
    FuncView { name: f.name@, arity: f.arity, chunk: chunk_v(f.chunk) }
}

/// A chunk, mathematically.
pub open spec fn chunk_v(c: Chunk<Constant>) -> ChunkView
    decreases c,
{
    ChunkView { code: c.code@, constants: consts_v(c.constants@), lines: c.lines@, filename: c.filename@ }
}

/// Constants, mathematically.
pub open spec fn consts_v(s: Seq<Constant>) -> Seq<ConstView>
    decreases s,
{
    if s.len() == 0 {
        Seq::empty()
    } else {
        consts_v(s.drop_last()).push(const_v(s.last()))
    }
}

/// A method table, mathematically.
pub open spec fn methods_v(s: Seq<(String, BxCompiledFunction<Constant>)>) -> Seq<(Seq<char>, FuncView)>
    decreases s,
{
    if s.len() == 0 {
        Seq::empty()
    } else {
        methods_v(s.drop_last()).push((s.last().0@, func_v(s.last().1)))
    }
}

/// A local variable: its name and the scope depth it was declared at.
pub struct Local {
    pub name: String,
    pub depth: usize,
}

/// The locals of a compiler, as (name, depth) pairs.
pub open spec fn locals_v(ls: Seq<Local>) -> Seq<(Seq<char>, usize)> {
    ls.map_values(|l: Local| (l.name@, l.depth))
}

/// The view of a constant table has one entry per constant.
pub proof fn lemma_consts_len(s: Seq<Constant>)
    ensures
        consts_v(s).len() == s.len(),
    decreases s.len(),
{
    if s.len() > 0 {
        lemma_consts_len(s.drop_last());
    }
}

/// Adding a constant adds its view.
pub proof fn lemma_consts_push(s: Seq<Constant>, c: Constant)
    ensures
        consts_v(s.push(c)) == consts_v(s).push(const_v(c)),
{
    assert(s.push(c).drop_last() =~= s);
}

/// The view of a method table, entry by entry.
pub proof fn lemma_methods_index(s: Seq<(String, BxCompiledFunction<Constant>)>)
    ensures
        methods_v(s).len() == s.len(),
        forall|j: int| 0 <= j < s.len() ==> #[trigger] methods_v(s)[j] == (s[j].0@, func_v(s[j].1)),
    decreases s.len(),
{
    if s.len() > 0 {
        lemma_methods_index(s.drop_last());
        assert forall|j: int| 0 <= j < s.len() implies #[trigger] methods_v(s)[j] == (s[j].0@, func_v(s[j].1)) by {
            if j < s.len() - 1 {
                assert(s.drop_last()[j] == s[j]);
            }
        }
    }
}


/// The compiler's state, mathematically: the chunk being written, the
/// locals in stack order, the scope depth, and whether class code is being
/// compiled (names that are no local then refer to the instance).
pub struct CView {
    pub chunk: ChunkView,
    pub locals: Seq<(Seq<char>, usize)>,
    pub depth: nat,
    pub is_class: bool,
}

/// The outcome of compiling a node: the state afterwards, and the error
/// message if it failed.
pub type Outcome = (CView, Result<(), Seq<char>>);

/// A chunk with nothing in it.
pub open spec fn empty_chunk() -> ChunkView {
    ChunkView { code: Seq::empty(), constants: Seq::empty(), lines: Seq::empty(), filename: Seq::empty() }
}

/// Appends an instruction (its line is 0: the tree carries no lines).
pub open spec fn emit(st: CView, op: OpCode) -> CView {
    CView { chunk: ChunkView { code: st.chunk.code.push(op), lines: st.chunk.lines.push(0usize), ..st.chunk }, ..st }
}

/// Appends a constant; the index it got.
pub open spec fn add_const(st: CView, c: ConstView) -> (CView, usize) {
    (
        CView { chunk: ChunkView { constants: st.chunk.constants.push(c), ..st.chunk }, ..st },
        st.chunk.constants.len() as usize,
    )
}

/// Appends a constant and the instruction that pushes it.
pub open spec fn emit_const(st: CView, c: ConstView) -> CView {
    emit(add_const(st, c).0, OpCode::OpConstant(add_const(st, c).1))
}

/// The position of the next instruction.
pub open spec fn here(st: CView) -> int {
    st.chunk.code.len() as int
}

/// Replaces the instruction at `i` (a placeholder jump).
pub open spec fn patch(st: CView, i: int, op: OpCode) -> CView {
    CView { chunk: ChunkView { code: st.chunk.code.update(i, op), ..st.chunk }, ..st }
}

/// Opens a scope.
pub open spec fn begin(st: CView) -> CView {
    CView { depth: st.depth + 1, ..st }
}

/// Pops, with an `OpPop` each, the locals declared deeper than the depth.
pub open spec fn pop_locals(st: CView) -> CView
    decreases st.locals.len(),
{
    if st.locals.len() > 0 && st.locals.last().1 > st.depth {
        pop_locals(emit(CView { locals: st.locals.drop_last(), ..st }, OpCode::OpPop))
    } else {
        st
    }
}

/// Closes a scope, popping its locals.
pub open spec fn end(st: CView) -> CView {
    pop_locals(CView { depth: (st.depth - 1) as nat, ..st })
}

/// Forgets the innermost local, if there is one.
pub open spec fn pop_top(st: CView) -> CView {
    if st.locals.len() > 0 {
        CView { locals: st.locals.drop_last(), ..st }
    } else {
        st
    }
}

/// Declares a local at the current depth.
pub open spec fn add_local(st: CView, name: Seq<char>) -> CView {
    CView { locals: st.locals.push((name, st.depth as usize)), ..st }
}

/// The stack slot of the innermost local named `name`, ignoring case.
pub open spec fn resolve_local(locals: Seq<(Seq<char>, usize)>, name: Seq<char>) -> Option<usize>
    decreases locals.len(),
{
    if locals.len() == 0 {
        None
    } else if lowercase(locals.last().0) == lowercase(name) {
        Some((locals.len() - 1) as usize)
    } else {
        resolve_local(locals.drop_last(), name)
    }
}

/// Reads the variable `name`: `this` and `variables` (in any case) are the
/// instance's scopes; then a local; then, in class code, an instance
/// variable; else a global.
pub open spec fn c_ident(st: CView, name: Seq<char>) -> CView {
    let low = lowercase(name);
    if low == "this"@ {
        emit(add_const(st, ConstView::Str("this"@)).0, OpCode::OpGetPrivate(add_const(st, ConstView::Str("this"@)).1))
    } else if low == "variables"@ {
        emit(
            add_const(st, ConstView::Str("variables"@)).0,
            OpCode::OpGetPrivate(add_const(st, ConstView::Str("variables"@)).1),
        )
    } else {
        match resolve_local(st.locals, name) {
            Some(slot) => emit(st, OpCode::OpGetLocal(slot)),
            None => if st.is_class {
                emit(add_const(st, ConstView::Str(name)).0, OpCode::OpGetPrivate(add_const(st, ConstView::Str(name)).1))
            } else {
                emit(add_const(st, ConstView::Str(name)).0, OpCode::OpGetGlobal(add_const(st, ConstView::Str(name)).1))
            },
        }
    }
}

/// Stores the value on top of the stack into the variable `name`: a local,
/// else (in class code) an instance variable, else a global.
pub open spec fn c_set(st: CView, name: Seq<char>) -> CView {
    match resolve_local(st.locals, name) {
        Some(slot) => emit(st, OpCode::OpSetLocal(slot)),
        None => if st.is_class {
            emit(add_const(st, ConstView::Str(name)).0, OpCode::OpSetPrivate(add_const(st, ConstView::Str(name)).1))
        } else {
            emit(add_const(st, ConstView::Str(name)).0, OpCode::OpSetGlobal(add_const(st, ConstView::Str(name)).1))
        },
    }
}

/// The instruction of a binary operator.
pub open spec fn binary_op(op: Seq<char>) -> Option<OpCode> {
    if op == "+"@ {
        Some(OpCode::OpAdd)
    } else if op == "-"@ {
        Some(OpCode::OpSubtract)
    } else if op == "*"@ {
        Some(OpCode::OpMultiply)
    } else if op == "/"@ {
        Some(OpCode::OpDivide)
    } else if op == "&"@ {
        Some(OpCode::OpStringConcat)
    } else if op == "=="@ {
        Some(OpCode::OpEqual)
    } else if op == "!="@ {
        Some(OpCode::OpNotEqual)
    } else if op == "<"@ {
        Some(OpCode::OpLess)
    } else if op == "<="@ {
        Some(OpCode::OpLessEqual)
    } else if op == ">"@ {
        Some(OpCode::OpGreater)
    } else if op == ">="@ {
        Some(OpCode::OpGreaterEqual)
    } else {
        None
    }
}

/// `OpInc` for `++`, else `OpDec`.
pub open spec fn step_op(op: Seq<char>) -> OpCode {
    if op == "++"@ {
        OpCode::OpInc
    } else {
        OpCode::OpDec
    }
}

/// A compiler for a function body: empty, at depth 1, with the parameters
/// as its first locals.
pub open spec fn function_start(is_class: bool, params: Seq<Seq<char>>) -> CView {
    CView {
        chunk: empty_chunk(),
        locals: params.map_values(|p: Seq<char>| (p, 1usize)),
        depth: 1,
        is_class,
    }
}

/// What compiling an expression emits: afterwards its value is on top of
/// the stack.
pub open spec fn c_expr(st: CView, e: Expression) -> Outcome
    decreases e, 1int,
{
    match e {
        Expression::New { class_name, args } => {
            let (s1, i) = add_const(st, ConstView::Str(class_name@));
            let (s2, r) = c_exprs(emit(s1, OpCode::OpGetGlobal(i)), args@);
            if r is Err {
                (s2, r)
            } else {
                (emit(s2, OpCode::OpNew(args@.len() as usize)), Ok(()))
            }
        },
        Expression::Literal(l) => c_lit(st, l),
        Expression::Binary { left, operator, right } => {
            let (s1, r1) = c_expr(st, *left);
            if r1 is Err {
                (s1, r1)
            } else {
                let (s2, r2) = c_expr(s1, *right);
                if r2 is Err {
                    (s2, r2)
                } else {
                    match binary_op(operator@) {
                        Some(op) => (emit(s2, op), Ok(())),
                        None => (s2, Err("Unknown operator: "@ + operator@)),
                    }
                }
            }
        },
        Expression::Identifier(name) => (c_ident(st, name@), Ok(())),
        Expression::Assignment { .. } => c_assign(st, e),
        Expression::FunctionCall { .. } => c_call(st, e),
        Expression::ArrayAccess { base, index } => {
            let (s1, r1) = c_expr(st, *base);
            if r1 is Err {
                (s1, r1)
            } else {
                let (s2, r2) = c_expr(s1, *index);
                if r2 is Err {
                    (s2, r2)
                } else {
                    (emit(s2, OpCode::OpIndex), Ok(()))
                }
            }
        },
        Expression::MemberAccess { base, member } => {
            let (s1, r) = c_expr(st, *base);
            if r is Err {
                (s1, r)
            } else {
                let (s2, i) = add_const(s1, ConstView::Str(member@));
                (emit(s2, OpCode::OpMember(i)), Ok(()))
            }
        },
        Expression::Prefix { .. } => c_prefix(st, e),
        Expression::Postfix { .. } => c_postfix(st, e),
    }
}

/// The expressions in order, stopping at the first error.
pub open spec fn c_exprs(st: CView, es: Seq<Expression>) -> Outcome
    decreases es, 0int,
{
    if es.len() == 0 {
        (st, Ok(()))
    } else {
        let (s1, r) = c_expr(st, es[0]);
        if r is Err {
            (s1, r)
        } else {
            c_exprs(s1, es.drop_first())
        }
    }
}

/// What compiling a literal emits.
pub open spec fn c_lit(st: CView, l: Literal) -> Outcome
    decreases l, 0int,
{
    match l {
        Literal::Number(n) => (emit_const(st, ConstView::Number(n)), Ok(())),
        Literal::String(parts) => if parts@.len() == 0 {
            (emit_const(st, ConstView::Str(Seq::empty())), Ok(()))
        } else {
            let (s1, r) = c_part(st, parts@[0]);
            if r is Err {
                (s1, r)
            } else {
                c_parts_rest(s1, parts@.drop_first())
            }
        },
        Literal::Boolean(b) => (emit_const(st, ConstView::Bool(b)), Ok(())),
        Literal::Null => (emit_const(st, ConstView::Null), Ok(())),
        Literal::Array(items) => {
            let (s1, r) = c_exprs(st, items@);
            if r is Err {
                (s1, r)
            } else {
                (emit(s1, OpCode::OpArray(items@.len() as usize)), Ok(()))
            }
        },
        Literal::Struct(members) => {
            let (s1, r) = c_pairs(st, members@);
            if r is Err {
                (s1, r)
            } else {
                (emit(s1, OpCode::OpStruct(members@.len() as usize)), Ok(()))
            }
        },
        Literal::Function { params, body } => match c_function(st.is_class, "anonymous"@, string_views(params@), body) {
            Ok(f) => (emit_const(st, ConstView::Function(f)), Ok(())),
            Err(m) => (st, Err(m)),
        },
    }
}

/// A piece of a string literal: text as a constant, or the expression.
pub open spec fn c_part(st: CView, p: StringPart) -> Outcome
    decreases p, 0int,
{
    match p {
        StringPart::Text(t) => (emit_const(st, ConstView::Str(t@)), Ok(())),
        StringPart::Expression(e) => c_expr(st, e),
    }
}

/// The parts after the first, each followed by a concatenation.
pub open spec fn c_parts_rest(st: CView, ps: Seq<StringPart>) -> Outcome
    decreases ps, 0int,
{
    if ps.len() == 0 {
        (st, Ok(()))
    } else {
        let (s1, r) = c_part(st, ps[0]);
        if r is Err {
            (s1, r)
        } else {
            c_parts_rest(emit(s1, OpCode::OpStringConcat), ps.drop_first())
        }
    }
}

/// The members of a struct literal: a name key as a string constant, any
/// other key evaluated, then the value.
pub open spec fn c_pairs(st: CView, ms: Seq<(Expression, Expression)>) -> Outcome
    decreases ms, 0int,
{
    if ms.len() == 0 {
        (st, Ok(()))
    } else {
        let (s1, r) = match ms[0].0 {
            Expression::Identifier(name) => (emit_const(st, ConstView::Str(name@)), Ok(())),
            _ => c_expr(st, ms[0].0),
        };
        if r is Err {
            (s1, r)
        } else {
            let (s2, r2) = c_expr(s1, ms[0].1);
            if r2 is Err {
                (s2, r2)
            } else {
                c_pairs(s2, ms.drop_first())
            }
        }
    }
}

/// A function compiled by its own compiler: a block ends by returning
/// `null`, an expression body returns its value.
#[verifier::opaque]
pub open spec fn c_function(is_class: bool, name: Seq<char>, params: Seq<Seq<char>>, body: FunctionBody) -> Result<
    FuncView,
    Seq<char>,
>
    decreases body, 0int,
{
    let start = function_start(is_class, params);
    let (s1, r) = match body {
        FunctionBody::Block(stmts) => {
            let (s, r) = c_stmts(start, stmts@);
            (emit(emit_const(s, ConstView::Null), OpCode::OpReturn), r)
        },
        FunctionBody::Expression(e) => {
            let (s, r) = c_expr(start, *e);
            (emit(s, OpCode::OpReturn), r)
        },
    };
    match r {
        Ok(_) => Ok(FuncView { name, arity: params.len() as usize, chunk: s1.chunk }),
        Err(m) => Err(m),
    }
}

/// The statements in order, stopping at the first error.
pub open spec fn c_stmts(st: CView, ss: Seq<Statement>) -> Outcome
    decreases ss, 0int,
{
    if ss.len() == 0 {
        (st, Ok(()))
    } else {
        let (s1, r) = c_stmt(st, ss[0]);
        if r is Err {
            (s1, r)
        } else {
            c_stmts(s1, ss.drop_first())
        }
    }
}

/// Closes the scope a block was compiled in, unless it failed.
pub open spec fn scoped_end(o: Outcome) -> Outcome {
    if o.1 is Err {
        o
    } else {
        (end(o.0), Ok(()))
    }
}

/// One member of a class body: a property becomes an initialisation in the
/// constructor, a function becomes a method (by lower-case name, a later
/// one replacing an earlier), any other statement goes into the
/// constructor.
pub open spec fn c_member(
    ctor: CView,
    methods: Seq<(Seq<char>, FuncView)>,
    m: ClassMember,
) -> (CView, Seq<(Seq<char>, FuncView)>, Result<(), Seq<char>>)
    decreases m, 0int,
{
    match m {
        ClassMember::Property(p) => {
            let s1 = emit_const(ctor, ConstView::Null);
            let (s2, i) = add_const(s1, ConstView::Str(p@));
            (emit(emit(s2, OpCode::OpSetPrivate(i)), OpCode::OpPop), methods, Ok(()))
        },
        ClassMember::Statement(s) => match s {
            Statement::FunctionDecl { name, params, body } => match c_function(
                true,
                name@,
                string_views(params@),
                body,
            ) {
                Ok(f) => (ctor, put(methods, lowercase(name@), f), Ok(())),
                Err(m) => (ctor, methods, Err(m)),
            },
            _ => {
                let (s1, r) = c_stmt(ctor, s);
                (s1, methods, r)
            },
        },
    }
}

/// The members of a class body in order, stopping at the first error.
pub open spec fn c_members(
    ctor: CView,
    methods: Seq<(Seq<char>, FuncView)>,
    ms: Seq<ClassMember>,
) -> (CView, Seq<(Seq<char>, FuncView)>, Result<(), Seq<char>>)
    decreases ms, 0int,
{
    if ms.len() == 0 {
        (ctor, methods, Ok(()))
    } else {
        let (c1, m1, r) = c_member(ctor, methods, ms[0]);
        if r is Err {
            (c1, m1, r)
        } else {
            c_members(c1, m1, ms.drop_first())
        }
    }
}

/// `c_members` unfolded once.
pub proof fn lemma_members_step(ctor: CView, methods: Seq<(Seq<char>, FuncView)>, ms: Seq<ClassMember>)
    requires
        ms.len() > 0,
    ensures
        c_member(ctor, methods, ms[0]).2 is Err ==> c_members(ctor, methods, ms) == c_member(ctor, methods, ms[0]),
        c_member(ctor, methods, ms[0]).2 is Ok ==> c_members(ctor, methods, ms) == c_members(
            c_member(ctor, methods, ms[0]).0,
            c_member(ctor, methods, ms[0]).1,
            ms.drop_first(),
        ),
{
}

/// An optional value, or `null`.
pub open spec fn c_opt(st: CView, e: Option<Expression>) -> Outcome
    decreases e, 0int,
{
    match e {
        Some(x) => c_expr(st, x),
        None => (emit_const(st, ConstView::Null), Ok(())),
    }
}

/// What compiling a statement emits.
pub open spec fn c_stmt(st: CView, s: Statement) -> Outcome
    decreases s, 1int,
{
    match s {
        Statement::ClassDecl { .. } => c_class(st, s),
        Statement::Expression(e) => {
            let (s1, r) = c_expr(st, e);
            if r is Err {
                (s1, r)
            } else {
                (emit(s1, OpCode::OpPop), Ok(()))
            }
        },
        Statement::Return(e) => {
            let (s1, r) = c_opt(st, e);
            if r is Err {
                (s1, r)
            } else {
                (emit(s1, OpCode::OpReturn), Ok(()))
            }
        },
        Statement::Throw(e) => {
            let (s1, r) = c_opt(st, e);
            if r is Err {
                (s1, r)
            } else {
                (emit(s1, OpCode::OpThrow), Ok(()))
            }
        },
        Statement::TryCatch { .. } => c_try(st, s),
        Statement::VariableDecl { name, value } => {
            let (s1, r) = c_expr(st, value);
            if r is Err {
                (s1, r)
            } else if s1.depth > 0 {
                (add_local(s1, name@), Ok(()))
            } else {
                let (s2, i) = add_const(s1, ConstView::Str(name@));
                (emit(s2, OpCode::OpDefineGlobal(i)), Ok(()))
            }
        },
        Statement::If { .. } => c_if(st, s),
        Statement::ForClassic { .. } => c_for(st, s),
        Statement::FunctionDecl { name, params, body } => match c_function(st.is_class, name@, string_views(params@), body) {
            Ok(f) => {
                let s1 = emit_const(st, ConstView::Function(f));
                let (s2, i) = add_const(s1, ConstView::Str(name@));
                (emit(s2, OpCode::OpDefineGlobal(i)), Ok(()))
            },
            Err(m) => (st, Err(m)),
        },
        Statement::ForLoop { .. } => c_for_in(st, s),
    }
}

/// A class declaration: its members are compiled into a constructor and
/// a method table, and the class is bound to its name as a global.
pub open spec fn c_class(st: CView, s: Statement) -> Outcome
    decreases s, 0int,
{
    match s {
        Statement::ClassDecl { name, members } => {
            let ctor = CView { chunk: empty_chunk(), locals: Seq::empty(), depth: 1, is_class: true };
            let (c1, methods, r) = c_members(ctor, Seq::empty(), members@);
            if r is Err {
                (st, r)
            } else {
                let class = ClassView { name: name@, constructor: emit(c1, OpCode::OpReturn).chunk, methods };
                let s1 = emit_const(st, ConstView::Class(class));
                let (s2, i) = add_const(s1, ConstView::Str(name@));
                (emit(s2, OpCode::OpDefineGlobal(i)), Ok(()))
            }
        },
        _ => (st, Ok(())),
    }
}

/// A `try` statement: a handler around the `try` block, the first catch
/// clause (or a rethrow), then the `finally` block.
pub open spec fn c_try(st: CView, s: Statement) -> Outcome
    decreases s, 0int,
{
    match s {
        Statement::TryCatch { try_branch, catches, finally_branch } => {
            let ph = here(st);
            let (s1, r) = scoped_end(c_stmts(begin(emit(st, OpCode::OpPushHandler(0))), try_branch@));
            if r is Err {
                (s1, r)
            } else {
                let s2 = emit(s1, OpCode::OpPopHandler);
                let jf = here(s2);
                let s3 = emit(s2, OpCode::OpJump(0));
                let s4 = patch(s3, ph, OpCode::OpPushHandler((here(s3) - ph - 1) as usize));
                let (s5, r2) = if catches@.len() > 0 {
                    c_scoped_with(s4, catches@[0])
                } else {
                    (emit(s4, OpCode::OpThrow), Ok(()))
                };
                if r2 is Err {
                    (s5, r2)
                } else {
                    let s6 = patch(s5, jf, OpCode::OpJump((here(s5) - jf - 1) as usize));
                    match finally_branch {
                        Some(fs) => scoped_end(c_stmts(begin(s6), fs@)),
                        None => (s6, Ok(())),
                    }
                }
            }
        },
        _ => (st, Ok(())),
    }
}

/// An `if` statement.
pub open spec fn c_if(st: CView, s: Statement) -> Outcome
    decreases s, 0int,
{
    match s {
        Statement::If { condition, then_branch, else_branch } => {
            let (s1, r) = c_expr(st, condition);
            if r is Err {
                (s1, r)
            } else {
                let jif = here(s1);
                let (s2, r2) = scoped_end(c_stmts(begin(emit(emit(s1, OpCode::OpJumpIfFalse(0)), OpCode::OpPop)), then_branch@));
                if r2 is Err {
                    (s2, r2)
                } else {
                    let j = here(s2);
                    let s3 = emit(s2, OpCode::OpJump(0));
                    let s4 = emit(patch(s3, jif, OpCode::OpJumpIfFalse((here(s3) - jif - 1) as usize)), OpCode::OpPop);
                    let (s5, r3) = match else_branch {
                        Some(es) => scoped_end(c_stmts(begin(s4), es@)),
                        None => (s4, Ok(())),
                    };
                    if r3 is Err {
                        (s5, r3)
                    } else {
                        (patch(s5, j, OpCode::OpJump((here(s5) - j - 1) as usize)), Ok(()))
                    }
                }
            }
        },
        _ => (st, Ok(())),
    }
}

/// A classic `for` loop.
pub open spec fn c_for(st: CView, s: Statement) -> Outcome
    decreases s, 0int,
{
    match s {
        Statement::ForClassic { init, condition, update, body } => {
            let s0 = begin(st);
            let (s1, r1) = match init {
                Some(b) => c_stmt(s0, *b),
                None => (s0, Ok(())),
            };
            if r1 is Err {
                (s1, r1)
            } else {
                let ls = here(s1);
                let (s2, r2) = match condition {
                    Some(c) => {
                        let (a, ra) = c_expr(s1, c);
                        if ra is Err {
                            (a, ra)
                        } else {
                            (emit(emit(a, OpCode::OpJumpIfFalse(0)), OpCode::OpPop), Ok(()))
                        }
                    },
                    None => (s1, Ok(())),
                };
                let exit = here(s2) - 2;
                if r2 is Err {
                    (s2, r2)
                } else {
                    let (s3, r3) = c_stmts(s2, body@);
                    if r3 is Err {
                        (s3, r3)
                    } else {
                        let (s4, r4) = match update {
                            Some(u) => {
                                let (a, ra) = c_expr(s3, u);
                                if ra is Err {
                                    (a, ra)
                                } else {
                                    (emit(a, OpCode::OpPop), Ok(()))
                                }
                            },
                            None => (s3, Ok(())),
                        };
                        if r4 is Err {
                            (s4, r4)
                        } else {
                            let s5 = emit(s4, OpCode::OpLoop((here(s4) - ls + 1) as usize));
                            let s6 = if condition is Some {
                                emit(patch(s5, exit, OpCode::OpJumpIfFalse((here(s5) - exit - 1) as usize)), OpCode::OpPop)
                            } else {
                                s5
                            };
                            (end(s6), Ok(()))
                        }
                    }
                }
            }
        },
        _ => (st, Ok(())),
    }
}

/// A `for ... in` loop over a collection, with hidden locals for the
/// collection and the cursor.
pub open spec fn c_for_in(st: CView, s: Statement) -> Outcome
    decreases s, 0int,
{
    match s {
        Statement::ForLoop { item, index, collection, body } => {
            let s0 = begin(st);
            let (s1, r) = c_expr(s0, collection);
            if r is Err {
                (s1, r)
            } else {
                let cs = s1.locals.len() as usize;
                let s2 = emit_const(add_local(s1, "$collection"@), ConstView::Number(0));
                let cur = s2.locals.len() as usize;
                let s3 = add_local(s2, "$cursor"@);
                let at = here(s3);
                let s4 = emit(s3, OpCode::OpIterNext(cs, cur, 0, index is Some));
                let s5 = match index {
                    Some(ix) => add_local(add_local(s4, item@), ix@),
                    None => add_local(s4, item@),
                };
                let (s6, r2) = c_stmts(s5, body@);
                if r2 is Err {
                    (s6, r2)
                } else {
                    let s7 = if index is Some {
                        pop_top(emit(s6, OpCode::OpPop))
                    } else {
                        s6
                    };
                    let s8 = pop_top(emit(s7, OpCode::OpPop));
                    let s9 = emit(s8, OpCode::OpLoop((here(s8) - at + 1) as usize));
                    let s10 = patch(s9, at, OpCode::OpIterNext(cs, cur, (here(s9) - at - 1) as usize, index is Some));
                    (end(s10), Ok(()))
                }
            }
        },
        _ => (st, Ok(())),
    }
}

/// An assignment.
pub open spec fn c_assign(st: CView, e: Expression) -> Outcome
    decreases e, 0int,
{
    match e {
        Expression::Assignment { target, value } => match target {
            AssignmentTarget::Identifier(name) => if lowercase(name@) == "variables"@ {
                (st, Err("Cannot assign to the 'variables' scope directly"@))
            } else {
                let (s1, r) = c_expr(st, *value);
                if r is Err {
                    (s1, r)
                } else {
                    (c_set(s1, name@), Ok(()))
                }
            },
            AssignmentTarget::Member { base, member } => {
                let (s1, r1) = c_expr(st, *base);
                if r1 is Err {
                    (s1, r1)
                } else {
                    let (s2, r2) = c_expr(s1, *value);
                    if r2 is Err {
                        (s2, r2)
                    } else {
                        let (s3, i) = add_const(s2, ConstView::Str(member@));
                        (emit(s3, OpCode::OpSetMember(i)), Ok(()))
                    }
                }
            },
            AssignmentTarget::Index { base, index } => {
                let (s1, r1) = c_expr(st, *base);
                if r1 is Err {
                    (s1, r1)
                } else {
                    let (s2, r2) = c_expr(s1, *index);
                    if r2 is Err {
                        (s2, r2)
                    } else {
                        let (s3, r3) = c_expr(s2, *value);
                        if r3 is Err {
                            (s3, r3)
                        } else {
                            (emit(s3, OpCode::OpSetIndex), Ok(()))
                        }
                    }
                }
            },
        },
        _ => (st, Ok(())),
    }
}

/// A call: `println`/`echo` and `print` (any case) become print
/// instructions followed by a `null` result; a call of a member becomes an
/// invocation; any other call evaluates the callee and the arguments.
pub open spec fn c_call(st: CView, e: Expression) -> Outcome
    decreases e, 0int,
{
    match e {
        Expression::FunctionCall { base, args } => {
            let n = args@.len() as usize;
            let generic = {
                let (s1, r) = c_expr(st, *base);
                if r is Err {
                    (s1, r)
                } else {
                    let (s2, r2) = c_exprs(s1, args@);
                    if r2 is Err {
                        (s2, r2)
                    } else {
                        (emit(s2, OpCode::OpCall(n)), Ok(()))
                    }
                }
            };
            match *base {
                Expression::Identifier(name) => {
                    let low = lowercase(name@);
                    if low == "println"@ || low == "echo"@ || low == "print"@ {
                        let (s1, r) = c_exprs(st, args@);
                        if r is Err {
                            (s1, r)
                        } else {
                            let op = if low == "print"@ {
                                OpCode::OpPrint(n)
                            } else {
                                OpCode::OpPrintln(n)
                            };
                            (emit_const(emit(s1, op), ConstView::Null), Ok(()))
                        }
                    } else {
                        generic
                    }
                },
                Expression::MemberAccess { base: object, member } => {
                    let (s1, r) = c_expr(st, *object);
                    if r is Err {
                        (s1, r)
                    } else {
                        let (s2, r2) = c_exprs(s1, args@);
                        if r2 is Err {
                            (s2, r2)
                        } else {
                            let (s3, i) = add_const(s2, ConstView::Str(member@));
                            (emit(s3, OpCode::OpInvoke(i, n)), Ok(()))
                        }
                    }
                },
                _ => generic,
            }
        },
        _ => (st, Ok(())),
    }
}

/// A prefix increment or decrement.
pub open spec fn c_prefix(st: CView, e: Expression) -> Outcome
    decreases e, 0int,
{
    match e {
        Expression::Prefix { operator, target } => {
            let step = step_op(operator@);
            match target {
                AssignmentTarget::Identifier(name) => (c_set(emit(c_ident(st, name@), step), name@), Ok(())),
                AssignmentTarget::Member { base, member } => {
                    let (s1, r) = c_expr(st, *base);
                    if r is Err {
                        (s1, r)
                    } else {
                        let (s2, i) = add_const(emit(s1, OpCode::OpDup), ConstView::Str(member@));
                        (emit(emit(emit(s2, OpCode::OpMember(i)), step), OpCode::OpSetMember(i)), Ok(()))
                    }
                },
                AssignmentTarget::Index { base, index } => {
                    let (s1, r1) = c_expr(st, *base);
                    if r1 is Err {
                        (s1, r1)
                    } else {
                        let (s2, r2) = c_expr(s1, *index);
                        if r2 is Err {
                            (s2, r2)
                        } else {
                            (emit(s2, OpCode::OpDup), Err("Prefix ops on indexed targets not yet implemented"@))
                        }
                    }
                },
            }
        },
        _ => (st, Ok(())),
    }
}

/// A postfix increment or decrement: the old value stays on the stack.
pub open spec fn c_postfix(st: CView, e: Expression) -> Outcome
    decreases e, 0int,
{
    match e {
        Expression::Postfix { base, operator } => {
            let step = step_op(operator@);
            match *base {
                Expression::Identifier(name) => {
                    let s1 = emit(emit(c_ident(st, name@), OpCode::OpDup), step);
                    (emit(c_set(s1, name@), OpCode::OpPop), Ok(()))
                },
                Expression::MemberAccess { base: object, member } => {
                    let (s1, r) = c_expr(st, *object);
                    if r is Err {
                        (s1, r)
                    } else {
                        let (s2, i) = add_const(emit(s1, OpCode::OpDup), ConstView::Str(member@));
                        let s3 = emit(emit(emit(emit(s2, OpCode::OpMember(i)), OpCode::OpSwap), OpCode::OpOver), step);
                        (emit(emit(s3, OpCode::OpSetMember(i)), OpCode::OpPop), Ok(()))
                    }
                },
                _ => (st, Err("Postfix ops only supported on identifiers and members currently"@)),
            }
        },
        _ => (st, Ok(())),
    }
}

/// The first catch clause, in its own scope with the exception as its
/// first local.
pub open spec fn c_scoped_with(st: CView, c: CatchClause) -> Outcome
    decreases c, 0int,
{
    scoped_end(c_stmts(add_local(begin(st), c.exception_var@), c.body@))
}

/// The binary expression `left operator right`.
pub open spec fn binary_expr(left: Expression, operator: String, right: Expression) -> Expression {
    Expression::Binary { left: Box::new(left), operator, right: Box::new(right) }
}

/// Each binary operator compiles to its own instruction: the code of the
/// left operand, then of the right one, then `OpAdd` for `+`, `OpSubtract`
/// for `-`, `OpMultiply` for `*`, `OpDivide` for `/`, `OpStringConcat` for
/// `&`, and the comparison of the same meaning for `==`, `!=`, `<`, `<=`,
/// `>`, `>=`; any other operator is an error naming it.
pub proof fn lemma_binary_operator_instruction(st: CView, left: Expression, operator: String, right: Expression, after: CView)
    requires
        c_expr(st, left).1 is Ok,
        c_expr(c_expr(st, left).0, right).1 is Ok,
        after == c_expr(c_expr(st, left).0, right).0,
    ensures
        operator@ == "+"@ ==> c_expr(st, binary_expr(left, operator, right)) == (emit(after, OpCode::OpAdd), Ok::<(), Seq<char>>(())),
        operator@ == "-"@ ==> c_expr(st, binary_expr(left, operator, right)) == (emit(after, OpCode::OpSubtract), Ok::<(), Seq<char>>(())),
        operator@ == "*"@ ==> c_expr(st, binary_expr(left, operator, right)) == (emit(after, OpCode::OpMultiply), Ok::<(), Seq<char>>(())),
        operator@ == "/"@ ==> c_expr(st, binary_expr(left, operator, right)) == (emit(after, OpCode::OpDivide), Ok::<(), Seq<char>>(())),
        operator@ == "&"@ ==> c_expr(st, binary_expr(left, operator, right)) == (emit(after, OpCode::OpStringConcat), Ok::<(), Seq<char>>(())),
        operator@ == "=="@ ==> c_expr(st, binary_expr(left, operator, right)) == (emit(after, OpCode::OpEqual), Ok::<(), Seq<char>>(())),
        operator@ == "!="@ ==> c_expr(st, binary_expr(left, operator, right)) == (emit(after, OpCode::OpNotEqual), Ok::<(), Seq<char>>(())),
        operator@ == "<"@ ==> c_expr(st, binary_expr(left, operator, right)) == (emit(after, OpCode::OpLess), Ok::<(), Seq<char>>(())),
        operator@ == "<="@ ==> c_expr(st, binary_expr(left, operator, right)) == (emit(after, OpCode::OpLessEqual), Ok::<(), Seq<char>>(())),
        operator@ == ">"@ ==> c_expr(st, binary_expr(left, operator, right)) == (emit(after, OpCode::OpGreater), Ok::<(), Seq<char>>(())),
        operator@ == ">="@ ==> c_expr(st, binary_expr(left, operator, right)) == (emit(after, OpCode::OpGreaterEqual), Ok::<(), Seq<char>>(())),
        operator@ != "+"@ && operator@ != "-"@ && operator@ != "*"@ && operator@ != "/"@ && operator@ != "&"@ && operator@ != "=="@ && operator@ != "!="@ && operator@ != "<"@ && operator@ != "<="@ && operator@ != ">"@ && operator@ != ">="@ ==> c_expr(st, binary_expr(left, operator, right)) == (after, Err::<(), Seq<char>>("Unknown operator: "@ + operator@)),
{
    reveal_strlit("+");
    reveal_strlit("-");
    reveal_strlit("*");
    reveal_strlit("/");
    reveal_strlit("&");
    reveal_strlit("==");
    reveal_strlit("!=");
    reveal_strlit("<");
    reveal_strlit("<=");
    reveal_strlit(">");
    reveal_strlit(">=");
    assert("+"@.len() == 1 && "+"@[0] == '+');
    assert("-"@.len() == 1 && "-"@[0] == '-');
    assert("*"@.len() == 1 && "*"@[0] == '*');
    assert("/"@.len() == 1 && "/"@[0] == '/');
    assert("&"@.len() == 1 && "&"@[0] == '&');
    assert("=="@.len() == 2 && "=="@[0] == '=' && "=="@[1] == '=');
    assert("!="@.len() == 2 && "!="@[0] == '!' && "!="@[1] == '=');
    assert("<"@.len() == 1 && "<"@[0] == '<');
    assert("<="@.len() == 2 && "<="@[0] == '<' && "<="@[1] == '=');
    assert(">"@.len() == 1 && ">"@[0] == '>');
    assert(">="@.len() == 2 && ">="@[0] == '>' && ">="@[1] == '=');
}

/// The number of nodes of an expression: what bounds how deep the scopes
/// it opens (in the bodies of function literals) can nest.
pub open spec fn sz_expr(e: Expression) -> nat
    decreases e,
{
    match e {
        Expression::New { args, .. } => 1 + sz_exprs(args@),
        Expression::Literal(l) => 1 + sz_lit(l),
        Expression::Binary { left, right, .. } => 1 + sz_expr(*left) + sz_expr(*right),
        Expression::Identifier(_) => 1,
        Expression::Assignment { target, value } => 1 + sz_target(target) + sz_expr(*value),
        Expression::FunctionCall { base, args } => 1 + sz_expr(*base) + sz_exprs(args@),
        Expression::ArrayAccess { base, index } => 1 + sz_expr(*base) + sz_expr(*index),
        Expression::MemberAccess { base, .. } => 1 + sz_expr(*base),
        Expression::Prefix { target, .. } => 1 + sz_target(target),
        Expression::Postfix { base, .. } => 1 + sz_expr(*base),
    }
}

/// The number of nodes of an assignment target.
pub open spec fn sz_target(t: AssignmentTarget) -> nat
    decreases t,
{
    match t {
        AssignmentTarget::Identifier(_) => 1,
        AssignmentTarget::Member { base, .. } => 1 + sz_expr(*base),
        AssignmentTarget::Index { base, index } => 1 + sz_expr(*base) + sz_expr(*index),
    }
}

/// The number of nodes of a list of expressions.
pub open spec fn sz_exprs(es: Seq<Expression>) -> nat
    decreases es,
{
    if es.len() == 0 {
        0
    } else {
        sz_expr(es[0]) + sz_exprs(es.drop_first())
    }
}

/// The number of nodes of a literal.
pub open spec fn sz_lit(l: Literal) -> nat
    decreases l,
{
    match l {
        Literal::String(parts) => 1 + sz_parts(parts@),
        Literal::Array(items) => 1 + sz_exprs(items@),
        Literal::Struct(members) => 1 + sz_pairs(members@),
        Literal::Function { body, .. } => 1 + sz_body(body),
        _ => 1,
    }
}

/// The number of nodes of a piece of a string literal.
pub open spec fn sz_part(p: StringPart) -> nat
    decreases p,
{
    match p {
        StringPart::Text(_) => 1,
        StringPart::Expression(e) => 1 + sz_expr(e),
    }
}

/// The number of nodes of the pieces of a string literal.
pub open spec fn sz_parts(ps: Seq<StringPart>) -> nat
    decreases ps,
{
    if ps.len() == 0 {
        0
    } else {
        sz_part(ps[0]) + sz_parts(ps.drop_first())
    }
}

/// The number of nodes of the members of a struct literal.
pub open spec fn sz_pairs(ms: Seq<(Expression, Expression)>) -> nat
    decreases ms,
{
    if ms.len() == 0 {
        0
    } else {
        sz_expr(ms[0].0) + sz_expr(ms[0].1) + sz_pairs(ms.drop_first())
    }
}

/// The number of nodes of a function body.
pub open spec fn sz_body(b: FunctionBody) -> nat
    decreases b,
{
    match b {
        FunctionBody::Block(ss) => 1 + sz_stmts(ss@),
        FunctionBody::Expression(e) => 1 + sz_expr(*e),
    }
}

/// The number of nodes of a statement: what bounds how deep the scopes it
/// opens can nest.
pub open spec fn sz_stmt(s: Statement) -> nat
    decreases s,
{
    match s {
        Statement::ClassDecl { members, .. } => 1 + sz_members(members@),
        Statement::Expression(e) => 1 + sz_expr(e),
        Statement::Return(o) => 1 + sz_opt(o),
        Statement::Throw(o) => 1 + sz_opt(o),
        Statement::TryCatch { try_branch, catches, finally_branch } => {
            let fin: nat = match finally_branch {
                Some(fs) => sz_stmts(fs@),
                None => 0,
            };
            1 + sz_stmts(try_branch@) + sz_catches(catches@) + fin
        },
        Statement::VariableDecl { value, .. } => 1 + sz_expr(value),
        Statement::If { condition, then_branch, else_branch } => {
            let els: nat = match else_branch {
                Some(es) => sz_stmts(es@),
                None => 0,
            };
            1 + sz_expr(condition) + sz_stmts(then_branch@) + els
        },
        Statement::ForClassic { init, condition, update, body } => {
            let ini: nat = match init {
                Some(b) => sz_stmt(*b),
                None => 0,
            };
            1 + ini + sz_opt(condition) + sz_opt(update) + sz_stmts(body@)
        },
        Statement::FunctionDecl { body, .. } => 1 + sz_body(body),
        Statement::ForLoop { collection, body, .. } => 1 + sz_expr(collection) + sz_stmts(body@),
    }
}

/// The number of nodes of an optional expression.
pub open spec fn sz_opt(o: Option<Expression>) -> nat
    decreases o,
{
    match o {
        Some(e) => sz_expr(e),
        None => 0,
    }
}

/// The number of nodes of a list of statements.
pub open spec fn sz_stmts(ss: Seq<Statement>) -> nat
    decreases ss,
{
    if ss.len() == 0 {
        0
    } else {
        sz_stmt(ss[0]) + sz_stmts(ss.drop_first())
    }
}

/// The number of nodes of the bodies of catch clauses.
pub open spec fn sz_catches(cs: Seq<CatchClause>) -> nat
    decreases cs,
{
    if cs.len() == 0 {
        0
    } else {
        sz_stmts(cs[0].body@) + sz_catches(cs.drop_first())
    }
}

/// The number of nodes of the members of a class body.
pub open spec fn sz_members(ms: Seq<ClassMember>) -> nat
    decreases ms,
{
    if ms.len() == 0 {
        0
    } else {
        let head: nat = match ms[0] {
            ClassMember::Property(_) => 1,
            ClassMember::Statement(s) => sz_stmt(s),
        };
        head + sz_members(ms.drop_first())
    }
}

} // verus!
