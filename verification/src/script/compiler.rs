//! The script compiler: turns a syntax tree into the script runner's
//! bytecode, node by node as the functions of `codegen` say.
use vstd::prelude::*;
use crate::text::{lowercase, to_lowercase, str_eq};
use crate::assoc::{put, lemma_put_update, lemma_put_push};
use crate::script::ast::{
    Statement, Expression, Literal, StringPart, FunctionBody, ClassMember, AssignmentTarget, CatchClause,
};
use crate::script::chunk::Chunk;
use crate::script::opcode::OpCode;
use crate::script::types::{BxCompiledFunction, BxClass};
use crate::script::codegen::{
    Constant, ConstView, CView, Local, const_v, func_v, chunk_v, consts_v, methods_v, locals_v,
    lemma_consts_len, lemma_consts_push, lemma_methods_index, empty_chunk, emit, add_const, emit_const, here,
    patch, begin, pop_locals, end, add_local, resolve_local, c_ident, c_set, binary_op, step_op,
    function_start, c_expr, c_exprs, c_lit, c_part, c_parts_rest, c_pairs, c_function, c_stmts, scoped_end,
    c_members, c_member, lemma_members_step, c_opt, c_try, c_if, c_for, c_for_in, c_class, c_assign, c_call,
    c_prefix, c_postfix, c_stmt, c_scoped_with, pop_top, sz_expr, sz_target, sz_exprs, sz_lit, sz_part, sz_parts,
    sz_pairs, sz_body, sz_stmt, sz_opt, sz_stmts, sz_catches, sz_members,
};
use crate::vm::chunk::string_views;

verus! {

broadcast use {
    vstd::std_specs::vec::axiom_vec_decreases_to_view,
    vstd::std_specs::vec::axiom_vec_index_decreases,
    vstd::seq::axiom_seq_subrange_decreases,
    vstd::seq::axiom_seq_index_decreases,
};

/// Why a script did not compile.
#[derive(Debug)]
pub struct CompileError {
    pub message: String,
}

impl View for CompileError {
    type V = Seq<char>;

    open spec fn view(&self) -> Seq<char> {
        self.message@
    }
}

/// A compile result agrees with the outcome that `codegen` gives.
pub open spec fn agrees(r: Result<(), CompileError>, o: Result<(), Seq<char>>) -> bool {
    match r {
        Ok(_) => o is Ok,
        Err(e) => o == Err::<(), Seq<char>>(e@),
    }
}

/// The compiler: the chunk being written, the locals in stack order, the
/// scope depth, and whether class code is being compiled.
pub struct Compiler {
    chunk: Chunk<Constant>,
    locals: Vec<Local>,
    scope_depth: usize,
    is_class: bool,
}

impl View for Compiler {
    type V = CView;

    closed spec fn view(&self) -> CView {
        CView {
            chunk: chunk_v(self.chunk),
            locals: locals_v(self.locals@),
            depth: self.scope_depth as nat,
            is_class: self.is_class,
        }
    }
}

/// The instruction of a binary operator.
fn binary_opcode(op: &str) -> (r: Option<OpCode>)
    ensures
        r == binary_op(op@),
{
    if str_eq(op, "+") {
        Some(OpCode::OpAdd)
    } else if str_eq(op, "-") {
        Some(OpCode::OpSubtract)
    } else if str_eq(op, "*") {
        Some(OpCode::OpMultiply)
    } else if str_eq(op, "/") {
        Some(OpCode::OpDivide)
    } else if str_eq(op, "&") {
        Some(OpCode::OpStringConcat)
    } else if str_eq(op, "==") {
        Some(OpCode::OpEqual)
    } else if str_eq(op, "!=") {
        Some(OpCode::OpNotEqual)
    } else if str_eq(op, "<") {
        Some(OpCode::OpLess)
    } else if str_eq(op, "<=") {
        Some(OpCode::OpLessEqual)
    } else if str_eq(op, ">") {
        Some(OpCode::OpGreater)
    } else if str_eq(op, ">=") {
        Some(OpCode::OpGreaterEqual)
    } else {
        None
    }
}

/// `OpInc` for `++`, else `OpDec`.
fn step_opcode(op: &str) -> (r: OpCode)
    ensures
        r == step_op(op@),
{
    if str_eq(op, "++") {
        OpCode::OpInc
    } else {
        OpCode::OpDec
    }
}

fn error(message: String) -> (r: Result<(), CompileError>)
    ensures
        r == Err::<(), CompileError>(CompileError { message }),
{
    Err(CompileError { message })
}

impl Compiler {
    /// A compiler for top-level code: an empty chunk, no locals, depth 0.
    pub fn new() -> (c: Self)
        ensures
            c@ == (CView { chunk: empty_chunk(), locals: Seq::empty(), depth: 0, is_class: false }),
    {
        let c = Compiler { chunk: Chunk::default(), locals: Vec::new(), scope_depth: 0, is_class: false };
        proof {
            assert(c.chunk.constants@ =~= Seq::<Constant>::empty());
            assert(consts_v(c.chunk.constants@) =~= Seq::<ConstView>::empty());
            assert(c.chunk.code@ =~= Seq::<OpCode>::empty());
            assert(c.chunk.lines@ =~= Seq::<usize>::empty());
            assert(c.chunk.filename@ =~= Seq::<char>::empty());
            assert(locals_v(c.locals@) =~= Seq::empty());
        }
        c
    }

    fn emit(&mut self, op: OpCode)
        ensures
            final(self)@.chunk.lines.len() - final(self)@.chunk.code.len() == old(self)@.chunk.lines.len() - old(self)@.chunk.code.len(),
            final(self)@ == emit(old(self)@, op),
    {
        self.chunk.write(op, 0);
    }

    fn add_const(&mut self, c: Constant) -> (i: usize)
        ensures
            final(self)@.chunk.lines.len() - final(self)@.chunk.code.len() == old(self)@.chunk.lines.len() - old(self)@.chunk.code.len(),
            (final(self)@, i) == add_const(old(self)@, const_v(c)),
    {
        proof {
            lemma_consts_push(self.chunk.constants@, c);
            lemma_consts_len(self.chunk.constants@);
        }
        self.chunk.add_constant(c)
    }

    fn emit_const(&mut self, c: Constant)
        ensures
            final(self)@.chunk.lines.len() - final(self)@.chunk.code.len() == old(self)@.chunk.lines.len() - old(self)@.chunk.code.len(),
            final(self)@ == emit_const(old(self)@, const_v(c)),
    {
        let i = self.add_const(c);
        self.emit(OpCode::OpConstant(i));
    }

    fn patch(&mut self, i: usize, op: OpCode)
        requires
            i < old(self)@.chunk.code.len(),
        ensures
            final(self)@.chunk.lines.len() - final(self)@.chunk.code.len() == old(self)@.chunk.lines.len() - old(self)@.chunk.code.len(),
            final(self)@ == patch(old(self)@, i as int, op),
    {
        self.chunk.code.set(i, op);
    }

    fn begin_scope(&mut self)
        requires
            old(self)@.depth < usize::MAX,
        ensures
            final(self)@.chunk.lines.len() - final(self)@.chunk.code.len() == old(self)@.chunk.lines.len() - old(self)@.chunk.code.len(),
            final(self)@ == begin(old(self)@),
    {
        self.scope_depth = self.scope_depth + 1;
    }

    fn end_scope(&mut self)
        requires
            old(self)@.depth > 0,
        ensures
            final(self)@.chunk.lines.len() - final(self)@.chunk.code.len() == old(self)@.chunk.lines.len() - old(self)@.chunk.code.len(),
            final(self)@ == end(old(self)@),
            final(self)@.depth == old(self)@.depth - 1,
            final(self)@.is_class == old(self)@.is_class,
            old(self)@.chunk.code.len() <= final(self)@.chunk.code.len(),
    {
        self.scope_depth = self.scope_depth - 1;
        let ghost target = end(old(self)@);
        loop
            invariant
                pop_locals(self@) == target,
                self@.depth == old(self)@.depth - 1,
                self@.is_class == old(self)@.is_class,
                old(self)@.chunk.code.len() <= self@.chunk.code.len(),
                self@.chunk.lines.len() - self@.chunk.code.len() == old(self)@.chunk.lines.len() - old(self)@.chunk.code.len(),
            ensures
                self@ == target,
            decreases self.locals.len(),
        {
            let n = self.locals.len();
            if n > 0 && self.locals[n - 1].depth > self.scope_depth {
                let ghost before = self@;
                self.locals.pop();
                assert(locals_v(self.locals@) =~= before.locals.drop_last());
                self.emit(OpCode::OpPop);
            } else {
                proof {
                    if n > 0 {
                        assert(self@.locals.last() == (self.locals@[n - 1].name@, self.locals@[n - 1].depth));
                    }
                }
                break;
            }
        }
    }

    fn add_local(&mut self, name: String)
        ensures
            final(self)@.chunk.lines.len() - final(self)@.chunk.code.len() == old(self)@.chunk.lines.len() - old(self)@.chunk.code.len(),
            final(self)@ == add_local(old(self)@, name@),
    {
        self.locals.push(Local { name, depth: self.scope_depth });
        assert(locals_v(self.locals@) =~= locals_v(old(self).locals@).push((name@, self.scope_depth)));
    }

    /// The stack slot of the innermost local named `name`, ignoring case.
    fn resolve_local(&self, name: &str) -> (r: Option<usize>)
        ensures
            r == resolve_local(self@.locals, name@),
    {
        let low = to_lowercase(name);
        let ghost all = self@.locals;
        let mut i: usize = self.locals.len();
        assert(all.take(i as int) =~= all);
        while i > 0
            invariant
                i <= all.len(),
                all == self@.locals,
                all.len() == self.locals@.len(),
                low@ == lowercase(name@),
                resolve_local(all, name@) == resolve_local(all.take(i as int), name@),
            decreases i,
        {
            let ln = to_lowercase(self.locals[i - 1].name.as_str());
            assert(all.take(i as int).last() == all[i - 1]);
            assert(all.take(i as int).drop_last() =~= all.take(i - 1));
            if str_eq(ln.as_str(), low.as_str()) {
                return Some(i - 1);
            }
            i = i - 1;
        }
        None
    }

    /// Reads the variable `name` (see `c_ident`).
    fn get_variable(&mut self, name: &String)
        ensures
            final(self)@.chunk.lines.len() - final(self)@.chunk.code.len() == old(self)@.chunk.lines.len() - old(self)@.chunk.code.len(),
            final(self)@ == c_ident(old(self)@, name@),
    {
        let low = to_lowercase(name.as_str());
        if str_eq(low.as_str(), "this") {
            let i = self.add_const(Constant::String("this".to_owned()));
            self.emit(OpCode::OpGetPrivate(i));
        } else if str_eq(low.as_str(), "variables") {
            let i = self.add_const(Constant::String("variables".to_owned()));
            self.emit(OpCode::OpGetPrivate(i));
        } else {
            match self.resolve_local(name.as_str()) {
                Some(slot) => self.emit(OpCode::OpGetLocal(slot)),
                None => {
                    if self.is_class {
                        let i = self.add_const(Constant::String(name.clone()));
                        self.emit(OpCode::OpGetPrivate(i));
                    } else {
                        let i = self.add_const(Constant::String(name.clone()));
                        self.emit(OpCode::OpGetGlobal(i));
                    }
                },
            }
        }
    }

    /// Stores the top of the stack into the variable `name` (see `c_set`).
    fn set_variable(&mut self, name: &String)
        ensures
            final(self)@.chunk.lines.len() - final(self)@.chunk.code.len() == old(self)@.chunk.lines.len() - old(self)@.chunk.code.len(),
            final(self)@ == c_set(old(self)@, name@),
    {
        match self.resolve_local(name.as_str()) {
            Some(slot) => self.emit(OpCode::OpSetLocal(slot)),
            None => {
                if self.is_class {
                    let i = self.add_const(Constant::String(name.clone()));
                    self.emit(OpCode::OpSetPrivate(i));
                } else {
                    let i = self.add_const(Constant::String(name.clone()));
                    self.emit(OpCode::OpSetGlobal(i));
                }
            },
        }
    }
    /// Forgets the innermost local, if there is one.
    fn pop_local(&mut self)
        ensures
            final(self)@.chunk.lines.len() - final(self)@.chunk.code.len() == old(self)@.chunk.lines.len() - old(self)@.chunk.code.len(),
            final(self)@ == pop_top(old(self)@),
    {
        if self.locals.len() > 0 {
            self.locals.pop();
            assert(locals_v(self.locals@) =~= locals_v(old(self).locals@).drop_last());
        }
    }

    /// Compiles a script: its statements in order, then a return.
    pub fn compile(self, ast: &[Statement]) -> (r: Result<Chunk<Constant>, CompileError>)
        requires
            self@.depth + sz_stmts(ast@) <= usize::MAX,
        ensures
            match c_stmts(self@, ast@) {
                (s, Ok(_)) => r is Ok && chunk_v(r->Ok_0) == emit(s, OpCode::OpReturn).chunk,
                (_, Err(m)) => r is Err && r->Err_0@ == m,
            },
            r is Ok ==> r->Ok_0.lines@.len() - r->Ok_0.code@.len() == self@.chunk.lines.len() - self@.chunk.code.len(),
    {
        let mut this = self;
        let ghost s0 = this@;
        let mut i: usize = 0;
        assert(ast@.skip(0) =~= ast@);
        while i < ast.len()
            invariant
                i <= ast@.len(),
                s0 == self@,
                this@.chunk.lines.len() - this@.chunk.code.len() == s0.chunk.lines.len() - s0.chunk.code.len(),
                c_stmts(s0, ast@) == c_stmts(this@, ast@.skip(i as int)),
                this@.depth == s0.depth,
                this@.depth + sz_stmts(ast@.skip(i as int)) <= usize::MAX,
            decreases ast.len() - i,
        {
            assert(ast@.skip(i as int).drop_first() =~= ast@.skip(i + 1));
            assert(ast@.skip(i as int)[0] == ast@[i as int]);
            let r = this.compile_statement(&ast[i]);
            if let Err(e) = r {
                return Err(e);
            }
            i = i + 1;
        }
        assert(ast@.skip(i as int) =~= Seq::<Statement>::empty());
        this.emit(OpCode::OpReturn);
        Ok(this.chunk)
    }

    /// The expressions in order, stopping at the first error.
    #[verifier::spinoff_prover]
    fn compile_exprs(&mut self, es: &Vec<Expression>) -> (r: Result<(), CompileError>)
        requires
            old(self)@.depth + sz_exprs(es@) <= usize::MAX,
        ensures
            final(self)@.chunk.lines.len() - final(self)@.chunk.code.len() == old(self)@.chunk.lines.len() - old(self)@.chunk.code.len(),
            final(self)@ == c_exprs(old(self)@, es@).0,
            agrees(r, c_exprs(old(self)@, es@).1),
            final(self)@.depth == old(self)@.depth,
            final(self)@.is_class == old(self)@.is_class,
            old(self)@.chunk.code.len() <= final(self)@.chunk.code.len(),
        decreases es, 0int,
    {
        let ghost s0 = self@;
        let mut i: usize = 0;
        assert(es@.skip(0) =~= es@);
        while i < es.len()
            invariant
                i <= es@.len(),
                s0 == old(self)@,
                self@.chunk.lines.len() - self@.chunk.code.len() == s0.chunk.lines.len() - s0.chunk.code.len(),
                c_exprs(s0, es@) == c_exprs(self@, es@.skip(i as int)),
                self@.depth == s0.depth,
                self@.is_class == s0.is_class,
                s0.chunk.code.len() <= self@.chunk.code.len(),
                self@.depth + sz_exprs(es@.skip(i as int)) <= usize::MAX,
            decreases es.len() - i,
        {
            assert(es@.skip(i as int).drop_first() =~= es@.skip(i + 1));
            assert(es@.skip(i as int)[0] == es@[i as int]);
            let r = self.compile_expression(&es[i]);
            if r.is_err() {
                return r;
            }
            i = i + 1;
        }
        assert(es@.skip(i as int) =~= Seq::<Expression>::empty());
        Ok(())
    }

    /// Compiles an expression: afterwards its value is on top of the stack.
    #[verifier::spinoff_prover]
    pub fn compile_expression(&mut self, expr: &Expression) -> (r: Result<(), CompileError>)
        requires
            old(self)@.depth + sz_expr(*expr) <= usize::MAX,
        ensures
            final(self)@.chunk.lines.len() - final(self)@.chunk.code.len() == old(self)@.chunk.lines.len() - old(self)@.chunk.code.len(),
            final(self)@ == c_expr(old(self)@, *expr).0,
            agrees(r, c_expr(old(self)@, *expr).1),
            final(self)@.depth == old(self)@.depth,
            final(self)@.is_class == old(self)@.is_class,
            old(self)@.chunk.code.len() <= final(self)@.chunk.code.len(),
        decreases expr, 3int,
    {
        match expr {
            Expression::New { class_name, args } => {
                let i = self.add_const(Constant::String(class_name.clone()));
                self.emit(OpCode::OpGetGlobal(i));
                let r = self.compile_exprs(args);
                if r.is_err() {
                    return r;
                }
                self.emit(OpCode::OpNew(args.len()));
                Ok(())
            },
            Expression::Literal(l) => self.compile_literal(l),
            Expression::Binary { left, operator, right } => {
                let r = self.compile_expression(left);
                if r.is_err() {
                    return r;
                }
                let r = self.compile_expression(right);
                if r.is_err() {
                    return r;
                }
                match binary_opcode(operator.as_str()) {
                    Some(op) => {
                        self.emit(op);
                        Ok(())
                    },
                    None => error("Unknown operator: ".to_owned().concat(operator.as_str())),
                }
            },
            Expression::Identifier(name) => {
                self.get_variable(name);
                Ok(())
            },
            Expression::Assignment { .. } => self.compile_assignment(expr),
            Expression::FunctionCall { .. } => self.compile_call(expr),
            Expression::ArrayAccess { base, index } => {
                let r = self.compile_expression(base);
                if r.is_err() {
                    return r;
                }
                let r = self.compile_expression(index);
                if r.is_err() {
                    return r;
                }
                self.emit(OpCode::OpIndex);
                Ok(())
            },
            Expression::MemberAccess { base, member } => {
                let r = self.compile_expression(base);
                if r.is_err() {
                    return r;
                }
                let i = self.add_const(Constant::String(member.clone()));
                self.emit(OpCode::OpMember(i));
                Ok(())
            },
            Expression::Prefix { .. } => self.compile_prefix(expr),
            Expression::Postfix { .. } => self.compile_postfix(expr),
        }
    }

    #[verifier::spinoff_prover]
    fn compile_assignment(&mut self, expr: &Expression) -> (r: Result<(), CompileError>)
        requires
            expr is Assignment,
            old(self)@.depth + sz_expr(*expr) <= usize::MAX,
        ensures
            final(self)@.chunk.lines.len() - final(self)@.chunk.code.len() == old(self)@.chunk.lines.len() - old(self)@.chunk.code.len(),
            final(self)@ == c_assign(old(self)@, *expr).0,
            agrees(r, c_assign(old(self)@, *expr).1),
            final(self)@.depth == old(self)@.depth,
            final(self)@.is_class == old(self)@.is_class,
            old(self)@.chunk.code.len() <= final(self)@.chunk.code.len(),
        decreases expr, 2int,
    {
        proof {
            reveal_with_fuel(sz_expr, 3);
            reveal_with_fuel(sz_target, 2);
        }
        match expr {
            Expression::Assignment { target, value } => match target {
                AssignmentTarget::Identifier(name) => {
                    let low = to_lowercase(name.as_str());
                    if str_eq(low.as_str(), "variables") {
                        return error("Cannot assign to the 'variables' scope directly".to_owned());
                    }
                    let r = self.compile_expression(value);
                    if r.is_err() {
                        return r;
                    }
                    self.set_variable(name);
                    Ok(())
                },
                AssignmentTarget::Member { base, member } => {
                    let r = self.compile_expression(base);
                    if r.is_err() {
                        return r;
                    }
                    let r = self.compile_expression(value);
                    if r.is_err() {
                        return r;
                    }
                    let i = self.add_const(Constant::String(member.clone()));
                    self.emit(OpCode::OpSetMember(i));
                    Ok(())
                },
                AssignmentTarget::Index { base, index } => {
                    let r = self.compile_expression(base);
                    if r.is_err() {
                        return r;
                    }
                    let r = self.compile_expression(index);
                    if r.is_err() {
                        return r;
                    }
                    let r = self.compile_expression(value);
                    if r.is_err() {
                        return r;
                    }
                    self.emit(OpCode::OpSetIndex);
                    Ok(())
                },
            },
            _ => Ok(()),
        }
    }

    #[verifier::spinoff_prover]
    fn compile_call(&mut self, expr: &Expression) -> (r: Result<(), CompileError>)
        requires
            expr is FunctionCall,
            old(self)@.depth + sz_expr(*expr) <= usize::MAX,
        ensures
            final(self)@.chunk.lines.len() - final(self)@.chunk.code.len() == old(self)@.chunk.lines.len() - old(self)@.chunk.code.len(),
            final(self)@ == c_call(old(self)@, *expr).0,
            agrees(r, c_call(old(self)@, *expr).1),
            final(self)@.depth == old(self)@.depth,
            final(self)@.is_class == old(self)@.is_class,
            old(self)@.chunk.code.len() <= final(self)@.chunk.code.len(),
        decreases expr, 2int,
    {
        proof {
            reveal_with_fuel(sz_expr, 3);
            reveal_with_fuel(sz_target, 2);
        }
        match expr {
            Expression::FunctionCall { base, args } => {
                match &**base {
                    Expression::Identifier(name) => {
                        let low = to_lowercase(name.as_str());
                        if str_eq(low.as_str(), "println") || str_eq(low.as_str(), "echo") || str_eq(
                            low.as_str(),
                            "print",
                        ) {
                            let r = self.compile_exprs(args);
                            if r.is_err() {
                                return r;
                            }
                            if str_eq(low.as_str(), "print") {
                                self.emit(OpCode::OpPrint(args.len()));
                            } else {
                                self.emit(OpCode::OpPrintln(args.len()));
                            }
                            self.emit_const(Constant::Null);
                            return Ok(());
                        }
                    },
                    Expression::MemberAccess { base: object, member } => {
                        let r = self.compile_expression(object);
                        if r.is_err() {
                            return r;
                        }
                        let r = self.compile_exprs(args);
                        if r.is_err() {
                            return r;
                        }
                        let i = self.add_const(Constant::String(member.clone()));
                        self.emit(OpCode::OpInvoke(i, args.len()));
                        return Ok(());
                    },
                    _ => {},
                }
                let r = self.compile_expression(base);
                if r.is_err() {
                    return r;
                }
                let r = self.compile_exprs(args);
                if r.is_err() {
                    return r;
                }
                self.emit(OpCode::OpCall(args.len()));
                Ok(())
            },
            _ => Ok(()),
        }
    }

    #[verifier::spinoff_prover]
    fn compile_prefix(&mut self, expr: &Expression) -> (r: Result<(), CompileError>)
        requires
            expr is Prefix,
            old(self)@.depth + sz_expr(*expr) <= usize::MAX,
        ensures
            final(self)@.chunk.lines.len() - final(self)@.chunk.code.len() == old(self)@.chunk.lines.len() - old(self)@.chunk.code.len(),
            final(self)@ == c_prefix(old(self)@, *expr).0,
            agrees(r, c_prefix(old(self)@, *expr).1),
            final(self)@.depth == old(self)@.depth,
            final(self)@.is_class == old(self)@.is_class,
            old(self)@.chunk.code.len() <= final(self)@.chunk.code.len(),
        decreases expr, 2int,
    {
        proof {
            reveal_with_fuel(sz_expr, 3);
            reveal_with_fuel(sz_target, 2);
        }
        match expr {
            Expression::Prefix { operator, target } => {
                let step = step_opcode(operator.as_str());
                match target {
                    AssignmentTarget::Identifier(name) => {
                        self.get_variable(name);
                        self.emit(step);
                        self.set_variable(name);
                        Ok(())
                    },
                    AssignmentTarget::Member { base, member } => {
                        let r = self.compile_expression(base);
                        if r.is_err() {
                            return r;
                        }
                        self.emit(OpCode::OpDup);
                        let i = self.add_const(Constant::String(member.clone()));
                        self.emit(OpCode::OpMember(i));
                        self.emit(step);
                        self.emit(OpCode::OpSetMember(i));
                        Ok(())
                    },
                    AssignmentTarget::Index { base, index } => {
                        let r = self.compile_expression(base);
                        if r.is_err() {
                            return r;
                        }
                        let r = self.compile_expression(index);
                        if r.is_err() {
                            return r;
                        }
                        self.emit(OpCode::OpDup);
                        error("Prefix ops on indexed targets not yet implemented".to_owned())
                    },
                }
            },
            _ => Ok(()),
        }
    }

    #[verifier::spinoff_prover]
    fn compile_postfix(&mut self, expr: &Expression) -> (r: Result<(), CompileError>)
        requires
            expr is Postfix,
            old(self)@.depth + sz_expr(*expr) <= usize::MAX,
        ensures
            final(self)@.chunk.lines.len() - final(self)@.chunk.code.len() == old(self)@.chunk.lines.len() - old(self)@.chunk.code.len(),
            final(self)@ == c_postfix(old(self)@, *expr).0,
            agrees(r, c_postfix(old(self)@, *expr).1),
            final(self)@.depth == old(self)@.depth,
            final(self)@.is_class == old(self)@.is_class,
            old(self)@.chunk.code.len() <= final(self)@.chunk.code.len(),
        decreases expr, 2int,
    {
        proof {
            reveal_with_fuel(sz_expr, 3);
            reveal_with_fuel(sz_target, 2);
        }
        match expr {
            Expression::Postfix { base, operator } => {
                let step = step_opcode(operator.as_str());
                match &**base {
                    Expression::Identifier(name) => {
                        self.get_variable(name);
                        self.emit(OpCode::OpDup);
                        self.emit(step);
                        self.set_variable(name);
                        self.emit(OpCode::OpPop);
                        Ok(())
                    },
                    Expression::MemberAccess { base: object, member } => {
                        let r = self.compile_expression(object);
                        if r.is_err() {
                            return r;
                        }
                        self.emit(OpCode::OpDup);
                        let i = self.add_const(Constant::String(member.clone()));
                        self.emit(OpCode::OpMember(i));
                        self.emit(OpCode::OpSwap);
                        self.emit(OpCode::OpOver);
                        self.emit(step);
                        self.emit(OpCode::OpSetMember(i));
                        self.emit(OpCode::OpPop);
                        Ok(())
                    },
                    _ => error("Postfix ops only supported on identifiers and members currently".to_owned()),
                }
            },
            _ => Ok(()),
        }
    }
    #[verifier::spinoff_prover]
    fn compile_literal(&mut self, l: &Literal) -> (r: Result<(), CompileError>)
        requires
            old(self)@.depth + sz_lit(*l) <= usize::MAX,
        ensures
            final(self)@.chunk.lines.len() - final(self)@.chunk.code.len() == old(self)@.chunk.lines.len() - old(self)@.chunk.code.len(),
            final(self)@ == c_lit(old(self)@, *l).0,
            agrees(r, c_lit(old(self)@, *l).1),
            final(self)@.depth == old(self)@.depth,
            final(self)@.is_class == old(self)@.is_class,
            old(self)@.chunk.code.len() <= final(self)@.chunk.code.len(),
        decreases l, 1int,
    {
        match l {
            Literal::Number(n) => {
                self.emit_const(Constant::Number(*n));
                Ok(())
            },
            Literal::String(_) => self.compile_string_literal(l),
            Literal::Boolean(b) => {
                self.emit_const(Constant::Boolean(*b));
                Ok(())
            },
            Literal::Null => {
                self.emit_const(Constant::Null);
                Ok(())
            },
            Literal::Array(items) => {
                let r = self.compile_exprs(items);
                if r.is_err() {
                    return r;
                }
                self.emit(OpCode::OpArray(items.len()));
                Ok(())
            },
            Literal::Struct(members) => {
                let r = self.compile_pairs(members);
                if r.is_err() {
                    return r;
                }
                self.emit(OpCode::OpStruct(members.len()));
                Ok(())
            },
            Literal::Function { .. } => self.compile_function_literal(l),
        }
    }

    #[verifier::spinoff_prover]
    fn compile_string_literal(&mut self, l: &Literal) -> (r: Result<(), CompileError>)
        requires
            l is String,
            old(self)@.depth + sz_lit(*l) <= usize::MAX,
        ensures
            final(self)@.chunk.lines.len() - final(self)@.chunk.code.len() == old(self)@.chunk.lines.len() - old(self)@.chunk.code.len(),
            final(self)@ == c_lit(old(self)@, *l).0,
            agrees(r, c_lit(old(self)@, *l).1),
            final(self)@.depth == old(self)@.depth,
            final(self)@.is_class == old(self)@.is_class,
            old(self)@.chunk.code.len() <= final(self)@.chunk.code.len(),
        decreases l, 0int,
    {
        match l {
            Literal::String(parts) => {
                if parts.len() == 0 {
                    self.emit_const(Constant::String(String::new()));
                    return Ok(());
                }
                let r = self.compile_part(&parts[0]);
                if r.is_err() {
                    return r;
                }
                assert(parts@.drop_first() =~= parts@.skip(1));
                self.compile_parts_rest(parts, 1)
            },
            _ => Ok(()),
        }
    }

    #[verifier::spinoff_prover]
    fn compile_function_literal(&mut self, l: &Literal) -> (r: Result<(), CompileError>)
        requires
            l is Function,
            old(self)@.depth + sz_lit(*l) <= usize::MAX,
        ensures
            final(self)@.chunk.lines.len() - final(self)@.chunk.code.len() == old(self)@.chunk.lines.len() - old(self)@.chunk.code.len(),
            final(self)@ == c_lit(old(self)@, *l).0,
            agrees(r, c_lit(old(self)@, *l).1),
            final(self)@.depth == old(self)@.depth,
            final(self)@.is_class == old(self)@.is_class,
            old(self)@.chunk.code.len() <= final(self)@.chunk.code.len(),
        decreases l, 0int,
    {
        match l {
            Literal::Function { params, body } => {
                match compile_function(self.is_class, "anonymous", params, body) {
                    Ok(f) => {
                        self.emit_const(Constant::CompiledFunction(Box::new(f)));
                        Ok(())
                    },
                    Err(e) => Err(e),
                }
            },
            _ => Ok(()),
        }
    }

    #[verifier::spinoff_prover]
    fn compile_part(&mut self, p: &StringPart) -> (r: Result<(), CompileError>)
        requires
            old(self)@.depth + sz_part(*p) <= usize::MAX,
        ensures
            final(self)@.chunk.lines.len() - final(self)@.chunk.code.len() == old(self)@.chunk.lines.len() - old(self)@.chunk.code.len(),
            final(self)@ == c_part(old(self)@, *p).0,
            agrees(r, c_part(old(self)@, *p).1),
            final(self)@.depth == old(self)@.depth,
            final(self)@.is_class == old(self)@.is_class,
            old(self)@.chunk.code.len() <= final(self)@.chunk.code.len(),
        decreases p, 0int,
    {
        match p {
            StringPart::Text(t) => {
                self.emit_const(Constant::String(t.clone()));
                Ok(())
            },
            StringPart::Expression(e) => self.compile_expression(e),
        }
    }

    /// The parts from `from` on, each followed by a concatenation.
    #[verifier::spinoff_prover]
    fn compile_parts_rest(&mut self, ps: &Vec<StringPart>, from: usize) -> (r: Result<(), CompileError>)
        requires
            from <= ps@.len(),
            old(self)@.depth + sz_parts(ps@.skip(from as int)) <= usize::MAX,
        ensures
            final(self)@.chunk.lines.len() - final(self)@.chunk.code.len() == old(self)@.chunk.lines.len() - old(self)@.chunk.code.len(),
            final(self)@ == c_parts_rest(old(self)@, ps@.skip(from as int)).0,
            agrees(r, c_parts_rest(old(self)@, ps@.skip(from as int)).1),
            final(self)@.depth == old(self)@.depth,
            final(self)@.is_class == old(self)@.is_class,
            old(self)@.chunk.code.len() <= final(self)@.chunk.code.len(),
        decreases ps, 0int,
    {
        let ghost s0 = self@;
        let mut i: usize = from;
        while i < ps.len()
            invariant
                from <= i <= ps@.len(),
                s0 == old(self)@,
                self@.chunk.lines.len() - self@.chunk.code.len() == s0.chunk.lines.len() - s0.chunk.code.len(),
                c_parts_rest(s0, ps@.skip(from as int)) == c_parts_rest(self@, ps@.skip(i as int)),
                self@.depth == s0.depth,
                self@.is_class == s0.is_class,
                s0.chunk.code.len() <= self@.chunk.code.len(),
                self@.depth + sz_parts(ps@.skip(i as int)) <= usize::MAX,
            decreases ps.len() - i,
        {
            assert(ps@.skip(i as int).drop_first() =~= ps@.skip(i + 1));
            assert(ps@.skip(i as int)[0] == ps@[i as int]);
            let r = self.compile_part(&ps[i]);
            if r.is_err() {
                return r;
            }
            self.emit(OpCode::OpStringConcat);
            i = i + 1;
        }
        assert(ps@.skip(i as int) =~= Seq::<StringPart>::empty());
        Ok(())
    }

    /// The members of a struct literal (see `c_pairs`).
    #[verifier::spinoff_prover]
    fn compile_pairs(&mut self, ms: &Vec<(Expression, Expression)>) -> (r: Result<(), CompileError>)
        requires
            old(self)@.depth + sz_pairs(ms@) <= usize::MAX,
        ensures
            final(self)@.chunk.lines.len() - final(self)@.chunk.code.len() == old(self)@.chunk.lines.len() - old(self)@.chunk.code.len(),
            final(self)@ == c_pairs(old(self)@, ms@).0,
            agrees(r, c_pairs(old(self)@, ms@).1),
            final(self)@.depth == old(self)@.depth,
            final(self)@.is_class == old(self)@.is_class,
            old(self)@.chunk.code.len() <= final(self)@.chunk.code.len(),
        decreases ms, 0int,
    {
        let ghost s0 = self@;
        let mut i: usize = 0;
        assert(ms@.skip(0) =~= ms@);
        while i < ms.len()
            invariant
                i <= ms@.len(),
                s0 == old(self)@,
                self@.chunk.lines.len() - self@.chunk.code.len() == s0.chunk.lines.len() - s0.chunk.code.len(),
                c_pairs(s0, ms@) == c_pairs(self@, ms@.skip(i as int)),
                self@.depth == s0.depth,
                self@.is_class == s0.is_class,
                s0.chunk.code.len() <= self@.chunk.code.len(),
                self@.depth + sz_pairs(ms@.skip(i as int)) <= usize::MAX,
            decreases ms.len() - i,
        {
            assert(ms@.skip(i as int).drop_first() =~= ms@.skip(i + 1));
            assert(ms@.skip(i as int)[0] == ms@[i as int]);
            let pair = &ms[i];
            match &pair.0 {
                Expression::Identifier(name) => {
                    self.emit_const(Constant::String(name.clone()));
                },
                _ => {
                    let r = self.compile_expression(&pair.0);
                    if r.is_err() {
                        return r;
                    }
                },
            }
            let r = self.compile_expression(&pair.1);
            if r.is_err() {
                return r;
            }
            i = i + 1;
        }
        assert(ms@.skip(i as int) =~= Seq::<(Expression, Expression)>::empty());
        Ok(())
    }
    /// The statements in order, stopping at the first error.
    #[verifier::spinoff_prover]
    fn compile_stmts(&mut self, ss: &Vec<Statement>) -> (r: Result<(), CompileError>)
        requires
            old(self)@.depth + sz_stmts(ss@) <= usize::MAX,
        ensures
            final(self)@.chunk.lines.len() - final(self)@.chunk.code.len() == old(self)@.chunk.lines.len() - old(self)@.chunk.code.len(),
            final(self)@ == c_stmts(old(self)@, ss@).0,
            agrees(r, c_stmts(old(self)@, ss@).1),
            final(self)@.is_class == old(self)@.is_class,
            r is Ok ==> final(self)@.depth == old(self)@.depth,
            old(self)@.chunk.code.len() <= final(self)@.chunk.code.len(),
        decreases ss, 0int,
    {
        let ghost s0 = self@;
        let mut i: usize = 0;
        assert(ss@.skip(0) =~= ss@);
        while i < ss.len()
            invariant
                i <= ss@.len(),
                s0 == old(self)@,
                self@.chunk.lines.len() - self@.chunk.code.len() == s0.chunk.lines.len() - s0.chunk.code.len(),
                c_stmts(s0, ss@) == c_stmts(self@, ss@.skip(i as int)),
                self@.depth == s0.depth,
                self@.is_class == s0.is_class,
                s0.chunk.code.len() <= self@.chunk.code.len(),
                self@.depth + sz_stmts(ss@.skip(i as int)) <= usize::MAX,
            decreases ss.len() - i,
        {
            assert(ss@.skip(i as int).drop_first() =~= ss@.skip(i + 1));
            assert(ss@.skip(i as int)[0] == ss@[i as int]);
            let r = self.compile_statement(&ss[i]);
            if r.is_err() {
                return r;
            }
            i = i + 1;
        }
        assert(ss@.skip(i as int) =~= Seq::<Statement>::empty());
        Ok(())
    }

    /// An optional value, or `null`.
    #[verifier::spinoff_prover]
    fn compile_opt(&mut self, o: &Option<Expression>) -> (r: Result<(), CompileError>)
        requires
            old(self)@.depth + sz_opt(*o) <= usize::MAX,
        ensures
            final(self)@.chunk.lines.len() - final(self)@.chunk.code.len() == old(self)@.chunk.lines.len() - old(self)@.chunk.code.len(),
            final(self)@ == c_opt(old(self)@, *o).0,
            agrees(r, c_opt(old(self)@, *o).1),
            final(self)@.depth == old(self)@.depth,
            final(self)@.is_class == old(self)@.is_class,
            old(self)@.chunk.code.len() <= final(self)@.chunk.code.len(),
        decreases o, 0int,
    {
        match o {
            Some(e) => self.compile_expression(e),
            None => {
                self.emit_const(Constant::Null);
                Ok(())
            },
        }
    }

    /// Compiles a statement.
    #[verifier::spinoff_prover]
    pub fn compile_statement(&mut self, stmt: &Statement) -> (r: Result<(), CompileError>)
        requires
            old(self)@.depth + sz_stmt(*stmt) <= usize::MAX,
        ensures
            final(self)@.chunk.lines.len() - final(self)@.chunk.code.len() == old(self)@.chunk.lines.len() - old(self)@.chunk.code.len(),
            final(self)@ == c_stmt(old(self)@, *stmt).0,
            agrees(r, c_stmt(old(self)@, *stmt).1),
            final(self)@.is_class == old(self)@.is_class,
            r is Ok ==> final(self)@.depth == old(self)@.depth,
            old(self)@.chunk.code.len() <= final(self)@.chunk.code.len(),
        decreases stmt, 3int,
    {
        match stmt {
            Statement::ClassDecl { .. } => self.compile_class(stmt),
            Statement::Expression(_) => self.compile_simple(stmt),
            Statement::Return(_) => self.compile_simple(stmt),
            Statement::Throw(_) => self.compile_simple(stmt),
            Statement::TryCatch { .. } => self.compile_try(stmt),
            Statement::VariableDecl { .. } => self.compile_simple(stmt),
            Statement::If { .. } => self.compile_if(stmt),
            Statement::ForClassic { .. } => self.compile_for_classic(stmt),
            Statement::FunctionDecl { .. } => self.compile_function_decl(stmt),
            Statement::ForLoop { .. } => self.compile_for_in(stmt),
        }
    }

    /// An expression statement, `return`, `throw` or a variable declaration.
    #[verifier::spinoff_prover]
    #[verifier::rlimit(40)]
    fn compile_simple(&mut self, stmt: &Statement) -> (r: Result<(), CompileError>)
        requires
            stmt is Expression || stmt is Return || stmt is Throw || stmt is VariableDecl,
            old(self)@.depth + sz_stmt(*stmt) <= usize::MAX,
        ensures
            final(self)@.chunk.lines.len() - final(self)@.chunk.code.len() == old(self)@.chunk.lines.len() - old(self)@.chunk.code.len(),
            final(self)@ == c_stmt(old(self)@, *stmt).0,
            agrees(r, c_stmt(old(self)@, *stmt).1),
            final(self)@.is_class == old(self)@.is_class,
            r is Ok ==> final(self)@.depth == old(self)@.depth,
            old(self)@.chunk.code.len() <= final(self)@.chunk.code.len(),
        decreases stmt, 2int,
    {
        match stmt {
            Statement::Expression(e) => {
                let r = self.compile_expression(e);
                if r.is_err() {
                    return r;
                }
                self.emit(OpCode::OpPop);
                Ok(())
            },
            Statement::Return(o) => {
                let r = self.compile_opt(o);
                if r.is_err() {
                    return r;
                }
                self.emit(OpCode::OpReturn);
                Ok(())
            },
            Statement::Throw(o) => {
                let r = self.compile_opt(o);
                if r.is_err() {
                    return r;
                }
                self.emit(OpCode::OpThrow);
                Ok(())
            },
            Statement::VariableDecl { name, value } => {
                let r = self.compile_expression(value);
                if r.is_err() {
                    return r;
                }
                if self.scope_depth > 0 {
                    self.add_local(name.clone());
                } else {
                    let i = self.add_const(Constant::String(name.clone()));
                    self.emit(OpCode::OpDefineGlobal(i));
                }
                Ok(())
            },
            _ => Ok(()),
        }
    }

    #[verifier::spinoff_prover]
    fn compile_function_decl(&mut self, stmt: &Statement) -> (r: Result<(), CompileError>)
        requires
            stmt is FunctionDecl,
            old(self)@.depth + sz_stmt(*stmt) <= usize::MAX,
        ensures
            final(self)@.chunk.lines.len() - final(self)@.chunk.code.len() == old(self)@.chunk.lines.len() - old(self)@.chunk.code.len(),
            final(self)@ == c_stmt(old(self)@, *stmt).0,
            agrees(r, c_stmt(old(self)@, *stmt).1),
            final(self)@.is_class == old(self)@.is_class,
            r is Ok ==> final(self)@.depth == old(self)@.depth,
            old(self)@.chunk.code.len() <= final(self)@.chunk.code.len(),
        decreases stmt, 2int,
    {
        match stmt {
            Statement::FunctionDecl { name, params, body } => {
                match compile_function(self.is_class, name.as_str(), params, body) {
                    Ok(f) => {
                        self.emit_const(Constant::CompiledFunction(Box::new(f)));
                        let i = self.add_const(Constant::String(name.clone()));
                        self.emit(OpCode::OpDefineGlobal(i));
                        Ok(())
                    },
                    Err(e) => Err(e),
                }
            },
            _ => Ok(()),
        }
    }

    /// A block in a scope of its own (see `scoped_end`).
    #[verifier::spinoff_prover]
    fn compile_block(&mut self, ss: &Vec<Statement>) -> (r: Result<(), CompileError>)
        requires
            old(self)@.depth + 1 + sz_stmts(ss@) <= usize::MAX,
        ensures
            final(self)@.chunk.lines.len() - final(self)@.chunk.code.len() == old(self)@.chunk.lines.len() - old(self)@.chunk.code.len(),
            final(self)@ == scoped_end(c_stmts(begin(old(self)@), ss@)).0,
            agrees(r, scoped_end(c_stmts(begin(old(self)@), ss@)).1),
            final(self)@.is_class == old(self)@.is_class,
            r is Ok ==> final(self)@.depth == old(self)@.depth,
            old(self)@.chunk.code.len() <= final(self)@.chunk.code.len(),
        decreases ss, 1int,
    {
        self.begin_scope();
        let r = self.compile_stmts(ss);
        if r.is_err() {
            return r;
        }
        self.end_scope();
        Ok(())
    }

    #[verifier::spinoff_prover]
    fn compile_try(&mut self, stmt: &Statement) -> (r: Result<(), CompileError>)
        requires
            stmt is TryCatch,
            old(self)@.depth + sz_stmt(*stmt) <= usize::MAX,
        ensures
            final(self)@.chunk.lines.len() - final(self)@.chunk.code.len() == old(self)@.chunk.lines.len() - old(self)@.chunk.code.len(),
            final(self)@ == c_try(old(self)@, *stmt).0,
            agrees(r, c_try(old(self)@, *stmt).1),
            final(self)@.is_class == old(self)@.is_class,
            r is Ok ==> final(self)@.depth == old(self)@.depth,
            old(self)@.chunk.code.len() <= final(self)@.chunk.code.len(),
        decreases stmt, 2int,
    {
        match stmt {
            Statement::TryCatch { try_branch, catches, finally_branch } => {
                let ghost st = self@;
                let ph = self.chunk.code.len();
                assert(ph == here(st));
                self.emit(OpCode::OpPushHandler(0));
                let r = self.compile_block(try_branch);
                if r.is_err() {
                    return r;
                }
                let ghost s1 = self@;
                assert(s1 == scoped_end(c_stmts(begin(emit(st, OpCode::OpPushHandler(0))), try_branch@)).0);
                self.emit(OpCode::OpPopHandler);
                let jf = self.chunk.code.len();
                self.emit(OpCode::OpJump(0));
                let ghost s3 = self@;
                let target = self.chunk.code.len();
                self.patch(ph, OpCode::OpPushHandler(target - ph - 1));
                let ghost s4 = self@;
                assert(s4 == patch(s3, ph as int, OpCode::OpPushHandler((here(s3) - ph - 1) as usize)));
                if catches.len() > 0 {
                    assert(sz_catches(catches@) == sz_stmts(catches@[0].body@) + sz_catches(catches@.drop_first()));
                    let r = self.compile_catch(&catches[0]);
                    if r.is_err() {
                        return r;
                    }
                } else {
                    self.emit(OpCode::OpThrow);
                }
                let ghost s5 = self@;
                let finally_target = self.chunk.code.len();
                self.patch(jf, OpCode::OpJump(finally_target - jf - 1));
                let ghost s6 = self@;
                assert(s6 == patch(s5, jf as int, OpCode::OpJump((here(s5) - jf - 1) as usize)));
                match finally_branch {
                    Some(fs) => self.compile_block(fs),
                    None => Ok(()),
                }
            },
            _ => Ok(()),
        }
    }

    /// The first catch clause: its body in a scope of its own, with the
    /// exception as its first local.
    #[verifier::spinoff_prover]
    fn compile_catch(&mut self, c: &CatchClause) -> (r: Result<(), CompileError>)
        requires
            old(self)@.depth + 1 + sz_stmts(c.body@) <= usize::MAX,
        ensures
            final(self)@.chunk.lines.len() - final(self)@.chunk.code.len() == old(self)@.chunk.lines.len() - old(self)@.chunk.code.len(),
            final(self)@ == c_scoped_with(old(self)@, *c).0,
            agrees(r, c_scoped_with(old(self)@, *c).1),
            final(self)@.is_class == old(self)@.is_class,
            r is Ok ==> final(self)@.depth == old(self)@.depth,
            old(self)@.chunk.code.len() <= final(self)@.chunk.code.len(),
        decreases c, 0int,
    {
        self.begin_scope();
        self.add_local(c.exception_var.clone());
        let r = self.compile_stmts(&c.body);
        if r.is_err() {
            return r;
        }
        self.end_scope();
        Ok(())
    }

    #[verifier::spinoff_prover]
    fn compile_if(&mut self, stmt: &Statement) -> (r: Result<(), CompileError>)
        requires
            stmt is If,
            old(self)@.depth + sz_stmt(*stmt) <= usize::MAX,
        ensures
            final(self)@.chunk.lines.len() - final(self)@.chunk.code.len() == old(self)@.chunk.lines.len() - old(self)@.chunk.code.len(),
            final(self)@ == c_if(old(self)@, *stmt).0,
            agrees(r, c_if(old(self)@, *stmt).1),
            final(self)@.is_class == old(self)@.is_class,
            r is Ok ==> final(self)@.depth == old(self)@.depth,
            old(self)@.chunk.code.len() <= final(self)@.chunk.code.len(),
        decreases stmt, 2int,
    {
        match stmt {
            Statement::If { condition, then_branch, else_branch } => {
                let r = self.compile_expression(condition);
                if r.is_err() {
                    return r;
                }
                let jif = self.chunk.code.len();
                self.emit(OpCode::OpJumpIfFalse(0));
                self.emit(OpCode::OpPop);
                let r = self.compile_block(then_branch);
                if r.is_err() {
                    return r;
                }
                let j = self.chunk.code.len();
                self.emit(OpCode::OpJump(0));
                let false_target = self.chunk.code.len();
                self.patch(jif, OpCode::OpJumpIfFalse(false_target - jif - 1));
                self.emit(OpCode::OpPop);
                match else_branch {
                    Some(es) => {
                        let r = self.compile_block(es);
                        if r.is_err() {
                            return r;
                        }
                    },
                    None => {},
                }
                let end_target = self.chunk.code.len();
                self.patch(j, OpCode::OpJump(end_target - j - 1));
                Ok(())
            },
            _ => Ok(()),
        }
    }

    /// Appends a backward jump to `start`.
    fn emit_loop(&mut self, start: usize)
        requires
            start <= old(self)@.chunk.code.len(),
        ensures
            final(self)@.chunk.lines.len() - final(self)@.chunk.code.len() == old(self)@.chunk.lines.len() - old(self)@.chunk.code.len(),
            final(self)@ == emit(old(self)@, OpCode::OpLoop((here(old(self)@) - start + 1) as usize)),
    {
        let ghost s0 = self@;
        self.emit(OpCode::OpLoop(0));
        let n = self.chunk.code.len();
        self.patch(n - 1, OpCode::OpLoop(n - start));
        assert(self@.chunk.code =~= s0.chunk.code.push(OpCode::OpLoop((here(s0) - start + 1) as usize)));
    }

    #[verifier::spinoff_prover]
    fn compile_for_classic(&mut self, stmt: &Statement) -> (r: Result<(), CompileError>)
        requires
            stmt is ForClassic,
            old(self)@.depth + sz_stmt(*stmt) <= usize::MAX,
        ensures
            final(self)@.chunk.lines.len() - final(self)@.chunk.code.len() == old(self)@.chunk.lines.len() - old(self)@.chunk.code.len(),
            final(self)@ == c_for(old(self)@, *stmt).0,
            agrees(r, c_for(old(self)@, *stmt).1),
            final(self)@.is_class == old(self)@.is_class,
            r is Ok ==> final(self)@.depth == old(self)@.depth,
            old(self)@.chunk.code.len() <= final(self)@.chunk.code.len(),
        decreases stmt, 2int,
    {
        match stmt {
            Statement::ForClassic { init, condition, update, body } => {
                self.begin_scope();
                match init {
                    Some(b) => {
                        let r = self.compile_statement(b);
                        if r.is_err() {
                            return r;
                        }
                    },
                    None => {},
                }
                let loop_start = self.chunk.code.len();
                let mut exit: usize = 0;
                match condition {
                    Some(c) => {
                        assert(sz_opt(*condition) == sz_expr(*c));
                        let r = self.compile_expression(c);
                        if r.is_err() {
                            return r;
                        }
                        exit = self.chunk.code.len();
                        self.emit(OpCode::OpJumpIfFalse(0));
                        self.emit(OpCode::OpPop);
                    },
                    None => {},
                }
                let r = self.compile_stmts(body);
                if r.is_err() {
                    return r;
                }
                match update {
                    Some(u) => {
                        assert(sz_opt(*update) == sz_expr(*u));
                        let r = self.compile_expression(u);
                        if r.is_err() {
                            return r;
                        }
                        self.emit(OpCode::OpPop);
                    },
                    None => {},
                }
                self.emit_loop(loop_start);
                if condition.is_some() {
                    let exit_target = self.chunk.code.len();
                    self.patch(exit, OpCode::OpJumpIfFalse(exit_target - exit - 1));
                    self.emit(OpCode::OpPop);
                }
                self.end_scope();
                Ok(())
            },
            _ => Ok(()),
        }
    }

    #[verifier::spinoff_prover]
    fn compile_for_in(&mut self, stmt: &Statement) -> (r: Result<(), CompileError>)
        requires
            stmt is ForLoop,
            old(self)@.depth + sz_stmt(*stmt) <= usize::MAX,
        ensures
            final(self)@.chunk.lines.len() - final(self)@.chunk.code.len() == old(self)@.chunk.lines.len() - old(self)@.chunk.code.len(),
            final(self)@ == c_for_in(old(self)@, *stmt).0,
            agrees(r, c_for_in(old(self)@, *stmt).1),
            final(self)@.is_class == old(self)@.is_class,
            r is Ok ==> final(self)@.depth == old(self)@.depth,
            old(self)@.chunk.code.len() <= final(self)@.chunk.code.len(),
        decreases stmt, 2int,
    {
        match stmt {
            Statement::ForLoop { item, index, collection, body } => {
                self.begin_scope();
                let r = self.compile_expression(collection);
                if r.is_err() {
                    return r;
                }
                let collection_slot = self.locals.len();
                self.add_local("$collection".to_owned());
                self.emit_const(Constant::Number(0));
                let cursor_slot = self.locals.len();
                self.add_local("$cursor".to_owned());
                let at = self.chunk.code.len();
                let has_index = index.is_some();
                self.emit(OpCode::OpIterNext(collection_slot, cursor_slot, 0, has_index));
                self.add_local(item.clone());
                match index {
                    Some(ix) => self.add_local(ix.clone()),
                    None => {},
                }
                let r = self.compile_stmts(body);
                if r.is_err() {
                    return r;
                }
                if has_index {
                    self.emit(OpCode::OpPop);
                    self.pop_local();
                }
                self.emit(OpCode::OpPop);
                self.pop_local();
                self.emit_loop(at);
                let exit_target = self.chunk.code.len();
                self.patch(at, OpCode::OpIterNext(collection_slot, cursor_slot, exit_target - at - 1, has_index));
                self.end_scope();
                Ok(())
            },
            _ => Ok(()),
        }
    }

    #[verifier::spinoff_prover]
    fn compile_class(&mut self, stmt: &Statement) -> (r: Result<(), CompileError>)
        requires
            stmt is ClassDecl,
            old(self)@.depth + sz_stmt(*stmt) <= usize::MAX,
        ensures
            final(self)@.chunk.lines.len() - final(self)@.chunk.code.len() == old(self)@.chunk.lines.len() - old(self)@.chunk.code.len(),
            final(self)@ == c_class(old(self)@, *stmt).0,
            agrees(r, c_class(old(self)@, *stmt).1),
            final(self)@.is_class == old(self)@.is_class,
            r is Ok ==> final(self)@.depth == old(self)@.depth,
            old(self)@.chunk.code.len() <= final(self)@.chunk.code.len(),
        decreases stmt, 2int,
    {
        match stmt {
            Statement::ClassDecl { name, members } => {
                let mut ctor = Compiler::new();
                ctor.is_class = true;
                ctor.scope_depth = 1;
                let mut methods: Vec<(String, BxCompiledFunction<Constant>)> = Vec::new();
                assert(methods_v(methods@) =~= Seq::empty());
                let r = ctor.compile_members(&mut methods, members);
                if r.is_err() {
                    return r;
                }
                ctor.emit(OpCode::OpReturn);
                let class = BxClass { name: name.clone(), constructor: ctor.chunk, methods };
                self.emit_const(Constant::Class(Box::new(class)));
                let i = self.add_const(Constant::String(name.clone()));
                self.emit(OpCode::OpDefineGlobal(i));
                Ok(())
            },
            _ => Ok(()),
        }
    }

    /// One member of a class body (see `c_member`).
    #[verifier::spinoff_prover]
    fn compile_member(
        &mut self,
        methods: &mut Vec<(String, BxCompiledFunction<Constant>)>,
        m: &ClassMember,
    ) -> (r: Result<(), CompileError>)
        requires
            old(self)@.depth + sz_members(seq![*m]) <= usize::MAX,
        ensures
            final(self)@.chunk.lines.len() - final(self)@.chunk.code.len() == old(self)@.chunk.lines.len() - old(self)@.chunk.code.len(),
            (final(self)@, methods_v(final(methods)@)) == (c_member(old(self)@, methods_v(old(methods)@), *m).0,
            c_member(old(self)@, methods_v(old(methods)@), *m).1),
            agrees(r, c_member(old(self)@, methods_v(old(methods)@), *m).2),
            r is Ok ==> final(self)@.depth == old(self)@.depth,
        decreases m, 0int,
    {
        proof {
            reveal_with_fuel(sz_members, 2);
            reveal_with_fuel(sz_stmt, 2);
        }
        match m {
            ClassMember::Property(p) => {
                self.emit_const(Constant::Null);
                let k = self.add_const(Constant::String(p.clone()));
                self.emit(OpCode::OpSetPrivate(k));
                self.emit(OpCode::OpPop);
                Ok(())
            },
            ClassMember::Statement(s) => match s {
                Statement::FunctionDecl { name, params, body } => {
                    match compile_function(true, name.as_str(), params, body) {
                        Ok(f) => {
                            let key = to_lowercase(name.as_str());
                            put_method(methods, key, f);
                            Ok(())
                        },
                        Err(e) => Err(e),
                    }
                },
                _ => self.compile_statement(s),
            },
        }
    }

    /// The members of a class body, compiled into this constructor and the
    /// method table (see `c_members`).
    #[verifier::spinoff_prover]
    fn compile_members(
        &mut self,
        methods: &mut Vec<(String, BxCompiledFunction<Constant>)>,
        ms: &Vec<ClassMember>,
    ) -> (r: Result<(), CompileError>)
        requires
            old(self)@.depth + sz_members(ms@) <= usize::MAX,
        ensures
            final(self)@.chunk.lines.len() - final(self)@.chunk.code.len() == old(self)@.chunk.lines.len() - old(self)@.chunk.code.len(),
            (final(self)@, methods_v(final(methods)@)) == (c_members(old(self)@, methods_v(old(methods)@), ms@).0,
            c_members(old(self)@, methods_v(old(methods)@), ms@).1),
            agrees(r, c_members(old(self)@, methods_v(old(methods)@), ms@).2),
        decreases ms, 0int,
    {
        let ghost s0 = self@;
        let ghost m0 = methods_v(methods@);
        let mut i: usize = 0;
        assert(ms@.skip(0) =~= ms@);
        while i < ms.len()
            invariant
                i <= ms@.len(),
                s0 == old(self)@,
                self@.chunk.lines.len() - self@.chunk.code.len() == s0.chunk.lines.len() - s0.chunk.code.len(),
                m0 == methods_v(old(methods)@),
                c_members(s0, m0, ms@) == c_members(self@, methods_v(methods@), ms@.skip(i as int)),
                self@.depth == s0.depth,
                self@.depth + sz_members(ms@.skip(i as int)) <= usize::MAX,
            decreases ms.len() - i,
        {
            assert(ms@.skip(i as int).drop_first() =~= ms@.skip(i + 1));
            assert(ms@.skip(i as int)[0] == ms@[i as int]);
            assert(sz_members(seq![ms@[i as int]]) <= sz_members(ms@.skip(i as int))) by {
                reveal_with_fuel(sz_members, 2);
            }
            proof {
                lemma_members_step(self@, methods_v(methods@), ms@.skip(i as int));
            }
            let r = self.compile_member(methods, &ms[i]);
            if r.is_err() {
                return r;
            }
            i = i + 1;
        }
        assert(ms@.skip(i as int) =~= Seq::<ClassMember>::empty());
        Ok(())
    }
}

/// Compiles a function body with a compiler of its own (see `c_function`).
#[verifier::spinoff_prover]
fn compile_function(is_class: bool, name: &str, params: &Vec<String>, body: &FunctionBody) -> (r: Result<
    BxCompiledFunction<Constant>,
    CompileError,
>)
    requires
        1 + sz_body(*body) <= usize::MAX,
    ensures
        match c_function(is_class, name@, string_views(params@), *body) {
            Ok(f) => r is Ok && func_v(r->Ok_0) == f,
            Err(m) => r is Err && r->Err_0@ == m,
        },
        r is Ok ==> r->Ok_0.chunk.lines@.len() == r->Ok_0.chunk.code@.len(),
    decreases body, 0int,
{
    reveal(c_function);
    let mut sub = Compiler::new();
    assert(locals_v(sub.locals@).len() == sub.locals@.len());
    assert(chunk_v(sub.chunk) == empty_chunk());
    sub.scope_depth = 1;
    sub.is_class = is_class;
    assert(sub@.chunk == empty_chunk());
    let ghost start = function_start(is_class, string_views(params@));
    let mut i: usize = 0;
    while i < params.len()
        invariant
            i <= params@.len(),
            sub.locals@.len() == i,
            forall|j: int| 0 <= j < i ==> (#[trigger] sub.locals@[j]).name@ == params@[j]@ && sub.locals@[j].depth
                == 1,
            sub@.chunk == empty_chunk(),
            sub.scope_depth == 1,
            sub.is_class == is_class,
        decreases params.len() - i,
    {
        sub.locals.push(Local { name: params[i].clone(), depth: 1 });
        i = i + 1;
    }
    assert(sub@.locals =~= start.locals);
    assert(sub@ == start);
    match body {
        FunctionBody::Block(stmts) => {
            let r = sub.compile_stmts(stmts);
            if let Err(e) = r {
                return Err(e);
            }
            sub.emit_const(Constant::Null);
            sub.emit(OpCode::OpReturn);
        },
        FunctionBody::Expression(e) => {
            let r = sub.compile_expression(e);
            if let Err(e) = r {
                return Err(e);
            }
            sub.emit(OpCode::OpReturn);
        },
    }
    Ok(BxCompiledFunction { name: name.to_owned(), arity: params.len(), chunk: sub.chunk })
}


/// Binds `key` to `f` in a method table (see `put`).
fn put_method(methods: &mut Vec<(String, BxCompiledFunction<Constant>)>, key: String, f: BxCompiledFunction<Constant>)
    ensures
        methods_v(final(methods)@) == put(methods_v(old(methods)@), key@, func_v(f)),
{
    let ghost mv = methods_v(methods@);
    proof {
        lemma_methods_index(methods@);
    }
    let mut i: usize = 0;
    while i < methods.len()
        invariant
            i <= methods@.len(),
            methods@ == old(methods)@,
            mv == methods_v(old(methods)@),
            mv.len() == methods@.len(),
            forall|j: int| 0 <= j < methods@.len() ==> #[trigger] mv[j] == (methods@[j].0@, func_v(methods@[j].1)),
            forall|j: int| 0 <= j < i ==> (#[trigger] mv[j]).0 != key@,
        decreases methods.len() - i,
    {
        if str_eq(methods[i].0.as_str(), key.as_str()) {
            proof {
                lemma_put_update(mv, key@, func_v(f), i as int);
            }
            let ghost k = key@;
            let ghost fv = func_v(f);
            methods.set(i, (key, f));
            proof {
                lemma_methods_index(methods@);
                assert(methods_v(methods@) =~= mv.update(i as int, (k, fv)));
            }
            return;
        }
        i = i + 1;
    }
    proof {
        lemma_put_push(mv, key@, func_v(f));
    }
    let ghost k = key@;
    let ghost fv = func_v(f);
    methods.push((key, f));
    proof {
        lemma_methods_index(methods@);
        assert(methods_v(methods@) =~= mv.push((k, fv)));
    }
}


} // verus!
