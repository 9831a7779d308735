use matchbox_vm::script::ast::{AssignmentTarget, ClassMember, Expression, FunctionBody, Literal, Statement};
use matchbox_vm::script::chunk::Chunk;
use matchbox_vm::script::codegen::Constant;
use matchbox_vm::script::compiler::Compiler;
use matchbox_vm::script::opcode::OpCode;
use matchbox_vm::script::types::BxCompiledFunction;

fn num(x: f64) -> Expression {
    Expression::Literal(Literal::Number(x.to_bits()))
}

fn ident(name: &str) -> Expression {
    Expression::Identifier(name.to_string())
}

fn compile(ast: Vec<Statement>) -> Chunk<Constant> {
    Compiler::new().compile(&ast).expect("compiles")
}

fn compile_err(ast: Vec<Statement>) -> String {
    Compiler::new().compile(&ast).expect_err("fails").message
}

#[test]
fn global_variable_and_println() {
    let chunk = compile(vec![
        Statement::VariableDecl { name: "x".to_string(), value: num(1.0) },
        Statement::Expression(Expression::FunctionCall { base: Box::new(ident("println")), args: vec![ident("x")] }),
    ]);
    assert_eq!(
        chunk.code,
        vec![
            OpCode::OpConstant(0),
            OpCode::OpDefineGlobal(1),
            OpCode::OpGetGlobal(2),
            OpCode::OpPrintln(1),
            OpCode::OpConstant(3),
            OpCode::OpPop,
            OpCode::OpReturn,
        ]
    );
    assert_eq!(
        chunk.constants,
        vec![
            Constant::Number(1.0f64.to_bits()),
            Constant::String("x".to_string()),
            Constant::String("x".to_string()),
            Constant::Null,
        ]
    );
    assert_eq!(chunk.lines, vec![0; 7]);
}

#[test]
fn unknown_operator_is_an_error() {
    let msg = compile_err(vec![Statement::Expression(Expression::Binary {
        left: Box::new(num(1.0)),
        operator: "%".to_string(),
        right: Box::new(num(2.0)),
    })]);
    assert_eq!(msg, "Unknown operator: %");
}

#[test]
fn assigning_the_variables_scope_is_an_error() {
    let msg = compile_err(vec![Statement::Expression(Expression::Assignment {
        target: AssignmentTarget::Identifier("Variables".to_string()),
        value: Box::new(num(1.0)),
    })]);
    assert_eq!(msg, "Cannot assign to the 'variables' scope directly");
}

#[test]
fn postfix_on_an_index_is_an_error() {
    let msg = compile_err(vec![Statement::Expression(Expression::Postfix {
        base: Box::new(Expression::ArrayAccess { base: Box::new(ident("a")), index: Box::new(num(0.0)) }),
        operator: "++".to_string(),
    })]);
    assert_eq!(msg, "Postfix ops only supported on identifiers and members currently");
}

#[test]
fn if_jumps_are_patched() {
    let chunk = compile(vec![Statement::If {
        condition: Expression::Literal(Literal::Boolean(true)),
        then_branch: vec![Statement::Expression(num(1.0))],
        else_branch: None,
    }]);
    assert_eq!(
        chunk.code,
        vec![
            OpCode::OpConstant(0),
            OpCode::OpJumpIfFalse(4),
            OpCode::OpPop,
            OpCode::OpConstant(1),
            OpCode::OpPop,
            OpCode::OpJump(1),
            OpCode::OpPop,
            OpCode::OpReturn,
        ]
    );
}

#[test]
fn for_in_loop_layout() {
    let chunk = compile(vec![Statement::ForLoop {
        item: "x".to_string(),
        index: None,
        collection: ident("arr"),
        body: vec![],
    }]);
    assert_eq!(
        chunk.code,
        vec![
            OpCode::OpGetGlobal(0),
            OpCode::OpConstant(1),
            OpCode::OpIterNext(0, 1, 2, false),
            OpCode::OpPop,
            OpCode::OpLoop(3),
            OpCode::OpPop,
            OpCode::OpPop,
            OpCode::OpReturn,
        ]
    );
    assert_eq!(chunk.constants, vec![Constant::String("arr".to_string()), Constant::Number(0)]);
}

#[test]
fn function_parameters_are_locals_found_ignoring_case() {
    let chunk = compile(vec![Statement::FunctionDecl {
        name: "f".to_string(),
        params: vec!["a".to_string()],
        body: FunctionBody::Block(vec![Statement::Return(Some(ident("A")))]),
    }]);
    let body = Chunk {
        code: vec![OpCode::OpGetLocal(0), OpCode::OpReturn, OpCode::OpConstant(0), OpCode::OpReturn],
        constants: vec![Constant::Null],
        lines: vec![0; 4],
        filename: String::new(),
    };
    let f = BxCompiledFunction { name: "f".to_string(), arity: 1, chunk: body };
    assert_eq!(
        chunk.constants,
        vec![Constant::CompiledFunction(Box::new(f)), Constant::String("f".to_string())]
    );
    assert_eq!(chunk.code, vec![OpCode::OpConstant(0), OpCode::OpDefineGlobal(1), OpCode::OpReturn]);
}

#[test]
fn class_members_and_methods() {
    let chunk = compile(vec![Statement::ClassDecl {
        name: "C".to_string(),
        members: vec![
            ClassMember::Property("p".to_string()),
            ClassMember::Statement(Statement::FunctionDecl {
                name: "Get".to_string(),
                params: vec![],
                body: FunctionBody::Expression(Box::new(ident("p"))),
            }),
            ClassMember::Statement(Statement::FunctionDecl {
                name: "GET".to_string(),
                params: vec![],
                body: FunctionBody::Expression(Box::new(num(2.0))),
            }),
        ],
    }]);
    assert_eq!(chunk.code, vec![OpCode::OpConstant(0), OpCode::OpDefineGlobal(1), OpCode::OpReturn]);
    match &chunk.constants[0] {
        Constant::Class(class) => {
            assert_eq!(class.name, "C");
            assert_eq!(
                class.constructor.code,
                vec![OpCode::OpConstant(0), OpCode::OpSetPrivate(1), OpCode::OpPop, OpCode::OpReturn]
            );
            assert_eq!(class.constructor.constants, vec![Constant::Null, Constant::String("p".to_string())]);
            assert_eq!(class.methods.len(), 1);
            assert_eq!(class.methods[0].0, "get");
            assert_eq!(class.methods[0].1.name, "GET");
            assert_eq!(class.methods[0].1.chunk.code, vec![OpCode::OpConstant(0), OpCode::OpReturn]);
        },
        other => panic!("expected a class, got {:?}", other),
    }
}

#[test]
fn instance_variables_in_methods() {
    let chunk = compile(vec![Statement::ClassDecl {
        name: "C".to_string(),
        members: vec![ClassMember::Statement(Statement::FunctionDecl {
            name: "get".to_string(),
            params: vec![],
            body: FunctionBody::Expression(Box::new(ident("p"))),
        })],
    }]);
    match &chunk.constants[0] {
        Constant::Class(class) => {
            assert_eq!(class.methods[0].1.chunk.code, vec![OpCode::OpGetPrivate(0), OpCode::OpReturn]);
        },
        other => panic!("expected a class, got {:?}", other),
    }
}
