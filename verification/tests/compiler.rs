use cupid::chunk::Instruction;
use cupid::error::CupidErr;
use cupid::gc::Gc;
use cupid::objects::Object;
use cupid::parser::{Diagnostic, ErrorPlace, Parser, Precedence};
use cupid::value::{GcRef, Value};

fn compile(code: &str) -> (Result<GcRef, CupidErr>, Gc, Vec<Diagnostic>) {
    Parser::new(code, Gc::new()).compile()
}

fn code_of(gc: &Gc, f: GcRef) -> Vec<Instruction> {
    match gc.get(f) {
        Object::Function(func) => func.chunk.code.clone(),
        _ => panic!("not a function"),
    }
}

fn messages(diags: &[Diagnostic]) -> Vec<String> {
    diags.iter().map(|d| String::from_utf8(d.message.clone()).unwrap()).collect()
}

#[test]
fn compiles_a_log_of_a_sum() {
    let (r, gc, diags) = compile("log(1 + 2)");
    assert!(diags.is_empty());
    let f = r.unwrap();
    assert_eq!(
        code_of(&gc, f),
        vec![
            Instruction::Constant(0),
            Instruction::Constant(1),
            Instruction::Add,
            Instruction::Log,
            Instruction::Nil,
            Instruction::Return
        ]
    );
}

#[test]
fn precedence_of_factors_over_terms() {
    let (r, gc, _) = compile("1 + 2 * 3");
    let code = code_of(&gc, r.unwrap());
    assert_eq!(
        code,
        vec![
            Instruction::Constant(0),
            Instruction::Constant(1),
            Instruction::Constant(2),
            Instruction::Multiply,
            Instruction::Add,
            Instruction::Pop,
            Instruction::Nil,
            Instruction::Return
        ]
    );
}

#[test]
fn comparison_operators_that_negate() {
    let (r, gc, _) = compile("1 <= 2");
    let code = code_of(&gc, r.unwrap());
    assert_eq!(&code[2..4], &[Instruction::Greater, Instruction::Not]);
}

#[test]
fn global_variable_definition() {
    let (r, gc, _) = compile("let x = 1");
    let code = code_of(&gc, r.unwrap());
    assert_eq!(code[0], Instruction::Constant(1));
    assert_eq!(code[1], Instruction::DefineGlobal(0));
}

#[test]
fn locals_live_in_slots() {
    let (r, gc, diags) = compile("{ let a = 1\n log(a) }");
    assert!(diags.is_empty(), "{:?}", messages(&diags));
    let code = code_of(&gc, r.unwrap());
    assert!(code.contains(&Instruction::GetLocal(1)));
    assert!(code.contains(&Instruction::Pop));
}

#[test]
fn if_else_patches_its_jumps() {
    let (r, gc, diags) = compile("if true log(1) else log(2)");
    assert!(diags.is_empty(), "{:?}", messages(&diags));
    let code = code_of(&gc, r.unwrap());
    assert_eq!(code[0], Instruction::True);
    match code[1] {
        Instruction::JumpIfFalse(o) => assert_ne!(o, 0xffff),
        ref other => panic!("{:?}", other),
    }
}

#[test]
fn while_loops_jump_back() {
    let (r, gc, diags) = compile("while false log(1)");
    assert!(diags.is_empty(), "{:?}", messages(&diags));
    let code = code_of(&gc, r.unwrap());
    assert!(code.iter().any(|i| matches!(i, Instruction::Loop(_))));
}

#[test]
fn functions_become_closures() {
    let (r, gc, diags) = compile("fun add(a, b) { return a + b }");
    assert!(diags.is_empty(), "{:?}", messages(&diags));
    let code = code_of(&gc, r.unwrap());
    assert!(code.iter().any(|i| matches!(i, Instruction::Closure(_))));
    assert!(code.contains(&Instruction::DefineGlobal(0)));
}

#[test]
fn classes_with_methods() {
    let (r, _gc, diags) = compile("class A { init() { self.x = 1 } get() { return self.x } }");
    assert!(diags.is_empty(), "{:?}", messages(&diags));
    assert!(r.is_ok());
}

#[test]
fn missing_expression_is_reported() {
    let (r, _gc, diags) = compile("1 +");
    assert_eq!(r, Err(CupidErr::CompileError));
    assert_eq!(messages(&diags), vec!["Expect expression.".to_string()]);
    assert_eq!(diags[0].place, ErrorPlace::AtEnd);
}

#[test]
fn return_at_top_level_is_an_error() {
    let (r, _gc, diags) = compile("return 1");
    assert!(r.is_err());
    assert_eq!(messages(&diags)[0], "Can't return from top-level code.");
}

#[test]
fn class_inheriting_from_itself() {
    let (r, _gc, diags) = compile("class A < A {}");
    assert!(r.is_err());
    assert_eq!(messages(&diags)[0], "A class can't inherit from itself.");
}

#[test]
fn redeclared_local_is_an_error() {
    let (r, _gc, diags) = compile("{ let a = 1\n let a = 2 }");
    assert!(r.is_err());
    assert_eq!(messages(&diags)[0], "Already variable with self name in self scope.");
}

#[test]
fn self_outside_a_class() {
    let (_r, _gc, diags) = compile("self");
    assert_eq!(messages(&diags)[0], "Can't use 'self' outside of a class.");
}

#[test]
fn super_outside_a_class() {
    let (_r, _gc, diags) = compile("super.x");
    assert_eq!(messages(&diags)[0], "Can't use 'super' outside of a class.");
}

#[test]
fn invalid_assignment_target() {
    let (_r, _gc, diags) = compile("1 + 2 = 3");
    assert_eq!(messages(&diags)[0], "Invalid assignment target.");
}

#[test]
fn error_tokens_are_reported_unplaced() {
    let (r, _gc, diags) = compile("@");
    assert!(r.is_err());
    assert_eq!(messages(&diags)[0], "Unexpected character.");
    assert_eq!(diags[0].place, ErrorPlace::Unplaced);
}

#[test]
fn errors_carry_their_line() {
    let (_r, _gc, diags) = compile("log(1)\nlog(2)\n1 +");
    assert_eq!(diags[0].line, 3);
}

#[test]
fn one_error_per_statement_until_recovery() {
    let (_r, _gc, diags) = compile("1 + ;\n2 + ;");
    assert_eq!(diags.len(), 2);
}

#[test]
fn strings_are_interned_without_quotes() {
    let (r, gc, _) = compile("log('hi')");
    let f = r.unwrap();
    match gc.get(f) {
        Object::Function(func) => match func.chunk.constants[0] {
            Value::String(s) => match gc.get(s) {
                Object::Str(st) => assert_eq!(st.s.as_slice(), b"hi"),
                _ => panic!(),
            },
            _ => panic!(),
        },
        _ => panic!(),
    }
}

#[test]
fn floats_are_kept_as_literals() {
    let (r, gc, _) = compile("log(2.5)");
    let f = r.unwrap();
    match gc.get(f) {
        Object::Function(func) => match func.chunk.constants[0] {
            Value::Float(n) => assert_eq!(gc.float_literal(n), b"2.5"),
            _ => panic!(),
        },
        _ => panic!(),
    }
}

#[test]
fn next_precedence_wraps_after_call() {
    assert_eq!(Precedence::Term.next(), Precedence::Factor);
    assert_eq!(Precedence::Call.next(), Precedence::Lowest);
    assert!(Precedence::Assignment.le(&Precedence::Or));
    assert!(!Precedence::Call.le(&Precedence::Unary));
}

#[test]
fn a_blank_script_only_returns() {
    for code in ["", "  \n\n", "-- a comment\n"] {
        let (r, gc, diags) = compile(code);
        assert!(diags.is_empty());
        let f = r.unwrap();
        assert_eq!(code_of(&gc, f), vec![Instruction::Nil, Instruction::Return]);
    }
}

fn constants_of(gc: &Gc, f: GcRef) -> Vec<Value> {
    match gc.get(f) {
        Object::Function(func) => func.chunk.constants.clone(),
        _ => panic!("not a function"),
    }
}

#[test]
fn a_statement_of_terms_and_factors() {
    let (r, gc, diags) = compile("1 + 2 * 3;");
    assert!(diags.is_empty());
    let f = r.unwrap();
    assert_eq!(
        code_of(&gc, f),
        vec![
            Instruction::Constant(0),
            Instruction::Constant(1),
            Instruction::Constant(2),
            Instruction::Multiply,
            Instruction::Add,
            Instruction::Pop,
            Instruction::Nil,
            Instruction::Return
        ]
    );
    assert_eq!(constants_of(&gc, f), vec![Value::Int(1), Value::Int(2), Value::Int(3)]);
}

#[test]
fn parentheses_override_precedence() {
    let (r, gc, diags) = compile("(1 + 2) * 3;");
    assert!(diags.is_empty());
    let f = r.unwrap();
    assert_eq!(
        code_of(&gc, f),
        vec![
            Instruction::Constant(0),
            Instruction::Constant(1),
            Instruction::Add,
            Instruction::Constant(2),
            Instruction::Multiply,
            Instruction::Pop,
            Instruction::Nil,
            Instruction::Return
        ]
    );
}

#[test]
fn operators_of_one_precedence_group_to_the_left() {
    let (r, gc, diags) = compile("5 - 2 - 1;");
    assert!(diags.is_empty());
    let f = r.unwrap();
    assert_eq!(
        code_of(&gc, f),
        vec![
            Instruction::Constant(0),
            Instruction::Constant(1),
            Instruction::Subtract,
            Instruction::Constant(2),
            Instruction::Subtract,
            Instruction::Pop,
            Instruction::Nil,
            Instruction::Return
        ]
    );
    assert_eq!(constants_of(&gc, f), vec![Value::Int(5), Value::Int(2), Value::Int(1)]);
}

#[test]
fn statements_follow_one_another() {
    let (r, gc, diags) = compile("-1 < 2 == !false; none;");
    assert!(diags.is_empty());
    let f = r.unwrap();
    assert_eq!(
        code_of(&gc, f),
        vec![
            Instruction::Constant(0),
            Instruction::Negate,
            Instruction::Constant(1),
            Instruction::Less,
            Instruction::False,
            Instruction::Not,
            Instruction::Equal,
            Instruction::Pop,
            Instruction::Nil,
            Instruction::Pop,
            Instruction::Nil,
            Instruction::Return
        ]
    );
    assert_eq!(constants_of(&gc, f), vec![Value::Int(1), Value::Int(2)]);
}

#[test]
fn statements_on_separate_lines() {
    let (r, gc, diags) = compile("1 + 2;\n3 * 4\n");
    assert!(diags.is_empty());
    let f = r.unwrap();
    assert_eq!(
        code_of(&gc, f),
        vec![
            Instruction::Constant(0),
            Instruction::Constant(1),
            Instruction::Add,
            Instruction::Pop,
            Instruction::Constant(2),
            Instruction::Constant(3),
            Instruction::Multiply,
            Instruction::Pop,
            Instruction::Nil,
            Instruction::Return
        ]
    );
    assert_eq!(constants_of(&gc, f), vec![Value::Int(1), Value::Int(2), Value::Int(3), Value::Int(4)]);
}

#[test]
fn a_log_between_expression_statements() {
    let (r, gc, diags) = compile("true; log((1 + 2) * -3); 4");
    assert!(diags.is_empty());
    let f = r.unwrap();
    assert_eq!(
        code_of(&gc, f),
        vec![
            Instruction::True,
            Instruction::Pop,
            Instruction::Constant(0),
            Instruction::Constant(1),
            Instruction::Add,
            Instruction::Constant(2),
            Instruction::Negate,
            Instruction::Multiply,
            Instruction::Log,
            Instruction::Constant(3),
            Instruction::Pop,
            Instruction::Nil,
            Instruction::Return
        ]
    );
    assert_eq!(constants_of(&gc, f), vec![Value::Int(1), Value::Int(2), Value::Int(3), Value::Int(4)]);
}

#[test]
fn and_and_or_jump_over_their_right_operands() {
    let (r, gc, diags) = compile("true and false or none;");
    assert!(diags.is_empty());
    let f = r.unwrap();
    assert_eq!(
        code_of(&gc, f),
        vec![
            Instruction::True,
            Instruction::JumpIfFalse(2),
            Instruction::Pop,
            Instruction::False,
            Instruction::JumpIfFalse(1),
            Instruction::Jump(2),
            Instruction::Pop,
            Instruction::Nil,
            Instruction::Pop,
            Instruction::Nil,
            Instruction::Return
        ]
    );
}

#[test]
fn if_else_jumps_over_each_branch() {
    let (r, gc, diags) = compile("if true log(1); else 2;");
    assert!(diags.is_empty());
    let f = r.unwrap();
    assert_eq!(
        code_of(&gc, f),
        vec![
            Instruction::True,
            Instruction::JumpIfFalse(4),
            Instruction::Pop,
            Instruction::Constant(0),
            Instruction::Log,
            Instruction::Jump(3),
            Instruction::Pop,
            Instruction::Constant(1),
            Instruction::Pop,
            Instruction::Nil,
            Instruction::Return
        ]
    );
}

#[test]
fn while_jumps_back_to_its_condition() {
    let (r, gc, diags) = compile("while false 1;");
    assert!(diags.is_empty());
    let f = r.unwrap();
    assert_eq!(
        code_of(&gc, f),
        vec![
            Instruction::False,
            Instruction::JumpIfFalse(4),
            Instruction::Pop,
            Instruction::Constant(0),
            Instruction::Pop,
            Instruction::Loop(5),
            Instruction::Pop,
            Instruction::Nil,
            Instruction::Return
        ]
    );
}
