use std::collections::HashMap;

use mech_syntax::compiler::{byte_to_digit, CompileError, Compiler, Constraint, Function, Shape};
use mech_syntax::grammar::parse_mech;
use mech_syntax::node::{get_children, get_first_child, Kind, Node};
use mech_syntax::token::Token;

const TEST: u64 = 7;
const BALL: u64 = 11;

fn table(id: u64, column: u8) -> Node {
    Node::Table { id, children: vec![Node::Number { value: (b'0' + column) as u64 }] }
}

fn branch(kind: Kind, children: Vec<Node>) -> Node {
    Node::Branch { kind, children }
}

fn select(id: u64, column: u8) -> Node {
    branch(Kind::Select, vec![table(id, column)])
}

fn op(token: Token) -> Node {
    Node::InfixOperation { token }
}

fn define(target: u64, value: Node) -> Node {
    branch(Kind::ColumnDefine, vec![branch(Kind::Insert, vec![table(target, 1)]), value])
}

/// Runs a block against a one-row store keyed by (table, column).
fn run(block: &[Constraint], store: &mut HashMap<(u64, u64), i64>) {
    let mut input: HashMap<u64, i64> = HashMap::new();
    let mut mid: HashMap<u64, i64> = HashMap::new();
    let mut inserts = vec![];
    for c in block {
        match c {
            Constraint::Scan { table, column, input: r } => {
                input.insert(*r, store[&(*table, *column)]);
            }
            Constraint::Identity { source, sink } => {
                mid.insert(*sink, input[source]);
            }
            Constraint::Function { operation, parameters, output } => {
                let a = mid[&parameters[0]];
                let b = mid[&parameters[1]];
                let v = match operation {
                    Function::Add => a + b,
                    Function::Subtract => a - b,
                    Function::Multiply => a * b,
                    Function::Divide => a / b,
                };
                mid.insert(*output, v);
            }
            Constraint::Insert { table, column, output } => inserts.push((*table, *column, *output)),
        }
    }
    for (t, c, o) in inserts {
        store.insert((t, c), mid[&o]);
    }
}

fn ball_store() -> HashMap<(u64, u64), i64> {
    let mut store = HashMap::new();
    store.insert((BALL, 1), 15);
    store.insert((BALL, 2), 9);
    store.insert((BALL, 3), 18);
    store.insert((BALL, 4), 0);
    store
}

#[test]
fn byte_to_digit_maps_digit_bytes() {
    assert_eq!(byte_to_digit(b'0'), Some(0));
    assert_eq!(byte_to_digit(b'7'), Some(7));
    assert_eq!(byte_to_digit(b'9'), Some(9));
    assert_eq!(byte_to_digit(b'/'), None);
    assert_eq!(byte_to_digit(b':'), None);
}

#[test]
fn new_compiler_starts_counters_at_one() {
    let c = Compiler::new();
    assert_eq!(c.input_registers, 1);
    assert_eq!(c.intermediate_registers, 1);
    assert_eq!(c.output_registers, 1);
    assert_eq!(c.depth, 0);
    assert!(c.blocks.is_empty());
    assert!(c.constraints.is_empty());
}

#[test]
fn compile_records_last_instructions() {
    let mut c = Compiler::new();
    let out = c.compile(select(BALL, 1)).unwrap();
    assert_eq!(c.constraints, out);
    assert_eq!(c.compile(op(Token::Caret)), Err(CompileError::UnknownOperator { token: Token::Caret }));
    assert_eq!(c.constraints, out);
}

#[test]
fn failed_compilation_restores_counters() {
    let mut a = Compiler::new();
    let mut b = Compiler::new();
    let bad = || vec![select(BALL, 1), branch(Kind::Range, vec![])];
    assert_eq!(a.compile_nodes(bad()), b.compile_nodes(bad()));
    assert_eq!((a.input_registers, a.intermediate_registers), (1, 1));
    assert_eq!((b.input_registers, b.intermediate_registers), (1, 1));
    a.input_registers = 5;
    assert_eq!(a.compile_block(bad().remove(1)), Err(CompileError::Unsupported { kind: Kind::Range }));
    assert_eq!(a.input_registers, 5);
}

#[test]
fn select_materializes_each_column() {
    let mut c = Compiler::new();
    let node = branch(
        Kind::Select,
        vec![Node::Table { id: BALL, children: vec![Node::Number { value: 49 }, Node::Number { value: 51 }] }],
    );
    let out = c.compile(node).unwrap();
    assert_eq!(
        out,
        vec![
            Constraint::Scan { table: BALL, column: 1, input: 1 },
            Constraint::Identity { source: 1, sink: 1 },
            Constraint::Scan { table: BALL, column: 3, input: 2 },
            Constraint::Identity { source: 2, sink: 2 },
        ]
    );
    assert_eq!(c.input_registers, 3);
    assert_eq!(c.intermediate_registers, 3);
}

#[test]
fn add_wires_insert_to_function() {
    let mut c = Compiler::new();
    let tree = define(TEST, branch(Kind::MathExpression, vec![select(BALL, 1), op(Token::Plus), select(BALL, 2)]));
    c.compile_block(tree).unwrap();
    let block = &c.blocks[0].constraints;
    assert_eq!(
        *block,
        vec![
            Constraint::Insert { table: TEST, column: 1, output: 3 },
            Constraint::Scan { table: BALL, column: 1, input: 1 },
            Constraint::Identity { source: 1, sink: 1 },
            Constraint::Scan { table: BALL, column: 2, input: 2 },
            Constraint::Identity { source: 2, sink: 2 },
            Constraint::Function { operation: Function::Add, parameters: vec![1, 2], output: 3 },
        ]
    );
}

#[test]
fn multiply_feeds_second_parameter_of_add() {
    let mut c = Compiler::new();
    let product = branch(Kind::MathExpression, vec![select(BALL, 2), op(Token::Asterisk), select(BALL, 3)]);
    let sum = branch(Kind::MathExpression, vec![select(BALL, 1), op(Token::Plus), product]);
    c.compile_block(define(TEST, sum)).unwrap();
    let block = &c.blocks[0].constraints;
    let multiply = block
        .iter()
        .find_map(|k| match k {
            Constraint::Function { operation: Function::Multiply, output, .. } => Some(*output),
            _ => None,
        })
        .unwrap();
    let add_params = block
        .iter()
        .find_map(|k| match k {
            Constraint::Function { operation: Function::Add, parameters, .. } => Some(parameters.clone()),
            _ => None,
        })
        .unwrap();
    assert_eq!(add_params[1], multiply);
    assert_eq!(add_params[0], 1);
}

#[test]
fn ball_expression_evaluates_to_177() {
    let mut c = Compiler::new();
    let product = branch(Kind::MathExpression, vec![select(BALL, 2), op(Token::Asterisk), select(BALL, 3)]);
    let sum = branch(Kind::MathExpression, vec![select(BALL, 1), op(Token::Plus), product]);
    c.compile_block(branch(Kind::Block, vec![define(TEST, sum)])).unwrap();
    let mut store = ball_store();
    run(&c.blocks[0].constraints, &mut store);
    assert_eq!(store[&(TEST, 1)], 177);
}

#[test]
fn left_associative_subtraction_and_division() {
    let mut store = ball_store();
    let mut c = Compiler::new();
    let diff = branch(
        Kind::MathExpression,
        vec![select(BALL, 3), op(Token::Dash), select(BALL, 2), op(Token::Dash), select(BALL, 1)],
    );
    c.compile_block(define(TEST, diff)).unwrap();
    run(&c.blocks[0].constraints, &mut store);
    assert_eq!(store[&(TEST, 1)], 18 - 9 - 15);
    let quot = branch(Kind::MathExpression, vec![select(BALL, 3), op(Token::Slash), select(BALL, 2)]);
    c.compile_block(define(TEST, quot)).unwrap();
    run(&c.blocks[1].constraints, &mut store);
    assert_eq!(store[&(TEST, 1)], 2);
}

#[test]
fn registers_increase_and_restart_per_block() {
    let mut c = Compiler::new();
    let sum = branch(
        Kind::MathExpression,
        vec![select(BALL, 1), op(Token::Plus), select(BALL, 2), op(Token::Asterisk), select(BALL, 3)],
    );
    c.compile_block(define(TEST, sum)).unwrap();
    let mut inputs = vec![];
    let mut mids = vec![];
    for k in &c.blocks[0].constraints {
        match k {
            Constraint::Scan { input, .. } => inputs.push(*input),
            Constraint::Identity { sink, .. } => mids.push(*sink),
            Constraint::Function { output, .. } => mids.push(*output),
            _ => {}
        }
    }
    assert_eq!(inputs, vec![1, 2, 3]);
    assert_eq!(mids, vec![1, 2, 3, 4, 5]);
    c.compile_block(define(TEST, branch(Kind::MathExpression, vec![select(BALL, 1), op(Token::Plus), select(BALL, 1)])))
        .unwrap();
    assert_eq!(c.blocks.len(), 2);
    assert_eq!(c.blocks[1].constraints[1], Constraint::Scan { table: BALL, column: 1, input: 1 });
}

#[test]
fn every_insert_is_wired() {
    let mut c = Compiler::new();
    let tree = branch(
        Kind::Root,
        vec![
            define(TEST, branch(Kind::MathExpression, vec![select(BALL, 1), op(Token::Plus), select(BALL, 2)])),
            define(BALL, branch(Kind::MathExpression, vec![select(BALL, 3), op(Token::Asterisk), select(BALL, 4)])),
        ],
    );
    c.compile_block(tree).unwrap();
    for k in &c.blocks[0].constraints {
        if let Constraint::Insert { output, .. } = k {
            assert_ne!(*output, 0);
        }
    }
}

#[test]
fn bare_insert_is_unwired() {
    let mut c = Compiler::new();
    let tree = || branch(Kind::Block, vec![branch(Kind::Insert, vec![table(TEST, 1)])]);
    assert_eq!(c.compile_block(tree()), Err(CompileError::Unwired));
    assert!(c.blocks.is_empty());
    let out = c.compile(tree()).unwrap();
    assert_eq!(out, vec![Constraint::Insert { table: TEST, column: 1, output: 0 }]);
}

#[test]
fn column_define_without_insert_is_malformed() {
    let mut c = Compiler::new();
    let tree = branch(
        Kind::ColumnDefine,
        vec![branch(Kind::MathExpression, vec![select(BALL, 1), op(Token::Plus), select(BALL, 2)])],
    );
    assert_eq!(
        c.compile(tree),
        Err(CompileError::Malformed { expected: Shape::Insert, found: Shape::Scan })
    );
    let empty = branch(Kind::ColumnDefine, vec![]);
    assert_eq!(
        c.compile(empty),
        Err(CompileError::Malformed { expected: Shape::Insert, found: Shape::Nothing })
    );
}

#[test]
fn column_define_without_function_is_malformed() {
    let mut c = Compiler::new();
    assert_eq!(
        c.compile(define(TEST, select(BALL, 1))),
        Err(CompileError::Malformed { expected: Shape::Function, found: Shape::Identity })
    );
    let constant_only = define(TEST, branch(Kind::Constant, vec![]));
    assert_eq!(c.compile_block(constant_only), Err(CompileError::Unsupported { kind: Kind::Constant }));
    let insert_only = branch(Kind::ColumnDefine, vec![branch(Kind::Insert, vec![table(TEST, 1)])]);
    assert_eq!(
        c.compile(insert_only),
        Err(CompileError::Malformed { expected: Shape::Function, found: Shape::Nothing })
    );
}

#[test]
fn unknown_operator_is_reported() {
    let mut c = Compiler::new();
    let tree = branch(Kind::MathExpression, vec![select(BALL, 1), op(Token::Caret), select(BALL, 2)]);
    assert_eq!(c.compile(tree), Err(CompileError::UnknownOperator { token: Token::Caret }));
}

#[test]
fn misplaced_operator_is_malformed() {
    let mut c = Compiler::new();
    assert_eq!(
        c.compile(op(Token::Plus)),
        Ok(vec![Constraint::Function { operation: Function::Add, parameters: vec![0, 0], output: 1 }])
    );
    assert_eq!(c.intermediate_registers, 2);
    assert_eq!(c.input_registers, 1);
    let two = branch(Kind::MathExpression, vec![select(BALL, 1), select(BALL, 2), select(BALL, 3)]);
    assert_eq!(
        c.compile(two),
        Err(CompileError::Malformed { expected: Shape::Operator, found: Shape::Branch(Kind::Select) })
    );
    let even = branch(Kind::MathExpression, vec![select(BALL, 1), op(Token::Plus)]);
    assert_eq!(c.compile(even), Err(CompileError::Malformed { expected: Shape::Value, found: Shape::Nothing }));
}

#[test]
fn operand_without_value_is_malformed() {
    let mut c = Compiler::new();
    let tree = branch(Kind::MathExpression, vec![select(BALL, 1), op(Token::Plus), branch(Kind::Constant, vec![])]);
    assert_eq!(c.compile(tree), Err(CompileError::Unsupported { kind: Kind::Constant }));
}

#[test]
fn bad_column_payloads() {
    let mut c = Compiler::new();
    let tree = branch(Kind::Select, vec![Node::Table { id: BALL, children: vec![Node::Number { value: 65 }] }]);
    assert_eq!(c.compile(tree), Err(CompileError::InvalidColumn { value: 65 }));
    let tree = branch(Kind::Select, vec![Node::Table { id: BALL, children: vec![Node::Number { value: 305 }] }]);
    assert_eq!(c.compile(tree), Err(CompileError::InvalidColumn { value: 305 }));
    let tree = branch(Kind::Select, vec![select(BALL, 1)]);
    assert_eq!(
        c.compile(tree),
        Err(CompileError::Malformed { expected: Shape::Table, found: Shape::Branch(Kind::Select) })
    );
    let tree = branch(Kind::Insert, vec![Node::Table { id: BALL, children: vec![] }]);
    assert_eq!(c.compile(tree), Err(CompileError::Malformed { expected: Shape::Number, found: Shape::Nothing }));
}

#[test]
fn exhausted_pool_is_reported() {
    let mut c = Compiler::new();
    c.input_registers = u64::MAX;
    assert_eq!(c.compile(select(BALL, 1)), Err(CompileError::Exhausted));
}

#[test]
fn other_kinds_are_rejected_or_empty() {
    let mut c = Compiler::new();
    assert_eq!(c.compile(branch(Kind::Paragraph, vec![branch(Kind::ParagraphText, vec![])])), Ok(vec![]));
    assert_eq!(c.compile(branch(Kind::Section, vec![select(BALL, 1)])).unwrap().len(), 2);
    assert_eq!(
        c.compile(branch(Kind::Block, vec![branch(Kind::LogicExpression, vec![])])),
        Err(CompileError::Unsupported { kind: Kind::LogicExpression })
    );
    assert_eq!(c.compile(branch(Kind::Comment, vec![])), Ok(vec![]));
    assert_eq!(c.compile(Node::Number { value: 49 }), Ok(vec![]));
    let nodes = vec![select(BALL, 1), branch(Kind::Comment, vec![]), select(BALL, 2)];
    assert_eq!(c.compile_nodes(nodes).unwrap().len(), 4);
    assert_eq!(c.depth, 0);
}

#[test]
fn sum_and_product_of_cells() {
    const ONE: u64 = 21;
    const TWO: u64 = 22;
    let mut store = HashMap::new();
    store.insert((ONE, 1), 1);
    store.insert((TWO, 1), 2);
    let mut c = Compiler::new();
    c.compile_block(define(TEST, branch(Kind::MathExpression, vec![select(ONE, 1), op(Token::Plus), select(ONE, 1)])))
        .unwrap();
    run(&c.blocks[0].constraints, &mut store);
    assert_eq!(store[&(TEST, 1)], 2);
    c.compile_block(define(TEST, branch(Kind::MathExpression, vec![select(TWO, 1), op(Token::Asterisk), select(TWO, 1)])))
        .unwrap();
    run(&c.blocks[1].constraints, &mut store);
    assert_eq!(store[&(TEST, 1)], 4);
}

#[test]
fn bare_operator_emits_placeholder_function() {
    let mut c = Compiler::new();
    let out = c.compile(op(Token::Slash)).unwrap();
    assert_eq!(out, vec![Constraint::Function { operation: Function::Divide, parameters: vec![0, 0], output: 1 }]);
    assert_eq!(c.compile_block(branch(Kind::Block, vec![op(Token::Dash)])), Err(CompileError::Unwired));
}

#[test]
fn parsed_document_is_rejected_not_dropped() {
    let (tree, _) = parse_mech(b"#test = 1 + 2 * 3");
    let mut c = Compiler::new();
    assert_eq!(c.compile(tree), Err(CompileError::Unsupported { kind: Kind::Statement }));
    let (prose, _) = parse_mech(b"# Title\n\nSome prose here.\n");
    assert_eq!(c.compile(prose), Ok(vec![]));
}

#[test]
fn first_child_of_selection() {
    let s = select(BALL, 2);
    match get_first_child(&s) {
        Some(Node::Table { id, .. }) => assert_eq!(*id, BALL),
        _ => panic!(),
    }
    assert!(get_children(&s).is_none());
}
