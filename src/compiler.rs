use vstd::prelude::*;
use crate::node::{Kind, Node, get_children, get_first_child, get_id, get_value};
use crate::registers::{fresh, inserts_backed, lemma_reads_follow_writes, lemma_registers_fresh, reads_defined};
use crate::token::Token;

verus! {

/// An arithmetic operation of a `Function` instruction.
#[derive(Clone, Copy, Debug, PartialEq, Eq, Structural)]
pub enum Function {
    Add,
    Subtract,
    Multiply,
    Divide,
}

/// One instruction of a compiled block.
#[derive(Debug, PartialEq)]
pub enum Constraint {
    /// Read a table column into an input register.
    Scan { table: u64, column: u64, input: u64 },
    /// Copy a register into another.
    Identity { source: u64, sink: u64 },
    /// Persist a register into a table cell.
    Insert { table: u64, column: u64, output: u64 },
    /// Apply an operation to parameter registers.
    Function { operation: Function, parameters: Vec<u64>, output: u64 },
}

/// The mathematical content of an instruction.
pub enum Op {
    Scan { table: u64, column: u64, input: u64 },
    Identity { source: u64, sink: u64 },
    Insert { table: u64, column: u64, output: u64 },
    Function { operation: Function, parameters: Seq<u64>, output: u64 },
}

impl View for Constraint {
    type V = Op;

    open spec fn view(&self) -> Op {
        match *self {
            Constraint::Scan { table, column, input } => Op::Scan { table, column, input },
            Constraint::Identity { source, sink } => Op::Identity { source, sink },
            Constraint::Insert { table, column, output } => Op::Insert { table, column, output },
            Constraint::Function { operation, parameters, output } => Op::Function {
                operation,
                parameters: parameters@,
                output,
            },
        }
    }
}

pub open spec fn ops_of(v: Seq<Constraint>) -> Seq<Op> {
    v.map_values(|c: Constraint| c@)
}

/// An ordered instruction list: one reactive computation unit.
#[derive(Debug, PartialEq)]
pub struct Block {
    pub constraints: Vec<Constraint>,
}

/// What an error names as expected or as found.
#[derive(Clone, Copy, Debug, PartialEq, Eq, Structural)]
pub enum Shape {
    Scan,
    Identity,
    Insert,
    Function,
    Table,
    Number,
    Operator,
    Leaf,
    Branch(Kind),
    Value,
    Nothing,
}

/// Why a tree could not be lowered.
#[derive(Clone, Copy, Debug, PartialEq, Eq, Structural)]
pub enum CompileError {
    /// The tree does not have the shape that lowering needs here.
    Malformed { expected: Shape, found: Shape },
    /// A column payload that is not the byte of a decimal digit.
    InvalidColumn { value: u64 },
    /// An operator token with no arithmetic operation.
    UnknownOperator { token: Token },
    /// An `Insert` whose output register was never wired.
    Unwired,
    /// A register pool ran out of ids.
    Exhausted,
    /// A construct that has no lowering: the tree is rejected rather than
    /// silently dropped.
    Unsupported { kind: Kind },
}

/// The register a lowered node leaves its value in, if any.
#[derive(Clone, Copy, Debug, PartialEq, Eq, Structural)]
pub enum Value {
    Nothing,
    /// The sink of an `Identity`.
    Slot(u64),
    /// The output of a `Function`.
    Computed(u64),
}

/// The next free ids of the input and of the intermediate pool.
pub type Regs = (u64, u64);

/// Lowering's result: instructions, the value's register, the next free ids.
pub type Lowered = Result<(Seq<Op>, Value, Regs), CompileError>;

pub open spec fn shape_of(n: Node) -> Shape {
    match n {
        Node::Branch { kind, .. } => Shape::Branch(kind),
        Node::Token { .. } => Shape::Leaf,
        Node::Table { .. } => Shape::Table,
        Node::Number { .. } => Shape::Number,
        Node::InfixOperation { .. } => Shape::Operator,
    }
}

pub open spec fn shape_of_op(o: Op) -> Shape {
    match o {
        Op::Scan { .. } => Shape::Scan,
        Op::Identity { .. } => Shape::Identity,
        Op::Insert { .. } => Shape::Insert,
        Op::Function { .. } => Shape::Function,
    }
}

pub open spec fn register_of(v: Value) -> Option<u64> {
    match v {
        Value::Slot(r) => Some(r),
        Value::Computed(r) => Some(r),
        Value::Nothing => None,
    }
}

/// The column index that a digit byte denotes.
pub open spec fn digit_value(b: u64) -> Option<u64> {
    if 48 <= b <= 57 {
        Some((b - 48) as u64)
    } else {
        None
    }
}

/// The operation that an operator token denotes.
pub open spec fn operation_of(t: Token) -> Option<Function> {
    match t {
        Token::Plus => Some(Function::Add),
        Token::Dash => Some(Function::Subtract),
        Token::Asterisk => Some(Function::Multiply),
        Token::Slash => Some(Function::Divide),
        _ => None,
    }
}

/// Kinds that group other nodes: their lowering is their children's, in
/// order.
pub open spec fn is_container(k: Kind) -> bool {
    k == Kind::Root || k == Kind::Block || k == Kind::Constraint || k == Kind::Fragment || k
        == Kind::Program || k == Kind::Body || k == Kind::Section || k == Kind::Paragraph || k
        == Kind::UnorderedList || k == Kind::ListItem || k == Kind::MechCodeBlock
}

/// Prose, comments and layout: they compute nothing and lower to nothing.
pub open spec fn is_prose(k: Kind) -> bool {
    k == Kind::Comment || k == Kind::Title || k == Kind::Subtitle || k == Kind::ParagraphText || k
        == Kind::InlineCode || k == Kind::CodeBlock || k == Kind::FormattedText || k == Kind::Text
        || k == Kind::Word || k == Kind::Whitespace || k == Kind::Punctuation || k == Kind::Symbol
}

fn container_kind(k: Kind) -> (r: bool)
    ensures
        r == is_container(k),
{
    k == Kind::Root || k == Kind::Block || k == Kind::Constraint || k == Kind::Fragment || k
        == Kind::Program || k == Kind::Body || k == Kind::Section || k == Kind::Paragraph || k
        == Kind::UnorderedList || k == Kind::ListItem || k == Kind::MechCodeBlock
}

fn prose_kind(k: Kind) -> (r: bool)
    ensures
        r == is_prose(k),
{
    k == Kind::Comment || k == Kind::Title || k == Kind::Subtitle || k == Kind::ParagraphText || k
        == Kind::InlineCode || k == Kind::CodeBlock || k == Kind::FormattedText || k == Kind::Text
        || k == Kind::Word || k == Kind::Whitespace || k == Kind::Punctuation || k == Kind::Symbol
}

/// Lowering of one node, from the given next free register ids.
pub open spec fn lower(n: Node, c: Regs) -> Lowered
    decreases n,
{
    match n {
        Node::Branch { kind, children } => {
            if is_container(kind) {
                lower_seq(children@, c)
            } else if kind == Kind::Select {
                if children@.len() == 0 {
                    Err(CompileError::Malformed { expected: Shape::Table, found: Shape::Nothing })
                } else {
                    match children@[0] {
                        Node::Table { id, children: cols } => select_columns(id, cols@, c),
                        other => Err(
                            CompileError::Malformed { expected: Shape::Table, found: shape_of(other) },
                        ),
                    }
                }
            } else if kind == Kind::Insert {
                if children@.len() == 0 {
                    Err(CompileError::Malformed { expected: Shape::Table, found: Shape::Nothing })
                } else {
                    match children@[0] {
                        Node::Table { id, children: cols } => match insert_column(cols@) {
                            Ok(col) => match lower_seq(children@.subrange(1, children@.len() as int), c) {
                                Ok((ops, v, c1)) => Ok((
                                    seq![Op::Insert { table: id, column: col, output: 0 }] + ops,
                                    v,
                                    c1,
                                )),
                                Err(e) => Err(e),
                            },
                            Err(e) => Err(e),
                        },
                        other => Err(
                            CompileError::Malformed { expected: Shape::Table, found: shape_of(other) },
                        ),
                    }
                }
            } else if kind == Kind::ColumnDefine {
                wire(lower_seq(children@, c))
            } else if kind == Kind::MathExpression {
                if children@.len() % 2 == 0 {
                    Err(CompileError::Malformed { expected: Shape::Value, found: Shape::Nothing })
                } else {
                    math_fold(children@, c)
                }
            } else if is_prose(kind) {
                Ok((Seq::empty(), Value::Nothing, c))
            } else {
                Err(CompileError::Unsupported { kind })
            }
        },
        Node::InfixOperation { token } => match operation_of(token) {
            Some(f) => if c.1 == u64::MAX {
                Err(CompileError::Exhausted)
            } else {
                Ok((
                    seq![Op::Function { operation: f, parameters: seq![0u64, 0u64], output: c.1 }],
                    Value::Nothing,
                    (c.0, (c.1 + 1) as u64),
                ))
            },
            None => Err(CompileError::UnknownOperator { token }),
        },
        _ => Ok((Seq::empty(), Value::Nothing, c)),
    }
}

/// Lowering of nodes in order; the value is that of the last node that has
/// one.
pub open spec fn lower_seq(ns: Seq<Node>, c: Regs) -> Lowered
    decreases ns,
{
    if ns.len() == 0 {
        Ok((Seq::empty(), Value::Nothing, c))
    } else {
        match lower_seq(ns.subrange(0, ns.len() - 1), c) {
            Ok((ops, v, c1)) => match lower(ns[ns.len() - 1], c1) {
                Ok((ops2, v2, c2)) => Ok(
                    (ops + ops2, if v2 == Value::Nothing {
                        v
                    } else {
                        v2
                    }, c2),
                ),
                Err(e) => Err(e),
            },
            Err(e) => Err(e),
        }
    }
}

/// A `Scan` into a fresh input register and an `Identity` into a fresh
/// intermediate register, for each column in order.
pub open spec fn select_columns(id: u64, cols: Seq<Node>, c: Regs) -> Lowered
    decreases cols.len(),
{
    if cols.len() == 0 {
        Ok((Seq::empty(), Value::Nothing, c))
    } else {
        match select_columns(id, cols.subrange(0, cols.len() - 1), c) {
            Ok((ops, v, c1)) => match cols[cols.len() - 1] {
                Node::Number { value } => match digit_value(value) {
                    Some(d) => if c1.0 == u64::MAX || c1.1 == u64::MAX {
                        Err(CompileError::Exhausted)
                    } else {
                        Ok((
                            ops + seq![
                                Op::Scan { table: id, column: d, input: c1.0 },
                                Op::Identity { source: c1.0, sink: c1.1 },
                            ],
                            Value::Slot(c1.1),
                            ((c1.0 + 1) as u64, (c1.1 + 1) as u64),
                        ))
                    },
                    None => Err(CompileError::InvalidColumn { value }),
                },
                other => Err(
                    CompileError::Malformed { expected: Shape::Number, found: shape_of(other) },
                ),
            },
            Err(e) => Err(e),
        }
    }
}

/// The column that an insert's table reference names by its first child.
pub open spec fn insert_column(cols: Seq<Node>) -> Result<u64, CompileError> {
    if cols.len() == 0 {
        Err(CompileError::Malformed { expected: Shape::Number, found: Shape::Nothing })
    } else {
        match cols[0] {
            Node::Number { value } => match digit_value(value) {
                Some(d) => Ok(d),
                None => Err(CompileError::InvalidColumn { value }),
            },
            other => Err(CompileError::Malformed { expected: Shape::Number, found: shape_of(other) }),
        }
    }
}

/// Wiring: the first instruction must be a placeholder `Insert` and the
/// value must come from a `Function`; the `Insert` then persists it.
pub open spec fn wire(l: Lowered) -> Lowered {
    match l {
        Ok((ops, v, c)) => if ops.len() == 0 {
            Err(CompileError::Malformed { expected: Shape::Insert, found: Shape::Nothing })
        } else {
            match ops[0] {
                Op::Insert { table, column, .. } => match v {
                    Value::Computed(r) => Ok(
                        (ops.update(0, Op::Insert { table, column, output: r }), Value::Nothing, c),
                    ),
                    Value::Slot(_) => Err(
                        CompileError::Malformed { expected: Shape::Function, found: Shape::Identity },
                    ),
                    Value::Nothing => Err(
                        CompileError::Malformed { expected: Shape::Function, found: Shape::Nothing },
                    ),
                },
                other => Err(
                    CompileError::Malformed { expected: Shape::Insert, found: shape_of_op(other) },
                ),
            }
        },
        Err(e) => Err(e),
    }
}

/// Left-associative lowering of `operand (operator operand)*`: each
/// operator applies to the value so far and the next operand's value.
pub open spec fn math_fold(ns: Seq<Node>, c: Regs) -> Lowered
    decreases ns,
{
    if ns.len() <= 1 {
        if ns.len() == 0 {
            Err(CompileError::Malformed { expected: Shape::Value, found: Shape::Nothing })
        } else {
            operand(lower(ns[0], c), ns[0])
        }
    } else {
        match math_fold(ns.subrange(0, ns.len() - 2), c) {
            Ok((ops, v, c1)) => match ns[ns.len() - 2] {
                Node::InfixOperation { token } => match operation_of(token) {
                    Some(f) => match operand(lower(ns[ns.len() - 1], c1), ns[ns.len() - 1]) {
                        Ok((ops2, v2, c2)) => if c2.1 == u64::MAX {
                            Err(CompileError::Exhausted)
                        } else {
                            Ok((
                                ops + ops2 + seq![
                                    Op::Function {
                                        operation: f,
                                        parameters: seq![
                                            register_of(v).unwrap(),
                                            register_of(v2).unwrap(),
                                        ],
                                        output: c2.1,
                                    },
                                ],
                                Value::Computed(c2.1),
                                (c2.0, (c2.1 + 1) as u64),
                            ))
                        },
                        Err(e) => Err(e),
                    },
                    None => Err(CompileError::UnknownOperator { token }),
                },
                other => Err(
                    CompileError::Malformed { expected: Shape::Operator, found: shape_of(other) },
                ),
            },
            Err(e) => Err(e),
        }
    }
}

/// The lowering `l` of operand `n`, which must leave a value in a register.
pub open spec fn operand(l: Lowered, n: Node) -> Lowered {
    match l {
        Ok((ops, v, c1)) => if v == Value::Nothing {
            Err(CompileError::Malformed { expected: Shape::Value, found: shape_of(n) })
        } else {
            Ok((ops, v, c1))
        },
        Err(e) => Err(e),
    }
}

pub open spec fn failed(e: CompileError) -> Lowered {
    Err(e)
}

/// No counter went down from `a` to `b`.
pub open spec fn grew(a: Regs, b: Regs) -> bool {
    a.0 <= b.0 && a.1 <= b.1
}

/// `r` is what the spec lowering `l` gives, and `after` its next free ids.
pub open spec fn agrees(
    r: Result<(Vec<Constraint>, Value), CompileError>,
    l: Lowered,
    after: Regs,
) -> bool {
    match r {
        Ok((v, val)) => l matches Ok((ops, lv, c)) && ops_of(v@) == ops && val == lv && after == c,
        Err(e) => l == failed(e),
    }
}

proof fn lemma_ops_append(a: Seq<Constraint>, b: Seq<Constraint>)
    ensures
        ops_of(a + b) == ops_of(a) + ops_of(b),
{
    assert(ops_of(a + b) =~= ops_of(a) + ops_of(b));
}

proof fn lemma_seq_err(ns: Seq<Node>, k: int, c: Regs)
    requires
        0 <= k <= ns.len(),
        lower_seq(ns.subrange(0, k), c) is Err,
    ensures
        lower_seq(ns, c) == lower_seq(ns.subrange(0, k), c),
    decreases ns.len(),
{
    if k == ns.len() {
        assert(ns.subrange(0, k) =~= ns);
    } else {
        let pre = ns.subrange(0, ns.len() - 1);
        assert(pre.subrange(0, k) =~= ns.subrange(0, k));
        lemma_seq_err(pre, k, c);
    }
}

proof fn lemma_select_err(id: u64, ns: Seq<Node>, k: int, c: Regs)
    requires
        0 <= k <= ns.len(),
        select_columns(id, ns.subrange(0, k), c) is Err,
    ensures
        select_columns(id, ns, c) == select_columns(id, ns.subrange(0, k), c),
    decreases ns.len(),
{
    if k == ns.len() {
        assert(ns.subrange(0, k) =~= ns);
    } else {
        let pre = ns.subrange(0, ns.len() - 1);
        assert(pre.subrange(0, k) =~= ns.subrange(0, k));
        lemma_select_err(id, pre, k, c);
    }
}

proof fn lemma_math_err(ns: Seq<Node>, k: int, c: Regs)
    requires
        1 <= k <= ns.len(),
        k % 2 == 1,
        ns.len() % 2 == 1,
        math_fold(ns.subrange(0, k), c) is Err,
    ensures
        math_fold(ns, c) == math_fold(ns.subrange(0, k), c),
    decreases ns.len(),
{
    if k == ns.len() {
        assert(ns.subrange(0, k) =~= ns);
    } else {
        let pre = ns.subrange(0, ns.len() - 2);
        assert(pre.subrange(0, k) =~= ns.subrange(0, k));
        lemma_math_err(pre, k, c);
    }
}

/// The column index of a digit byte.
pub fn byte_to_digit(byte: u8) -> (r: Option<usize>)
    ensures
        r == (if 48 <= byte <= 57 {
            Some((byte - 48) as usize)
        } else {
            None::<usize>
        }),
{
    if 48 <= byte && byte <= 57 {
        Some((byte - 48) as usize)
    } else {
        None
    }
}

fn column_digit(value: u64) -> (r: Option<u64>)
    ensures
        r == digit_value(value),
{
    if value <= 255 {
        match byte_to_digit(value as u8) {
            Some(d) => Some(d as u64),
            None => None,
        }
    } else {
        None
    }
}

fn shape(n: &Node) -> (r: Shape)
    ensures
        r == shape_of(*n),
{
    match n {
        Node::Branch { kind, .. } => Shape::Branch(*kind),
        Node::Token { .. } => Shape::Leaf,
        Node::Table { .. } => Shape::Table,
        Node::Number { .. } => Shape::Number,
        Node::InfixOperation { .. } => Shape::Operator,
    }
}

fn operation(t: Token) -> (r: Option<Function>)
    ensures
        r == operation_of(t),
{
    match t {
        Token::Plus => Some(Function::Add),
        Token::Dash => Some(Function::Subtract),
        Token::Asterisk => Some(Function::Multiply),
        Token::Slash => Some(Function::Divide),
        _ => None,
    }
}

fn nothing() -> (r: (Vec<Constraint>, Value))
    ensures
        ops_of(r.0@) == Seq::<Op>::empty(),
        r.1 == Value::Nothing,
{
    let v: Vec<Constraint> = Vec::new();
    assert(ops_of(v@) =~= Seq::<Op>::empty());
    (v, Value::Nothing)
}

fn register(v: Value) -> (r: u64)
    requires
        v != Value::Nothing,
    ensures
        register_of(v) == Some(r),
{
    match v {
        Value::Slot(r) => r,
        Value::Computed(r) => r,
        Value::Nothing => 0,
    }
}

fn column_of(table: &Node) -> (r: Result<u64, CompileError>)
    requires
        table is Table,
    ensures
        r == insert_column(table->Table_children@),
{
    match get_first_child(table) {
        Some(first) => match get_value(first) {
            Some(value) => match column_digit(value) {
                Some(d) => Ok(d),
                None => Err(CompileError::InvalidColumn { value }),
            },
            None => Err(CompileError::Malformed { expected: Shape::Number, found: shape(first) }),
        },
        None => Err(CompileError::Malformed { expected: Shape::Number, found: Shape::Nothing }),
    }
}

fn copy_registers(v: &Vec<u64>) -> (r: Vec<u64>)
    ensures
        r@ == v@,
{
    let mut r: Vec<u64> = Vec::new();
    let mut i: usize = 0;
    while i < v.len()
        invariant
            i <= v@.len(),
            r@ == v@.subrange(0, i as int),
        decreases v@.len() - i,
    {
        r.push(v[i]);
        i = i + 1;
        assert(r@ =~= v@.subrange(0, i as int));
    }
    assert(v@.subrange(0, i as int) =~= v@);
    r
}

fn copy_constraint(c: &Constraint) -> (r: Constraint)
    ensures
        r@ == c@,
{
    match c {
        Constraint::Scan { table, column, input } => Constraint::Scan {
            table: *table,
            column: *column,
            input: *input,
        },
        Constraint::Identity { source, sink } => Constraint::Identity { source: *source, sink: *sink },
        Constraint::Insert { table, column, output } => Constraint::Insert {
            table: *table,
            column: *column,
            output: *output,
        },
        Constraint::Function { operation, parameters, output } => Constraint::Function {
            operation: *operation,
            parameters: copy_registers(parameters),
            output: *output,
        },
    }
}

/// A copy of an instruction list.
fn copy_all(v: &Vec<Constraint>) -> (r: Vec<Constraint>)
    ensures
        ops_of(r@) == ops_of(v@),
{
    let mut r: Vec<Constraint> = Vec::new();
    let mut i: usize = 0;
    while i < v.len()
        invariant
            i <= v@.len(),
            r@.len() == i,
            forall|j: int| 0 <= j < i ==> (#[trigger] r@[j])@ == v@[j]@,
        decreases v@.len() - i,
    {
        r.push(copy_constraint(&v[i]));
        i = i + 1;
    }
    assert(ops_of(r@) =~= ops_of(v@));
    r
}

/// Lowers syntax trees into instruction blocks. Each pool hands out ids in
/// increasing order and never takes one back.
pub struct Compiler {
    pub blocks: Vec<Block>,
    /// The instructions of the last successful compilation.
    pub constraints: Vec<Constraint>,
    /// Nesting depth of the lowering in progress.
    pub depth: usize,
    pub input_registers: u64,
    pub intermediate_registers: u64,
    pub output_registers: u64,
}

impl Compiler {
    pub open spec fn regs(&self) -> Regs {
        (self.input_registers, self.intermediate_registers)
    }

    /// The state that `lower_*` leaves alone.
    pub open spec fn same_frame(&self, other: &Compiler) -> bool {
        self.blocks == other.blocks && self.depth == other.depth && self.output_registers
            == other.output_registers && self.constraints == other.constraints
    }

    pub fn new() -> (r: Compiler)
        ensures
            r.blocks@.len() == 0,
            r.constraints@.len() == 0,
            r.depth == 0,
            r.input_registers == 1,
            r.intermediate_registers == 1,
            r.output_registers == 1,
    {
        Compiler {
            blocks: Vec::new(),
            constraints: Vec::new(),
            depth: 0,
            input_registers: 1,
            intermediate_registers: 1,
            output_registers: 1,
        }
    }

    fn select(&mut self, id: u64, cols: &Vec<Node>) -> (r: Result<(Vec<Constraint>, Value), CompileError>)
        ensures
            agrees(r, select_columns(id, cols@, old(self).regs()), final(self).regs()),
            final(self).same_frame(old(self)),
            grew(old(self).regs(), final(self).regs()),
    {
        let ghost c0 = self.regs();
        let mut out: Vec<Constraint> = Vec::new();
        let mut val = Value::Nothing;
        let mut i: usize = 0;
        assert(cols@.subrange(0, 0) =~= Seq::<Node>::empty());
        assert(ops_of(out@) =~= Seq::<Op>::empty());
        while i < cols.len()
            invariant
                i <= cols@.len(),
                select_columns(id, cols@.subrange(0, i as int), c0) == Ok::<(Seq<Op>, Value, Regs), CompileError>((ops_of(out@), val, self.regs())),
                self.same_frame(old(self)),
                c0 == old(self).regs(),
                grew(c0, self.regs()),
            decreases cols@.len() - i,
        {
            let ghost pre = cols@.subrange(0, i as int);
            let ghost next = cols@.subrange(0, i + 1);
            assert(next.subrange(0, i as int) =~= pre);
            assert(next[i as int] == cols@[i as int]);
            let value = match get_value(&cols[i]) {
                Some(v) => v,
                None => {
                    let found = shape(&cols[i]);
                    assert(select_columns(id, next, c0) == failed(CompileError::Malformed { expected: Shape::Number, found }));
                    proof { lemma_select_err(id, cols@, i + 1, c0); }
                    return Err(CompileError::Malformed { expected: Shape::Number, found });
                },
            };
            let d = match column_digit(value) {
                Some(d) => d,
                None => {
                    assert(select_columns(id, next, c0) == failed(CompileError::InvalidColumn { value }));
                    proof { lemma_select_err(id, cols@, i + 1, c0); }
                    return Err(CompileError::InvalidColumn { value });
                },
            };
            if self.input_registers == u64::MAX || self.intermediate_registers == u64::MAX {
                assert(select_columns(id, next, c0) == failed(CompileError::Exhausted));
                proof { lemma_select_err(id, cols@, i + 1, c0); }
                return Err(CompileError::Exhausted);
            }
            let input = self.input_registers;
            let sink = self.intermediate_registers;
            let ghost before = out@;
            out.push(Constraint::Scan { table: id, column: d, input });
            out.push(Constraint::Identity { source: input, sink });
            assert(ops_of(out@) =~= ops_of(before) + seq![
                Op::Scan { table: id, column: d, input },
                Op::Identity { source: input, sink },
            ]);
            self.input_registers = input + 1;
            self.intermediate_registers = sink + 1;
            val = Value::Slot(sink);
            i = i + 1;
        }
        assert(cols@.subrange(0, cols@.len() as int) =~= cols@);
        Ok((out, val))
    }

    fn lower_nodes(&mut self, nodes: &Vec<Node>, from: usize) -> (r: Result<(Vec<Constraint>, Value), CompileError>)
        requires
            from <= nodes@.len(),
        ensures
            agrees(r, lower_seq(nodes@.subrange(from as int, nodes@.len() as int), old(self).regs()), final(self).regs()),
            final(self).same_frame(old(self)),
            grew(old(self).regs(), final(self).regs()),
        decreases nodes, 0nat,
    {
        let ghost c0 = self.regs();
        let ghost all = nodes@.subrange(from as int, nodes@.len() as int);
        let mut out: Vec<Constraint> = Vec::new();
        let mut val = Value::Nothing;
        let mut i: usize = from;
        assert(all.subrange(0, 0) =~= Seq::<Node>::empty());
        assert(ops_of(out@) =~= Seq::<Op>::empty());
        while i < nodes.len()
            invariant
                from <= i <= nodes@.len(),
                all == nodes@.subrange(from as int, nodes@.len() as int),
                lower_seq(all.subrange(0, i - from), c0) == Ok::<(Seq<Op>, Value, Regs), CompileError>((ops_of(out@), val, self.regs())),
                self.same_frame(old(self)),
                c0 == old(self).regs(),
                grew(c0, self.regs()),
            decreases nodes@.len() - i,
        {
            let ghost pre = all.subrange(0, i - from);
            let ghost next = all.subrange(0, i - from + 1);
            assert(next.subrange(0, i - from) =~= pre);
            assert(next[i - from] == nodes@[i as int]);
            proof { assert(decreases_to!(*nodes => nodes@[i as int])); }
            let (mut more, v2) = match self.lower_node(&nodes[i]) {
                Ok(x) => x,
                Err(e) => {
                    assert(lower_seq(next, c0) == failed(e));
                    proof { lemma_seq_err(all, i - from + 1, c0); }
                    return Err(e);
                },
            };
            proof { lemma_ops_append(out@, more@); }
            out.append(&mut more);
            if v2 != Value::Nothing {
                val = v2;
            }
            i = i + 1;
        }
        assert(all.subrange(0, all.len() as int) =~= all);
        Ok((out, val))
    }

    fn math(&mut self, children: &Vec<Node>) -> (r: Result<(Vec<Constraint>, Value), CompileError>)
        requires
            children@.len() % 2 == 1,
        ensures
            agrees(r, math_fold(children@, old(self).regs()), final(self).regs()),
            final(self).same_frame(old(self)),
            grew(old(self).regs(), final(self).regs()),
        decreases children, 0nat,
    {
        let ghost c0 = self.regs();
        let n = children.len();
        proof { assert(decreases_to!(*children => children@[0])); }
        assert(children@.subrange(0, 1)[0] == children@[0]);
        let (mut out, mut acc) = match self.lower_node(&children[0]) {
            Ok(x) => x,
            Err(e) => {
                proof { lemma_math_err(children@, 1, c0); }
                return Err(e);
            },
        };
        if acc == Value::Nothing {
            proof { lemma_math_err(children@, 1, c0); }
            return Err(CompileError::Malformed { expected: Shape::Value, found: shape(&children[0]) });
        }
        let mut i: usize = 1;
        while i < n
            invariant
                n == children@.len(),
                n % 2 == 1,
                1 <= i <= n,
                i % 2 == 1,
                acc != Value::Nothing,
                math_fold(children@.subrange(0, i as int), c0) == Ok::<(Seq<Op>, Value, Regs), CompileError>((ops_of(out@), acc, self.regs())),
                self.same_frame(old(self)),
                c0 == old(self).regs(),
                grew(c0, self.regs()),
            decreases n - i,
        {
            let ghost pre = children@.subrange(0, i as int);
            let ghost next = children@.subrange(0, i + 2);
            assert(next.subrange(0, i as int) =~= pre);
            assert(next[i as int] == children@[i as int]);
            assert(next[i + 1] == children@[i + 1]);
            let f = match &children[i] {
                Node::InfixOperation { token } => match operation(*token) {
                    Some(f) => f,
                    None => {
                        proof { lemma_math_err(children@, i + 2, c0); }
                        return Err(CompileError::UnknownOperator { token: *token });
                    },
                },
                other => {
                    proof { lemma_math_err(children@, i + 2, c0); }
                    return Err(CompileError::Malformed { expected: Shape::Operator, found: shape(other) });
                },
            };
            proof { assert(decreases_to!(*children => children@[i + 1])); }
            let (mut more, v2) = match self.lower_node(&children[i + 1]) {
                Ok(x) => x,
                Err(e) => {
                    proof { lemma_math_err(children@, i + 2, c0); }
                    return Err(e);
                },
            };
            if v2 == Value::Nothing {
                proof { lemma_math_err(children@, i + 2, c0); }
                return Err(CompileError::Malformed { expected: Shape::Value, found: shape(&children[i + 1]) });
            }
            if self.intermediate_registers == u64::MAX {
                proof { lemma_math_err(children@, i + 2, c0); }
                return Err(CompileError::Exhausted);
            }
            let output = self.intermediate_registers;
            self.intermediate_registers = output + 1;
            let lhs = register(acc);
            let rhs = register(v2);
            let ghost before = out@;
            let ghost added = more@;
            out.append(&mut more);
            let parameters = vec![lhs, rhs];
            assert(parameters@ =~= seq![lhs, rhs]);
            out.push(Constraint::Function { operation: f, parameters, output });
            proof {
                lemma_ops_append(before, added);
                assert(ops_of(out@) =~= ops_of(before) + ops_of(added) + seq![
                    Op::Function { operation: f, parameters: seq![lhs, rhs], output },
                ]);
            }
            acc = Value::Computed(output);
            i = i + 2;
        }
        assert(children@.subrange(0, n as int) =~= children@);
        Ok((out, acc))
    }

    fn lower_node(&mut self, node: &Node) -> (r: Result<(Vec<Constraint>, Value), CompileError>)
        ensures
            agrees(r, lower(*node, old(self).regs()), final(self).regs()),
            final(self).same_frame(old(self)),
            grew(old(self).regs(), final(self).regs()),
        decreases node, 1nat,
    {
        let saved = self.depth;
        if self.depth < usize::MAX {
            self.depth = self.depth + 1;
        }
        let r = match node {
            Node::Branch { kind, children } => {
                let kind = *kind;
                if container_kind(kind) {
                    assert(children@.subrange(0, children@.len() as int) =~= children@);
                    self.lower_nodes(children, 0)
                } else if kind == Kind::Select {
                    if children.len() == 0 {
                        Err(CompileError::Malformed { expected: Shape::Table, found: Shape::Nothing })
                    } else {
                        match get_id(&children[0]) {
                            Some(id) => {
                                let cols = get_children(&children[0]).unwrap();
                                self.select(id, cols)
                            },
                            None => Err(CompileError::Malformed { expected: Shape::Table, found: shape(&children[0]) }),
                        }
                    }
                } else if kind == Kind::Insert {
                    if children.len() == 0 {
                        Err(CompileError::Malformed { expected: Shape::Table, found: Shape::Nothing })
                    } else {
                        match get_id(&children[0]) {
                            Some(id) => {
                                match column_of(&children[0]) {
                                    Ok(column) => match self.lower_nodes(children, 1) {
                                        Ok((mut rest, v)) => {
                                            let mut out = Vec::new();
                                            out.push(Constraint::Insert { table: id, column, output: 0 });
                                            let ghost first = out@;
                                            proof { lemma_ops_append(first, rest@); }
                                            assert(ops_of(first) =~= seq![Op::Insert { table: id, column, output: 0 }]);
                                            out.append(&mut rest);
                                            Ok((out, v))
                                        },
                                        Err(e) => Err(e),
                                    },
                                    Err(e) => Err(e),
                                }
                            },
                            None => Err(CompileError::Malformed { expected: Shape::Table, found: shape(&children[0]) }),
                        }
                    }
                } else if kind == Kind::ColumnDefine {
                    assert(children@.subrange(0, children@.len() as int) =~= children@);
                    match self.lower_nodes(children, 0) {
                        Ok((mut v, val)) => {
                            if v.len() == 0 {
                                Err(CompileError::Malformed { expected: Shape::Insert, found: Shape::Nothing })
                            } else {
                                let head = match &v[0] {
                                    Constraint::Insert { table, column, .. } => Ok((*table, *column)),
                                    Constraint::Scan { .. } => Err(Shape::Scan),
                                    Constraint::Identity { .. } => Err(Shape::Identity),
                                    Constraint::Function { .. } => Err(Shape::Function),
                                };
                                match head {
                                    Ok((table, column)) => match val {
                                        Value::Computed(reg) => {
                                            let ghost before = v@;
                                            v.set(0, Constraint::Insert { table, column, output: reg });
                                            assert(ops_of(v@) =~= ops_of(before).update(0, Op::Insert { table, column, output: reg }));
                                            Ok((v, Value::Nothing))
                                        },
                                        Value::Slot(_) => Err(CompileError::Malformed { expected: Shape::Function, found: Shape::Identity }),
                                        Value::Nothing => Err(CompileError::Malformed { expected: Shape::Function, found: Shape::Nothing }),
                                    },
                                    Err(found) => Err(CompileError::Malformed { expected: Shape::Insert, found }),
                                }
                            }
                        },
                        Err(e) => Err(e),
                    }
                } else if kind == Kind::MathExpression {
                    if children.len() % 2 == 0 {
                        Err(CompileError::Malformed { expected: Shape::Value, found: Shape::Nothing })
                    } else {
                        self.math(children)
                    }
                } else if prose_kind(kind) {
                    Ok(nothing())
                } else {
                    Err(CompileError::Unsupported { kind })
                }
            },
            Node::InfixOperation { token } => match operation(*token) {
                Some(f) => {
                    if self.intermediate_registers == u64::MAX {
                        Err(CompileError::Exhausted)
                    } else {
                        let output = self.intermediate_registers;
                        self.intermediate_registers = output + 1;
                        let parameters = vec![0u64, 0u64];
                        assert(parameters@ =~= seq![0u64, 0u64]);
                        let mut out = Vec::new();
                        out.push(Constraint::Function { operation: f, parameters, output });
                        assert(ops_of(out@) =~= seq![Op::Function { operation: f, parameters: seq![0u64, 0u64], output }]);
                        Ok((out, Value::Nothing))
                    }
                },
                None => Err(CompileError::UnknownOperator { token: *token }),
            },
            _ => Ok(nothing()),
        };
        self.depth = saved;
        r
    }

    /// Lowers one tree, appending nothing to the blocks; ids continue from
    /// the current counters. On success `constraints` holds the result; on
    /// an error the compiler is left as it was.
    pub fn compile(&mut self, ast: Node) -> (r: Result<Vec<Constraint>, CompileError>)
        ensures
            final(self).blocks == old(self).blocks,
            final(self).depth == old(self).depth,
            final(self).output_registers == old(self).output_registers,
            grew(old(self).regs(), final(self).regs()),
            match r {
                Ok(v) => lower(ast, old(self).regs()) matches Ok((ops, _, c)) && ops_of(v@) == ops
                    && final(self).regs() == c && ops_of(final(self).constraints@) == ops,
                Err(e) => lower(ast, old(self).regs()) == failed(e) && final(self).regs() == old(
                    self,
                ).regs() && final(self).constraints == old(self).constraints,
            },
    {
        let input = self.input_registers;
        let intermediate = self.intermediate_registers;
        match self.lower_node(&ast) {
            Ok((v, _)) => {
                self.constraints = copy_all(&v);
                Ok(v)
            },
            Err(e) => {
                self.input_registers = input;
                self.intermediate_registers = intermediate;
                Err(e)
            },
        }
    }

    /// Lowers trees in order. On success `constraints` holds the result; on
    /// an error the compiler is left as it was.
    pub fn compile_nodes(&mut self, nodes: Vec<Node>) -> (r: Result<Vec<Constraint>, CompileError>)
        ensures
            final(self).blocks == old(self).blocks,
            final(self).depth == old(self).depth,
            final(self).output_registers == old(self).output_registers,
            grew(old(self).regs(), final(self).regs()),
            match r {
                Ok(v) => lower_seq(nodes@, old(self).regs()) matches Ok((ops, _, c)) && ops_of(v@)
                    == ops && final(self).regs() == c && ops_of(final(self).constraints@) == ops,
                Err(e) => lower_seq(nodes@, old(self).regs()) == failed(e) && final(self).regs()
                    == old(self).regs() && final(self).constraints == old(self).constraints,
            },
    {
        assert(nodes@.subrange(0, nodes@.len() as int) =~= nodes@);
        let input = self.input_registers;
        let intermediate = self.intermediate_registers;
        match self.lower_nodes(&nodes, 0) {
            Ok((v, _)) => {
                self.constraints = copy_all(&v);
                Ok(v)
            },
            Err(e) => {
                self.input_registers = input;
                self.intermediate_registers = intermediate;
                Err(e)
            },
        }
    }

    /// Compiles one block: the counters start afresh at 1, the tree is
    /// lowered, every `Insert` must have been wired, and the block is
    /// appended to `blocks`. In a compiled block each register pool hands
    /// out 1, 2, 3, ... in order, no register is read before it is written,
    /// and every `Insert` persists the output of a `Function`.
    pub fn compile_block(&mut self, ast: Node) -> (r: Result<(), CompileError>)
        ensures
            final(self).depth == old(self).depth,
            match r {
                Ok(()) => lower(ast, (1, 1)) matches Ok((ops, _, c)) && wired(ops) && inserts_backed(ops)
                    && reads_defined(ops) && fresh(ops, (1, 1), c)
                    && final(self).blocks@.len() == old(self).blocks@.len() + 1
                    && final(self).blocks@.subrange(0, old(self).blocks@.len() as int)
                    == old(self).blocks@ && ops_of(final(self).blocks@.last().constraints@) == ops
                    && final(self).regs() == c,
                Err(e) => final(self).blocks@ == old(self).blocks@ && final(self).regs() == old(
                    self,
                ).regs() && final(self).output_registers == old(self).output_registers && (lower(
                    ast,
                    (1, 1),
                ) == failed(e) || (e == CompileError::Unwired && lowered_unwired(
                    lower(ast, (1, 1)),
                ))),
            },
    {
        let input = self.input_registers;
        let intermediate = self.intermediate_registers;
        let output = self.output_registers;
        self.input_registers = 1;
        self.intermediate_registers = 1;
        self.output_registers = 1;
        proof {
            lemma_registers_fresh(ast, (1, 1));
            lemma_reads_follow_writes(ast, (1, 1));
        }
        let v = match self.compile(ast) {
            Ok(v) => v,
            Err(e) => {
                self.input_registers = input;
                self.intermediate_registers = intermediate;
                self.output_registers = output;
                return Err(e);
            },
        };
        if has_unwired(&v) {
            self.input_registers = input;
            self.intermediate_registers = intermediate;
            self.output_registers = output;
            return Err(CompileError::Unwired);
        }
        let ghost before = self.blocks@;
        self.blocks.push(Block { constraints: v });
        assert(self.blocks@.subrange(0, before.len() as int) =~= before);
        Ok(())
    }
}

/// An instruction still holding a placeholder register: an `Insert` whose
/// output was never wired, or a `Function` whose parameters were never set.
pub open spec fn unwired(o: Op) -> bool {
    match o {
        Op::Insert { output, .. } => output == 0,
        Op::Function { parameters, .. } => parameters.contains(0),
        _ => false,
    }
}

/// Every `Insert` persists a real register and every `Function` reads real
/// registers.
pub open spec fn wired(ops: Seq<Op>) -> bool {
    forall|i: int| 0 <= i < ops.len() ==> !unwired(#[trigger] ops[i])
}

/// The lowering succeeded but left an `Insert` unwired.
pub open spec fn lowered_unwired(l: Lowered) -> bool {
    l matches Ok((ops, _, _)) && !wired(ops)
}

fn has_zero(v: &Vec<u64>) -> (r: bool)
    ensures
        r == v@.contains(0),
{
    let mut i: usize = 0;
    while i < v.len()
        invariant
            i <= v@.len(),
            forall|j: int| 0 <= j < i ==> v@[j] != 0,
        decreases v@.len() - i,
    {
        if v[i] == 0 {
            return true;
        }
        i = i + 1;
    }
    false
}

fn has_unwired(v: &Vec<Constraint>) -> (r: bool)
    ensures
        r == !wired(ops_of(v@)),
{
    let mut i: usize = 0;
    while i < v.len()
        invariant
            i <= v@.len(),
            forall|j: int| 0 <= j < i ==> !unwired(#[trigger] ops_of(v@)[j]),
        decreases v@.len() - i,
    {
        let hit = match &v[i] {
            Constraint::Insert { output, .. } => *output == 0,
            Constraint::Function { parameters, .. } => has_zero(parameters),
            _ => false,
        };
        if hit {
            assert(unwired(ops_of(v@)[i as int]));
            return true;
        }
        i = i + 1;
    }
    false
}

} // verus!
