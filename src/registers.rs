use vstd::prelude::*;
use crate::compiler::{is_container, Lowered, Op, Regs, Value, lower, lower_seq, math_fold, select_columns, operand, wire, insert_column, register_of};
use crate::node::{Kind, Node};

verus! {

/// The ids that `o` takes from the input pool (`pool` 0) or from the
/// intermediate pool (`pool` 1).
pub open spec fn own_ids(o: Op, pool: nat) -> Seq<u64> {
    match o {
        Op::Scan { input, .. } => if pool == 0 {
            seq![input]
        } else {
            Seq::empty()
        },
        Op::Identity { sink, .. } => if pool == 1 {
            seq![sink]
        } else {
            Seq::empty()
        },
        Op::Function { output, .. } => if pool == 1 {
            seq![output]
        } else {
            Seq::empty()
        },
        Op::Insert { .. } => Seq::empty(),
    }
}

/// The ids taken from a pool, in the order the instructions take them.
pub open spec fn ids(ops: Seq<Op>, pool: nat) -> Seq<u64>
    decreases ops.len(),
{
    if ops.len() == 0 {
        Seq::empty()
    } else {
        own_ids(ops[0], pool) + ids(ops.drop_first(), pool)
    }
}

/// `lo, lo + 1, ..., hi - 1`.
pub open spec fn span(lo: u64, hi: u64) -> Seq<u64> {
    Seq::new((hi - lo) as nat, |i: int| (lo + i) as u64)
}

/// Each pool handed out exactly the ids from its counter before to its
/// counter after, in increasing order.
pub open spec fn fresh(ops: Seq<Op>, c: Regs, c2: Regs) -> bool {
    c.0 <= c2.0 && c.1 <= c2.1 && ids(ops, 0) == span(c.0, c2.0) && ids(ops, 1) == span(c.1, c2.1)
}

pub open spec fn fresh_result(l: Lowered, c: Regs) -> bool {
    l matches Ok((ops, _, c2)) ==> fresh(ops, c, c2)
}

pub open spec fn strictly_increasing(s: Seq<u64>) -> bool {
    forall|i: int, j: int| 0 <= i < j < s.len() ==> s[i] < s[j]
}

proof fn lemma_ids_append(a: Seq<Op>, b: Seq<Op>, pool: nat)
    ensures
        ids(a + b, pool) == ids(a, pool) + ids(b, pool),
    decreases a.len(),
{
    if a.len() == 0 {
        assert(a + b =~= b);
    } else {
        assert((a + b).drop_first() =~= a.drop_first() + b);
        lemma_ids_append(a.drop_first(), b, pool);
    }
}

proof fn lemma_ids_one(o: Op, pool: nat)
    ensures
        ids(seq![o], pool) == own_ids(o, pool),
{
    let s = seq![o];
    assert(s.drop_first() =~= Seq::<Op>::empty());
    assert(ids(s.drop_first(), pool) == Seq::<u64>::empty());
    assert(s[0] == o);
    assert(ids(s, pool) == own_ids(o, pool) + ids(s.drop_first(), pool));
    assert(own_ids(o, pool) + Seq::<u64>::empty() =~= own_ids(o, pool));
}

proof fn lemma_span_join(lo: u64, mid: u64, hi: u64)
    requires
        lo <= mid <= hi,
    ensures
        span(lo, mid) + span(mid, hi) == span(lo, hi),
{
    assert(span(lo, mid) + span(mid, hi) =~= span(lo, hi));
}

proof fn lemma_span_empty(lo: u64)
    ensures
        span(lo, lo) == Seq::<u64>::empty(),
{
    assert(span(lo, lo) =~= Seq::<u64>::empty());
}

proof fn lemma_span_step(lo: u64, hi: u64)
    requires
        lo <= hi < u64::MAX,
    ensures
        span(lo, hi) + seq![hi] == span(lo, (hi + 1) as u64),
{
    assert(span(lo, hi) + seq![hi] =~= span(lo, (hi + 1) as u64));
}

proof fn lemma_empty_fresh(c: Regs)
    ensures
        fresh(Seq::empty(), c, c),
{
    lemma_span_empty(c.0);
    lemma_span_empty(c.1);
}

/// Chaining: `a` fresh from `c` to `c1`, then `b` fresh from `c1` to `c2`.
proof fn lemma_fresh_join(a: Seq<Op>, b: Seq<Op>, c: Regs, c1: Regs, c2: Regs)
    requires
        fresh(a, c, c1),
        fresh(b, c1, c2),
    ensures
        fresh(a + b, c, c2),
{
    lemma_ids_append(a, b, 0);
    lemma_ids_append(a, b, 1);
    lemma_span_join(c.0, c1.0, c2.0);
    lemma_span_join(c.1, c1.1, c2.1);
}

proof fn lemma_select_fresh(id: u64, cols: Seq<Node>, c: Regs)
    ensures
        fresh_result(select_columns(id, cols, c), c),
    decreases cols.len(),
{
    if cols.len() == 0 {
        lemma_empty_fresh(c);
    } else {
        let pre = cols.subrange(0, cols.len() - 1);
        lemma_select_fresh(id, pre, c);
        if let Ok((ops, _, c1)) = select_columns(id, pre, c) {
            if let Ok((all, _, c2)) = select_columns(id, cols, c) {
                let d = all[ops.len() as int];
                let pair = all.subrange(ops.len() as int, all.len() as int);
                assert(all =~= ops + pair);
                lemma_ids_append(seq![pair[0]], seq![pair[1]], 0);
                lemma_ids_append(seq![pair[0]], seq![pair[1]], 1);
                assert(pair =~= seq![pair[0]] + seq![pair[1]]);
                lemma_ids_one(pair[0], 0);
                lemma_ids_one(pair[0], 1);
                lemma_ids_one(pair[1], 0);
                lemma_ids_one(pair[1], 1);
                lemma_span_step(c.0, c1.0);
                lemma_span_step(c.1, c1.1);
                lemma_span_empty(c1.0);
                assert(ids(pair, 0) =~= seq![c1.0]);
                assert(ids(pair, 1) =~= seq![c1.1]);
                lemma_ids_append(ops, pair, 0);
                lemma_ids_append(ops, pair, 1);
            }
        }
    }
}

proof fn lemma_lower_fresh(n: Node, c: Regs)
    ensures
        fresh_result(lower(n, c), c),
    decreases n,
{
    match n {
        Node::Branch { kind, children } => {
            if is_container(kind) {
                lemma_seq_fresh(children@, c);
            } else if kind == Kind::Select {
                if children@.len() > 0 {
                    if let Node::Table { id, children: cols } = children@[0] {
                        lemma_select_fresh(id, cols@, c);
                    }
                }
            } else if kind == Kind::Insert {
                if children@.len() > 0 {
                    if let Node::Table { id, children: cols } = children@[0] {
                        if let Ok(col) = insert_column(cols@) {
                            let rest = children@.subrange(1, children@.len() as int);
                            assert(decreases_to!(n => rest));
                            lemma_seq_fresh(rest, c);
                            if let Ok((ops, _, c1)) = lower_seq(rest, c) {
                                let head = seq![Op::Insert { table: id, column: col, output: 0 }];
                                lemma_ids_one(head[0], 0);
                                lemma_ids_one(head[0], 1);
                                lemma_empty_fresh(c);
                                lemma_fresh_join(head, ops, c, c, c1);
                            }
                        }
                    }
                }
            } else if kind == Kind::ColumnDefine {
                lemma_seq_fresh(children@, c);
                lemma_wire_fresh(lower_seq(children@, c), c);
            } else if kind == Kind::MathExpression {
                if children@.len() % 2 == 1 {
                    lemma_math_fresh(children@, c);
                }
            } else {
                lemma_empty_fresh(c);
            }
        },
        Node::InfixOperation { .. } => {
            if let Ok((ops, _, c2)) = lower(n, c) {
                lemma_ids_one(ops[0], 0);
                lemma_ids_one(ops[0], 1);
                lemma_span_empty(c.0);
                lemma_span_empty(c.1);
                lemma_span_step(c.1, c.1);
                assert(Seq::<u64>::empty() + seq![c.1] =~= seq![c.1]);
            }
        },
        _ => {
            lemma_empty_fresh(c);
        },
    }
}

proof fn lemma_wire_fresh(l: Lowered, c: Regs)
    requires
        fresh_result(l, c),
    ensures
        fresh_result(wire(l), c),
{
    if let Ok((ops, _, c1)) = l {
        if ops.len() > 0 {
            if let Op::Insert { table, column, .. } = ops[0] {
                if let Ok((wired_ops, _, _)) = wire(l) {
                    assert(wired_ops.drop_first() =~= ops.drop_first());
                }
            }
        }
    }
}

proof fn lemma_seq_fresh(ns: Seq<Node>, c: Regs)
    ensures
        fresh_result(lower_seq(ns, c), c),
    decreases ns,
{
    if ns.len() == 0 {
        lemma_empty_fresh(c);
    } else {
        let pre = ns.subrange(0, ns.len() - 1);
        lemma_seq_fresh(pre, c);
        if let Ok((ops, _, c1)) = lower_seq(pre, c) {
            lemma_lower_fresh(ns[ns.len() - 1], c1);
            if let Ok((ops2, _, c2)) = lower(ns[ns.len() - 1], c1) {
                lemma_fresh_join(ops, ops2, c, c1, c2);
            }
        }
    }
}

proof fn lemma_math_fresh(ns: Seq<Node>, c: Regs)
    ensures
        fresh_result(math_fold(ns, c), c),
    decreases ns,
{
    if ns.len() == 1 {
        lemma_lower_fresh(ns[0], c);
    } else if ns.len() > 1 {
        let pre = ns.subrange(0, ns.len() - 2);
        lemma_math_fresh(pre, c);
        if let Ok((ops, _, c1)) = math_fold(pre, c) {
            let last = ns[ns.len() - 1];
            lemma_lower_fresh(last, c1);
            if let Ok((ops2, _, c2)) = operand(lower(last, c1), last) {
                if let Ok((all, _, c3)) = math_fold(ns, c) {
                    lemma_fresh_join(ops, ops2, c, c1, c2);
                    let f = all[all.len() - 1];
                    assert(all =~= (ops + ops2) + seq![f]);
                    lemma_ids_one(f, 0);
                    lemma_ids_one(f, 1);
                    lemma_span_empty(c2.0);
                    lemma_span_step(c2.1, c2.1);
                    lemma_span_empty(c2.1);
                    assert(Seq::<u64>::empty() + seq![c2.1] =~= seq![c2.1]);
                    lemma_fresh_join(ops + ops2, seq![f], c, c2, c3);
                }
            }
        }
    }
}

/// Register allocation never reuses an id: lowering any tree from any
/// counters takes, from each pool, consecutive ids starting at that pool's
/// counter, so within a block the ids of each pool strictly increase.
pub proof fn lemma_registers_fresh(n: Node, c: Regs)
    ensures
        lower(n, c) matches Ok((ops, _, c2)) ==> fresh(ops, c, c2) && strictly_increasing(ids(ops, 0))
            && strictly_increasing(ids(ops, 1)),
{
    lemma_lower_fresh(n, c);
}

/// `o` writes register `r` of pool `pool`.
pub open spec fn writes(o: Op, pool: nat, r: u64) -> bool {
    match o {
        Op::Scan { input, .. } => pool == 0 && input == r,
        Op::Identity { sink, .. } => pool == 1 && sink == r,
        Op::Function { output, .. } => pool == 1 && output == r,
        Op::Insert { .. } => false,
    }
}

/// `o` reads register `r` of pool `pool` to compute what it writes; the
/// placeholder 0 of an operator awaiting its operands is no read.
pub open spec fn reads(o: Op, pool: nat, r: u64) -> bool {
    match o {
        Op::Identity { source, .. } => pool == 0 && source == r,
        Op::Function { parameters, .. } => pool == 1 && r != 0 && parameters.contains(r),
        _ => false,
    }
}

pub open spec fn written_before(ops: Seq<Op>, i: int, pool: nat, r: u64) -> bool {
    exists|j: int| 0 <= j < i && #[trigger] writes(ops[j], pool, r)
}

/// Every register an instruction reads was written by an earlier one.
pub open spec fn reads_defined(ops: Seq<Op>) -> bool {
    forall|i: int, pool: nat, r: u64|
        0 <= i < ops.len() && #[trigger] reads(ops[i], pool, r) ==> written_before(ops, i, pool, r)
}

pub open spec fn is_function_output(ops: Seq<Op>, r: u64) -> bool {
    exists|j: int| 0 <= j < ops.len() && (#[trigger] ops[j] matches Op::Function { output, .. } && output == r)
}

/// `o`, if a wired `Insert`, persists the output of a `Function` of `ops`.
pub open spec fn backed(ops: Seq<Op>, o: Op) -> bool {
    match o {
        Op::Insert { output, .. } => output != 0 ==> is_function_output(ops, output),
        _ => true,
    }
}

/// Every `Insert` that is wired persists the output of some `Function`.
pub open spec fn inserts_backed(ops: Seq<Op>) -> bool {
    forall|i: int| 0 <= i < ops.len() ==> backed(ops, #[trigger] ops[i])
}

/// The value's register is written in `ops`, by a `Function` if computed.
pub open spec fn holds_value(ops: Seq<Op>, v: Value) -> bool {
    &&& (v matches Value::Slot(r) ==> written_before(ops, ops.len() as int, 1, r))
    &&& (v matches Value::Computed(r) ==> is_function_output(ops, r))
}

pub open spec fn sound(ops: Seq<Op>, v: Value) -> bool {
    reads_defined(ops) && inserts_backed(ops) && holds_value(ops, v)
}

pub open spec fn sound_result(l: Lowered) -> bool {
    l matches Ok((ops, v, _)) ==> sound(ops, v)
}

proof fn lemma_sound_empty()
    ensures
        sound(Seq::empty(), Value::Nothing),
{
}

proof fn lemma_concat(a: Seq<Op>, b: Seq<Op>, v: Value, w: Value)
    requires
        sound(a, v),
        sound(b, w),
    ensures
        sound(a + b, if w == Value::Nothing {
            v
        } else {
            w
        }),
        holds_value(a + b, v),
{
    let ab = a + b;
    assert forall|i: int, pool: nat, r: u64|
        0 <= i < ab.len() && #[trigger] reads(ab[i], pool, r) implies written_before(ab, i, pool, r) by {
        if i < a.len() {
            assert(ab[i] == a[i]);
            let j = choose|j: int| 0 <= j < i && #[trigger] writes(a[j], pool, r);
            assert(ab[j] == a[j]);
        } else {
            let k = i - a.len();
            assert(ab[i] == b[k]);
            assert(reads(b[k], pool, r));
            let j = choose|j: int| 0 <= j < k && #[trigger] writes(b[j], pool, r);
            assert(ab[a.len() + j] == b[j]);
        }
    }
    assert forall|i: int| 0 <= i < ab.len() implies backed(ab, #[trigger] ab[i]) by {
        if let Op::Insert { output, .. } = ab[i] {
            if output != 0 {
                if i < a.len() {
                    assert(ab[i] == a[i]);
                    let j = choose|j: int| 0 <= j < a.len() && (#[trigger] a[j] matches Op::Function { output: o, .. } && o == output);
                    assert(ab[j] == a[j]);
                } else {
                    assert(ab[i] == b[i - a.len()]);
                    let j = choose|j: int| 0 <= j < b.len() && (#[trigger] b[j] matches Op::Function { output: o, .. } && o == output);
                    assert(ab[a.len() + j] == b[j]);
                }
            }
        }
    }
    lemma_value_left(a, b, v);
    lemma_value_right(a, b, w);
}

proof fn lemma_value_left(a: Seq<Op>, b: Seq<Op>, v: Value)
    requires
        holds_value(a, v),
    ensures
        holds_value(a + b, v),
{
    let ab = a + b;
    if let Value::Slot(r) = v {
        let j = choose|j: int| 0 <= j < a.len() && #[trigger] writes(a[j], 1, r);
        assert(ab[j] == a[j]);
    }
    if let Value::Computed(r) = v {
        let j = choose|j: int| 0 <= j < a.len() && (#[trigger] a[j] matches Op::Function { output, .. } && output == r);
        assert(ab[j] == a[j]);
    }
}

proof fn lemma_value_right(a: Seq<Op>, b: Seq<Op>, v: Value)
    requires
        holds_value(b, v),
    ensures
        holds_value(a + b, v),
{
    let ab = a + b;
    if let Value::Slot(r) = v {
        let j = choose|j: int| 0 <= j < b.len() && #[trigger] writes(b[j], 1, r);
        assert(ab[a.len() + j] == b[j]);
    }
    if let Value::Computed(r) = v {
        let j = choose|j: int| 0 <= j < b.len() && (#[trigger] b[j] matches Op::Function { output, .. } && output == r);
        assert(ab[a.len() + j] == b[j]);
    }
}

proof fn lemma_value_written(ops: Seq<Op>, v: Value)
    requires
        holds_value(ops, v),
        v != Value::Nothing,
    ensures
        written_before(ops, ops.len() as int, 1, register_of(v).unwrap()),
{
    if let Value::Computed(r) = v {
        let j = choose|j: int| 0 <= j < ops.len() && (#[trigger] ops[j] matches Op::Function { output, .. } && output == r);
        assert(writes(ops[j], 1, r));
    }
}

/// Appending a `Function` over two held values keeps the output sound.
proof fn lemma_push_function(ops: Seq<Op>, v: Value, w: Value, f: Op)
    requires
        reads_defined(ops),
        inserts_backed(ops),
        holds_value(ops, v),
        holds_value(ops, w),
        v != Value::Nothing,
        w != Value::Nothing,
        f matches Op::Function { parameters, output: _, .. } && parameters == seq![
            register_of(v).unwrap(),
            register_of(w).unwrap(),
        ],
    ensures
        sound(ops.push(f), Value::Computed(f->Function_output)),
{
    let all = ops.push(f);
    let n = ops.len() as int;
    lemma_value_written(ops, v);
    lemma_value_written(ops, w);
    assert forall|i: int, pool: nat, r: u64|
        0 <= i < all.len() && #[trigger] reads(all[i], pool, r) implies written_before(all, i, pool, r) by {
        if i < n {
            assert(all[i] == ops[i]);
            let j = choose|j: int| 0 <= j < i && #[trigger] writes(ops[j], pool, r);
            assert(all[j] == ops[j]);
        } else {
            let params = f->Function_parameters;
            assert(params.contains(r));
            let k = choose|k: int| 0 <= k < params.len() && params[k] == r;
            let rr = if k == 0 { register_of(v).unwrap() } else { register_of(w).unwrap() };
            assert(rr == r);
            let j = choose|j: int| 0 <= j < n && #[trigger] writes(ops[j], 1, rr);
            assert(all[j] == ops[j]);
        }
    }
    assert forall|i: int| 0 <= i < all.len() implies backed(all, #[trigger] all[i]) by {
        if i < n {
            assert(all[i] == ops[i]);
            assert(backed(ops, ops[i]));
            if let Op::Insert { output, .. } = ops[i] {
                if output != 0 {
                    let j = choose|j: int| 0 <= j < n && (#[trigger] ops[j] matches Op::Function { output: o, .. } && o == output);
                    assert(all[j] == ops[j]);
                }
            }
        }
    }
    assert(all[n] == f);
}

proof fn lemma_select_sound(id: u64, cols: Seq<Node>, c: Regs)
    ensures
        sound_result(select_columns(id, cols, c)),
    decreases cols.len(),
{
    if cols.len() > 0 {
        let pre = cols.subrange(0, cols.len() - 1);
        lemma_select_sound(id, pre, c);
        if let Ok((ops, v, c1)) = select_columns(id, pre, c) {
            if let Ok((all, w, _)) = select_columns(id, cols, c) {
                let pair = all.subrange(ops.len() as int, all.len() as int);
                assert(all =~= ops + pair);
                assert(writes(pair[0], 0, c1.0));
                assert(writes(pair[1], 1, c1.1));
                assert(sound(pair, w));
                lemma_concat(ops, pair, v, w);
            }
        }
    }
}

proof fn lemma_wire_sound(l: Lowered)
    requires
        sound_result(l),
    ensures
        sound_result(wire(l)),
{
    if let Ok((ops, v, _)) = l {
        if let Ok((wired_ops, _, _)) = wire(l) {
            let r = register_of(v).unwrap();
            assert(ops[0] is Insert);
            assert(forall|i: int| 0 < i < ops.len() ==> wired_ops[i] == ops[i]);
            assert forall|i: int, pool: nat, q: u64|
                0 <= i < wired_ops.len() && #[trigger] reads(wired_ops[i], pool, q) implies written_before(wired_ops, i, pool, q) by {
                assert(reads(ops[i], pool, q));
                let j = choose|j: int| 0 <= j < i && #[trigger] writes(ops[j], pool, q);
                assert(wired_ops[j] == ops[j]);
            }
            let k = choose|j: int| 0 <= j < ops.len() && (#[trigger] ops[j] matches Op::Function { output, .. } && output == r);
            assert(wired_ops[k] == ops[k]);
            assert forall|i: int| 0 <= i < wired_ops.len() implies backed(wired_ops, #[trigger] wired_ops[i]) by {
                if i > 0 {
                    assert(backed(ops, ops[i]));
                    if let Op::Insert { output, .. } = ops[i] {
                        if output != 0 {
                            let j = choose|j: int| 0 <= j < ops.len() && (#[trigger] ops[j] matches Op::Function { output: o, .. } && o == output);
                            assert(wired_ops[j] == ops[j]);
                        }
                    }
                }
            }
        }
    }
}

proof fn lemma_lower_sound(n: Node, c: Regs)
    ensures
        sound_result(lower(n, c)),
    decreases n,
{
    match n {
        Node::Branch { kind, children } => {
            if is_container(kind) {
                lemma_seq_sound(children@, c);
            } else if kind == Kind::Select {
                if children@.len() > 0 {
                    if let Node::Table { id, children: cols } = children@[0] {
                        lemma_select_sound(id, cols@, c);
                    }
                }
            } else if kind == Kind::Insert {
                if children@.len() > 0 {
                    if let Node::Table { id, children: cols } = children@[0] {
                        if let Ok(col) = insert_column(cols@) {
                            let rest = children@.subrange(1, children@.len() as int);
                            assert(decreases_to!(n => rest));
                            lemma_seq_sound(rest, c);
                            if let Ok((ops, v, _)) = lower_seq(rest, c) {
                                let head = seq![Op::Insert { table: id, column: col, output: 0 }];
                                assert(backed(head, head[0]));
                                assert(sound(head, Value::Nothing));
                                lemma_concat(head, ops, Value::Nothing, v);
                            }
                        }
                    }
                }
            } else if kind == Kind::ColumnDefine {
                lemma_seq_sound(children@, c);
                lemma_wire_sound(lower_seq(children@, c));
            } else if kind == Kind::MathExpression {
                if children@.len() % 2 == 1 {
                    lemma_math_sound(children@, c);
                }
            }
        },
        Node::InfixOperation { .. } => {
            if let Ok((ops, _, _)) = lower(n, c) {
                assert forall|i: int, pool: nat, r: u64| 0 <= i < ops.len() implies !#[trigger] reads(ops[i], pool, r) by {
                    if let Op::Function { parameters, .. } = ops[i] {
                        if r != 0 && parameters.contains(r) {
                            let k = choose|k: int| 0 <= k < parameters.len() && parameters[k] == r;
                        }
                    }
                }
            }
        },
        _ => {},
    }
}

proof fn lemma_seq_sound(ns: Seq<Node>, c: Regs)
    ensures
        sound_result(lower_seq(ns, c)),
    decreases ns,
{
    if ns.len() > 0 {
        let pre = ns.subrange(0, ns.len() - 1);
        lemma_seq_sound(pre, c);
        if let Ok((ops, v, c1)) = lower_seq(pre, c) {
            lemma_lower_sound(ns[ns.len() - 1], c1);
            if let Ok((ops2, w, _)) = lower(ns[ns.len() - 1], c1) {
                lemma_concat(ops, ops2, v, w);
            }
        }
    }
}

proof fn lemma_math_sound(ns: Seq<Node>, c: Regs)
    ensures
        sound_result(math_fold(ns, c)),
    decreases ns,
{
    if ns.len() == 1 {
        lemma_lower_sound(ns[0], c);
    } else if ns.len() > 1 {
        let pre = ns.subrange(0, ns.len() - 2);
        lemma_math_sound(pre, c);
        if let Ok((ops, v, c1)) = math_fold(pre, c) {
            let last = ns[ns.len() - 1];
            lemma_lower_sound(last, c1);
            if let Ok((ops2, w, _)) = operand(lower(last, c1), last) {
                if let Ok((all, _, _)) = math_fold(ns, c) {
                    lemma_concat(ops, ops2, v, w);
                    let f = all[all.len() - 1];
                    assert(all =~= (ops + ops2).push(f));
                    lemma_push_function(ops + ops2, v, w, f);
                }
            }
        }
    }
}

/// No register is read before it is written: in the output of lowering any
/// tree, every register an instruction reads was written by an earlier
/// instruction, and every wired `Insert` persists the output of a
/// `Function` of that output.
pub proof fn lemma_reads_follow_writes(n: Node, c: Regs)
    ensures
        lower(n, c) matches Ok((ops, _, _)) ==> reads_defined(ops) && inserts_backed(ops),
{
    lemma_lower_sound(n, c);
}

} // verus!
