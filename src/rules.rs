//! The grammar as spec functions over bytes. Each rule gives the tree it
//! builds and the position after it, or `None`; alternatives are tried in
//! the order written and the first success wins.
use vstd::prelude::*;
use crate::node::{Kind, Tree};
use crate::token::{token_class, is_alpha, is_digit};

verus! {

/// A rule's result: the tree and the position after it.
pub type SParse = Option<(Tree, int)>;

/// Children gathered so far and the position reached.
pub type Acc = Option<(Seq<Tree>, int)>;

pub open spec fn start(pos: int) -> Acc {
    Some((Seq::empty(), pos))
}

pub open spec fn at(a: Acc) -> int {
    match a {
        Some((_, p)) => p,
        None => -1,
    }
}

/// A required part.
pub open spec fn need(a: Acc, r: SParse) -> Acc {
    match a {
        Some((ts, _)) => match r {
            Some((t, e)) => Some((ts.push(t), e)),
            None => None,
        },
        None => None,
    }
}

/// An optional part.
pub open spec fn maybe(a: Acc, r: SParse) -> Acc {
    match a {
        Some((ts, p)) => match r {
            Some((t, e)) => Some((ts.push(t), e)),
            None => Some((ts, p)),
        },
        None => None,
    }
}

pub open spec fn done(k: Kind, a: Acc) -> SParse {
    match a {
        Some((ts, p)) => Some((Tree::Branch(k, ts), p)),
        None => None,
    }
}

/// Ordered choice of two alternatives.
pub open spec fn first_of(a: SParse, b: SParse) -> SParse {
    if a is Some {
        a
    } else {
        b
    }
}

pub open spec fn leaf(b: u8) -> Tree {
    Tree::Leaf(token_class(b), b)
}

pub open spec fn byte_spec(s: Seq<u8>, pos: int, b: u8) -> SParse {
    if 0 <= pos < s.len() && s[pos] == b {
        Some((leaf(b), pos + 1))
    } else {
        None
    }
}

pub open spec fn one_of_spec(s: Seq<u8>, pos: int, set: Seq<u8>) -> SParse {
    if 0 <= pos < s.len() && set.contains(s[pos]) {
        Some((leaf(s[pos]), pos + 1))
    } else {
        None
    }
}

pub open spec fn leaves(t: Seq<u8>) -> Seq<Tree> {
    t.map_values(|b: u8| leaf(b))
}

/// The bytes of `t` in order, as leaves.
pub open spec fn tag_spec(a: Acc, s: Seq<u8>, t: Seq<u8>) -> Acc {
    match a {
        Some((ts, p)) => if 0 <= p && p + t.len() <= s.len() && s.subrange(p, p + t.len()) == t {
            Some((ts + leaves(t), p + t.len()))
        } else {
            None
        },
        None => None,
    }
}

pub open spec fn is_blank(b: u8, tabs: bool) -> bool {
    b == 32 || (tabs && b == 9)
}

pub open spec fn spaces_from(s: Seq<u8>, ts: Seq<Tree>, p: int, tabs: bool) -> (Seq<Tree>, int)
    decreases s.len() - p,
{
    if 0 <= p < s.len() && is_blank(s[p], tabs) {
        spaces_from(s, ts.push(leaf(s[p])), p + 1, tabs)
    } else {
        (ts, p)
    }
}

/// Zero or more spaces (and tabs, with `tabs`).
pub open spec fn spaces_spec(a: Acc, s: Seq<u8>, tabs: bool) -> Acc {
    match a {
        Some((ts, p)) => Some(spaces_from(s, ts, p, tabs)),
        None => None,
    }
}

pub open spec fn newline_spec(a: Acc, s: Seq<u8>) -> Acc {
    match tag_spec(a, s, seq![10u8]) {
        Some(x) => Some(x),
        None => tag_spec(a, s, seq![13u8, 10u8]),
    }
}

pub open spec fn newline_opt(a: Acc, s: Seq<u8>) -> Acc {
    match newline_spec(a, s) {
        Some(x) => Some(x),
        None => a,
    }
}

pub open spec fn in_class_spec(b: u8, digits: bool) -> bool {
    if digits {
        is_digit(b)
    } else {
        is_alpha(b)
    }
}

pub open spec fn run_from(s: Seq<u8>, ts: Seq<Tree>, p: int, digits: bool) -> (Seq<Tree>, int)
    decreases s.len() - p,
{
    if 0 <= p < s.len() && in_class_spec(s[p], digits) {
        run_from(s, ts.push(leaf(s[p])), p + 1, digits)
    } else {
        (ts, p)
    }
}

pub open spec fn word_spec(s: Seq<u8>, pos: int) -> SParse {
    if 0 <= pos < s.len() && is_alpha(s[pos]) {
        let (ts, e) = run_from(s, Seq::empty(), pos, false);
        Some((Tree::Branch(Kind::Word, ts), e))
    } else {
        None
    }
}

pub open spec fn number_spec(s: Seq<u8>, pos: int) -> SParse {
    if 0 <= pos < s.len() && is_digit(s[pos]) {
        let (ts, e) = run_from(s, Seq::empty(), pos, true);
        Some((Tree::Branch(Kind::Number, ts), e))
    } else {
        None
    }
}

pub open spec fn punctuation_set() -> Seq<u8> {
    seq![46u8, 33, 63, 44, 58, 59, 45, 39, 40, 41, 60, 62, 123, 125]
}

pub open spec fn symbol_set() -> Seq<u8> {
    seq![38u8, 124, 64, 47, 35, 61, 126, 43, 42, 94, 95]
}

pub open spec fn starter_set() -> Seq<u8> {
    seq![34u8, 60, 62, 46, 33, 63, 44, 58, 59, 40, 41]
}

pub open spec fn punctuation_spec(s: Seq<u8>, pos: int) -> SParse {
    done(Kind::Punctuation, need(start(pos), one_of_spec(s, pos, punctuation_set())))
}

pub open spec fn symbol_spec(s: Seq<u8>, pos: int) -> SParse {
    done(Kind::Symbol, need(start(pos), one_of_spec(s, pos, symbol_set())))
}

pub open spec fn text_piece_spec(s: Seq<u8>, pos: int, quotes: bool) -> SParse {
    first_of(
        word_spec(s, pos),
        first_of(
            byte_spec(s, pos, 32),
            first_of(
                number_spec(s, pos),
                first_of(
                    punctuation_spec(s, pos),
                    first_of(symbol_spec(s, pos), if quotes {
                        byte_spec(s, pos, 34)
                    } else {
                        None
                    }),
                ),
            ),
        ),
    )
}

pub open spec fn starter_piece_spec(s: Seq<u8>, pos: int) -> SParse {
    first_of(word_spec(s, pos), first_of(number_spec(s, pos), one_of_spec(s, pos, starter_set())))
}

pub open spec fn piece_spec(s: Seq<u8>, pos: int, sort: u8) -> SParse {
    if sort == 2 {
        starter_piece_spec(s, pos)
    } else {
        text_piece_spec(s, pos, sort == 1)
    }
}

pub open spec fn pieces_from(s: Seq<u8>, ts: Seq<Tree>, p: int, sort: u8) -> (Seq<Tree>, int)
    decreases s.len() - p,
{
    match piece_spec(s, p, sort) {
        Some((t, e)) => if p < e <= s.len() {
            pieces_from(s, ts.push(t), e, sort)
        } else {
            (ts, p)
        },
        None => (ts, p),
    }
}

pub open spec fn pieces_spec(s: Seq<u8>, pos: int, sort: u8) -> SParse {
    match need(start(pos), piece_spec(s, pos, sort)) {
        Some((ts, p)) => done(Kind::Text, Some(pieces_from(s, ts, p, sort))),
        None => None,
    }
}

pub open spec fn text_spec(s: Seq<u8>, pos: int) -> SParse {
    pieces_spec(s, pos, 0)
}

pub open spec fn ident_part_spec(s: Seq<u8>, p: int) -> SParse {
    first_of(one_of_spec(s, p, seq![45u8, 47, 95]), first_of(word_spec(s, p), number_spec(s, p)))
}

pub open spec fn ident_from(s: Seq<u8>, ts: Seq<Tree>, p: int) -> (Seq<Tree>, int)
    decreases s.len() - p,
{
    match ident_part_spec(s, p) {
        Some((t, e)) => if p < e <= s.len() {
            ident_from(s, ts.push(t), e)
        } else {
            (ts, p)
        },
        None => (ts, p),
    }
}

pub open spec fn identifier_spec(s: Seq<u8>, pos: int) -> SParse {
    match need(start(pos), word_spec(s, pos)) {
        Some((ts, p)) => done(Kind::Identifier, Some(ident_from(s, ts, p))),
        None => None,
    }
}

pub open spec fn whitespace_spec(s: Seq<u8>, pos: int) -> SParse {
    done(Kind::Whitespace, newline_spec(spaces_spec(start(pos), s, false), s))
}

pub open spec fn lines_of_blank_from(s: Seq<u8>, ts: Seq<Tree>, p: int) -> (Seq<Tree>, int)
    decreases s.len() - p,
{
    match whitespace_spec(s, p) {
        Some((t, e)) => if p < e <= s.len() {
            lines_of_blank_from(s, ts.push(t), e)
        } else {
            (ts, p)
        },
        None => (ts, p),
    }
}

/// Zero or more whitespace lines.
pub open spec fn blank_lines_spec(a: Acc, s: Seq<u8>) -> Acc {
    match a {
        Some((ts, p)) => Some(lines_of_blank_from(s, ts, p)),
        None => None,
    }
}

pub open spec fn floating_point_spec(s: Seq<u8>, pos: int) -> SParse {
    let a = need(start(pos), byte_spec(s, pos, 46));
    done(Kind::FloatingPoint, need(a, number_spec(s, at(a))))
}

pub open spec fn quantity_spec(s: Seq<u8>, pos: int) -> SParse {
    let a = need(start(pos), number_spec(s, pos));
    let a = maybe(a, floating_point_spec(s, at(a)));
    let a = maybe(a, identifier_spec(s, at(a)));
    done(Kind::Quantity, a)
}

pub open spec fn texts_from(s: Seq<u8>, ts: Seq<Tree>, p: int) -> (Seq<Tree>, int)
    decreases s.len() - p,
{
    match text_spec(s, p) {
        Some((t, e)) => if p < e <= s.len() {
            texts_from(s, ts.push(t), e)
        } else {
            (ts, p)
        },
        None => (ts, p),
    }
}

pub open spec fn string_spec(s: Seq<u8>, pos: int) -> SParse {
    let a = need(start(pos), byte_spec(s, pos, 34));
    let a = match a {
        Some((ts, p)) => Some(texts_from(s, ts, p)),
        None => None,
    };
    done(Kind::String, need(a, byte_spec(s, at(a), 34)))
}

pub open spec fn constant_spec(s: Seq<u8>, pos: int) -> SParse {
    done(Kind::Constant, need(start(pos), first_of(string_spec(s, pos), quantity_spec(s, pos))))
}

pub open spec fn single_spec(s: Seq<u8>, pos: int, b: u8, kind: Kind) -> SParse {
    done(kind, need(start(pos), byte_spec(s, pos, b)))
}

pub open spec fn empty_spec(s: Seq<u8>, pos: int) -> SParse {
    single_spec(s, pos, 95, Kind::Empty)
}

pub open spec fn select_all_spec(s: Seq<u8>, pos: int) -> SParse {
    single_spec(s, pos, 58, Kind::SelectAll)
}

pub open spec fn table_spec(s: Seq<u8>, pos: int) -> SParse {
    let a = need(start(pos), byte_spec(s, pos, 35));
    done(Kind::Table, need(a, identifier_spec(s, at(a))))
}

pub open spec fn keyword_spec(s: Seq<u8>, pos: int, t: Seq<u8>, kind: Kind) -> SParse {
    done(kind, tag_spec(start(pos), s, t))
}

pub open spec fn comparator_spec(s: Seq<u8>, pos: int) -> SParse {
    let op = first_of(
        keyword_spec(s, pos, seq![62u8, 61], Kind::GreaterThanEqual),
        first_of(
            keyword_spec(s, pos, seq![60u8, 61], Kind::LessThanEqual),
            first_of(
                keyword_spec(s, pos, seq![61u8, 61], Kind::Equal),
                first_of(
                    keyword_spec(s, pos, seq![33u8, 61], Kind::NotEqual),
                    first_of(
                        keyword_spec(s, pos, seq![60u8], Kind::LessThan),
                        keyword_spec(s, pos, seq![62u8], Kind::GreaterThan),
                    ),
                ),
            ),
        ),
    );
    done(Kind::Comparator, need(start(pos), op))
}

pub open spec fn logic_operator_spec(s: Seq<u8>, pos: int) -> SParse {
    let op = first_of(single_spec(s, pos, 38, Kind::And), single_spec(s, pos, 124, Kind::Or));
    done(Kind::LogicOperator, need(start(pos), op))
}

pub open spec fn some_spaces_spec(a: Acc, s: Seq<u8>) -> Acc {
    spaces_spec(need(a, byte_spec(s, at(a), 32)), s, false)
}

pub open spec fn transition_spec(s: Seq<u8>, pos: int) -> SParse {
    let a = some_spaces_spec(start(pos), s);
    let a = need(
        a,
        first_of(string_spec(s, at(a)), first_of(constant_spec(s, at(a)), empty_spec(s, at(a)))),
    );
    let a = some_spaces_spec(a, s);
    let a = tag_spec(a, s, seq![61u8, 62]);
    let a = some_spaces_spec(a, s);
    let q = at(a);
    let a = need(
        a,
        first_of(
            identifier_spec(s, q),
            first_of(string_spec(s, q), first_of(constant_spec(s, q), empty_spec(s, q))),
        ),
    );
    let a = spaces_spec(a, s, false);
    done(Kind::Transition, newline_opt(a, s))
}

pub open spec fn transitions_from(s: Seq<u8>, ts: Seq<Tree>, p: int) -> (Seq<Tree>, int)
    decreases s.len() - p,
{
    match transition_spec(s, p) {
        Some((t, e)) => if p < e <= s.len() {
            transitions_from(s, ts.push(t), e)
        } else {
            (ts, p)
        },
        None => (ts, p),
    }
}

pub open spec fn transitions_spec(s: Seq<u8>, pos: int) -> SParse {
    match need(start(pos), transition_spec(s, pos)) {
        Some((ts, p)) => done(Kind::Transitions, Some(transitions_from(s, ts, p))),
        None => None,
    }
}

pub open spec fn attribute_spec(s: Seq<u8>, pos: int) -> SParse {
    let a = need(start(pos), identifier_spec(s, pos));
    let a = spaces_spec(a, s, false);
    let a = maybe(a, byte_spec(s, at(a), 44));
    done(Kind::Attribute, spaces_spec(a, s, false))
}

pub open spec fn attributes_from(s: Seq<u8>, ts: Seq<Tree>, p: int) -> (Seq<Tree>, int)
    decreases s.len() - p,
{
    match attribute_spec(s, p) {
        Some((t, e)) => if p < e <= s.len() {
            attributes_from(s, ts.push(t), e)
        } else {
            (ts, p)
        },
        None => (ts, p),
    }
}

pub open spec fn table_header_spec(s: Seq<u8>, pos: int) -> SParse {
    let a = need(start(pos), byte_spec(s, pos, 124));
    let a = need(a, attribute_spec(s, at(a)));
    let a = match a {
        Some((ts, p)) => Some(attributes_from(s, ts, p)),
        None => None,
    };
    let a = need(a, byte_spec(s, at(a), 124));
    let a = spaces_spec(a, s, false);
    done(Kind::TableHeader, newline_opt(a, s))
}

pub open spec fn subscript_spec(s: Seq<u8>, pos: int) -> SParse
    decreases s.len() - pos, 31int,
{
    let item = first_of(
        select_all_spec(s, pos),
        first_of(constant_spec(s, pos), expression_spec(s, pos)),
    );
    let a = need(start(pos), item);
    let a = spaces_spec(a, s, false);
    let a = maybe(a, byte_spec(s, at(a), 44));
    done(Kind::Subscript, spaces_spec(a, s, false))
}

pub open spec fn subscripts_from(s: Seq<u8>, ts: Seq<Tree>, p: int) -> (Seq<Tree>, int)
    decreases s.len() - p, 35int,
{
    match subscript_spec(s, p) {
        Some((t, e)) => if p < e <= s.len() {
            subscripts_from(s, ts.push(t), e)
        } else {
            (ts, p)
        },
        None => (ts, p),
    }
}

pub open spec fn subscript_index_spec(s: Seq<u8>, pos: int) -> SParse
    decreases s.len() - pos, 8int,
{
    let a = need(start(pos), byte_spec(s, pos, 123));
    let q = at(a);
    let a = need(a, if pos < q <= s.len() {
        subscript_spec(s, q)
    } else {
        None
    });
    let a = match a {
        Some((ts, p)) => if pos < p <= s.len() {
            Some(subscripts_from(s, ts, p))
        } else {
            None
        },
        None => None,
    };
    done(Kind::SubscriptIndex, need(a, byte_spec(s, at(a), 125)))
}

pub open spec fn dot_index_spec(s: Seq<u8>, pos: int) -> SParse
    decreases s.len() - pos, 8int,
{
    let a = need(start(pos), byte_spec(s, pos, 46));
    let a = need(a, identifier_spec(s, at(a)));
    let q = at(a);
    let a = maybe(a, if pos < q <= s.len() {
        subscript_index_spec(s, q)
    } else {
        None
    });
    done(Kind::DotIndex, a)
}

pub open spec fn index_spec(s: Seq<u8>, pos: int) -> SParse
    decreases s.len() - pos, 9int,
{
    done(Kind::Index, need(start(pos), first_of(dot_index_spec(s, pos), subscript_index_spec(s, pos))))
}

pub open spec fn indices_from(s: Seq<u8>, ts: Seq<Tree>, p: int) -> (Seq<Tree>, int)
    decreases s.len() - p, 35int,
{
    match index_spec(s, p) {
        Some((t, e)) => if p < e <= s.len() {
            indices_from(s, ts.push(t), e)
        } else {
            (ts, p)
        },
        None => (ts, p),
    }
}

pub open spec fn data_spec(s: Seq<u8>, pos: int) -> SParse
    decreases s.len() - pos, 10int,
{
    let a = need(start(pos), first_of(table_spec(s, pos), identifier_spec(s, pos)));
    let a = match a {
        Some((ts, p)) => if pos < p <= s.len() {
            Some(indices_from(s, ts, p))
        } else {
            None
        },
        None => None,
    };
    done(Kind::Data, a)
}

pub open spec fn binding_spec(s: Seq<u8>, pos: int) -> SParse
    decreases s.len() - pos, 5int,
{
    let a = need(start(pos), identifier_spec(s, pos));
    let a = need(a, byte_spec(s, at(a), 58));
    let a = spaces_spec(a, s, false);
    let q = at(a);
    let bound = if pos < q <= s.len() {
        first_of(
            empty_spec(s, q),
            first_of(expression_spec(s, q), first_of(identifier_spec(s, q), constant_spec(s, q))),
        )
    } else {
        None
    };
    let a = need(a, bound);
    let a = spaces_spec(a, s, false);
    let a = maybe(a, byte_spec(s, at(a), 44));
    done(Kind::Binding, spaces_spec(a, s, false))
}

pub open spec fn bindings_from(s: Seq<u8>, ts: Seq<Tree>, p: int) -> (Seq<Tree>, int)
    decreases s.len() - p, 35int,
{
    match binding_spec(s, p) {
        Some((t, e)) => if p < e <= s.len() {
            bindings_from(s, ts.push(t), e)
        } else {
            (ts, p)
        },
        None => (ts, p),
    }
}

pub open spec fn table_column_spec(s: Seq<u8>, pos: int) -> SParse
    decreases s.len() - pos, 31int,
{
    let a = spaces_spec(start(pos), s, true);
    let q = at(a);
    let item = if pos <= q <= s.len() {
        first_of(
            empty_spec(s, q),
            first_of(data_spec(s, q), first_of(expression_spec(s, q), quantity_spec(s, q))),
        )
    } else {
        None
    };
    let a = need(a, item);
    let a = maybe(a, byte_spec(s, at(a), 44));
    let a = maybe(a, one_of_spec(s, at(a), seq![32u8, 9]));
    done(Kind::Column, a)
}

pub open spec fn columns_from(s: Seq<u8>, ts: Seq<Tree>, p: int) -> (Seq<Tree>, int)
    decreases s.len() - p, 35int,
{
    match table_column_spec(s, p) {
        Some((t, e)) => if p < e <= s.len() {
            columns_from(s, ts.push(t), e)
        } else {
            (ts, p)
        },
        None => (ts, p),
    }
}

pub open spec fn table_row_spec(s: Seq<u8>, pos: int) -> SParse
    decreases s.len() - pos, 32int,
{
    let a = spaces_spec(start(pos), s, true);
    let q = at(a);
    let a = need(a, if pos <= q <= s.len() {
        table_column_spec(s, q)
    } else {
        None
    });
    let a = match a {
        Some((ts, p)) => if pos < p <= s.len() {
            Some(columns_from(s, ts, p))
        } else {
            None
        },
        None => None,
    };
    let a = maybe(a, byte_spec(s, at(a), 59));
    done(Kind::TableRow, newline_opt(a, s))
}

pub open spec fn rows_from(s: Seq<u8>, ts: Seq<Tree>, p: int) -> (Seq<Tree>, int)
    decreases s.len() - p, 35int,
{
    match table_row_spec(s, p) {
        Some((t, e)) => if p < e <= s.len() {
            rows_from(s, ts.push(t), e)
        } else {
            (ts, p)
        },
        None => (ts, p),
    }
}

pub open spec fn anonymous_table_spec(s: Seq<u8>, pos: int) -> SParse
    decreases s.len() - pos, 20int,
{
    let a = need(start(pos), byte_spec(s, pos, 91));
    let a = spaces_spec(a, s, false);
    let a = maybe(a, table_header_spec(s, at(a)));
    let a = match a {
        Some((ts, p)) => if pos < p <= s.len() {
            Some(rows_from(s, ts, p))
        } else {
            None
        },
        None => None,
    };
    done(Kind::AnonymousTable, need(a, byte_spec(s, at(a), 93)))
}

pub open spec fn inline_table_spec(s: Seq<u8>, pos: int) -> SParse
    decreases s.len() - pos, 20int,
{
    let a = need(start(pos), byte_spec(s, pos, 91));
    let q = at(a);
    let a = need(a, if pos < q <= s.len() {
        binding_spec(s, q)
    } else {
        None
    });
    let a = match a {
        Some((ts, p)) => if pos < p <= s.len() {
            Some(bindings_from(s, ts, p))
        } else {
            None
        },
        None => None,
    };
    done(Kind::InlineTable, need(a, byte_spec(s, at(a), 93)))
}

/// The expression forms in the order they are tried: state machine,
/// string, range, logic, filter, record, table, math.
pub open spec fn expression_spec(s: Seq<u8>, pos: int) -> SParse
    decreases s.len() - pos, 30int,
{
    let item = first_of(
        state_machine_spec(s, pos),
        first_of(
            string_spec(s, pos),
            first_of(
                range_spec(s, pos),
                first_of(
                    logic_expression_spec(s, pos),
                    first_of(
                        filter_expression_spec(s, pos),
                        first_of(
                            inline_table_spec(s, pos),
                            first_of(anonymous_table_spec(s, pos), math_expression_spec(s, pos)),
                        ),
                    ),
                ),
            ),
        ),
    );
    done(Kind::Expression, need(start(pos), item))
}

pub open spec fn state_machine_spec(s: Seq<u8>, pos: int) -> SParse
    decreases s.len() - pos, 25int,
{
    let a = need(start(pos), data_spec(s, pos));
    let a = need(a, byte_spec(s, at(a), 63));
    let a = need(a, whitespace_spec(s, at(a)));
    let a = need(a, transitions_spec(s, at(a)));
    done(Kind::StateMachine, need(a, whitespace_spec(s, at(a))))
}

pub open spec fn range_spec(s: Seq<u8>, pos: int) -> SParse
    decreases s.len() - pos, 25int,
{
    let a = need(start(pos), math_expression_spec(s, pos));
    let a = spaces_spec(a, s, false);
    let a = need(a, byte_spec(s, at(a), 58));
    let a = spaces_spec(a, s, false);
    let q = at(a);
    done(Kind::Range, need(a, if pos < q <= s.len() {
        math_expression_spec(s, q)
    } else {
        None
    }))
}

pub open spec fn data_or_constant_spec(s: Seq<u8>, pos: int) -> SParse
    decreases s.len() - pos, 11int,
{
    first_of(data_spec(s, pos), constant_spec(s, pos))
}

pub open spec fn filter_expression_spec(s: Seq<u8>, pos: int) -> SParse
    decreases s.len() - pos, 24int,
{
    let a = need(start(pos), data_or_constant_spec(s, pos));
    let a = need(a, byte_spec(s, at(a), 32));
    let a = need(a, comparator_spec(s, at(a)));
    let a = need(a, byte_spec(s, at(a), 32));
    let q = at(a);
    done(Kind::FilterExpression, need(a, if pos < q <= s.len() {
        data_or_constant_spec(s, q)
    } else {
        None
    }))
}

pub open spec fn logic_expression_spec(s: Seq<u8>, pos: int) -> SParse
    decreases s.len() - pos, 25int,
{
    let lhs = first_of(filter_expression_spec(s, pos), data_or_constant_spec(s, pos));
    let a = need(start(pos), lhs);
    let a = spaces_spec(a, s, false);
    let a = need(a, logic_operator_spec(s, at(a)));
    let a = spaces_spec(a, s, false);
    let q = at(a);
    let rhs = if pos < q <= s.len() {
        first_of(
            logic_expression_spec(s, q),
            first_of(filter_expression_spec(s, q), data_or_constant_spec(s, q)),
        )
    } else {
        None
    };
    done(Kind::LogicExpression, need(a, rhs))
}

pub open spec fn parenthetical_expression_spec(s: Seq<u8>, pos: int) -> SParse
    decreases s.len() - pos, 17int,
{
    let a = need(start(pos), byte_spec(s, pos, 40));
    let q = at(a);
    let a = need(a, if pos < q <= s.len() {
        l1_spec(s, q)
    } else {
        None
    });
    done(Kind::ParentheticalExpression, need(a, byte_spec(s, at(a), 41)))
}

pub open spec fn negation_spec(s: Seq<u8>, pos: int) -> SParse
    decreases s.len() - pos, 17int,
{
    let a = need(start(pos), byte_spec(s, pos, 45));
    let q = at(a);
    done(Kind::Negation, need(a, if pos < q <= s.len() {
        data_or_constant_spec(s, q)
    } else {
        None
    }))
}

pub open spec fn function_spec(s: Seq<u8>, pos: int) -> SParse
    decreases s.len() - pos, 17int,
{
    let a = need(start(pos), identifier_spec(s, pos));
    let a = need(a, byte_spec(s, at(a), 40));
    let q = at(a);
    let a = need(a, if pos < q <= s.len() {
        binding_spec(s, q)
    } else {
        None
    });
    let a = match a {
        Some((ts, p)) => if pos < p <= s.len() {
            Some(bindings_from(s, ts, p))
        } else {
            None
        },
        None => None,
    };
    done(Kind::Function, need(a, byte_spec(s, at(a), 41)))
}

pub open spec fn l4_spec(s: Seq<u8>, pos: int) -> SParse
    decreases s.len() - pos, 18int,
{
    let item = first_of(
        function_spec(s, pos),
        first_of(
            data_spec(s, pos),
            first_of(
                quantity_spec(s, pos),
                first_of(negation_spec(s, pos), parenthetical_expression_spec(s, pos)),
            ),
        ),
    );
    done(Kind::L4, need(start(pos), item))
}

pub open spec fn l3_infix_spec(s: Seq<u8>, pos: int) -> SParse
    decreases s.len() - pos, 5int,
{
    let a = need(start(pos), byte_spec(s, pos, 32));
    let a = need(a, byte_spec(s, at(a), 94));
    let a = need(a, byte_spec(s, at(a), 32));
    let q = at(a);
    done(Kind::L3Infix, need(a, if pos < q <= s.len() {
        l4_spec(s, q)
    } else {
        None
    }))
}

pub open spec fn l2_infix_spec(s: Seq<u8>, pos: int) -> SParse
    decreases s.len() - pos, 5int,
{
    let a = need(start(pos), byte_spec(s, pos, 32));
    let a = match need(a, byte_spec(s, at(a), 42)) {
        Some(x) => Some(x),
        None => match need(a, byte_spec(s, at(a), 47)) {
            Some(x) => Some(x),
            None => tag_spec(a, s, seq![42u8, 42]),
        },
    };
    let a = need(a, byte_spec(s, at(a), 32));
    let q = at(a);
    done(Kind::L2Infix, need(a, if pos < q <= s.len() {
        l3_spec(s, q)
    } else {
        None
    }))
}

pub open spec fn l1_infix_spec(s: Seq<u8>, pos: int) -> SParse
    decreases s.len() - pos, 5int,
{
    let a = need(start(pos), byte_spec(s, pos, 32));
    let a = need(a, one_of_spec(s, at(a), seq![43u8, 45]));
    let a = need(a, byte_spec(s, at(a), 32));
    let q = at(a);
    done(Kind::L1Infix, need(a, if pos < q <= s.len() {
        l2_spec(s, q)
    } else {
        None
    }))
}

pub open spec fn infix_spec(s: Seq<u8>, p: int, level: u8) -> SParse
    decreases s.len() - p, 6int,
{
    if level == 3 {
        l3_infix_spec(s, p)
    } else if level == 2 {
        l2_infix_spec(s, p)
    } else {
        l1_infix_spec(s, p)
    }
}

pub open spec fn infixes_from(s: Seq<u8>, ts: Seq<Tree>, p: int, level: u8) -> (Seq<Tree>, int)
    decreases s.len() - p, 35int,
{
    match infix_spec(s, p, level) {
        Some((t, e)) => if p < e <= s.len() {
            infixes_from(s, ts.push(t), e, level)
        } else {
            (ts, p)
        },
        None => (ts, p),
    }
}

pub open spec fn l3_spec(s: Seq<u8>, pos: int) -> SParse
    decreases s.len() - pos, 19int,
{
    let a = need(start(pos), l4_spec(s, pos));
    done(Kind::L3, match a {
        Some((ts, p)) => if pos < p <= s.len() {
            Some(infixes_from(s, ts, p, 3))
        } else {
            None
        },
        None => None,
    })
}

pub open spec fn l2_spec(s: Seq<u8>, pos: int) -> SParse
    decreases s.len() - pos, 20int,
{
    let a = need(start(pos), l3_spec(s, pos));
    done(Kind::L2, match a {
        Some((ts, p)) => if pos < p <= s.len() {
            Some(infixes_from(s, ts, p, 2))
        } else {
            None
        },
        None => None,
    })
}

pub open spec fn l1_spec(s: Seq<u8>, pos: int) -> SParse
    decreases s.len() - pos, 21int,
{
    let a = need(start(pos), l2_spec(s, pos));
    done(Kind::L1, match a {
        Some((ts, p)) => if pos < p <= s.len() {
            Some(infixes_from(s, ts, p, 1))
        } else {
            None
        },
        None => None,
    })
}

pub open spec fn math_expression_spec(s: Seq<u8>, pos: int) -> SParse
    decreases s.len() - pos, 22int,
{
    done(Kind::MathExpression, need(start(pos), l1_spec(s, pos)))
}

pub open spec fn add_row_spec(s: Seq<u8>, pos: int) -> SParse {
    let a = need(start(pos), table_spec(s, pos));
    let a = need(a, byte_spec(s, at(a), 32));
    let a = tag_spec(a, s, seq![43u8, 61]);
    let a = need(a, byte_spec(s, at(a), 32));
    let q = at(a);
    done(Kind::AddRow, need(a, first_of(inline_table_spec(s, q), anonymous_table_spec(s, q))))
}

pub open spec fn set_data_spec(s: Seq<u8>, pos: int) -> SParse {
    let a = need(start(pos), data_spec(s, pos));
    let a = need(a, byte_spec(s, at(a), 32));
    let a = tag_spec(a, s, seq![58u8, 61]);
    let a = need(a, byte_spec(s, at(a), 32));
    let q = at(a);
    done(Kind::SetData, need(a, expression_spec(s, q)))
}

pub open spec fn variable_define_spec(s: Seq<u8>, pos: int) -> SParse {
    let a = need(start(pos), identifier_spec(s, pos));
    let a = need(a, byte_spec(s, at(a), 32));
    let a = tag_spec(a, s, seq![61u8]);
    let a = need(a, byte_spec(s, at(a), 32));
    let q = at(a);
    done(Kind::VariableDefine, need(a, expression_spec(s, q)))
}

pub open spec fn table_define_spec(s: Seq<u8>, pos: int) -> SParse {
    let a = need(start(pos), table_spec(s, pos));
    let a = need(a, byte_spec(s, at(a), 32));
    let a = tag_spec(a, s, seq![61u8]);
    let a = need(a, byte_spec(s, at(a), 32));
    let q = at(a);
    done(Kind::TableDefine, need(a, expression_spec(s, q)))
}

pub open spec fn comment_spec(s: Seq<u8>, pos: int) -> SParse {
    let a = tag_spec(start(pos), s, seq![47u8, 47]);
    done(Kind::Comment, need(a, text_spec(s, at(a))))
}

pub open spec fn data_watch_spec(s: Seq<u8>, pos: int) -> SParse {
    let a = need(start(pos), byte_spec(s, pos, 126));
    let a = need(a, byte_spec(s, at(a), 32));
    let q = at(a);
    let watch = first_of(
        variable_define_spec(s, q),
        first_of(filter_expression_spec(s, q), first_of(logic_expression_spec(s, q), data_spec(s, q))),
    );
    done(Kind::DataWatch, need(a, watch))
}

/// The statement forms in the order they are tried: table definition,
/// variable definition, watch, set, add row, comment.
pub open spec fn statement_spec(s: Seq<u8>, pos: int) -> SParse {
    let item = first_of(
        table_define_spec(s, pos),
        first_of(
            variable_define_spec(s, pos),
            first_of(
                data_watch_spec(s, pos),
                first_of(set_data_spec(s, pos), first_of(add_row_spec(s, pos), comment_spec(s, pos))),
            ),
        ),
    );
    done(Kind::Statement, need(start(pos), item))
}

pub open spec fn constraint_line_spec(s: Seq<u8>, pos: int, indented: bool) -> SParse {
    let a = if indented {
        tag_spec(start(pos), s, seq![32u8, 32])
    } else {
        start(pos)
    };
    let a = need(a, statement_spec(s, at(a)));
    let a = spaces_spec(a, s, false);
    done(Kind::Constraint, newline_opt(a, s))
}

pub open spec fn lines_from(s: Seq<u8>, ts: Seq<Tree>, p: int, indented: bool) -> (Seq<Tree>, int)
    decreases s.len() - p,
{
    match constraint_line_spec(s, p, indented) {
        Some((t, e)) => if p < e <= s.len() {
            lines_from(s, ts.push(t), e, indented)
        } else {
            (ts, p)
        },
        None => (ts, p),
    }
}

/// One or more statement lines, then blank lines, as a block.
pub open spec fn lines_spec(s: Seq<u8>, pos: int, indented: bool) -> SParse {
    let a = need(start(pos), constraint_line_spec(s, pos, indented));
    let a = match a {
        Some((ts, p)) => Some(lines_from(s, ts, p, indented)),
        None => None,
    };
    done(Kind::Block, blank_lines_spec(a, s))
}

pub open spec fn fragment_spec(s: Seq<u8>, pos: int) -> SParse {
    done(Kind::Fragment, need(start(pos), statement_spec(s, pos)))
}

pub open spec fn fragments_from(s: Seq<u8>, ts: Seq<Tree>, p: int) -> (Seq<Tree>, int)
    decreases s.len() - p,
{
    match fragment_spec(s, p) {
        Some((t, e)) => if p < e <= s.len() {
            fragments_from(s, ts.push(t), e)
        } else {
            (ts, p)
        },
        None => (ts, p),
    }
}

/// One or more bare statements from the start of `s`, as a root.
pub open spec fn fragments_spec(s: Seq<u8>) -> SParse {
    match need(start(0), fragment_spec(s, 0)) {
        Some((ts, p)) => done(Kind::Root, Some(fragments_from(s, ts, p))),
        None => None,
    }
}

pub open spec fn heading_spec(s: Seq<u8>, pos: int, level: int) -> SParse {
    let a = need(start(pos), byte_spec(s, pos, 35));
    let a = if level == 2 {
        need(a, byte_spec(s, at(a), 35))
    } else {
        a
    };
    let a = need(a, byte_spec(s, at(a), 32));
    let a = need(a, text_spec(s, at(a)));
    done(if level == 1 {
        Kind::Title
    } else {
        Kind::Subtitle
    }, blank_lines_spec(a, s))
}

pub open spec fn inline_code_spec(s: Seq<u8>, pos: int) -> SParse {
    let a = need(start(pos), byte_spec(s, pos, 96));
    let a = need(a, text_spec(s, at(a)));
    let a = need(a, byte_spec(s, at(a), 96));
    done(Kind::InlineCode, maybe(a, byte_spec(s, at(a), 32)))
}

pub open spec fn inline_mech_code_spec(s: Seq<u8>, pos: int) -> SParse {
    let a = tag_spec(start(pos), s, seq![91u8, 91]);
    let a = need(a, expression_spec(s, at(a)));
    let a = tag_spec(a, s, seq![93u8, 93]);
    done(Kind::InlineMechCode, maybe(a, byte_spec(s, at(a), 32)))
}

pub open spec fn paragraph_text_spec(s: Seq<u8>, pos: int) -> SParse {
    let a = need(start(pos), pieces_spec(s, pos, 2));
    let a = maybe(a, pieces_spec(s, at(a), 1));
    done(Kind::ParagraphText, spaces_spec(a, s, false))
}

pub open spec fn paragraph_element_spec(s: Seq<u8>, pos: int) -> SParse {
    first_of(
        inline_mech_code_spec(s, pos),
        first_of(inline_code_spec(s, pos), paragraph_text_spec(s, pos)),
    )
}

pub open spec fn elements_from(s: Seq<u8>, ts: Seq<Tree>, p: int) -> (Seq<Tree>, int)
    decreases s.len() - p,
{
    match paragraph_element_spec(s, p) {
        Some((t, e)) => if p < e <= s.len() {
            elements_from(s, ts.push(t), e)
        } else {
            (ts, p)
        },
        None => (ts, p),
    }
}

pub open spec fn paragraph_spec(s: Seq<u8>, pos: int) -> SParse {
    let a = need(start(pos), paragraph_element_spec(s, pos));
    let a = match a {
        Some((ts, p)) => Some(elements_from(s, ts, p)),
        None => None,
    };
    let a = newline_opt(a, s);
    done(Kind::Paragraph, blank_lines_spec(a, s))
}

pub open spec fn list_item_spec(s: Seq<u8>, pos: int) -> SParse {
    let a = need(start(pos), byte_spec(s, pos, 45));
    let a = need(a, byte_spec(s, at(a), 32));
    let a = need(a, paragraph_spec(s, at(a)));
    done(Kind::ListItem, newline_opt(a, s))
}

pub open spec fn items_from(s: Seq<u8>, ts: Seq<Tree>, p: int) -> (Seq<Tree>, int)
    decreases s.len() - p,
{
    match list_item_spec(s, p) {
        Some((t, e)) => if p < e <= s.len() {
            items_from(s, ts.push(t), e)
        } else {
            (ts, p)
        },
        None => (ts, p),
    }
}

pub open spec fn unordered_list_spec(s: Seq<u8>, pos: int) -> SParse {
    let a = need(start(pos), list_item_spec(s, pos));
    let a = match a {
        Some((ts, p)) => Some(items_from(s, ts, p)),
        None => None,
    };
    done(Kind::UnorderedList, maybe(a, whitespace_spec(s, at(a))))
}

pub open spec fn verbatim_piece_spec(s: Seq<u8>, p: int) -> SParse {
    first_of(pieces_spec(s, p, 1), one_of_spec(s, p, seq![13u8, 10]))
}

pub open spec fn verbatim_from(s: Seq<u8>, ts: Seq<Tree>, p: int) -> (Seq<Tree>, int)
    decreases s.len() - p,
{
    match verbatim_piece_spec(s, p) {
        Some((t, e)) => if p < e <= s.len() {
            verbatim_from(s, ts.push(t), e)
        } else {
            (ts, p)
        },
        None => (ts, p),
    }
}

pub open spec fn formatted_text_spec(s: Seq<u8>, pos: int) -> SParse {
    done(Kind::FormattedText, Some(verbatim_from(s, Seq::empty(), pos)))
}

pub open spec fn fence() -> Seq<u8> {
    seq![96u8, 96, 96]
}

pub open spec fn code_block_spec(s: Seq<u8>, pos: int) -> SParse {
    let a = tag_spec(start(pos), s, fence());
    let a = newline_spec(a, s);
    let a = need(a, formatted_text_spec(s, at(a)));
    let a = tag_spec(a, s, fence());
    let a = newline_spec(a, s);
    done(Kind::CodeBlock, blank_lines_spec(a, s))
}

pub open spec fn mech_code_block_spec(s: Seq<u8>, pos: int) -> SParse {
    let a = tag_spec(start(pos), s, fence());
    let a = tag_spec(a, s, seq![109u8, 101, 99, 104, 58]);
    let a = need(a, word_spec(s, at(a)));
    let a = newline_spec(a, s);
    let a = need(a, lines_spec(s, at(a), true));
    let a = tag_spec(a, s, fence());
    let a = newline_spec(a, s);
    done(Kind::MechCodeBlock, blank_lines_spec(a, s))
}

pub open spec fn section_element_spec(s: Seq<u8>, pos: int) -> SParse {
    first_of(
        lines_spec(s, pos, true),
        first_of(
            code_block_spec(s, pos),
            first_of(
                mech_code_block_spec(s, pos),
                first_of(paragraph_spec(s, pos), unordered_list_spec(s, pos)),
            ),
        ),
    )
}

pub open spec fn section_elements_from(s: Seq<u8>, ts: Seq<Tree>, p: int) -> (Seq<Tree>, int)
    decreases s.len() - p,
{
    match section_element_spec(s, p) {
        Some((t, e)) => if p < e <= s.len() {
            section_elements_from(s, ts.push(t), e)
        } else {
            (ts, p)
        },
        None => (ts, p),
    }
}

pub open spec fn section_spec(s: Seq<u8>, pos: int) -> SParse {
    let a = maybe(start(pos), heading_spec(s, pos, 2));
    let a = match a {
        Some((ts, p)) => Some(section_elements_from(s, ts, p)),
        None => None,
    };
    done(Kind::Section, blank_lines_spec(a, s))
}

pub open spec fn sections_from(s: Seq<u8>, ts: Seq<Tree>, p: int) -> (Seq<Tree>, int)
    decreases s.len() - p,
{
    match section_spec(s, p) {
        Some((t, e)) => if p < e <= s.len() {
            sections_from(s, ts.push(t), e)
        } else {
            (ts, p)
        },
        None => (ts, p),
    }
}

pub open spec fn body_spec(s: Seq<u8>, pos: int) -> SParse {
    let a = blank_lines_spec(start(pos), s);
    let a = maybe(a, section_spec(s, at(a)));
    let a = match a {
        Some((ts, p)) => Some(sections_from(s, ts, p)),
        None => None,
    };
    done(Kind::Body, a)
}

pub open spec fn program_spec(s: Seq<u8>, pos: int) -> SParse {
    let a = maybe(start(pos), heading_spec(s, pos, 1));
    let a = maybe(a, body_spec(s, at(a)));
    done(Kind::Program, maybe(a, whitespace_spec(s, at(a))))
}

pub open spec fn programs_from(s: Seq<u8>, ts: Seq<Tree>, p: int) -> (Seq<Tree>, int)
    decreases s.len() - p,
{
    match program_spec(s, p) {
        Some((t, e)) => if p < e <= s.len() {
            programs_from(s, ts.push(t), e)
        } else {
            (ts, p)
        },
        None => (ts, p),
    }
}

/// One or more literate programs from the start of `s`, as a root.
pub open spec fn programs_spec(s: Seq<u8>) -> SParse {
    match need(start(0), program_spec(s, 0)) {
        Some((ts, p)) => done(Kind::Root, Some(programs_from(s, ts, p))),
        None => None,
    }
}

/// A document: bare statements if at least one is recognized at the start,
/// else literate programs.
pub open spec fn mech_spec(s: Seq<u8>) -> SParse {
    match fragments_spec(s) {
        Some(x) => Some(x),
        None => programs_spec(s),
    }
}

} // verus!
