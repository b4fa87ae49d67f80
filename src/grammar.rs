use vstd::prelude::*;
use crate::node::{Kind, Node, Tree, text_of, text_of_seq, kind_of, lemma_text_of_push, tree_of, trees_of, lemma_trees_of_push};
use crate::rules;
use crate::rules::{Acc, SParse};
use crate::token::{Token, token_class, classify, is_alpha, is_digit, is_alpha_byte, is_digit_byte};

verus! {

/// What a rule returns: the node it built and the position after it.
pub type Parsed = Option<(Node, usize)>;

/// The bytes of `s` from `a` to `b` are ASCII.
pub open spec fn ascii(s: Seq<u8>, a: int, b: int) -> bool {
    forall|i: int| a <= i < b ==> s[i] < 128
}

/// The texts of `ns` are exactly the bytes of `s` from `a` to `b`, which are
/// ASCII.
pub open spec fn covers(ns: Seq<Node>, s: Seq<u8>, a: int, b: int) -> bool {
    text_of_seq(ns) == s.subrange(a, b) && ascii(s, a, b)
}

/// `r` covers a stretch of `s` that starts at `pos`, and its node's text is
/// exactly the bytes of that stretch, which are ASCII.
pub open spec fn parsed(s: Seq<u8>, pos: int, r: Parsed) -> bool {
    match r {
        Some((n, e)) => pos <= e <= s.len() && text_of(n) == s.subrange(pos, e as int) && ascii(
            s,
            pos,
            e as int,
        ),
        None => true,
    }
}

/// As `parsed`, and the node is a branch of kind `k`.
pub open spec fn parsed_as(s: Seq<u8>, pos: int, r: Parsed, k: Kind) -> bool {
    parsed(s, pos, r) && (r matches Some((n, _)) ==> kind_of(n) == Some(k))
}

/// `r`, when present, consumed at least one byte.
pub open spec fn advances(pos: int, r: Parsed) -> bool {
    r matches Some((_, e)) ==> e > pos
}

proof fn lemma_join(s: Seq<u8>, a: int, b: int, c: int)
    requires
        0 <= a <= b <= c <= s.len(),
    ensures
        s.subrange(a, b) + s.subrange(b, c) == s.subrange(a, c),
{
    assert(s.subrange(a, b) + s.subrange(b, c) =~= s.subrange(a, c));
}

/// The tree and end position of a result.
pub open spec fn view_parse(r: Parsed) -> SParse {
    match r {
        Some((n, e)) => Some((tree_of(n), e as int)),
        None => None,
    }
}

/// The children gathered so far, at position `p`.
pub open spec fn acc_of(ch: Seq<Node>, p: int) -> Acc {
    Some((trees_of(ch), p))
}

pub open spec fn acc_at(ch: Seq<Node>, e: Option<usize>) -> Acc {
    match e {
        Some(e) => acc_of(ch, e as int),
        None => None,
    }
}

/// No children yet, covering nothing from `pos`.
fn fresh(s: &[u8], pos: usize) -> (ch: Vec<Node>)
    requires
        pos <= s@.len(),
    ensures
        ch@ == Seq::<Node>::empty(),
        covers(ch@, s@, pos as int, pos as int),
        acc_of(ch@, pos as int) == rules::start(pos as int),
{
    assert(trees_of(Seq::<Node>::empty()) =~= Seq::<Tree>::empty());
    assert(s@.subrange(pos as int, pos as int) =~= Seq::<u8>::empty());
    Vec::new()
}

/// Appends the node of `r` to the children gathered from `start`.
fn part(ch: &mut Vec<Node>, s: &[u8], start: usize, p: usize, r: Parsed) -> (e: Option<usize>)
    requires
        start <= p <= s@.len(),
        covers(old(ch)@, s@, start as int, p as int),
        parsed(s@, p as int, r),
    ensures
        match e {
            Some(e) => (r matches Some((_, re)) && e == re) && p <= e <= s@.len()
                && covers(final(ch)@, s@, start as int, e as int),
            None => r is None && final(ch)@ == old(ch)@,
        },
        acc_at(final(ch)@, e) == rules::need(acc_of(old(ch)@, p as int), view_parse(r)),
{
    match r {
        Some((n, e)) => {
            proof {
                lemma_trees_of_push(ch@, n);
                lemma_text_of_push(ch@, n);
                lemma_join(s@, start as int, p as int, e as int);
            }
            ch.push(n);
            Some(e)
        },
        None => None,
    }
}

/// Appends the node of `r`, if any, and returns the position after it.
fn opt(ch: &mut Vec<Node>, s: &[u8], start: usize, p: usize, r: Parsed) -> (e: usize)
    requires
        start <= p <= s@.len(),
        covers(old(ch)@, s@, start as int, p as int),
        parsed(s@, p as int, r),
    ensures
        p <= e <= s@.len(),
        covers(final(ch)@, s@, start as int, e as int),
        r is None ==> e == p,
        acc_of(final(ch)@, e as int) == rules::maybe(acc_of(old(ch)@, p as int), view_parse(r)),
{
    match part(ch, s, start, p, r) {
        Some(e) => e,
        None => p,
    }
}

/// Appends the node of `r` only when it consumed something; a repetition
/// stops on `None`.
fn more(ch: &mut Vec<Node>, s: &[u8], start: usize, p: usize, r: Parsed) -> (e: Option<usize>)
    requires
        start <= p <= s@.len(),
        covers(old(ch)@, s@, start as int, p as int),
        parsed(s@, p as int, r),
    ensures
        match e {
            Some(e) => p < e <= s@.len() && covers(final(ch)@, s@, start as int, e as int),
            None => final(ch)@ == old(ch)@,
        },
        match e {
            Some(e) => view_parse(r) matches Some((t, re)) && re == e && trees_of(final(ch)@)
                == trees_of(old(ch)@).push(t),
            None => !(view_parse(r) matches Some((_, re)) && p < re <= s@.len()),
        },
{
    match r {
        Some((n, e)) => {
            if e == p {
                None
            } else {
                part(ch, s, start, p, Some((n, e)))
            }
        },
        None => None,
    }
}

fn branch(kind: Kind, ch: Vec<Node>, e: usize, s: &[u8], pos: usize) -> (r: Parsed)
    requires
        pos <= e <= s@.len(),
        covers(ch@, s@, pos as int, e as int),
    ensures
        parsed_as(s@, pos as int, r, kind),
        r matches Some((n, re)) && re == e && n == (Node::Branch { kind, children: ch }),
        view_parse(r) == rules::done(kind, acc_of(ch@, e as int)),
{
    Some((Node::Branch { kind, children: ch }, e))
}

/// One byte equal to `b`, as a token leaf.
pub fn byte(s: &[u8], pos: usize, b: u8) -> (r: Parsed)
    requires
        pos <= s@.len(),
        b < 128,
    ensures
        parsed(s@, pos as int, r),
        r is Some <==> (pos < s@.len() && s@[pos as int] == b),
        r matches Some((n, e)) ==> e == pos + 1 && n == (Node::Token {
            token: token_class(b),
            byte: b,
        }),
        view_parse(r) == rules::byte_spec(s@, pos as int, b),
{
    if pos < s.len() && s[pos] == b {
        let n = Node::Token { token: classify(b), byte: b };
        assert(text_of(n) =~= s@.subrange(pos as int, pos + 1));
        Some((n, pos + 1))
    } else {
        None
    }
}

/// One byte that occurs in `set`, as a token leaf.
pub fn one_of(s: &[u8], pos: usize, set: &[u8]) -> (r: Parsed)
    requires
        pos <= s@.len(),
        forall|j: int| 0 <= j < set@.len() ==> set@[j] < 128,
    ensures
        parsed(s@, pos as int, r),
        r is Some <==> (pos < s@.len() && set@.contains(s@[pos as int])),
        r matches Some((n, e)) ==> e == pos + 1 && n == (Node::Token {
            token: token_class(s@[pos as int]),
            byte: s@[pos as int],
        }),
        view_parse(r) == rules::one_of_spec(s@, pos as int, set@),
{
    if pos >= s.len() {
        return None;
    }
    let b = s[pos];
    let mut i: usize = 0;
    while i < set.len()
        invariant
            i <= set@.len(),
            pos < s@.len(),
            b == s@[pos as int],
            forall|j: int| 0 <= j < i ==> set@[j] != b,
            forall|j: int| 0 <= j < set@.len() ==> set@[j] < 128,
        decreases set@.len() - i,
    {
        if set[i] == b {
            return byte(s, pos, b);
        }
        i = i + 1;
    }
    None
}

/// Whether the bytes of `t` stand in `s` at `p`.
fn looking_at(s: &[u8], p: usize, t: &[u8]) -> (r: bool)
    requires
        p <= s@.len(),
    ensures
        r == (p + t@.len() <= s@.len() && s@.subrange(p as int, p + t@.len()) == t@),
{
    let n = s.len();
    if t.len() > n - p {
        return false;
    }
    let mut i: usize = 0;
    while i < t.len()
        invariant
            i <= t@.len(),
            n == s@.len(),
            p + t@.len() <= n,
            forall|j: int| 0 <= j < i ==> s@[p + j] == t@[j],
        decreases t@.len() - i,
    {
        if s[p + i] != t[i] {
            assert(s@.subrange(p as int, p + t@.len())[i as int] != t@[i as int]);
            return false;
        }
        i = i + 1;
    }
    assert(s@.subrange(p as int, p + t@.len()) =~= t@);
    true
}

/// The bytes of `t`, in order, appended as token leaves.
fn tag(ch: &mut Vec<Node>, s: &[u8], start: usize, p: usize, t: &[u8]) -> (e: Option<usize>)
    requires
        start <= p <= s@.len(),
        forall|j: int| 0 <= j < t@.len() ==> t@[j] < 128,
        covers(old(ch)@, s@, start as int, p as int),
    ensures
        match e {
            Some(e) => e == p + t@.len() && e <= s@.len() && s@.subrange(p as int, e as int)
                == t@ && covers(final(ch)@, s@, start as int, e as int),
            None => !(p + t@.len() <= s@.len() && s@.subrange(p as int, p + t@.len()) == t@)
                && final(ch)@ == old(ch)@,
        },
        acc_at(final(ch)@, e) == rules::tag_spec(acc_of(old(ch)@, p as int), s@, t@),
{
    if !looking_at(s, p, t) {
        return None;
    }
    let mut q = p;
    let mut i: usize = 0;
    let ghost t0 = trees_of(ch@);
    assert(rules::leaves(t@.subrange(0, 0)) =~= Seq::<Tree>::empty());
    assert(t0 + Seq::<Tree>::empty() =~= t0);
    while i < t.len()
        invariant
            trees_of(ch@) == t0 + rules::leaves(t@.subrange(0, i as int)),
            start <= p <= q <= s@.len(),
            q == p + i,
            i <= t@.len(),
            p + t@.len() <= s@.len(),
            s@.subrange(p as int, p + t@.len()) == t@,
            forall|j: int| 0 <= j < t@.len() ==> t@[j] < 128,
            covers(ch@, s@, start as int, q as int),
        decreases t@.len() - i,
    {
        assert(s@[q as int] == s@.subrange(p as int, p + t@.len())[i as int]);
        let ghost before = trees_of(ch@);
        q = part(ch, s, start, q, byte(s, q, t[i])).unwrap();
        assert(rules::leaves(t@.subrange(0, i + 1)) =~= rules::leaves(t@.subrange(0, i as int)).push(rules::leaf(t@[i as int])));
        assert(t0 + rules::leaves(t@.subrange(0, i + 1)) =~= (t0 + rules::leaves(t@.subrange(0, i as int))).push(rules::leaf(t@[i as int])));
        i = i + 1;
    }
    assert(t@.subrange(0, i as int) =~= t@);
    Some(q)
}

fn is_blank_byte(b: u8, tabs: bool) -> (r: bool)
    ensures
        r == rules::is_blank(b, tabs),
{
    b == 32 || (tabs && b == 9)
}

/// Zero or more spaces (and tabs, with `tabs`), appended as token leaves.
fn blank_run(ch: &mut Vec<Node>, s: &[u8], start: usize, p: usize, tabs: bool) -> (e: usize)
    requires
        start <= p <= s@.len(),
        covers(old(ch)@, s@, start as int, p as int),
    ensures
        p <= e <= s@.len(),
        covers(final(ch)@, s@, start as int, e as int),
        acc_of(final(ch)@, e as int) == rules::spaces_spec(acc_of(old(ch)@, p as int), s@, tabs),
{
    let mut q = p;
    let ghost t0 = trees_of(ch@);
    while q < s.len() && is_blank_byte(s[q], tabs)
        invariant
            start <= p <= q <= s@.len(),
            covers(ch@, s@, start as int, q as int),
            rules::spaces_from(s@, trees_of(ch@), q as int, tabs) == rules::spaces_from(s@, t0, p as int, tabs),
        decreases s@.len() - q,
    {
        let b = s[q];
        q = part(ch, s, start, q, byte(s, q, b)).unwrap();
    }
    q
}

/// Zero or more spaces, appended as token leaves.
fn spaces(ch: &mut Vec<Node>, s: &[u8], start: usize, p: usize) -> (e: usize)
    requires
        start <= p <= s@.len(),
        covers(old(ch)@, s@, start as int, p as int),
    ensures
        p <= e <= s@.len(),
        covers(final(ch)@, s@, start as int, e as int),
        acc_of(final(ch)@, e as int) == rules::spaces_spec(acc_of(old(ch)@, p as int), s@, false),
{
    blank_run(ch, s, start, p, false)
}

/// Zero or more spaces or tabs, appended as token leaves.
fn blanks(ch: &mut Vec<Node>, s: &[u8], start: usize, p: usize) -> (e: usize)
    requires
        start <= p <= s@.len(),
        covers(old(ch)@, s@, start as int, p as int),
    ensures
        p <= e <= s@.len(),
        covers(final(ch)@, s@, start as int, e as int),
        acc_of(final(ch)@, e as int) == rules::spaces_spec(acc_of(old(ch)@, p as int), s@, true),
{
    blank_run(ch, s, start, p, true)
}

/// A line break, `\n` or `\r\n`, appended as token leaves.
fn newline(ch: &mut Vec<Node>, s: &[u8], start: usize, p: usize) -> (e: Option<usize>)
    requires
        start <= p <= s@.len(),
        covers(old(ch)@, s@, start as int, p as int),
    ensures
        match e {
            Some(e) => p < e <= s@.len() && covers(final(ch)@, s@, start as int, e as int),
            None => final(ch)@ == old(ch)@,
        },
        acc_at(final(ch)@, e) == rules::newline_spec(acc_of(old(ch)@, p as int), s@),
{
    let lf: [u8; 1] = [10];
    let crlf: [u8; 2] = [13, 10];
    assert(lf@ =~= seq![10u8]);
    assert(crlf@ =~= seq![13u8, 10u8]);
    match tag(ch, s, start, p, &lf) {
        Some(e) => Some(e),
        None => tag(ch, s, start, p, &crlf),
    }
}

fn in_class(b: u8, digits: bool) -> (r: bool)
    ensures
        r == if digits {
            is_digit(b)
        } else {
            is_alpha(b)
        },
{
    if digits {
        is_digit_byte(b)
    } else {
        is_alpha_byte(b)
    }
}

/// A maximal run of bytes of one class (letters, or digits), as leaves.
fn run(s: &[u8], pos: usize, digits: bool) -> (r: (Vec<Node>, usize))
    requires
        pos <= s@.len(),
    ensures
        pos <= r.1 <= s@.len(),
        covers(r.0@, s@, pos as int, r.1 as int),
        forall|i: int|
            pos <= i < r.1 ==> (if digits {
                is_digit(#[trigger] s@[i])
            } else {
                is_alpha(s@[i])
            }),
        r.1 == s@.len() || !(if digits {
            is_digit(s@[r.1 as int])
        } else {
            is_alpha(s@[r.1 as int])
        }),
        (trees_of(r.0@), r.1 as int) == rules::run_from(s@, Seq::empty(), pos as int, digits),
{
    let mut ch = fresh(s, pos);
    let mut q = pos;
    let ghost t0 = trees_of(ch@);
    while q < s.len() && in_class(s[q], digits)
        invariant
            pos <= q <= s@.len(),
            covers(ch@, s@, pos as int, q as int),
            rules::run_from(s@, trees_of(ch@), q as int, digits) == rules::run_from(s@, t0, pos as int, digits),
            forall|i: int|
                pos <= i < q ==> (if digits {
                    is_digit(#[trigger] s@[i])
                } else {
                    is_alpha(s@[i])
                }),
        decreases s@.len() - q,
    {
        let b = s[q];
        q = part(&mut ch, s, pos, q, byte(s, q, b)).unwrap();
    }
    (ch, q)
}

/// One or more ASCII letters: a `Word` of letter leaves.
pub fn word(s: &[u8], pos: usize) -> (r: Parsed)
    requires
        pos <= s@.len(),
    ensures
        parsed_as(s@, pos as int, r, Kind::Word),
        r is Some <==> (pos < s@.len() && is_alpha(s@[pos as int])),
        r matches Some((_, e)) ==> e > pos && (forall|i: int| pos <= i < e ==> is_alpha(
            #[trigger] s@[i],
        )) && (e == s@.len() || !is_alpha(s@[e as int])),
        view_parse(r) == rules::word_spec(s@, pos as int),
{
    let (ch, e) = run(s, pos, false);
    if e == pos {
        None
    } else {
        branch(Kind::Word, ch, e, s, pos)
    }
}

/// One or more ASCII digits: a `Number` of digit leaves.
pub fn number(s: &[u8], pos: usize) -> (r: Parsed)
    requires
        pos <= s@.len(),
    ensures
        parsed_as(s@, pos as int, r, Kind::Number),
        r is Some <==> (pos < s@.len() && is_digit(s@[pos as int])),
        r matches Some((_, e)) ==> e > pos && (forall|i: int| pos <= i < e ==> is_digit(
            #[trigger] s@[i],
        )) && (e == s@.len() || !is_digit(s@[e as int])),
        view_parse(r) == rules::number_spec(s@, pos as int),
{
    let (ch, e) = run(s, pos, true);
    if e == pos {
        None
    } else {
        branch(Kind::Number, ch, e, s, pos)
    }
}

/// Punctuation that may stand in prose and in text.
pub fn punctuation(s: &[u8], pos: usize) -> (r: Parsed)
    requires
        pos <= s@.len(),
    ensures
        view_parse(r) == rules::punctuation_spec(s@, pos as int),
        parsed_as(s@, pos as int, r, Kind::Punctuation),
        advances(pos as int, r),
{
    let mut ch = fresh(s, pos);
    let set: [u8; 14] = [46, 33, 63, 44, 58, 59, 45, 39, 40, 41, 60, 62, 123, 125];
    assert(set@ =~= rules::punctuation_set());
    let e = part(&mut ch, s, pos, pos, one_of(s, pos, &set))?;
    branch(Kind::Punctuation, ch, e, s, pos)
}

/// Symbol characters that may stand in text.
pub fn symbol(s: &[u8], pos: usize) -> (r: Parsed)
    requires
        pos <= s@.len(),
    ensures
        view_parse(r) == rules::symbol_spec(s@, pos as int),
        parsed_as(s@, pos as int, r, Kind::Symbol),
        advances(pos as int, r),
{
    let mut ch = fresh(s, pos);
    let set: [u8; 11] = [38, 124, 64, 47, 35, 61, 126, 43, 42, 94, 95];
    assert(set@ =~= rules::symbol_set());
    let e = part(&mut ch, s, pos, pos, one_of(s, pos, &set))?;
    branch(Kind::Symbol, ch, e, s, pos)
}

/// One piece of text: a word, a space, a number, punctuation or a symbol,
/// and with `quotes` also a double quote.
fn text_piece(s: &[u8], pos: usize, quotes: bool) -> (r: Parsed)
    requires
        pos <= s@.len(),
    ensures
        view_parse(r) == rules::text_piece_spec(s@, pos as int, quotes),
        parsed(s@, pos as int, r),
        advances(pos as int, r),
{
    let r = word(s, pos);
    if r.is_some() {
        return r;
    }
    let r = byte(s, pos, 32);
    if r.is_some() {
        return r;
    }
    let r = number(s, pos);
    if r.is_some() {
        return r;
    }
    let r = punctuation(s, pos);
    if r.is_some() {
        return r;
    }
    let r = symbol(s, pos);
    if r.is_some() || !quotes {
        return r;
    }
    byte(s, pos, 34)
}

/// One piece that may open a paragraph.
fn starter_piece(s: &[u8], pos: usize) -> (r: Parsed)
    requires
        pos <= s@.len(),
    ensures
        view_parse(r) == rules::starter_piece_spec(s@, pos as int),
        parsed(s@, pos as int, r),
        advances(pos as int, r),
{
    let r = word(s, pos);
    if r.is_some() {
        return r;
    }
    let r = number(s, pos);
    if r.is_some() {
        return r;
    }
    let set: [u8; 11] = [34, 60, 62, 46, 33, 63, 44, 58, 59, 40, 41];
    assert(set@ =~= rules::starter_set());
    one_of(s, pos, &set)
}

/// One or more pieces of the given sort, as a `Text` node: `sort` 0 is
/// plain text, 1 text with quotes, 2 a paragraph opening.
fn pieces(s: &[u8], pos: usize, sort: u8) -> (r: Parsed)
    requires
        pos <= s@.len(),
    ensures
        view_parse(r) == rules::pieces_spec(s@, pos as int, sort),
        parsed_as(s@, pos as int, r, Kind::Text),
        advances(pos as int, r),
{
    let mut ch = fresh(s, pos);
    let first = if sort == 2 {
        starter_piece(s, pos)
    } else {
        text_piece(s, pos, sort == 1)
    };
    let mut p = part(&mut ch, s, pos, pos, first)?;
    let ghost t0 = trees_of(ch@);
    let ghost p0 = p as int;
    loop
        invariant
            rules::pieces_from(s@, trees_of(ch@), p as int, sort) == rules::pieces_from(s@, t0, p0, sort),
            pos < p <= s@.len(),
            covers(ch@, s@, pos as int, p as int),
        ensures
            rules::pieces_from(s@, trees_of(ch@), p as int, sort) == (trees_of(ch@), p as int),
        decreases s@.len() - p,
    {
        let next = if sort == 2 {
            starter_piece(s, p)
        } else {
            text_piece(s, p, sort == 1)
        };
        match more(&mut ch, s, pos, p, next) {
            Some(e) => p = e,
            None => break,
        }
    }
    branch(Kind::Text, ch, p, s, pos)
}

/// Words, spaces, numbers, punctuation and symbols.
pub fn text(s: &[u8], pos: usize) -> (r: Parsed)
    requires
        pos <= s@.len(),
    ensures
        view_parse(r) == rules::text_spec(s@, pos as int),
        parsed_as(s@, pos as int, r, Kind::Text),
        advances(pos as int, r),
{
    pieces(s, pos, 0)
}

/// A word followed by letters, digits, dashes, slashes and underscores.
pub fn identifier(s: &[u8], pos: usize) -> (r: Parsed)
    requires
        pos <= s@.len(),
    ensures
        view_parse(r) == rules::identifier_spec(s@, pos as int),
        parsed_as(s@, pos as int, r, Kind::Identifier),
        advances(pos as int, r),
        r is Some <==> (pos < s@.len() && is_alpha(s@[pos as int])),
{
    let mut ch = fresh(s, pos);
    let mut p = part(&mut ch, s, pos, pos, word(s, pos))?;
    let ghost t0 = trees_of(ch@);
    let ghost p0 = p as int;
    loop
        invariant
            rules::ident_from(s@, trees_of(ch@), p as int) == rules::ident_from(s@, t0, p0),
            pos < p <= s@.len(),
            covers(ch@, s@, pos as int, p as int),
        ensures
            rules::ident_from(s@, trees_of(ch@), p as int) == (trees_of(ch@), p as int),
        decreases s@.len() - p,
    {
        let set: [u8; 3] = [45, 47, 95];
        assert(set@ =~= seq![45u8, 47, 95]);
        let mut next = one_of(s, p, &set);
        if next.is_none() {
            next = word(s, p);
        }
        if next.is_none() {
            next = number(s, p);
        }
        match more(&mut ch, s, pos, p, next) {
            Some(e) => p = e,
            None => break,
        }
    }
    branch(Kind::Identifier, ch, p, s, pos)
}

/// Spaces up to and including a line break.
pub fn whitespace(s: &[u8], pos: usize) -> (r: Parsed)
    requires
        pos <= s@.len(),
    ensures
        view_parse(r) == rules::whitespace_spec(s@, pos as int),
        parsed_as(s@, pos as int, r, Kind::Whitespace),
        advances(pos as int, r),
{
    let mut ch = fresh(s, pos);
    let p = spaces(&mut ch, s, pos, pos);
    let p = newline(&mut ch, s, pos, p)?;
    branch(Kind::Whitespace, ch, p, s, pos)
}

/// Zero or more whitespace lines, appended.
fn blank_lines(ch: &mut Vec<Node>, s: &[u8], start: usize, p: usize) -> (e: usize)
    requires
        start <= p <= s@.len(),
        covers(old(ch)@, s@, start as int, p as int),
    ensures
        acc_of(final(ch)@, e as int) == rules::blank_lines_spec(acc_of(old(ch)@, p as int), s@),
        p <= e <= s@.len(),
        covers(final(ch)@, s@, start as int, e as int),
{
    let mut q = p;
    let ghost t0 = trees_of(ch@);
    loop
        invariant
            start <= p <= q <= s@.len(),
            covers(ch@, s@, start as int, q as int),
            rules::lines_of_blank_from(s@, trees_of(ch@), q as int) == rules::lines_of_blank_from(s@, t0, p as int),
        ensures
            rules::lines_of_blank_from(s@, trees_of(ch@), q as int) == (trees_of(ch@), q as int),
        decreases s@.len() - q,
    {
        match more(ch, s, start, q, whitespace(s, q)) {
            Some(e) => q = e,
            None => break,
        }
    }
    q
}

/// A period followed by digits.
pub fn floating_point(s: &[u8], pos: usize) -> (r: Parsed)
    requires
        pos <= s@.len(),
    ensures
        view_parse(r) == rules::floating_point_spec(s@, pos as int),
        r is Some ==> pos < s@.len() && s@[pos as int] == 46,
        parsed_as(s@, pos as int, r, Kind::FloatingPoint),
        advances(pos as int, r),
{
    let mut ch = fresh(s, pos);
    let p = part(&mut ch, s, pos, pos, byte(s, pos, 46))?;
    let p = part(&mut ch, s, pos, p, number(s, p))?;
    branch(Kind::FloatingPoint, ch, p, s, pos)
}

/// A number, an optional fraction and an optional unit.
pub fn quantity(s: &[u8], pos: usize) -> (r: Parsed)
    requires
        pos <= s@.len(),
    ensures
        view_parse(r) == rules::quantity_spec(s@, pos as int),
        parsed_as(s@, pos as int, r, Kind::Quantity),
        advances(pos as int, r),
        r is Some <==> (pos < s@.len() && is_digit(s@[pos as int])),
{
    let mut ch = fresh(s, pos);
    let p = part(&mut ch, s, pos, pos, number(s, pos))?;
    let p = opt(&mut ch, s, pos, p, floating_point(s, p));
    let p = opt(&mut ch, s, pos, p, identifier(s, p));
    branch(Kind::Quantity, ch, p, s, pos)
}

/// Text between double quotes.
pub fn string(s: &[u8], pos: usize) -> (r: Parsed)
    requires
        pos <= s@.len(),
    ensures
        view_parse(r) == rules::string_spec(s@, pos as int),
        r is Some ==> pos < s@.len() && s@[pos as int] == 34,
        parsed_as(s@, pos as int, r, Kind::String),
        advances(pos as int, r),
{
    let mut ch = fresh(s, pos);
    let mut p = part(&mut ch, s, pos, pos, byte(s, pos, 34))?;
    let ghost t0 = trees_of(ch@);
    let ghost p0 = p as int;
    loop
        invariant
            rules::texts_from(s@, trees_of(ch@), p as int) == rules::texts_from(s@, t0, p0),
            pos < p <= s@.len(),
            covers(ch@, s@, pos as int, p as int),
        ensures
            rules::texts_from(s@, trees_of(ch@), p as int) == (trees_of(ch@), p as int),
        decreases s@.len() - p,
    {
        match more(&mut ch, s, pos, p, text(s, p)) {
            Some(e) => p = e,
            None => break,
        }
    }
    let p = part(&mut ch, s, pos, p, byte(s, p, 34))?;
    branch(Kind::String, ch, p, s, pos)
}

/// A string or a quantity.
pub fn constant(s: &[u8], pos: usize) -> (r: Parsed)
    requires
        pos <= s@.len(),
    ensures
        view_parse(r) == rules::constant_spec(s@, pos as int),
        parsed_as(s@, pos as int, r, Kind::Constant),
        advances(pos as int, r),
{
    let mut ch = fresh(s, pos);
    let mut first = string(s, pos);
    if first.is_none() {
        first = quantity(s, pos);
    }
    let p = part(&mut ch, s, pos, pos, first)?;
    branch(Kind::Constant, ch, p, s, pos)
}

/// A single character branch of kind `kind`.
fn single(s: &[u8], pos: usize, b: u8, kind: Kind) -> (r: Parsed)
    requires
        pos <= s@.len(),
        b < 128,
    ensures
        view_parse(r) == rules::single_spec(s@, pos as int, b, kind),
        parsed_as(s@, pos as int, r, kind),
        advances(pos as int, r),
        r is Some <==> (pos < s@.len() && s@[pos as int] == b),
{
    let mut ch = fresh(s, pos);
    let p = part(&mut ch, s, pos, pos, byte(s, pos, b))?;
    branch(kind, ch, p, s, pos)
}

/// An underscore: no value.
pub fn empty(s: &[u8], pos: usize) -> (r: Parsed)
    requires
        pos <= s@.len(),
    ensures
        view_parse(r) == rules::empty_spec(s@, pos as int),
        parsed_as(s@, pos as int, r, Kind::Empty),
        advances(pos as int, r),
        r is Some <==> (pos < s@.len() && s@[pos as int] == 95),
{
    single(s, pos, 95, Kind::Empty)
}

/// A bare colon inside a subscript: every row or column.
pub fn select_all(s: &[u8], pos: usize) -> (r: Parsed)
    requires
        pos <= s@.len(),
    ensures
        view_parse(r) == rules::select_all_spec(s@, pos as int),
        parsed_as(s@, pos as int, r, Kind::SelectAll),
        advances(pos as int, r),
        r is Some <==> (pos < s@.len() && s@[pos as int] == 58),
{
    single(s, pos, 58, Kind::SelectAll)
}

/// A table reference: `#` and an identifier.
pub fn table(s: &[u8], pos: usize) -> (r: Parsed)
    requires
        pos <= s@.len(),
    ensures
        view_parse(r) == rules::table_spec(s@, pos as int),
        r is Some ==> pos < s@.len() && s@[pos as int] == 35,
        parsed_as(s@, pos as int, r, Kind::Table),
        advances(pos as int, r),
        r is Some <==> (pos + 1 < s@.len() && s@[pos as int] == 35 && is_alpha(s@[pos + 1])),
{
    let mut ch = fresh(s, pos);
    let p = part(&mut ch, s, pos, pos, byte(s, pos, 35))?;
    let p = part(&mut ch, s, pos, p, identifier(s, p))?;
    branch(Kind::Table, ch, p, s, pos)
}

/// The bytes of `t` as a branch of kind `kind`.
fn keyword(s: &[u8], pos: usize, t: &[u8], kind: Kind) -> (r: Parsed)
    requires
        pos <= s@.len(),
        forall|j: int| 0 <= j < t@.len() ==> t@[j] < 128,
    ensures
        view_parse(r) == rules::keyword_spec(s@, pos as int, t@, kind),
        parsed_as(s@, pos as int, r, kind),
        r is Some <==> (pos + t@.len() <= s@.len() && s@.subrange(pos as int, pos + t@.len())
            == t@),
        r matches Some((_, e)) ==> e == pos + t@.len(),
{
    let mut ch = fresh(s, pos);
    let p = tag(&mut ch, s, pos, pos, t)?;
    branch(kind, ch, p, s, pos)
}

/// A comparison operator; two-character forms are tried first.
pub fn comparator(s: &[u8], pos: usize) -> (r: Parsed)
    requires
        pos <= s@.len(),
    ensures
        view_parse(r) == rules::comparator_spec(s@, pos as int),
        parsed_as(s@, pos as int, r, Kind::Comparator),
        advances(pos as int, r),
{
    let mut ch = fresh(s, pos);
    let ge: [u8; 2] = [62, 61];
    let le: [u8; 2] = [60, 61];
    let eq: [u8; 2] = [61, 61];
    let ne: [u8; 2] = [33, 61];
    let lt: [u8; 1] = [60];
    let gt: [u8; 1] = [62];
    assert(ge@ =~= seq![62u8, 61]);
    assert(le@ =~= seq![60u8, 61]);
    assert(eq@ =~= seq![61u8, 61]);
    assert(ne@ =~= seq![33u8, 61]);
    assert(lt@ =~= seq![60u8]);
    assert(gt@ =~= seq![62u8]);
    let mut op = keyword(s, pos, &ge, Kind::GreaterThanEqual);
    if op.is_none() {
        op = keyword(s, pos, &le, Kind::LessThanEqual);
    }
    if op.is_none() {
        op = keyword(s, pos, &eq, Kind::Equal);
    }
    if op.is_none() {
        op = keyword(s, pos, &ne, Kind::NotEqual);
    }
    if op.is_none() {
        op = keyword(s, pos, &lt, Kind::LessThan);
    }
    if op.is_none() {
        op = keyword(s, pos, &gt, Kind::GreaterThan);
    }
    let p = part(&mut ch, s, pos, pos, op)?;
    branch(Kind::Comparator, ch, p, s, pos)
}

/// `&` or `|`.
pub fn logic_operator(s: &[u8], pos: usize) -> (r: Parsed)
    requires
        pos <= s@.len(),
    ensures
        view_parse(r) == rules::logic_operator_spec(s@, pos as int),
        parsed_as(s@, pos as int, r, Kind::LogicOperator),
        advances(pos as int, r),
{
    let mut ch = fresh(s, pos);
    let mut op = single(s, pos, 38, Kind::And);
    if op.is_none() {
        op = single(s, pos, 124, Kind::Or);
    }
    let p = part(&mut ch, s, pos, pos, op)?;
    branch(Kind::LogicOperator, ch, p, s, pos)
}

/// A subscript entry: select-all, a constant or an expression, then an
/// optional comma between spaces.
pub fn subscript(s: &[u8], pos: usize) -> (r: Parsed)
    requires
        pos <= s@.len(),
    ensures
        view_parse(r) == rules::subscript_spec(s@, pos as int),
        parsed_as(s@, pos as int, r, Kind::Subscript),
        advances(pos as int, r),
    decreases s@.len() - pos, 31int,
{
    let mut ch = fresh(s, pos);
    let mut item = select_all(s, pos);
    if item.is_none() {
        item = constant(s, pos);
    }
    if item.is_none() {
        item = expression(s, pos);
    }
    let p = part(&mut ch, s, pos, pos, item)?;
    let p = spaces(&mut ch, s, pos, p);
    let p = opt(&mut ch, s, pos, p, byte(s, p, 44));
    let p = spaces(&mut ch, s, pos, p);
    branch(Kind::Subscript, ch, p, s, pos)
}

/// A braced list of one or more subscripts.
pub fn subscript_index(s: &[u8], pos: usize) -> (r: Parsed)
    requires
        pos <= s@.len(),
    ensures
        view_parse(r) == rules::subscript_index_spec(s@, pos as int),
        r is Some ==> pos < s@.len() && s@[pos as int] == 123,
        parsed_as(s@, pos as int, r, Kind::SubscriptIndex),
        advances(pos as int, r),
    decreases s@.len() - pos, 8int,
{
    let mut ch = fresh(s, pos);
    let p = part(&mut ch, s, pos, pos, byte(s, pos, 123))?;
    let mut p = part(&mut ch, s, pos, p, subscript(s, p))?;
    let ghost t0 = trees_of(ch@);
    let ghost p0 = p as int;
    loop
        invariant
            rules::subscripts_from(s@, trees_of(ch@), p as int) == rules::subscripts_from(s@, t0, p0),
            pos < p <= s@.len(),
            covers(ch@, s@, pos as int, p as int),
        ensures
            rules::subscripts_from(s@, trees_of(ch@), p as int) == (trees_of(ch@), p as int),
        decreases s@.len() - p,
    {
        match more(&mut ch, s, pos, p, subscript(s, p)) {
            Some(e) => p = e,
            None => break,
        }
    }
    let p = part(&mut ch, s, pos, p, byte(s, p, 125))?;
    branch(Kind::SubscriptIndex, ch, p, s, pos)
}

/// A period, a column name and an optional subscript list.
pub fn dot_index(s: &[u8], pos: usize) -> (r: Parsed)
    requires
        pos <= s@.len(),
    ensures
        view_parse(r) == rules::dot_index_spec(s@, pos as int),
        r is Some ==> pos < s@.len() && s@[pos as int] == 46,
        parsed_as(s@, pos as int, r, Kind::DotIndex),
        advances(pos as int, r),
    decreases s@.len() - pos, 8int,
{
    let mut ch = fresh(s, pos);
    let p = part(&mut ch, s, pos, pos, byte(s, pos, 46))?;
    let p = part(&mut ch, s, pos, p, identifier(s, p))?;
    let p = opt(&mut ch, s, pos, p, subscript_index(s, p));
    branch(Kind::DotIndex, ch, p, s, pos)
}

/// A dot index or a subscript list.
pub fn index(s: &[u8], pos: usize) -> (r: Parsed)
    requires
        pos <= s@.len(),
    ensures
        view_parse(r) == rules::index_spec(s@, pos as int),
        parsed_as(s@, pos as int, r, Kind::Index),
        advances(pos as int, r),
    decreases s@.len() - pos, 9int,
{
    let mut ch = fresh(s, pos);
    let mut item = dot_index(s, pos);
    if item.is_none() {
        item = subscript_index(s, pos);
    }
    let p = part(&mut ch, s, pos, pos, item)?;
    branch(Kind::Index, ch, p, s, pos)
}

/// A table reference or identifier followed by zero or more indices.
pub fn data(s: &[u8], pos: usize) -> (r: Parsed)
    requires
        pos <= s@.len(),
    ensures
        view_parse(r) == rules::data_spec(s@, pos as int),
        parsed_as(s@, pos as int, r, Kind::Data),
        advances(pos as int, r),
    decreases s@.len() - pos, 10int,
{
    let mut ch = fresh(s, pos);
    let mut root = table(s, pos);
    if root.is_none() {
        root = identifier(s, pos);
    }
    let mut p = part(&mut ch, s, pos, pos, root)?;
    let ghost t0 = trees_of(ch@);
    let ghost p0 = p as int;
    loop
        invariant
            rules::indices_from(s@, trees_of(ch@), p as int) == rules::indices_from(s@, t0, p0),
            pos < p <= s@.len(),
            covers(ch@, s@, pos as int, p as int),
        ensures
            rules::indices_from(s@, trees_of(ch@), p as int) == (trees_of(ch@), p as int),
        decreases s@.len() - p,
    {
        match more(&mut ch, s, pos, p, index(s, p)) {
            Some(e) => p = e,
            None => break,
        }
    }
    branch(Kind::Data, ch, p, s, pos)
}

/// `name: value` with an optional trailing comma, spaces around.
pub fn binding(s: &[u8], pos: usize) -> (r: Parsed)
    requires
        pos <= s@.len(),
    ensures
        view_parse(r) == rules::binding_spec(s@, pos as int),
        parsed_as(s@, pos as int, r, Kind::Binding),
        advances(pos as int, r),
    decreases s@.len() - pos, 5int,
{
    let mut ch = fresh(s, pos);
    let p = part(&mut ch, s, pos, pos, identifier(s, pos))?;
    let p = part(&mut ch, s, pos, p, byte(s, p, 58))?;
    let p = spaces(&mut ch, s, pos, p);
    let mut bound = empty(s, p);
    if bound.is_none() {
        bound = expression(s, p);
    }
    if bound.is_none() {
        bound = identifier(s, p);
    }
    if bound.is_none() {
        bound = constant(s, p);
    }
    let p = part(&mut ch, s, pos, p, bound)?;
    let p = spaces(&mut ch, s, pos, p);
    let p = opt(&mut ch, s, pos, p, byte(s, p, 44));
    let p = spaces(&mut ch, s, pos, p);
    branch(Kind::Binding, ch, p, s, pos)
}

/// One column of a table row.
pub fn table_column(s: &[u8], pos: usize) -> (r: Parsed)
    requires
        pos <= s@.len(),
    ensures
        view_parse(r) == rules::table_column_spec(s@, pos as int),
        parsed_as(s@, pos as int, r, Kind::Column),
        advances(pos as int, r),
    decreases s@.len() - pos, 31int,
{
    let mut ch = fresh(s, pos);
    let p = blanks(&mut ch, s, pos, pos);
    let mut item = empty(s, p);
    if item.is_none() {
        item = data(s, p);
    }
    if item.is_none() {
        item = expression(s, p);
    }
    if item.is_none() {
        item = quantity(s, p);
    }
    let p = part(&mut ch, s, pos, p, item)?;
    let p = opt(&mut ch, s, pos, p, byte(s, p, 44));
    let blank: [u8; 2] = [32, 9];
    assert(blank@ =~= seq![32u8, 9]);
    let p = opt(&mut ch, s, pos, p, one_of(s, p, &blank));
    branch(Kind::Column, ch, p, s, pos)
}

/// One or more columns ended by an optional semicolon and line break.
pub fn table_row(s: &[u8], pos: usize) -> (r: Parsed)
    requires
        pos <= s@.len(),
    ensures
        view_parse(r) == rules::table_row_spec(s@, pos as int),
        parsed_as(s@, pos as int, r, Kind::TableRow),
        advances(pos as int, r),
    decreases s@.len() - pos, 32int,
{
    let mut ch = fresh(s, pos);
    let p0 = blanks(&mut ch, s, pos, pos);
    let mut p = part(&mut ch, s, pos, p0, table_column(s, p0))?;
    let ghost t0 = trees_of(ch@);
    let ghost p0 = p as int;
    loop
        invariant
            rules::columns_from(s@, trees_of(ch@), p as int) == rules::columns_from(s@, t0, p0),
            pos < p <= s@.len(),
            covers(ch@, s@, pos as int, p as int),
        ensures
            rules::columns_from(s@, trees_of(ch@), p as int) == (trees_of(ch@), p as int),
        decreases s@.len() - p,
    {
        match more(&mut ch, s, pos, p, table_column(s, p)) {
            Some(e) => p = e,
            None => break,
        }
    }
    let p = opt(&mut ch, s, pos, p, byte(s, p, 59));
    let p = match newline(&mut ch, s, pos, p) {
        Some(e) => e,
        None => p,
    };
    branch(Kind::TableRow, ch, p, s, pos)
}

/// An attribute name of a table header.
pub fn attribute(s: &[u8], pos: usize) -> (r: Parsed)
    requires
        pos <= s@.len(),
    ensures
        view_parse(r) == rules::attribute_spec(s@, pos as int),
        parsed_as(s@, pos as int, r, Kind::Attribute),
        advances(pos as int, r),
{
    let mut ch = fresh(s, pos);
    let p = part(&mut ch, s, pos, pos, identifier(s, pos))?;
    let p = spaces(&mut ch, s, pos, p);
    let p = opt(&mut ch, s, pos, p, byte(s, p, 44));
    let p = spaces(&mut ch, s, pos, p);
    branch(Kind::Attribute, ch, p, s, pos)
}

/// `|attr attr ...|`, then spaces and an optional line break.
pub fn table_header(s: &[u8], pos: usize) -> (r: Parsed)
    requires
        pos <= s@.len(),
    ensures
        view_parse(r) == rules::table_header_spec(s@, pos as int),
        r is Some ==> pos < s@.len() && s@[pos as int] == 124,
        parsed_as(s@, pos as int, r, Kind::TableHeader),
        advances(pos as int, r),
{
    let mut ch = fresh(s, pos);
    let p = part(&mut ch, s, pos, pos, byte(s, pos, 124))?;
    let mut p = part(&mut ch, s, pos, p, attribute(s, p))?;
    let ghost t0 = trees_of(ch@);
    let ghost p0 = p as int;
    loop
        invariant
            rules::attributes_from(s@, trees_of(ch@), p as int) == rules::attributes_from(s@, t0, p0),
            pos < p <= s@.len(),
            covers(ch@, s@, pos as int, p as int),
        ensures
            rules::attributes_from(s@, trees_of(ch@), p as int) == (trees_of(ch@), p as int),
        decreases s@.len() - p,
    {
        match more(&mut ch, s, pos, p, attribute(s, p)) {
            Some(e) => p = e,
            None => break,
        }
    }
    let p = part(&mut ch, s, pos, p, byte(s, p, 124))?;
    let p = spaces(&mut ch, s, pos, p);
    let p = match newline(&mut ch, s, pos, p) {
        Some(e) => e,
        None => p,
    };
    branch(Kind::TableHeader, ch, p, s, pos)
}

/// A bracketed table: an optional header and zero or more rows.
pub fn anonymous_table(s: &[u8], pos: usize) -> (r: Parsed)
    requires
        pos <= s@.len(),
    ensures
        view_parse(r) == rules::anonymous_table_spec(s@, pos as int),
        r is Some ==> pos < s@.len() && s@[pos as int] == 91,
        parsed_as(s@, pos as int, r, Kind::AnonymousTable),
        advances(pos as int, r),
    decreases s@.len() - pos, 20int,
{
    let mut ch = fresh(s, pos);
    let p = part(&mut ch, s, pos, pos, byte(s, pos, 91))?;
    let p = spaces(&mut ch, s, pos, p);
    let mut p = opt(&mut ch, s, pos, p, table_header(s, p));
    let ghost t0 = trees_of(ch@);
    let ghost p0 = p as int;
    loop
        invariant
            rules::rows_from(s@, trees_of(ch@), p as int) == rules::rows_from(s@, t0, p0),
            pos < p <= s@.len(),
            covers(ch@, s@, pos as int, p as int),
        ensures
            rules::rows_from(s@, trees_of(ch@), p as int) == (trees_of(ch@), p as int),
        decreases s@.len() - p,
    {
        match more(&mut ch, s, pos, p, table_row(s, p)) {
            Some(e) => p = e,
            None => break,
        }
    }
    let p = part(&mut ch, s, pos, p, byte(s, p, 93))?;
    branch(Kind::AnonymousTable, ch, p, s, pos)
}

/// A bracketed record of one or more bindings.
pub fn inline_table(s: &[u8], pos: usize) -> (r: Parsed)
    requires
        pos <= s@.len(),
    ensures
        view_parse(r) == rules::inline_table_spec(s@, pos as int),
        r is Some ==> pos < s@.len() && s@[pos as int] == 91,
        parsed_as(s@, pos as int, r, Kind::InlineTable),
        advances(pos as int, r),
    decreases s@.len() - pos, 20int,
{
    let mut ch = fresh(s, pos);
    let p = part(&mut ch, s, pos, pos, byte(s, pos, 91))?;
    let mut p = part(&mut ch, s, pos, p, binding(s, p))?;
    let ghost t0 = trees_of(ch@);
    let ghost p0 = p as int;
    loop
        invariant
            rules::bindings_from(s@, trees_of(ch@), p as int) == rules::bindings_from(s@, t0, p0),
            pos < p <= s@.len(),
            covers(ch@, s@, pos as int, p as int),
        ensures
            rules::bindings_from(s@, trees_of(ch@), p as int) == (trees_of(ch@), p as int),
        decreases s@.len() - p,
    {
        match more(&mut ch, s, pos, p, binding(s, p)) {
            Some(e) => p = e,
            None => break,
        }
    }
    let p = part(&mut ch, s, pos, p, byte(s, p, 93))?;
    branch(Kind::InlineTable, ch, p, s, pos)
}

/// An expression: the first of these forms that matches, in this order:
/// state machine, string, range, logic, filter, record, table, math.
pub fn expression(s: &[u8], pos: usize) -> (r: Parsed)
    requires
        pos <= s@.len(),
    ensures
        view_parse(r) == rules::expression_spec(s@, pos as int),
        parsed_as(s@, pos as int, r, Kind::Expression),
        advances(pos as int, r),
    decreases s@.len() - pos, 30int,
{
    let mut ch = fresh(s, pos);
    let mut item = state_machine(s, pos);
    if item.is_none() {
        item = string(s, pos);
    }
    if item.is_none() {
        item = range(s, pos);
    }
    if item.is_none() {
        item = logic_expression(s, pos);
    }
    if item.is_none() {
        item = filter_expression(s, pos);
    }
    if item.is_none() {
        item = inline_table(s, pos);
    }
    if item.is_none() {
        item = anonymous_table(s, pos);
    }
    if item.is_none() {
        item = math_expression(s, pos);
    }
    let p = part(&mut ch, s, pos, pos, item)?;
    branch(Kind::Expression, ch, p, s, pos)
}

/// One or more spaces, appended.
fn some_spaces(ch: &mut Vec<Node>, s: &[u8], start: usize, p: usize) -> (e: Option<usize>)
    requires
        start <= p <= s@.len(),
        covers(old(ch)@, s@, start as int, p as int),
    ensures
        acc_at(final(ch)@, e) == rules::some_spaces_spec(acc_of(old(ch)@, p as int), s@),
        match e {
            Some(e) => p < e <= s@.len() && covers(final(ch)@, s@, start as int, e as int),
            None => final(ch)@ == old(ch)@,
        },
{
    let q = part(ch, s, start, p, byte(s, p, 32))?;
    Some(spaces(ch, s, start, q))
}

/// `  state => next`, spaces around, then an optional line break.
pub fn transition(s: &[u8], pos: usize) -> (r: Parsed)
    requires
        pos <= s@.len(),
    ensures
        view_parse(r) == rules::transition_spec(s@, pos as int),
        parsed_as(s@, pos as int, r, Kind::Transition),
        advances(pos as int, r),
{
    let mut ch = fresh(s, pos);
    let p = some_spaces(&mut ch, s, pos, pos)?;
    let mut state = string(s, p);
    if state.is_none() {
        state = constant(s, p);
    }
    if state.is_none() {
        state = empty(s, p);
    }
    let p = part(&mut ch, s, pos, p, state)?;
    let p = some_spaces(&mut ch, s, pos, p)?;
    let p = tag(&mut ch, s, pos, p, &[61u8, 62])?;
    let p = some_spaces(&mut ch, s, pos, p)?;
    let mut next = identifier(s, p);
    if next.is_none() {
        next = string(s, p);
    }
    if next.is_none() {
        next = constant(s, p);
    }
    if next.is_none() {
        next = empty(s, p);
    }
    let p = part(&mut ch, s, pos, p, next)?;
    let p = spaces(&mut ch, s, pos, p);
    let p = match newline(&mut ch, s, pos, p) {
        Some(e) => e,
        None => p,
    };
    branch(Kind::Transition, ch, p, s, pos)
}

/// One or more transitions.
pub fn transitions(s: &[u8], pos: usize) -> (r: Parsed)
    requires
        pos <= s@.len(),
    ensures
        view_parse(r) == rules::transitions_spec(s@, pos as int),
        parsed_as(s@, pos as int, r, Kind::Transitions),
        advances(pos as int, r),
{
    let mut ch = fresh(s, pos);
    let mut p = part(&mut ch, s, pos, pos, transition(s, pos))?;
    let ghost t0 = trees_of(ch@);
    let ghost p0 = p as int;
    loop
        invariant
            rules::transitions_from(s@, trees_of(ch@), p as int) == rules::transitions_from(s@, t0, p0),
            pos < p <= s@.len(),
            covers(ch@, s@, pos as int, p as int),
        ensures
            rules::transitions_from(s@, trees_of(ch@), p as int) == (trees_of(ch@), p as int),
        decreases s@.len() - p,
    {
        match more(&mut ch, s, pos, p, transition(s, p)) {
            Some(e) => p = e,
            None => break,
        }
    }
    branch(Kind::Transitions, ch, p, s, pos)
}

/// `data?`, a line break, transitions and a closing line break.
pub fn state_machine(s: &[u8], pos: usize) -> (r: Parsed)
    requires
        pos <= s@.len(),
    ensures
        view_parse(r) == rules::state_machine_spec(s@, pos as int),
        parsed_as(s@, pos as int, r, Kind::StateMachine),
        advances(pos as int, r),
    decreases s@.len() - pos, 25int,
{
    let mut ch = fresh(s, pos);
    let p = part(&mut ch, s, pos, pos, data(s, pos))?;
    let p = part(&mut ch, s, pos, p, byte(s, p, 63))?;
    let p = part(&mut ch, s, pos, p, whitespace(s, p))?;
    let p = part(&mut ch, s, pos, p, transitions(s, p))?;
    let p = part(&mut ch, s, pos, p, whitespace(s, p))?;
    branch(Kind::StateMachine, ch, p, s, pos)
}

/// `start : end`, both math expressions.
pub fn range(s: &[u8], pos: usize) -> (r: Parsed)
    requires
        pos <= s@.len(),
    ensures
        view_parse(r) == rules::range_spec(s@, pos as int),
        parsed_as(s@, pos as int, r, Kind::Range),
        advances(pos as int, r),
    decreases s@.len() - pos, 25int,
{
    let mut ch = fresh(s, pos);
    let p = part(&mut ch, s, pos, pos, math_expression(s, pos))?;
    let p = spaces(&mut ch, s, pos, p);
    let p = part(&mut ch, s, pos, p, byte(s, p, 58))?;
    let p = spaces(&mut ch, s, pos, p);
    let p = part(&mut ch, s, pos, p, math_expression(s, p))?;
    branch(Kind::Range, ch, p, s, pos)
}

/// Data or a constant.
fn data_or_constant(s: &[u8], pos: usize) -> (r: Parsed)
    requires
        pos <= s@.len(),
    ensures
        view_parse(r) == rules::data_or_constant_spec(s@, pos as int),
        parsed(s@, pos as int, r),
        advances(pos as int, r),
    decreases s@.len() - pos, 11int,
{
    let r = data(s, pos);
    if r.is_some() {
        return r;
    }
    constant(s, pos)
}

/// `lhs cmp rhs`, each side data or a constant.
pub fn filter_expression(s: &[u8], pos: usize) -> (r: Parsed)
    requires
        pos <= s@.len(),
    ensures
        view_parse(r) == rules::filter_expression_spec(s@, pos as int),
        parsed_as(s@, pos as int, r, Kind::FilterExpression),
        advances(pos as int, r),
    decreases s@.len() - pos, 24int,
{
    let mut ch = fresh(s, pos);
    let p = part(&mut ch, s, pos, pos, data_or_constant(s, pos))?;
    let p = part(&mut ch, s, pos, p, byte(s, p, 32))?;
    let p = part(&mut ch, s, pos, p, comparator(s, p))?;
    let p = part(&mut ch, s, pos, p, byte(s, p, 32))?;
    let p = part(&mut ch, s, pos, p, data_or_constant(s, p))?;
    branch(Kind::FilterExpression, ch, p, s, pos)
}

/// `lhs & rhs` or `lhs | rhs`; the right side may itself be a logic
/// expression.
pub fn logic_expression(s: &[u8], pos: usize) -> (r: Parsed)
    requires
        pos <= s@.len(),
    ensures
        view_parse(r) == rules::logic_expression_spec(s@, pos as int),
        parsed_as(s@, pos as int, r, Kind::LogicExpression),
        advances(pos as int, r),
    decreases s@.len() - pos, 25int,
{
    let mut ch = fresh(s, pos);
    let mut lhs = filter_expression(s, pos);
    if lhs.is_none() {
        lhs = data_or_constant(s, pos);
    }
    let p = part(&mut ch, s, pos, pos, lhs)?;
    let p = spaces(&mut ch, s, pos, p);
    let p = part(&mut ch, s, pos, p, logic_operator(s, p))?;
    let p = spaces(&mut ch, s, pos, p);
    let mut rhs = logic_expression(s, p);
    if rhs.is_none() {
        rhs = filter_expression(s, p);
    }
    if rhs.is_none() {
        rhs = data_or_constant(s, p);
    }
    let p = part(&mut ch, s, pos, p, rhs)?;
    branch(Kind::LogicExpression, ch, p, s, pos)
}

/// `(` math `)`.
pub fn parenthetical_expression(s: &[u8], pos: usize) -> (r: Parsed)
    requires
        pos <= s@.len(),
    ensures
        view_parse(r) == rules::parenthetical_expression_spec(s@, pos as int),
        r is Some ==> pos < s@.len() && s@[pos as int] == 40,
        parsed_as(s@, pos as int, r, Kind::ParentheticalExpression),
        advances(pos as int, r),
    decreases s@.len() - pos, 17int,
{
    let mut ch = fresh(s, pos);
    let p = part(&mut ch, s, pos, pos, byte(s, pos, 40))?;
    let p = part(&mut ch, s, pos, p, l1(s, p))?;
    let p = part(&mut ch, s, pos, p, byte(s, p, 41))?;
    branch(Kind::ParentheticalExpression, ch, p, s, pos)
}

/// `-` before data or a constant.
pub fn negation(s: &[u8], pos: usize) -> (r: Parsed)
    requires
        pos <= s@.len(),
    ensures
        view_parse(r) == rules::negation_spec(s@, pos as int),
        r is Some ==> pos < s@.len() && s@[pos as int] == 45,
        parsed_as(s@, pos as int, r, Kind::Negation),
        advances(pos as int, r),
    decreases s@.len() - pos, 17int,
{
    let mut ch = fresh(s, pos);
    let p = part(&mut ch, s, pos, pos, byte(s, pos, 45))?;
    let p = part(&mut ch, s, pos, p, data_or_constant(s, p))?;
    branch(Kind::Negation, ch, p, s, pos)
}

/// `name(binding ...)`.
pub fn function(s: &[u8], pos: usize) -> (r: Parsed)
    requires
        pos <= s@.len(),
    ensures
        view_parse(r) == rules::function_spec(s@, pos as int),
        parsed_as(s@, pos as int, r, Kind::Function),
        advances(pos as int, r),
    decreases s@.len() - pos, 17int,
{
    let mut ch = fresh(s, pos);
    let p = part(&mut ch, s, pos, pos, identifier(s, pos))?;
    let p = part(&mut ch, s, pos, p, byte(s, p, 40))?;
    let mut p = part(&mut ch, s, pos, p, binding(s, p))?;
    let ghost t0 = trees_of(ch@);
    let ghost p0 = p as int;
    loop
        invariant
            rules::bindings_from(s@, trees_of(ch@), p as int) == rules::bindings_from(s@, t0, p0),
            pos < p <= s@.len(),
            covers(ch@, s@, pos as int, p as int),
        ensures
            rules::bindings_from(s@, trees_of(ch@), p as int) == (trees_of(ch@), p as int),
        decreases s@.len() - p,
    {
        match more(&mut ch, s, pos, p, binding(s, p)) {
            Some(e) => p = e,
            None => break,
        }
    }
    let p = part(&mut ch, s, pos, p, byte(s, p, 41))?;
    branch(Kind::Function, ch, p, s, pos)
}

/// An operand: function call, data, quantity, negation or parenthesis.
pub fn l4(s: &[u8], pos: usize) -> (r: Parsed)
    requires
        pos <= s@.len(),
    ensures
        view_parse(r) == rules::l4_spec(s@, pos as int),
        parsed_as(s@, pos as int, r, Kind::L4),
        advances(pos as int, r),
    decreases s@.len() - pos, 18int,
{
    let mut ch = fresh(s, pos);
    let mut item = function(s, pos);
    if item.is_none() {
        item = data(s, pos);
    }
    if item.is_none() {
        item = quantity(s, pos);
    }
    if item.is_none() {
        item = negation(s, pos);
    }
    if item.is_none() {
        item = parenthetical_expression(s, pos);
    }
    let p = part(&mut ch, s, pos, pos, item)?;
    branch(Kind::L4, ch, p, s, pos)
}

/// ` ^ ` and an operand.
pub fn l3_infix(s: &[u8], pos: usize) -> (r: Parsed)
    requires
        pos <= s@.len(),
    ensures
        view_parse(r) == rules::l3_infix_spec(s@, pos as int),
        parsed_as(s@, pos as int, r, Kind::L3Infix),
        advances(pos as int, r),
    decreases s@.len() - pos, 5int,
{
    let mut ch = fresh(s, pos);
    let p = part(&mut ch, s, pos, pos, byte(s, pos, 32))?;
    let p = part(&mut ch, s, pos, p, byte(s, p, 94))?;
    let p = part(&mut ch, s, pos, p, byte(s, p, 32))?;
    let p = part(&mut ch, s, pos, p, l4(s, p))?;
    branch(Kind::L3Infix, ch, p, s, pos)
}

/// ` * `, ` / ` or ` ** `, and a power level operand.
pub fn l2_infix(s: &[u8], pos: usize) -> (r: Parsed)
    requires
        pos <= s@.len(),
    ensures
        view_parse(r) == rules::l2_infix_spec(s@, pos as int),
        parsed_as(s@, pos as int, r, Kind::L2Infix),
        advances(pos as int, r),
    decreases s@.len() - pos, 5int,
{
    let mut ch = fresh(s, pos);
    let power: [u8; 2] = [42, 42];
    assert(power@ =~= seq![42u8, 42]);
    let p = part(&mut ch, s, pos, pos, byte(s, pos, 32))?;
    let p = match part(&mut ch, s, pos, p, byte(s, p, 42)) {
        Some(e) => e,
        None => match part(&mut ch, s, pos, p, byte(s, p, 47)) {
            Some(e) => e,
            None => tag(&mut ch, s, pos, p, &power)?,
        },
    };
    let p = part(&mut ch, s, pos, p, byte(s, p, 32))?;
    let p = part(&mut ch, s, pos, p, l3(s, p))?;
    branch(Kind::L2Infix, ch, p, s, pos)
}

/// ` + ` or ` - `, and a multiplicative level operand.
pub fn l1_infix(s: &[u8], pos: usize) -> (r: Parsed)
    requires
        pos <= s@.len(),
    ensures
        view_parse(r) == rules::l1_infix_spec(s@, pos as int),
        parsed_as(s@, pos as int, r, Kind::L1Infix),
        advances(pos as int, r),
    decreases s@.len() - pos, 5int,
{
    let mut ch = fresh(s, pos);
    let p = part(&mut ch, s, pos, pos, byte(s, pos, 32))?;
    let signs: [u8; 2] = [43, 45];
    assert(signs@ =~= seq![43u8, 45]);
    let p = part(&mut ch, s, pos, p, one_of(s, p, &signs))?;
    let p = part(&mut ch, s, pos, p, byte(s, p, 32))?;
    let p = part(&mut ch, s, pos, p, l2(s, p))?;
    branch(Kind::L1Infix, ch, p, s, pos)
}

/// Power level: an operand and zero or more `^` suffixes.
pub fn l3(s: &[u8], pos: usize) -> (r: Parsed)
    requires
        pos <= s@.len(),
    ensures
        view_parse(r) == rules::l3_spec(s@, pos as int),
        parsed_as(s@, pos as int, r, Kind::L3),
        advances(pos as int, r),
    decreases s@.len() - pos, 19int,
{
    let mut ch = fresh(s, pos);
    let mut p = part(&mut ch, s, pos, pos, l4(s, pos))?;
    let ghost t0 = trees_of(ch@);
    let ghost p0 = p as int;
    loop
        invariant
            rules::infixes_from(s@, trees_of(ch@), p as int, 3) == rules::infixes_from(s@, t0, p0, 3),
            pos < p <= s@.len(),
            covers(ch@, s@, pos as int, p as int),
        ensures
            rules::infixes_from(s@, trees_of(ch@), p as int, 3) == (trees_of(ch@), p as int),
        decreases s@.len() - p,
    {
        assert(rules::infix_spec(s@, p as int, 3) == rules::l3_infix_spec(s@, p as int));
        match more(&mut ch, s, pos, p, l3_infix(s, p)) {
            Some(e) => p = e,
            None => break,
        }
    }
    branch(Kind::L3, ch, p, s, pos)
}

/// Multiplicative level: a power level operand and zero or more suffixes.
pub fn l2(s: &[u8], pos: usize) -> (r: Parsed)
    requires
        pos <= s@.len(),
    ensures
        view_parse(r) == rules::l2_spec(s@, pos as int),
        parsed_as(s@, pos as int, r, Kind::L2),
        advances(pos as int, r),
    decreases s@.len() - pos, 20int,
{
    let mut ch = fresh(s, pos);
    let mut p = part(&mut ch, s, pos, pos, l3(s, pos))?;
    let ghost t0 = trees_of(ch@);
    let ghost p0 = p as int;
    loop
        invariant
            rules::infixes_from(s@, trees_of(ch@), p as int, 2) == rules::infixes_from(s@, t0, p0, 2),
            pos < p <= s@.len(),
            covers(ch@, s@, pos as int, p as int),
        ensures
            rules::infixes_from(s@, trees_of(ch@), p as int, 2) == (trees_of(ch@), p as int),
        decreases s@.len() - p,
    {
        assert(rules::infix_spec(s@, p as int, 2) == rules::l2_infix_spec(s@, p as int));
        match more(&mut ch, s, pos, p, l2_infix(s, p)) {
            Some(e) => p = e,
            None => break,
        }
    }
    branch(Kind::L2, ch, p, s, pos)
}

/// Additive level: a multiplicative operand and zero or more suffixes.
pub fn l1(s: &[u8], pos: usize) -> (r: Parsed)
    requires
        pos <= s@.len(),
    ensures
        view_parse(r) == rules::l1_spec(s@, pos as int),
        parsed_as(s@, pos as int, r, Kind::L1),
        advances(pos as int, r),
    decreases s@.len() - pos, 21int,
{
    let mut ch = fresh(s, pos);
    let mut p = part(&mut ch, s, pos, pos, l2(s, pos))?;
    let ghost t0 = trees_of(ch@);
    let ghost p0 = p as int;
    loop
        invariant
            rules::infixes_from(s@, trees_of(ch@), p as int, 1) == rules::infixes_from(s@, t0, p0, 1),
            pos < p <= s@.len(),
            covers(ch@, s@, pos as int, p as int),
        ensures
            rules::infixes_from(s@, trees_of(ch@), p as int, 1) == (trees_of(ch@), p as int),
        decreases s@.len() - p,
    {
        assert(rules::infix_spec(s@, p as int, 1) == rules::l1_infix_spec(s@, p as int));
        match more(&mut ch, s, pos, p, l1_infix(s, p)) {
            Some(e) => p = e,
            None => break,
        }
    }
    branch(Kind::L1, ch, p, s, pos)
}

/// An arithmetic expression.
pub fn math_expression(s: &[u8], pos: usize) -> (r: Parsed)
    requires
        pos <= s@.len(),
    ensures
        view_parse(r) == rules::math_expression_spec(s@, pos as int),
        parsed_as(s@, pos as int, r, Kind::MathExpression),
        advances(pos as int, r),
    decreases s@.len() - pos, 22int,
{
    let mut ch = fresh(s, pos);
    let p = part(&mut ch, s, pos, pos, l1(s, pos))?;
    branch(Kind::MathExpression, ch, p, s, pos)
}

/// `#table += [...]`: append rows to a table.
pub fn add_row(s: &[u8], pos: usize) -> (r: Parsed)
    requires
        pos <= s@.len(),
    ensures
        view_parse(r) == rules::add_row_spec(s@, pos as int),
        r is Some ==> pos < s@.len() && s@[pos as int] == 35,
        parsed_as(s@, pos as int, r, Kind::AddRow),
        advances(pos as int, r),
{
    let mut ch = fresh(s, pos);
    let op: [u8; 2] = [43, 61];
    assert(op@ =~= seq![43u8, 61]);
    let p = part(&mut ch, s, pos, pos, table(s, pos))?;
    let p = part(&mut ch, s, pos, p, byte(s, p, 32))?;
    let p = tag(&mut ch, s, pos, p, &op)?;
    let p = part(&mut ch, s, pos, p, byte(s, p, 32))?;
    let mut rows = inline_table(s, p);
    if rows.is_none() {
        rows = anonymous_table(s, p);
    }
    let p = part(&mut ch, s, pos, p, rows)?;
    branch(Kind::AddRow, ch, p, s, pos)
}

/// `data := expression`: set existing cells.
pub fn set_data(s: &[u8], pos: usize) -> (r: Parsed)
    requires
        pos <= s@.len(),
    ensures
        view_parse(r) == rules::set_data_spec(s@, pos as int),
        parsed_as(s@, pos as int, r, Kind::SetData),
        advances(pos as int, r),
{
    let mut ch = fresh(s, pos);
    let op: [u8; 2] = [58, 61];
    assert(op@ =~= seq![58u8, 61]);
    let p = part(&mut ch, s, pos, pos, data(s, pos))?;
    let p = part(&mut ch, s, pos, p, byte(s, p, 32))?;
    let p = tag(&mut ch, s, pos, p, &op)?;
    let p = part(&mut ch, s, pos, p, byte(s, p, 32))?;
    let p = part(&mut ch, s, pos, p, expression(s, p))?;
    branch(Kind::SetData, ch, p, s, pos)
}

/// `name = expression`: define a local variable.
pub fn variable_define(s: &[u8], pos: usize) -> (r: Parsed)
    requires
        pos <= s@.len(),
    ensures
        view_parse(r) == rules::variable_define_spec(s@, pos as int),
        parsed_as(s@, pos as int, r, Kind::VariableDefine),
        advances(pos as int, r),
{
    let mut ch = fresh(s, pos);
    let op: [u8; 1] = [61];
    assert(op@ =~= seq![61u8]);
    let p = part(&mut ch, s, pos, pos, identifier(s, pos))?;
    let p = part(&mut ch, s, pos, p, byte(s, p, 32))?;
    let p = tag(&mut ch, s, pos, p, &op)?;
    let p = part(&mut ch, s, pos, p, byte(s, p, 32))?;
    let p = part(&mut ch, s, pos, p, expression(s, p))?;
    branch(Kind::VariableDefine, ch, p, s, pos)
}

/// `#table = expression`: define a table.
pub fn table_define(s: &[u8], pos: usize) -> (r: Parsed)
    requires
        pos <= s@.len(),
    ensures
        view_parse(r) == rules::table_define_spec(s@, pos as int),
        r is Some ==> pos < s@.len() && s@[pos as int] == 35,
        parsed_as(s@, pos as int, r, Kind::TableDefine),
        advances(pos as int, r),
{
    let mut ch = fresh(s, pos);
    let op: [u8; 1] = [61];
    assert(op@ =~= seq![61u8]);
    let p = part(&mut ch, s, pos, pos, table(s, pos))?;
    let p = part(&mut ch, s, pos, p, byte(s, p, 32))?;
    let p = tag(&mut ch, s, pos, p, &op)?;
    let p = part(&mut ch, s, pos, p, byte(s, p, 32))?;
    let p = part(&mut ch, s, pos, p, expression(s, p))?;
    branch(Kind::TableDefine, ch, p, s, pos)
}

/// `// text`.
pub fn comment(s: &[u8], pos: usize) -> (r: Parsed)
    requires
        pos <= s@.len(),
    ensures
        view_parse(r) == rules::comment_spec(s@, pos as int),
        r is Some ==> pos < s@.len() && s@[pos as int] == 47,
        parsed_as(s@, pos as int, r, Kind::Comment),
        advances(pos as int, r),
{
    let mut ch = fresh(s, pos);
    let sigil: [u8; 2] = [47, 47];
    assert(sigil@ =~= seq![47u8, 47]);
    let p = tag(&mut ch, s, pos, pos, &sigil)?;
    let p = part(&mut ch, s, pos, p, text(s, p))?;
    branch(Kind::Comment, ch, p, s, pos)
}

/// `~ ` before a variable definition, a filter, a logic expression or data.
pub fn data_watch(s: &[u8], pos: usize) -> (r: Parsed)
    requires
        pos <= s@.len(),
    ensures
        view_parse(r) == rules::data_watch_spec(s@, pos as int),
        r is Some ==> pos < s@.len() && s@[pos as int] == 126,
        parsed_as(s@, pos as int, r, Kind::DataWatch),
        advances(pos as int, r),
{
    let mut ch = fresh(s, pos);
    let p = part(&mut ch, s, pos, pos, byte(s, pos, 126))?;
    let p = part(&mut ch, s, pos, p, byte(s, p, 32))?;
    let mut watch = variable_define(s, p);
    if watch.is_none() {
        watch = filter_expression(s, p);
    }
    if watch.is_none() {
        watch = logic_expression(s, p);
    }
    if watch.is_none() {
        watch = data(s, p);
    }
    let p = part(&mut ch, s, pos, p, watch)?;
    branch(Kind::DataWatch, ch, p, s, pos)
}

/// A statement: the first of these forms that matches, in this order:
/// table definition, variable definition, watch, set, add row, comment.
pub fn statement(s: &[u8], pos: usize) -> (r: Parsed)
    requires
        pos <= s@.len(),
    ensures
        view_parse(r) == rules::statement_spec(s@, pos as int),
        parsed_as(s@, pos as int, r, Kind::Statement),
        advances(pos as int, r),
{
    let mut ch = fresh(s, pos);
    let mut item = table_define(s, pos);
    if item.is_none() {
        item = variable_define(s, pos);
    }
    if item.is_none() {
        item = data_watch(s, pos);
    }
    if item.is_none() {
        item = set_data(s, pos);
    }
    if item.is_none() {
        item = add_row(s, pos);
    }
    if item.is_none() {
        item = comment(s, pos);
    }
    let p = part(&mut ch, s, pos, pos, item)?;
    branch(Kind::Statement, ch, p, s, pos)
}

/// A statement, then spaces and an optional line break; with `indented`,
/// first two spaces.
fn constraint_line(s: &[u8], pos: usize, indented: bool) -> (r: Parsed)
    requires
        pos <= s@.len(),
    ensures
        view_parse(r) == rules::constraint_line_spec(s@, pos as int, indented),
        parsed_as(s@, pos as int, r, Kind::Constraint),
        advances(pos as int, r),
{
    let mut ch = fresh(s, pos);
    let indent: [u8; 2] = [32, 32];
    assert(indent@ =~= seq![32u8, 32]);
    let p = if indented {
        tag(&mut ch, s, pos, pos, &indent)?
    } else {
        pos
    };
    let p = part(&mut ch, s, pos, p, statement(s, p))?;
    let p = spaces(&mut ch, s, pos, p);
    let p = match newline(&mut ch, s, pos, p) {
        Some(e) => e,
        None => p,
    };
    branch(Kind::Constraint, ch, p, s, pos)
}

/// An indented statement line.
pub fn constraint(s: &[u8], pos: usize) -> (r: Parsed)
    requires
        pos <= s@.len(),
    ensures
        view_parse(r) == rules::constraint_line_spec(s@, pos as int, true),
        parsed_as(s@, pos as int, r, Kind::Constraint),
        advances(pos as int, r),
{
    constraint_line(s, pos, true)
}

/// One or more statement lines, then blank lines.
fn lines(s: &[u8], pos: usize, indented: bool) -> (r: Parsed)
    requires
        pos <= s@.len(),
    ensures
        view_parse(r) == rules::lines_spec(s@, pos as int, indented),
        parsed_as(s@, pos as int, r, Kind::Block),
        advances(pos as int, r),
{
    let mut ch = fresh(s, pos);
    let mut p = part(&mut ch, s, pos, pos, constraint_line(s, pos, indented))?;
    let ghost t0 = trees_of(ch@);
    let ghost p0 = p as int;
    loop
        invariant
            rules::lines_from(s@, trees_of(ch@), p as int, indented) == rules::lines_from(s@, t0, p0, indented),
            pos < p <= s@.len(),
            covers(ch@, s@, pos as int, p as int),
        ensures
            rules::lines_from(s@, trees_of(ch@), p as int, indented) == (trees_of(ch@), p as int),
        decreases s@.len() - p,
    {
        match more(&mut ch, s, pos, p, constraint_line(s, p, indented)) {
            Some(e) => p = e,
            None => break,
        }
    }
    let p = blank_lines(&mut ch, s, pos, p);
    branch(Kind::Block, ch, p, s, pos)
}

/// An executable block: indented statement lines.
pub fn block(s: &[u8], pos: usize) -> (r: Parsed)
    requires
        pos <= s@.len(),
    ensures
        view_parse(r) == rules::lines_spec(s@, pos as int, true),
        parsed_as(s@, pos as int, r, Kind::Block),
        advances(pos as int, r),
{
    lines(s, pos, true)
}

/// Heading of `level` hash signs, a space and text, then blank lines.
fn heading(s: &[u8], pos: usize, level: usize) -> (r: Parsed)
    requires
        pos <= s@.len(),
        level == 1 || level == 2,
    ensures
        view_parse(r) == rules::heading_spec(s@, pos as int, level as int),
        r is Some ==> pos < s@.len() && s@[pos as int] == 35,
        parsed_as(s@, pos as int, r, if level == 1 {
            Kind::Title
        } else {
            Kind::Subtitle
        }),
        advances(pos as int, r),
{
    let mut ch = fresh(s, pos);
    let p = part(&mut ch, s, pos, pos, byte(s, pos, 35))?;
    let p = if level == 2 {
        part(&mut ch, s, pos, p, byte(s, p, 35))?
    } else {
        p
    };
    let p = part(&mut ch, s, pos, p, byte(s, p, 32))?;
    let p = part(&mut ch, s, pos, p, text(s, p))?;
    let p = blank_lines(&mut ch, s, pos, p);
    let kind = if level == 1 {
        Kind::Title
    } else {
        Kind::Subtitle
    };
    branch(kind, ch, p, s, pos)
}

/// `# text`.
pub fn title(s: &[u8], pos: usize) -> (r: Parsed)
    requires
        pos <= s@.len(),
    ensures
        view_parse(r) == rules::heading_spec(s@, pos as int, 1),
        r is Some ==> pos < s@.len() && s@[pos as int] == 35,
        parsed_as(s@, pos as int, r, Kind::Title),
        advances(pos as int, r),
{
    heading(s, pos, 1)
}

/// `## text`.
pub fn subtitle(s: &[u8], pos: usize) -> (r: Parsed)
    requires
        pos <= s@.len(),
    ensures
        view_parse(r) == rules::heading_spec(s@, pos as int, 2),
        r is Some ==> pos < s@.len() && s@[pos as int] == 35,
        parsed_as(s@, pos as int, r, Kind::Subtitle),
        advances(pos as int, r),
{
    heading(s, pos, 2)
}

/// Text between backticks, then an optional space.
pub fn inline_code(s: &[u8], pos: usize) -> (r: Parsed)
    requires
        pos <= s@.len(),
    ensures
        view_parse(r) == rules::inline_code_spec(s@, pos as int),
        parsed_as(s@, pos as int, r, Kind::InlineCode),
        advances(pos as int, r),
{
    let mut ch = fresh(s, pos);
    let p = part(&mut ch, s, pos, pos, byte(s, pos, 96))?;
    let p = part(&mut ch, s, pos, p, text(s, p))?;
    let p = part(&mut ch, s, pos, p, byte(s, p, 96))?;
    let p = opt(&mut ch, s, pos, p, byte(s, p, 32));
    branch(Kind::InlineCode, ch, p, s, pos)
}

/// `[[expression]]` inside prose, then an optional space.
pub fn inline_mech_code(s: &[u8], pos: usize) -> (r: Parsed)
    requires
        pos <= s@.len(),
    ensures
        view_parse(r) == rules::inline_mech_code_spec(s@, pos as int),
        r is Some ==> pos < s@.len() && s@[pos as int] == 91,
        parsed_as(s@, pos as int, r, Kind::InlineMechCode),
        advances(pos as int, r),
{
    let mut ch = fresh(s, pos);
    let open: [u8; 2] = [91, 91];
    assert(open@ =~= seq![91u8, 91]);
    let close: [u8; 2] = [93, 93];
    assert(close@ =~= seq![93u8, 93]);
    let p = tag(&mut ch, s, pos, pos, &open)?;
    let p = part(&mut ch, s, pos, p, expression(s, p))?;
    let p = tag(&mut ch, s, pos, p, &close)?;
    let p = opt(&mut ch, s, pos, p, byte(s, p, 32));
    branch(Kind::InlineMechCode, ch, p, s, pos)
}

/// Prose: an opening run, optional further text, then spaces.
pub fn paragraph_text(s: &[u8], pos: usize) -> (r: Parsed)
    requires
        pos <= s@.len(),
    ensures
        view_parse(r) == rules::paragraph_text_spec(s@, pos as int),
        parsed_as(s@, pos as int, r, Kind::ParagraphText),
        advances(pos as int, r),
{
    let mut ch = fresh(s, pos);
    let p = part(&mut ch, s, pos, pos, pieces(s, pos, 2))?;
    let p = opt(&mut ch, s, pos, p, pieces(s, p, 1));
    let p = spaces(&mut ch, s, pos, p);
    branch(Kind::ParagraphText, ch, p, s, pos)
}

/// One element of a paragraph.
fn paragraph_element(s: &[u8], pos: usize) -> (r: Parsed)
    requires
        pos <= s@.len(),
    ensures
        view_parse(r) == rules::paragraph_element_spec(s@, pos as int),
        parsed(s@, pos as int, r),
        advances(pos as int, r),
{
    let r = inline_mech_code(s, pos);
    if r.is_some() {
        return r;
    }
    let r = inline_code(s, pos);
    if r.is_some() {
        return r;
    }
    paragraph_text(s, pos)
}

/// One or more prose elements, an optional line break and blank lines.
pub fn paragraph(s: &[u8], pos: usize) -> (r: Parsed)
    requires
        pos <= s@.len(),
    ensures
        view_parse(r) == rules::paragraph_spec(s@, pos as int),
        parsed_as(s@, pos as int, r, Kind::Paragraph),
        advances(pos as int, r),
{
    let mut ch = fresh(s, pos);
    let mut p = part(&mut ch, s, pos, pos, paragraph_element(s, pos))?;
    let ghost t1 = trees_of(ch@);
    let ghost p1 = p as int;
    loop
        invariant
            rules::elements_from(s@, trees_of(ch@), p as int) == rules::elements_from(s@, t1, p1),
            pos < p <= s@.len(),
            covers(ch@, s@, pos as int, p as int),
        ensures
            rules::elements_from(s@, trees_of(ch@), p as int) == (trees_of(ch@), p as int),
        decreases s@.len() - p,
    {
        match more(&mut ch, s, pos, p, paragraph_element(s, p)) {
            Some(e) => p = e,
            None => break,
        }
    }
    let p = match newline(&mut ch, s, pos, p) {
        Some(e) => e,
        None => p,
    };
    let p = blank_lines(&mut ch, s, pos, p);
    branch(Kind::Paragraph, ch, p, s, pos)
}

/// `- ` and a paragraph, then an optional line break.
pub fn list_item(s: &[u8], pos: usize) -> (r: Parsed)
    requires
        pos <= s@.len(),
    ensures
        view_parse(r) == rules::list_item_spec(s@, pos as int),
        r is Some ==> pos < s@.len() && s@[pos as int] == 45,
        parsed_as(s@, pos as int, r, Kind::ListItem),
        advances(pos as int, r),
{
    let mut ch = fresh(s, pos);
    let p = part(&mut ch, s, pos, pos, byte(s, pos, 45))?;
    let p = part(&mut ch, s, pos, p, byte(s, p, 32))?;
    let p = part(&mut ch, s, pos, p, paragraph(s, p))?;
    let p = match newline(&mut ch, s, pos, p) {
        Some(e) => e,
        None => p,
    };
    branch(Kind::ListItem, ch, p, s, pos)
}

/// One or more list items, then an optional whitespace line.
pub fn unordered_list(s: &[u8], pos: usize) -> (r: Parsed)
    requires
        pos <= s@.len(),
    ensures
        view_parse(r) == rules::unordered_list_spec(s@, pos as int),
        parsed_as(s@, pos as int, r, Kind::UnorderedList),
        advances(pos as int, r),
{
    let mut ch = fresh(s, pos);
    let mut p = part(&mut ch, s, pos, pos, list_item(s, pos))?;
    let ghost t1 = trees_of(ch@);
    let ghost p1 = p as int;
    loop
        invariant
            rules::items_from(s@, trees_of(ch@), p as int) == rules::items_from(s@, t1, p1),
            pos < p <= s@.len(),
            covers(ch@, s@, pos as int, p as int),
        ensures
            rules::items_from(s@, trees_of(ch@), p as int) == (trees_of(ch@), p as int),
        decreases s@.len() - p,
    {
        match more(&mut ch, s, pos, p, list_item(s, p)) {
            Some(e) => p = e,
            None => break,
        }
    }
    let p = opt(&mut ch, s, pos, p, whitespace(s, p));
    branch(Kind::UnorderedList, ch, p, s, pos)
}

/// Verbatim text: text with quotes, carriage returns and line breaks.
pub fn formatted_text(s: &[u8], pos: usize) -> (r: Parsed)
    requires
        pos <= s@.len(),
    ensures
        view_parse(r) == rules::formatted_text_spec(s@, pos as int),
        parsed_as(s@, pos as int, r, Kind::FormattedText),
        r is Some,
{
    let mut ch = fresh(s, pos);
    let mut p = pos;
    let ghost t1 = trees_of(ch@);
    let ghost p1 = p as int;
    loop
        invariant
            rules::verbatim_from(s@, trees_of(ch@), p as int) == rules::verbatim_from(s@, t1, p1),
            pos <= p <= s@.len(),
            covers(ch@, s@, pos as int, p as int),
        ensures
            rules::verbatim_from(s@, trees_of(ch@), p as int) == (trees_of(ch@), p as int),
        decreases s@.len() - p,
    {
        let breaks: [u8; 2] = [13, 10];
        assert(breaks@ =~= seq![13u8, 10]);
        let mut next = pieces(s, p, 1);
        if next.is_none() {
            next = one_of(s, p, &breaks);
        }
        match more(&mut ch, s, pos, p, next) {
            Some(e) => p = e,
            None => break,
        }
    }
    branch(Kind::FormattedText, ch, p, s, pos)
}

/// A fenced code block.
pub fn code_block(s: &[u8], pos: usize) -> (r: Parsed)
    requires
        pos <= s@.len(),
    ensures
        view_parse(r) == rules::code_block_spec(s@, pos as int),
        r is Some ==> pos < s@.len() && s@[pos as int] == 96,
        parsed_as(s@, pos as int, r, Kind::CodeBlock),
        advances(pos as int, r),
{
    let mut ch = fresh(s, pos);
    let fence: [u8; 3] = [96, 96, 96];
    assert(fence@ =~= rules::fence());
    let p = tag(&mut ch, s, pos, pos, &fence)?;
    let p = newline(&mut ch, s, pos, p)?;
    let p = part(&mut ch, s, pos, p, formatted_text(s, p))?;
    let p = tag(&mut ch, s, pos, p, &fence)?;
    let p = newline(&mut ch, s, pos, p)?;
    let p = blank_lines(&mut ch, s, pos, p);
    branch(Kind::CodeBlock, ch, p, s, pos)
}

/// A fenced block tagged `mech:` and a directive word, holding a block.
#[verifier::rlimit(50)]
pub fn mech_code_block(s: &[u8], pos: usize) -> (r: Parsed)
    requires
        pos <= s@.len(),
    ensures
        view_parse(r) == rules::mech_code_block_spec(s@, pos as int),
        r is Some ==> pos < s@.len() && s@[pos as int] == 96,
        parsed_as(s@, pos as int, r, Kind::MechCodeBlock),
        advances(pos as int, r),
{
    let mut ch = fresh(s, pos);
    let fence: [u8; 3] = [96, 96, 96];
    assert(fence@ =~= rules::fence());
    let directive: [u8; 5] = [109, 101, 99, 104, 58];
    assert(directive@ =~= seq![109u8, 101, 99, 104, 58]);
    let p = tag(&mut ch, s, pos, pos, &fence)?;
    let p = tag(&mut ch, s, pos, p, &directive)?;
    let p = part(&mut ch, s, pos, p, word(s, p))?;
    let p = newline(&mut ch, s, pos, p)?;
    let p = part(&mut ch, s, pos, p, block(s, p))?;
    let p = tag(&mut ch, s, pos, p, &fence)?;
    let p = newline(&mut ch, s, pos, p)?;
    let p = blank_lines(&mut ch, s, pos, p);
    branch(Kind::MechCodeBlock, ch, p, s, pos)
}

/// One element of a section body.
fn section_element(s: &[u8], pos: usize) -> (r: Parsed)
    requires
        pos <= s@.len(),
    ensures
        view_parse(r) == rules::section_element_spec(s@, pos as int),
        parsed(s@, pos as int, r),
        advances(pos as int, r),
{
    let r = block(s, pos);
    if r.is_some() {
        return r;
    }
    let r = code_block(s, pos);
    if r.is_some() {
        return r;
    }
    let r = mech_code_block(s, pos);
    if r.is_some() {
        return r;
    }
    let r = paragraph(s, pos);
    if r.is_some() {
        return r;
    }
    unordered_list(s, pos)
}

/// An optional subtitle, then blocks, code, prose and lists in any order.
/// Always succeeds, possibly consuming nothing.
pub fn section(s: &[u8], pos: usize) -> (r: Parsed)
    requires
        pos <= s@.len(),
    ensures
        view_parse(r) == rules::section_spec(s@, pos as int),
        parsed_as(s@, pos as int, r, Kind::Section),
        r is Some,
{
    let mut ch = fresh(s, pos);
    let mut p = opt(&mut ch, s, pos, pos, subtitle(s, pos));
    let ghost t1 = trees_of(ch@);
    let ghost p1 = p as int;
    loop
        invariant
            rules::section_elements_from(s@, trees_of(ch@), p as int) == rules::section_elements_from(s@, t1, p1),
            pos <= p <= s@.len(),
            covers(ch@, s@, pos as int, p as int),
        ensures
            rules::section_elements_from(s@, trees_of(ch@), p as int) == (trees_of(ch@), p as int),
        decreases s@.len() - p,
    {
        match more(&mut ch, s, pos, p, section_element(s, p)) {
            Some(e) => p = e,
            None => break,
        }
    }
    let p = blank_lines(&mut ch, s, pos, p);
    branch(Kind::Section, ch, p, s, pos)
}

/// Blank lines, then one or more sections. Always succeeds.
pub fn body(s: &[u8], pos: usize) -> (r: Parsed)
    requires
        pos <= s@.len(),
    ensures
        view_parse(r) == rules::body_spec(s@, pos as int),
        parsed_as(s@, pos as int, r, Kind::Body),
        r is Some,
{
    let mut ch = fresh(s, pos);
    let p = blank_lines(&mut ch, s, pos, pos);
    let mut p = opt(&mut ch, s, pos, p, section(s, p));
    let ghost t1 = trees_of(ch@);
    let ghost p1 = p as int;
    loop
        invariant
            rules::sections_from(s@, trees_of(ch@), p as int) == rules::sections_from(s@, t1, p1),
            pos <= p <= s@.len(),
            covers(ch@, s@, pos as int, p as int),
        ensures
            rules::sections_from(s@, trees_of(ch@), p as int) == (trees_of(ch@), p as int),
        decreases s@.len() - p,
    {
        match more(&mut ch, s, pos, p, section(s, p)) {
            Some(e) => p = e,
            None => break,
        }
    }
    branch(Kind::Body, ch, p, s, pos)
}

/// A bare statement.
pub fn fragment(s: &[u8], pos: usize) -> (r: Parsed)
    requires
        pos <= s@.len(),
    ensures
        view_parse(r) == rules::fragment_spec(s@, pos as int),
        parsed_as(s@, pos as int, r, Kind::Fragment),
        advances(pos as int, r),
{
    let mut ch = fresh(s, pos);
    let p = part(&mut ch, s, pos, pos, statement(s, pos))?;
    branch(Kind::Fragment, ch, p, s, pos)
}

/// An optional title, a body and an optional whitespace line. Always
/// succeeds.
pub fn program(s: &[u8], pos: usize) -> (r: Parsed)
    requires
        pos <= s@.len(),
    ensures
        view_parse(r) == rules::program_spec(s@, pos as int),
        parsed_as(s@, pos as int, r, Kind::Program),
        r is Some,
{
    let mut ch = fresh(s, pos);
    let p = opt(&mut ch, s, pos, pos, title(s, pos));
    let p = opt(&mut ch, s, pos, p, body(s, p));
    let p = opt(&mut ch, s, pos, p, whitespace(s, p));
    branch(Kind::Program, ch, p, s, pos)
}

/// One or more fragments (with `fragments`) or programs, as a root.
fn repeated(s: &[u8], fragments: bool) -> (r: Parsed)
    ensures
        !fragments ==> view_parse(r) == rules::programs_spec(s@),
        fragments ==> view_parse(r) == rules::fragments_spec(s@),
        parsed_as(s@, 0, r, Kind::Root),
        !fragments ==> r is Some,
{
    let mut ch = fresh(s, 0);
    let first = if fragments {
        fragment(s, 0)
    } else {
        program(s, 0)
    };
    let mut p = part(&mut ch, s, 0, 0, first)?;
    let ghost t0 = trees_of(ch@);
    let ghost p0 = p as int;
    loop
        invariant
            !fragments ==> rules::programs_from(s@, trees_of(ch@), p as int) == rules::programs_from(s@, t0, p0),
            fragments ==> rules::fragments_from(s@, trees_of(ch@), p as int) == rules::fragments_from(s@, t0, p0),
            p <= s@.len(),
            covers(ch@, s@, 0, p as int),
        ensures
            fragments ==> rules::fragments_from(s@, trees_of(ch@), p as int) == (trees_of(ch@), p as int),
            !fragments ==> rules::programs_from(s@, trees_of(ch@), p as int) == (trees_of(ch@), p as int),
        decreases s@.len() - p,
    {
        let next = if fragments {
            fragment(s, p)
        } else {
            program(s, p)
        };
        match more(&mut ch, s, 0, p, next) {
            Some(e) => p = e,
            None => break,
        }
    }
    branch(Kind::Root, ch, p, s, 0)
}

/// Parses a document: one or more bare statements, or else one or more
/// literate programs. Returns the tree and the position where parsing
/// stopped; the tree's text is exactly the bytes before that position.
pub fn parse_mech(s: &[u8]) -> (r: (Node, usize))
    ensures
        view_parse(Some(r)) == rules::mech_spec(s@),
        parsed_as(s@, 0, Some(r), Kind::Root),
{
    match repeated(s, true) {
        Some(r) => r,
        None => repeated(s, false).unwrap(),
    }
}

/// Parses one or more unindented statement lines, then blank lines, as a
/// block of constraints.
pub fn parse_block(s: &[u8]) -> (r: Parsed)
    ensures
        view_parse(r) == rules::lines_spec(s@, 0, false),
        parsed_as(s@, 0, r, Kind::Block),
        advances(0, r),
{
    lines(s, 0, false)
}

/// The tree's text followed by the unparsed rest is the whole input; when
/// the whole input was recognized, nothing is left over.
pub proof fn lemma_round_trip(s: Seq<u8>, n: Node, end: usize)
    requires
        parsed(s, 0, Some((n, end))),
    ensures
        text_of(n) + s.subrange(end as int, s.len() as int) == s,
        end == s.len() ==> s.subrange(end as int, s.len() as int) == Seq::<u8>::empty(),
{
    assert(s.subrange(0, end as int) + s.subrange(end as int, s.len() as int) =~= s);
    assert(end == s.len() ==> s.subrange(end as int, s.len() as int) =~= Seq::<u8>::empty());
}

} // verus!
