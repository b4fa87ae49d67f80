use vstd::prelude::*;
use vstd::utf8::{encode_utf8, encode_utf8_valid_utf8, is_char_boundary, length_of_first_scalar, pop_first_scalar, valid_utf8};
use vstd::string::StringSliceAdditionalSpecFns;
use crate::grammar::{ascii, parse_mech, parse_block as parse_block_rule, parsed_as, view_parse};
use crate::rules;
use crate::node::{Kind, Node, tree_of};
use crate::token::Token;

verus! {

/// `unparsed` is exactly the bytes of `s` from `end` on.
pub open spec fn holds_rest(unparsed: String, s: Seq<u8>, end: int) -> bool {
    encode_utf8(unparsed@) == s.subrange(end, s.len() as int)
}

/// An ASCII prefix of valid UTF-8 ends on a character boundary.
proof fn lemma_ascii_boundary(b: Seq<u8>, k: int)
    requires
        valid_utf8(b),
        0 <= k <= b.len(),
        ascii(b, 0, k),
    ensures
        is_char_boundary(b, k),
    decreases k,
{
    if k > 0 {
        let rest = pop_first_scalar(b);
        assert(length_of_first_scalar(b) == 1);
        assert(rest =~= b.subrange(1, b.len() as int));
        assert(ascii(rest, 0, k - 1)) by {
            assert(forall|i: int| 0 <= i < k - 1 ==> rest[i] == b[i + 1]);
        }
        lemma_ascii_boundary(rest, k - 1);
    }
}

/// The rest of `text` from byte `end` on, where the bytes before `end` are
/// ASCII.
fn rest_of(text: &str, end: usize) -> (r: String)
    requires
        end <= text.spec_bytes().len(),
        ascii(text.spec_bytes(), 0, end as int),
    ensures
        holds_rest(r, text.spec_bytes(), end as int),
{
    proof {
        encode_utf8_valid_utf8(text@);
        lemma_ascii_boundary(text.spec_bytes(), end as int);
    }
    let (_, rest) = text.split_at(end);
    rest.to_owned()
}

/// Parser state: the tree of the last parse and the text it left over.
#[derive(Debug)]
pub struct Parser {
    pub tokens: Vec<Token>,
    pub parse_tree: Node,
    pub unparsed: String,
    pub text: String,
}

impl Parser {
    pub fn new() -> (r: Parser)
        ensures
            r.tokens@.len() == 0,
            r.unparsed@.len() == 0,
            r.text@.len() == 0,
            r.parse_tree matches Node::Branch { kind: Kind::Root, children } && children@.len() == 0,
    {
        proof { reveal_strlit(""); }
        Parser {
            text: String::from_str(""),
            tokens: Vec::new(),
            unparsed: String::from_str(""),
            parse_tree: Node::Branch { kind: Kind::Root, children: Vec::new() },
        }
    }

    /// Moves `tokens` to the end of the token buffer.
    pub fn add_tokens(&mut self, tokens: &mut Vec<Token>)
        ensures
            final(self).tokens@ == old(self).tokens@ + old(tokens)@,
            final(tokens)@.len() == 0,
            final(self).parse_tree == old(self).parse_tree,
            final(self).unparsed == old(self).unparsed,
            final(self).text == old(self).text,
    {
        self.tokens.append(tokens);
    }

    /// Parses a document. The tree is what the grammar builds for `text`,
    /// and `unparsed` holds exactly the bytes after where it stopped.
    pub fn parse(&mut self, text: &str)
        ensures
            rules::mech_spec(text.spec_bytes()) matches Some((t, end)) && tree_of(final(self).parse_tree)
                == t && holds_rest(final(self).unparsed, text.spec_bytes(), end),
            exists|end: usize|
                parsed_as(text.spec_bytes(), 0, Some((final(self).parse_tree, end)), Kind::Root)
                    && holds_rest(final(self).unparsed, text.spec_bytes(), end as int),
            final(self).tokens == old(self).tokens,
            final(self).text == old(self).text,
    {
        let s = text.as_bytes();
        let (tree, end) = parse_mech(s);
        self.unparsed = rest_of(text, end);
        self.parse_tree = tree;
        assert(parsed_as(text.spec_bytes(), 0, Some((self.parse_tree, end)), Kind::Root)
            && holds_rest(self.unparsed, text.spec_bytes(), end as int));
    }

    /// Parses unindented statement lines into a block of constraints. When
    /// no statement is recognized at the start, the block is empty and the
    /// whole text is left unparsed.
    pub fn parse_block(&mut self, text: &str)
        ensures
            match rules::lines_spec(text.spec_bytes(), 0, false) {
                Some((t, end)) => tree_of(final(self).parse_tree) == t && holds_rest(
                    final(self).unparsed,
                    text.spec_bytes(),
                    end,
                ) && parsed_as(text.spec_bytes(), 0, Some((final(self).parse_tree, end as usize)), Kind::Block),
                None => (final(self).parse_tree matches Node::Branch { kind: Kind::Block, children }
                    && children@.len() == 0) && holds_rest(final(self).unparsed, text.spec_bytes(), 0),
            },
            final(self).tokens == old(self).tokens,
            final(self).text == old(self).text,
    {
        let s = text.as_bytes();
        match parse_block_rule(s) {
            Some((tree, end)) => {
                self.unparsed = rest_of(text, end);
                self.parse_tree = tree;
            },
            None => {
                self.unparsed = rest_of(text, 0);
                self.parse_tree = Node::Branch { kind: Kind::Block, children: Vec::new() };
            },
        }
    }
}

/// Parsing is deterministic: two parses of the same text build the same
/// tree and stop at the same place.
pub proof fn lemma_parse_deterministic(s: Seq<u8>, a: (Node, usize), b: (Node, usize))
    requires
        view_parse(Some(a)) == rules::mech_spec(s),
        view_parse(Some(b)) == rules::mech_spec(s),
    ensures
        tree_of(a.0) == tree_of(b.0),
        a.1 == b.1,
{
}

} // verus!
