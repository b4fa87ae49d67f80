use mech_syntax::grammar::{parse_mech, parse_block, expression, statement, number, word, byte, comparator};
use mech_syntax::node::{Kind, Node};
use mech_syntax::parser::Parser;
use mech_syntax::token::Token;

fn text_of(n: &Node) -> Vec<u8> {
    match n {
        Node::Branch { children, .. } | Node::Table { children, .. } => {
            children.iter().flat_map(text_of).collect()
        }
        Node::Token { byte, .. } => vec![*byte],
        _ => vec![],
    }
}

fn kind(n: &Node) -> Option<Kind> {
    match n {
        Node::Branch { kind, .. } => Some(*kind),
        _ => None,
    }
}

fn first_child(n: &Node) -> &Node {
    match n {
        Node::Branch { children, .. } => &children[0],
        _ => panic!("not a branch"),
    }
}

#[test]
fn table_define_fragment_is_fully_consumed() {
    let s = b"#test = 10";
    let (tree, end) = parse_mech(s);
    assert_eq!(end, s.len());
    assert_eq!(kind(&tree), Some(Kind::Root));
    assert_eq!(text_of(&tree), s.to_vec());
    let fragment = first_child(&tree);
    assert_eq!(kind(fragment), Some(Kind::Fragment));
    let stmt = first_child(fragment);
    assert_eq!(kind(first_child(stmt)), Some(Kind::TableDefine));
}

#[test]
fn garbage_suffix_is_left_unparsed() {
    let s = b"#test = 10\n@@@";
    let (tree, end) = parse_mech(s);
    assert_eq!(&s[end..], b"\n@@@");
    assert_eq!(text_of(&tree), b"#test = 10".to_vec());
}

#[test]
fn literate_program_is_fully_consumed() {
    let s = b"# A Working Program\n\n## Section Two\n\n  #gravity = 9";
    let (tree, end) = parse_mech(s);
    assert_eq!(end, s.len());
    assert_eq!(text_of(&tree), s.to_vec());
    assert_eq!(kind(first_child(&tree)), Some(Kind::Program));
}

#[test]
fn prose_and_blocks_interleave() {
    let s = b"# Bouncing Balls\nDefine the environment\n  #ball = [x: 15 y: 9 vx: 18 vy: 9]\n  #gravity = 10\n\nNow update\n  #x = #ball.x + #ball.vx\n";
    let (tree, end) = parse_mech(s);
    assert_eq!(end, s.len());
    assert_eq!(text_of(&tree), s.to_vec());
}

#[test]
fn empty_input_parses_to_empty_program() {
    let (tree, end) = parse_mech(b"");
    assert_eq!(end, 0);
    assert_eq!(kind(&tree), Some(Kind::Root));
    assert!(text_of(&tree).is_empty());
}

#[test]
fn parsing_twice_gives_equal_trees() {
    let s = b"#test = #ball.x + #ball.y * #ball.vx";
    let a = parse_mech(s);
    let b = parse_mech(s);
    assert!(a == b);
}

#[test]
fn table_definition_wins_over_variable_definition() {
    let s = b"#x = 1";
    let (n, e) = statement(s, 0).unwrap();
    assert_eq!(e, s.len());
    assert_eq!(kind(first_child(&n)), Some(Kind::TableDefine));
    let s = b"x = 1";
    let (n, _) = statement(s, 0).unwrap();
    assert_eq!(kind(first_child(&n)), Some(Kind::VariableDefine));
}

#[test]
fn statement_forms_by_leading_token() {
    let cases: [(&[u8], Kind); 5] = [
        (b"~ #i.x", Kind::DataWatch),
        (b"#x.y{iy} := 12", Kind::SetData),
        (b"#x += [x: 1]", Kind::AddRow),
        (b"// a note", Kind::Comment),
        (b"iy = #x.y < #boundary", Kind::VariableDefine),
    ];
    for (s, k) in cases.iter() {
        let (n, e) = statement(s, 0).unwrap();
        assert_eq!(e, s.len());
        assert_eq!(kind(first_child(&n)), Some(*k));
    }
}

#[test]
fn precedence_levels_nest() {
    let s = b"1 + 2 * 3";
    let (n, e) = expression(s, 0).unwrap();
    assert_eq!(e, s.len());
    let math = first_child(&n);
    assert_eq!(kind(math), Some(Kind::MathExpression));
    let l1 = first_child(math);
    assert_eq!(kind(l1), Some(Kind::L1));
    match l1 {
        Node::Branch { children, .. } => {
            assert_eq!(children.len(), 2);
            assert_eq!(kind(&children[1]), Some(Kind::L1Infix));
            assert_eq!(text_of(&children[1]), b" + 2 * 3".to_vec());
        }
        _ => panic!(),
    }
}

#[test]
fn range_and_logic_expressions() {
    let (n, e) = expression(b"1 : 10", 0).unwrap();
    assert_eq!(e, 6);
    assert_eq!(kind(first_child(&n)), Some(Kind::Range));
    let (n, e) = expression(b"#a & #b", 0).unwrap();
    assert_eq!(e, 7);
    assert_eq!(kind(first_child(&n)), Some(Kind::LogicExpression));
}

#[test]
fn anonymous_table_with_header_and_rows() {
    let s = b"[|x y|\n 400 500\n 0 0]";
    let (n, e) = expression(s, 0).unwrap();
    assert_eq!(e, s.len());
    assert_eq!(kind(first_child(&n)), Some(Kind::AnonymousTable));
    assert_eq!(text_of(&n), s.to_vec());
}

#[test]
fn subscript_select_all() {
    let s = b"#x{i, :}";
    let (n, e) = expression(s, 0).unwrap();
    assert_eq!(e, s.len());
    assert_eq!(text_of(&n), s.to_vec());
}

#[test]
fn comparator_prefers_two_characters() {
    let (n, e) = comparator(b"<=", 0).unwrap();
    assert_eq!(e, 2);
    assert_eq!(kind(first_child(&n)), Some(Kind::LessThanEqual));
    let (n, e) = comparator(b"<5", 0).unwrap();
    assert_eq!(e, 1);
    assert_eq!(kind(first_child(&n)), Some(Kind::LessThan));
}

#[test]
fn primitives() {
    assert_eq!(number(b"123abc", 0).map(|r| r.1), Some(3));
    assert!(number(b"abc", 0).is_none());
    assert_eq!(word(b"abc123", 0).map(|r| r.1), Some(3));
    match byte(b"#", 0, b'#') {
        Some((Node::Token { token, byte }, 1)) => {
            assert_eq!(token, Token::HashTag);
            assert_eq!(byte, b'#');
        }
        _ => panic!(),
    }
    assert!(byte(b"#", 1, b'#').is_none());
    assert!(byte(b"#", 0, b'!').is_none());
}

#[test]
fn parse_block_needs_a_statement() {
    let (n, e) = parse_block(b"#a = 1\n#b = 2\n").unwrap();
    assert_eq!(e, 14);
    assert_eq!(kind(&n), Some(Kind::Block));
    match &n {
        Node::Branch { children, .. } => {
            assert_eq!(children.len(), 2);
            assert!(children.iter().all(|c| kind(c) == Some(Kind::Constraint)));
        }
        _ => panic!(),
    }
    assert!(parse_block(b"  indented").is_none());
}

#[test]
fn parser_keeps_unparsed_text() {
    let mut p = Parser::new();
    p.parse("#test = 10\n@@@");
    assert_eq!(p.unparsed, "\n@@@");
    p.parse("#test = 10");
    assert_eq!(p.unparsed, "");
    let mut p = Parser::new();
    p.parse_block("???");
    assert_eq!(p.unparsed, "???");
    assert_eq!(kind(&p.parse_tree), Some(Kind::Block));
    assert!(text_of(&p.parse_tree).is_empty());
}

#[test]
fn parser_add_tokens_appends() {
    let mut p = Parser::new();
    let mut a = vec![Token::HashTag, Token::Alpha];
    p.add_tokens(&mut a);
    let mut b = vec![Token::Space];
    p.add_tokens(&mut b);
    assert!(a.is_empty() && b.is_empty());
    assert_eq!(p.tokens, vec![Token::HashTag, Token::Alpha, Token::Space]);
}

#[test]
fn scenario_sources_parse() {
    let full: [&[u8]; 5] = [
        b"#test = 10",
        b"#test = 1 + 1",
        b"#test = 2 * 2",
        b"#ball = [x: 15 y: 9 vx: 18 vy: 0]",
        b"#test = #ball.x + #ball.y * #ball.vx",
    ];
    for s in full.iter() {
        let (tree, end) = parse_mech(s);
        assert_eq!(end, s.len());
        assert_eq!(text_of(&tree), s.to_vec());
    }
    let block = b"block\n  #x = [x: 5001 y: 456]\n  #boundary = 5000\n";
    let (tree, end) = parse_mech(block);
    assert_eq!(end, block.len());
    assert_eq!(text_of(&tree), block.to_vec());
    let s = b"iy = #x.y < #boundary";
    let (n, e) = statement(s, 0).unwrap();
    assert_eq!(e, s.len());
    assert_eq!(kind(first_child(&n)), Some(Kind::VariableDefine));
}

#[test]
fn parser_remainder_is_the_unrecognized_suffix() {
    let mut p = Parser::new();
    p.parse("#test = 10@@@");
    assert_eq!(p.unparsed, "@@@");
    p.parse("@@@");
    assert_eq!(p.unparsed, "@@@");
    p.parse("#test = 1 + 2 * 3");
    assert_eq!(p.unparsed, "");
    p.parse("#x = 1 é");
    assert_eq!(p.unparsed, " é");
}

#[test]
fn parser_parse_block_builds_constraints() {
    let mut p = Parser::new();
    p.parse_block("#test = 10\n@@");
    assert_eq!(p.unparsed, "@@");
    assert_eq!(kind(&p.parse_tree), Some(Kind::Block));
    let constraint = first_child(&p.parse_tree);
    assert_eq!(kind(constraint), Some(Kind::Constraint));
    assert_eq!(kind(first_child(first_child(constraint))), Some(Kind::TableDefine));
}
