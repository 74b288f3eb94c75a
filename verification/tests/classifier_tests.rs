use highlight::classifier::highlight;
use highlight::classifier::category_name;
use highlight::classifier::category_of_name;
use highlight::classifier::is_keyword;
use highlight::classifier::str_eq;
use highlight::classifier::contains_char;
use highlight::classifier::Category;
use highlight::classifier::Part;
use highlight::classifier::Token;
use highlight::classifier::TokenKind;

fn tok(kind: TokenKind, lo: usize, hi: usize) -> Token {
    Token { kind, lo, hi }
}

fn text(c: Category, s: &str) -> Part {
    Part::Text(c, s.to_string())
}

#[test]
fn end_to_end_let_statement() {
    let src = "let x = 1;";
    let tokens = vec![
        tok(TokenKind::Ident, 0, 3),
        tok(TokenKind::Ident, 4, 5),
        tok(TokenKind::Op, 6, 7),
        tok(TokenKind::NumLit, 8, 9),
        tok(TokenKind::Punct, 9, 10),
    ];
    let parts = highlight(src, &tokens);
    assert_eq!(
        parts,
        vec![
            text(Category::Kw, "let"),
            text(Category::Normal, " "),
            text(Category::Ident, "x"),
            text(Category::Normal, " "),
            text(Category::Op, "="),
            text(Category::Normal, " "),
            text(Category::Number, "1"),
            text(Category::Unstyled, ";"),
        ]
    );
}

#[test]
fn attribute_span_events() {
    let src = "#[foo]";
    let tokens = vec![
        tok(TokenKind::Pound, 0, 1),
        tok(TokenKind::Punct, 1, 2),
        tok(TokenKind::Ident, 2, 5),
        tok(TokenKind::RBracket, 5, 6),
    ];
    let parts = highlight(src, &tokens);
    assert_eq!(
        parts,
        vec![
            Part::Start(Category::Attribute),
            text(Category::Unstyled, "["),
            text(Category::Ident, "foo"),
            Part::End(Category::Attribute),
        ]
    );
}

#[test]
fn closing_bracket_outside_attribute_is_plain() {
    let src = "a]";
    let tokens = vec![tok(TokenKind::Ident, 0, 1), tok(TokenKind::RBracket, 1, 2)];
    let parts = highlight(src, &tokens);
    assert_eq!(
        parts,
        vec![text(Category::Ident, "a"), text(Category::Unstyled, "]")]
    );
}

#[test]
fn gap_with_slash_is_comment() {
    let src = "a // c\nb";
    let tokens = vec![tok(TokenKind::Ident, 0, 1), tok(TokenKind::Ident, 7, 8)];
    let parts = highlight(src, &tokens);
    assert_eq!(
        parts,
        vec![
            text(Category::Ident, "a"),
            text(Category::Comment, " // c\n"),
            text(Category::Ident, "b"),
        ]
    );
}

#[test]
fn trailing_gap_is_flushed() {
    let src = "a  ";
    let tokens = vec![tok(TokenKind::Ident, 0, 1)];
    let parts = highlight(src, &tokens);
    assert_eq!(
        parts,
        vec![text(Category::Ident, "a"), text(Category::Normal, "  ")]
    );
}

#[test]
fn text_reconstruction_concatenates_to_source() {
    let src = "let x = 1; // done\n";
    let tokens = vec![
        tok(TokenKind::Ident, 0, 3),
        tok(TokenKind::Ident, 4, 5),
        tok(TokenKind::Op, 6, 7),
        tok(TokenKind::NumLit, 8, 9),
        tok(TokenKind::Punct, 9, 10),
    ];
    let parts = highlight(src, &tokens);
    let mut joined = String::new();
    for p in &parts {
        if let Part::Text(_, s) = p {
            joined.push_str(s);
        }
    }
    assert_eq!(joined, src);
}

#[test]
fn macro_invocation_detected() {
    let src = "foo!(x)";
    let tokens = vec![
        tok(TokenKind::Ident, 0, 3),
        tok(TokenKind::Not, 3, 4),
        tok(TokenKind::Punct, 4, 5),
        tok(TokenKind::Ident, 5, 6),
        tok(TokenKind::Punct, 6, 7),
    ];
    let parts = highlight(src, &tokens);
    assert_eq!(
        parts,
        vec![
            text(Category::Macro, "foo"),
            text(Category::Macro, "!"),
            text(Category::Unstyled, "("),
            text(Category::Ident, "x"),
            text(Category::Unstyled, ")"),
        ]
    );
}

#[test]
fn bare_not_is_operator() {
    let src = "!x";
    let tokens = vec![tok(TokenKind::Not, 0, 1), tok(TokenKind::Ident, 1, 2)];
    let parts = highlight(src, &tokens);
    assert_eq!(
        parts,
        vec![text(Category::Op, "!"), text(Category::Ident, "x")]
    );
}

#[test]
fn macro_nonterminal_sigil_and_identifier() {
    let src = "$x";
    let tokens = vec![tok(TokenKind::Dollar, 0, 1), tok(TokenKind::Ident, 1, 2)];
    let parts = highlight(src, &tokens);
    assert_eq!(
        parts,
        vec![
            text(Category::MacroNonterminal, "$"),
            text(Category::MacroNonterminal, "x"),
        ]
    );
}

#[test]
fn dollar_without_identifier_is_plain() {
    let src = "$1";
    let tokens = vec![tok(TokenKind::Dollar, 0, 1), tok(TokenKind::NumLit, 1, 2)];
    let parts = highlight(src, &tokens);
    assert_eq!(
        parts,
        vec![text(Category::Unstyled, "$"), text(Category::Number, "1")]
    );
}

#[test]
fn adjacent_ampersand_is_pointer_like() {
    let src = "&x";
    let tokens = vec![tok(TokenKind::And, 0, 1), tok(TokenKind::Ident, 1, 2)];
    let parts = highlight(src, &tokens);
    assert_eq!(
        parts,
        vec![text(Category::Kw2, "&"), text(Category::Ident, "x")]
    );
}

#[test]
fn separated_ampersand_is_operator() {
    let src = "& x";
    let tokens = vec![tok(TokenKind::And, 0, 1), tok(TokenKind::Ident, 2, 3)];
    let parts = highlight(src, &tokens);
    assert_eq!(
        parts,
        vec![
            text(Category::Op, "&"),
            text(Category::Normal, " "),
            text(Category::Ident, "x"),
        ]
    );
}

#[test]
fn identifier_sub_table() {
    let cases = [
        ("ref", Category::Kw2),
        ("mut", Category::Kw2),
        ("self", Category::SelfVal),
        ("true", Category::BoolVal),
        ("false", Category::BoolVal),
        ("Option", Category::PreludeTy),
        ("Result", Category::PreludeTy),
        ("Some", Category::PreludeVal),
        ("None", Category::PreludeVal),
        ("Ok", Category::PreludeVal),
        ("Err", Category::PreludeVal),
        ("fn", Category::Kw),
        ("match", Category::Kw),
        ("banana", Category::Ident),
    ];
    for (word, expected) in cases {
        let tokens = vec![tok(TokenKind::Ident, 0, word.len())];
        let parts = highlight(word, &tokens);
        assert_eq!(parts, vec![text(expected, word)], "word: {}", word);
    }
}

#[test]
fn literal_and_marker_tokens() {
    let cases = [
        (TokenKind::StrLit, "\"s\"", Category::StrLit),
        (TokenKind::At, "@", Category::Kw2),
        (TokenKind::Tilde, "~", Category::Kw2),
        (TokenKind::Lifetime, "'a", Category::Lifetime),
        (TokenKind::DocComment, "/// d", Category::DocComment),
        (TokenKind::Underscore, "_", Category::Unstyled),
    ];
    for (kind, src, expected) in cases {
        let tokens = vec![tok(kind, 0, src.len())];
        let parts = highlight(src, &tokens);
        assert_eq!(parts, vec![text(expected, src)], "source: {}", src);
    }
}

#[test]
fn category_names_round_trip() {
    let all = [
        Category::Kw,
        Category::Kw2,
        Category::PreludeTy,
        Category::Number,
        Category::StrLit,
        Category::SelfVal,
        Category::BoolVal,
        Category::PreludeVal,
        Category::Attribute,
        Category::Comment,
        Category::DocComment,
        Category::Macro,
        Category::MacroNonterminal,
        Category::Lifetime,
        Category::Ident,
        Category::Op,
        Category::Normal,
        Category::Unstyled,
    ];
    for c in all {
        assert_eq!(category_of_name(category_name(c)), Some(c));
    }
    assert_eq!(category_name(Category::Unstyled), "");
    assert_eq!(category_name(Category::Kw2), "kw-2");
    assert_eq!(category_of_name("bogus"), None);
}

#[test]
fn keyword_list_and_string_helpers() {
    assert!(is_keyword("fn"));
    assert!(is_keyword("while"));
    assert!(is_keyword("box"));
    assert!(!is_keyword("banana"));
    assert!(str_eq("abc", "abc"));
    assert!(!str_eq("abc", "abd"));
    assert!(!str_eq("abc", "ab"));
    assert!(contains_char("a/b", '/'));
    assert!(!contains_char("ab", '/'));
}

#[test]
fn nesting_is_well_formed_with_attributes() {
    let src = "#[foo] fn";
    let tokens = vec![
        tok(TokenKind::Pound, 0, 1),
        tok(TokenKind::Punct, 1, 2),
        tok(TokenKind::Ident, 2, 5),
        tok(TokenKind::RBracket, 5, 6),
        tok(TokenKind::Ident, 7, 9),
    ];
    let parts = highlight(src, &tokens);
    // Every End must close the innermost open region of its category
    // (a Text leaf opens and closes its own), and nothing stays open.
    let mut stack: Vec<Category> = Vec::new();
    for p in &parts {
        match p {
            Part::Start(c) => stack.push(*c),
            Part::End(c) => assert_eq!(stack.pop(), Some(*c)),
            Part::Text(_, _) => {}
        }
    }
    assert!(stack.is_empty());
}
