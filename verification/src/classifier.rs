//! The classifier: turns a token stream plus the source text into an
//! ordered sequence of `Part` events under a fixed category taxonomy.

use vstd::prelude::*;
use vstd::string::*;

verus! {

/// Compares two string slices character by character.
pub fn str_eq(a: &str, b: &str) -> (r: bool)
    ensures
        r == (a@ == b@),
{
    let alen = a.unicode_len();
    let blen = b.unicode_len();
    if alen != blen {
        return false;
    }
    let mut i: usize = 0;
    while i < alen
        invariant
            a@.len() == alen,
            b@.len() == blen,
            alen == blen,
            i <= alen,
            forall|j: int| 0 <= j < i ==> a@[j] == b@[j],
        decreases alen - i,
    {
        if a.get_char(i) != b.get_char(i) {
            return false;
        }
        i = i + 1;
    }
    proof {
        assert(a@ =~= b@);
    }
    true
}

/// The fixed, closed set of highlighting categories. Each category carries
/// a string tag (see [`category_name`]) used by the color table and by the
/// rendering backends. `Unstyled` is the reserved empty tag `""` for plain
/// punctuation; `Normal` is plain text and whitespace. Neither of the two
/// receives any visual decoration in any backend.
#[derive(Clone, Copy, Debug, PartialEq, Eq, Structural)]
pub enum Category {
    Kw,
    Kw2,
    PreludeTy,
    Number,
    StrLit,
    SelfVal,
    BoolVal,
    PreludeVal,
    Attribute,
    Comment,
    DocComment,
    Macro,
    MacroNonterminal,
    Lifetime,
    Ident,
    Op,
    Normal,
    Unstyled,
}

/// The string tag of a category, as a mathematical sequence of characters.
pub open spec fn spec_category_name(c: Category) -> Seq<char> {
    match c {
        Category::Kw => "kw"@,
        Category::Kw2 => "kw-2"@,
        Category::PreludeTy => "prelude-ty"@,
        Category::Number => "number"@,
        Category::StrLit => "string"@,
        Category::SelfVal => "self"@,
        Category::BoolVal => "boolval"@,
        Category::PreludeVal => "prelude-val"@,
        Category::Attribute => "attribute"@,
        Category::Comment => "comment"@,
        Category::DocComment => "doccomment"@,
        Category::Macro => "macro"@,
        Category::MacroNonterminal => "macro-nonterminal"@,
        Category::Lifetime => "lifetime"@,
        Category::Ident => "ident"@,
        Category::Op => "op"@,
        Category::Normal => "normal"@,
        Category::Unstyled => ""@,
    }
}

/// The string tag of a category.
pub fn category_name(c: Category) -> (r: &'static str)
    ensures
        r@ == spec_category_name(c),
{
    match c {
        Category::Kw => "kw",
        Category::Kw2 => "kw-2",
        Category::PreludeTy => "prelude-ty",
        Category::Number => "number",
        Category::StrLit => "string",
        Category::SelfVal => "self",
        Category::BoolVal => "boolval",
        Category::PreludeVal => "prelude-val",
        Category::Attribute => "attribute",
        Category::Comment => "comment",
        Category::DocComment => "doccomment",
        Category::Macro => "macro",
        Category::MacroNonterminal => "macro-nonterminal",
        Category::Lifetime => "lifetime",
        Category::Ident => "ident",
        Category::Op => "op",
        Category::Normal => "normal",
        Category::Unstyled => "",
    }
}

/// The category whose string tag is `s`, if any.
pub open spec fn spec_category_of_name(s: Seq<char>) -> Option<Category> {
    if s == "kw"@ {
        Some(Category::Kw)
    } else if s == "kw-2"@ {
        Some(Category::Kw2)
    } else if s == "prelude-ty"@ {
        Some(Category::PreludeTy)
    } else if s == "number"@ {
        Some(Category::Number)
    } else if s == "string"@ {
        Some(Category::StrLit)
    } else if s == "self"@ {
        Some(Category::SelfVal)
    } else if s == "boolval"@ {
        Some(Category::BoolVal)
    } else if s == "prelude-val"@ {
        Some(Category::PreludeVal)
    } else if s == "attribute"@ {
        Some(Category::Attribute)
    } else if s == "comment"@ {
        Some(Category::Comment)
    } else if s == "doccomment"@ {
        Some(Category::DocComment)
    } else if s == "macro"@ {
        Some(Category::Macro)
    } else if s == "macro-nonterminal"@ {
        Some(Category::MacroNonterminal)
    } else if s == "lifetime"@ {
        Some(Category::Lifetime)
    } else if s == "ident"@ {
        Some(Category::Ident)
    } else if s == "op"@ {
        Some(Category::Op)
    } else if s == "normal"@ {
        Some(Category::Normal)
    } else if s == ""@ {
        Some(Category::Unstyled)
    } else {
        None
    }
}

/// Resolves a string tag back to its category.
pub fn category_of_name(s: &str) -> (r: Option<Category>)
    ensures
        r == spec_category_of_name(s@),
{
    if str_eq(s, "kw") {
        Some(Category::Kw)
    } else if str_eq(s, "kw-2") {
        Some(Category::Kw2)
    } else if str_eq(s, "prelude-ty") {
        Some(Category::PreludeTy)
    } else if str_eq(s, "number") {
        Some(Category::Number)
    } else if str_eq(s, "string") {
        Some(Category::StrLit)
    } else if str_eq(s, "self") {
        Some(Category::SelfVal)
    } else if str_eq(s, "boolval") {
        Some(Category::BoolVal)
    } else if str_eq(s, "prelude-val") {
        Some(Category::PreludeVal)
    } else if str_eq(s, "attribute") {
        Some(Category::Attribute)
    } else if str_eq(s, "comment") {
        Some(Category::Comment)
    } else if str_eq(s, "doccomment") {
        Some(Category::DocComment)
    } else if str_eq(s, "macro") {
        Some(Category::Macro)
    } else if str_eq(s, "macro-nonterminal") {
        Some(Category::MacroNonterminal)
    } else if str_eq(s, "lifetime") {
        Some(Category::Lifetime)
    } else if str_eq(s, "ident") {
        Some(Category::Ident)
    } else if str_eq(s, "op") {
        Some(Category::Op)
    } else if str_eq(s, "normal") {
        Some(Category::Normal)
    } else if str_eq(s, "") {
        Some(Category::Unstyled)
    } else {
        None
    }
}

/// One event of the classifier's output stream. `Start`/`End` open and
/// close a tagged region and must nest like parentheses; `Text` is a leaf
/// region carrying the exact source snippet it covers.
#[derive(Clone, Debug, PartialEq, Eq)]
pub enum Part {
    Start(Category),
    End(Category),
    Text(Category, String),
}

/// The mathematical value of a `Part`: the snippet of a `Text` leaf is a
/// sequence of characters.
pub enum PartView {
    Start(Category),
    End(Category),
    Text(Category, Seq<char>),
}

impl View for Part {
    type V = PartView;

    open spec fn view(&self) -> PartView {
        match self {
            Part::Start(c) => PartView::Start(*c),
            Part::End(c) => PartView::End(*c),
            Part::Text(c, s) => PartView::Text(*c, s@),
        }
    }
}

/// The sequence of part values carried by a vector of parts.
pub open spec fn parts_view(parts: Seq<Part>) -> Seq<PartView> {
    parts.map_values(|p: Part| p@)
}

/// The kind of a lexical token, as the external tokenizer reports it.
/// The grouping keeps exactly the distinctions the classification rules
/// read; every token kind of the language maps onto one of these.
#[derive(Clone, Copy, Debug, PartialEq, Eq, Structural)]
pub enum TokenKind {
    /// The `&` operator: address-of when glued to the next token,
    /// bitwise-and otherwise.
    And,
    /// The `@` pointer sigil.
    At,
    /// The `~` pointer sigil.
    Tilde,
    /// The `!` operator: negation, or a macro invocation after a pending
    /// macro name.
    Not,
    /// Any other comparison, arithmetic, logical or arrow operator.
    Op,
    /// Plain punctuation: dot, comma, semicolon, colon, path separator,
    /// left arrows, parentheses, braces and the opening bracket.
    Punct,
    /// The `$` macro-nonterminal sigil.
    Dollar,
    /// The `#` attribute-opening sigil.
    Pound,
    /// The closing bracket `]`.
    RBracket,
    /// A character or string literal.
    StrLit,
    /// A numeric literal.
    NumLit,
    /// An identifier or keyword; its text is the token's snippet.
    Ident,
    /// The `_` placeholder.
    Underscore,
    /// A lifetime label.
    Lifetime,
    /// A documentation comment.
    DocComment,
    /// An interpolated fragment.
    Interpolated,
}

/// One token of the external tokenizer's output: a kind plus the span it
/// covers in the source text, counted in characters.
#[derive(Clone, Copy, Debug, PartialEq, Eq, Structural)]
pub struct Token {
    pub kind: TokenKind,
    pub lo: usize,
    pub hi: usize,
}

/// The token stream is consistent with the source text: every span lies
/// inside the text, and the tokens come in order without overlapping.
pub open spec fn spec_tokens_wf(src: Seq<char>, toks: Seq<Token>) -> bool {
    &&& forall|i: int| 0 <= i < toks.len() ==> (#[trigger] toks[i]).lo <= toks[i].hi <= src.len()
    &&& forall|i: int| 0 <= i < toks.len() - 1 ==> (#[trigger] toks[i]).hi <= toks[i + 1].lo
}

/// The kind of the one-token lookahead at position `i`, if any.
pub open spec fn spec_peek_kind(toks: Seq<Token>, i: int) -> Option<TokenKind> {
    if i + 1 < toks.len() {
        Some(toks[i + 1].kind)
    } else {
        None
    }
}

/// Whether the token at `i` touches its successor with no byte between.
pub open spec fn spec_adjacent(toks: Seq<Token>, i: int) -> bool {
    i + 1 < toks.len() && toks[i + 1].lo == toks[i].hi
}

/// The snippet of source text a token covers.
pub open spec fn spec_token_text(src: Seq<char>, t: Token) -> Seq<char> {
    src.subrange(t.lo as int, t.hi as int)
}

/// The category of an inter-token gap: `comment` when the gap's text
/// contains a `/`, else `normal`. This is a deliberate heuristic: any gap
/// text holding a `/` counts as a comment, whether or not it is one.
pub open spec fn spec_gap_category(s: Seq<char>) -> Category {
    if s.contains('/') {
        Category::Comment
    } else {
        Category::Normal
    }
}

/// The language's reserved words. Words the identifier sub-table already
/// resolves (`ref`, `mut`, `self`, `true`, `false`) are listed here too,
/// as the word list stands on its own.
pub open spec fn spec_is_keyword(s: Seq<char>) -> bool {
    s == "alignof"@ || s == "as"@ || s == "be"@ || s == "box"@ || s == "break"@ || s == "const"@
        || s == "continue"@ || s == "crate"@ || s == "do"@ || s == "else"@ || s == "enum"@
        || s == "false"@ || s == "fn"@ || s == "for"@ || s == "if"@ || s == "impl"@ || s == "in"@
        || s == "let"@ || s == "loop"@ || s == "match"@ || s == "mod"@ || s == "mut"@
        || s == "offsetof"@ || s == "once"@ || s == "priv"@ || s == "proc"@ || s == "pub"@
        || s == "pure"@ || s == "ref"@ || s == "return"@ || s == "self"@ || s == "sizeof"@
        || s == "static"@ || s == "struct"@ || s == "super"@ || s == "trait"@ || s == "true"@
        || s == "type"@ || s == "typeof"@ || s == "unsafe"@ || s == "unsized"@ || s == "use"@
        || s == "while"@ || s == "yield"@
}

/// Whether an identifier's text is a reserved word.
pub fn is_keyword(s: &str) -> (r: bool)
    ensures
        r == spec_is_keyword(s@),
{
    str_eq(s, "alignof") || str_eq(s, "as") || str_eq(s, "be") || str_eq(s, "box") || str_eq(
        s,
        "break",
    ) || str_eq(s, "const") || str_eq(s, "continue") || str_eq(s, "crate") || str_eq(s, "do")
        || str_eq(s, "else") || str_eq(s, "enum") || str_eq(s, "false") || str_eq(s, "fn")
        || str_eq(s, "for") || str_eq(s, "if") || str_eq(s, "impl") || str_eq(s, "in") || str_eq(
        s,
        "let",
    ) || str_eq(s, "loop") || str_eq(s, "match") || str_eq(s, "mod") || str_eq(s, "mut") || str_eq(
        s,
        "offsetof",
    ) || str_eq(s, "once") || str_eq(s, "priv") || str_eq(s, "proc") || str_eq(s, "pub") || str_eq(
        s,
        "pure",
    ) || str_eq(s, "ref") || str_eq(s, "return") || str_eq(s, "self") || str_eq(s, "sizeof")
        || str_eq(s, "static") || str_eq(s, "struct") || str_eq(s, "super") || str_eq(s, "trait")
        || str_eq(s, "true") || str_eq(s, "type") || str_eq(s, "typeof") || str_eq(s, "unsafe")
        || str_eq(s, "unsized") || str_eq(s, "use") || str_eq(s, "while") || str_eq(s, "yield")
}

/// The identifier sub-table: resolves an identifier token's text, with
/// the pending macro-nonterminal flag and whether the lookahead token is
/// the macro-invocation sigil `!`.
pub open spec fn spec_ident_category(text: Seq<char>, nonterminal: bool, peek_not: bool) -> Category {
    if text == "ref"@ || text == "mut"@ {
        Category::Kw2
    } else if text == "self"@ {
        Category::SelfVal
    } else if text == "false"@ || text == "true"@ {
        Category::BoolVal
    } else if text == "Option"@ || text == "Result"@ {
        Category::PreludeTy
    } else if text == "Some"@ || text == "None"@ || text == "Ok"@ || text == "Err"@ {
        Category::PreludeVal
    } else if spec_is_keyword(text) {
        Category::Kw
    } else if nonterminal {
        Category::MacroNonterminal
    } else if peek_not {
        Category::Macro
    } else {
        Category::Ident
    }
}

/// Resolves an identifier token's category.
pub fn ident_category(text: &str, nonterminal: bool, peek_not: bool) -> (c: Category)
    ensures
        c == spec_ident_category(text@, nonterminal, peek_not),
{
    if str_eq(text, "ref") || str_eq(text, "mut") {
        Category::Kw2
    } else if str_eq(text, "self") {
        Category::SelfVal
    } else if str_eq(text, "false") || str_eq(text, "true") {
        Category::BoolVal
    } else if str_eq(text, "Option") || str_eq(text, "Result") {
        Category::PreludeTy
    } else if str_eq(text, "Some") || str_eq(text, "None") || str_eq(text, "Ok") || str_eq(
        text,
        "Err",
    ) {
        Category::PreludeVal
    } else if is_keyword(text) {
        Category::Kw
    } else if nonterminal {
        Category::MacroNonterminal
    } else if peek_not {
        Category::Macro
    } else {
        Category::Ident
    }
}

/// The classification rule table for one token, first match wins. The
/// flag-dependent rules take the carried classifier flags; `adjacent` and
/// the two `peek` arguments carry the one token of lookahead.
pub open spec fn spec_token_category(
    kind: TokenKind,
    text: Seq<char>,
    adjacent: bool,
    peek_ident: bool,
    peek_not: bool,
    is_macro: bool,
    nonterminal: bool,
) -> Category {
    match kind {
        TokenKind::And => if adjacent {
            Category::Kw2
        } else {
            Category::Op
        },
        TokenKind::At => Category::Kw2,
        TokenKind::Tilde => Category::Kw2,
        TokenKind::Not => if is_macro {
            Category::Macro
        } else {
            Category::Op
        },
        TokenKind::Op => Category::Op,
        TokenKind::Punct => Category::Unstyled,
        TokenKind::Dollar => if peek_ident {
            Category::MacroNonterminal
        } else {
            Category::Unstyled
        },
        TokenKind::Pound => Category::Unstyled,
        TokenKind::RBracket => Category::Unstyled,
        TokenKind::StrLit => Category::StrLit,
        TokenKind::NumLit => Category::Number,
        TokenKind::Ident => spec_ident_category(text, nonterminal, peek_not),
        TokenKind::Underscore => Category::Unstyled,
        TokenKind::Lifetime => Category::Lifetime,
        TokenKind::DocComment => Category::DocComment,
        TokenKind::Interpolated => Category::Unstyled,
    }
}

/// Resolves one token's category from the rule table.
pub fn token_category(
    kind: TokenKind,
    text: &str,
    adjacent: bool,
    peek_ident: bool,
    peek_not: bool,
    is_macro: bool,
    nonterminal: bool,
) -> (c: Category)
    ensures
        c == spec_token_category(kind, text@, adjacent, peek_ident, peek_not, is_macro, nonterminal),
{
    match kind {
        TokenKind::And => if adjacent {
            Category::Kw2
        } else {
            Category::Op
        },
        TokenKind::At => Category::Kw2,
        TokenKind::Tilde => Category::Kw2,
        TokenKind::Not => if is_macro {
            Category::Macro
        } else {
            Category::Op
        },
        TokenKind::Op => Category::Op,
        TokenKind::Punct => Category::Unstyled,
        TokenKind::Dollar => if peek_ident {
            Category::MacroNonterminal
        } else {
            Category::Unstyled
        },
        TokenKind::Pound => Category::Unstyled,
        TokenKind::RBracket => Category::Unstyled,
        TokenKind::StrLit => Category::StrLit,
        TokenKind::NumLit => Category::Number,
        TokenKind::Ident => ident_category(text, nonterminal, peek_not),
        TokenKind::Underscore => Category::Unstyled,
        TokenKind::Lifetime => Category::Lifetime,
        TokenKind::DocComment => Category::DocComment,
        TokenKind::Interpolated => Category::Unstyled,
    }
}

/// The attribute flag after a token: `#` opens an attribute span, `]`
/// closes it, everything else leaves it.
pub open spec fn spec_next_attr(kind: TokenKind, attr: bool) -> bool {
    match kind {
        TokenKind::Pound => true,
        TokenKind::RBracket => false,
        _ => attr,
    }
}

/// The pending-macro flag after a token: `!` consumes it, an identifier
/// classified `macro` raises it.
pub open spec fn spec_next_macro(kind: TokenKind, cat: Category, is_macro: bool) -> bool {
    if kind == TokenKind::Not {
        false
    } else if kind == TokenKind::Ident && cat == Category::Macro {
        true
    } else {
        is_macro
    }
}

/// The pending macro-nonterminal flag after a token: `$` before an
/// identifier raises it, the identifier that consumes it clears it.
pub open spec fn spec_next_nonterminal(
    kind: TokenKind,
    cat: Category,
    peek_ident: bool,
    nonterminal: bool,
) -> bool {
    if kind == TokenKind::Dollar && peek_ident {
        true
    } else if kind == TokenKind::Ident && cat == Category::MacroNonterminal {
        false
    } else {
        nonterminal
    }
}

/// The parts a gap between `last` and `lo` contributes: one `Text` event
/// covering the gap, or nothing when there is no gap.
pub open spec fn spec_gap_parts(src: Seq<char>, last: int, lo: int) -> Seq<PartView> {
    if last < lo {
        let s = src.subrange(last, lo);
        seq![PartView::Text(spec_gap_category(s), s)]
    } else {
        Seq::empty()
    }
}

/// The three carried flags of the classifier, threaded through each
/// step: whether an attribute span is open, whether an identifier is
/// pending as a macro name, and whether a `$` sigil is pending before an
/// identifier.
#[derive(Clone, Copy, Debug, PartialEq, Eq, Structural)]
pub struct ClassifierFlags {
    pub is_attribute: bool,
    pub is_macro: bool,
    pub is_macro_nonterminal: bool,
}

/// The flags at the start of a classification: all clear.
pub open spec fn spec_flags_init() -> ClassifierFlags {
    ClassifierFlags { is_attribute: false, is_macro: false, is_macro_nonterminal: false }
}

/// The category the rule table gives the token at `i`.
pub open spec fn spec_category_at(
    src: Seq<char>,
    toks: Seq<Token>,
    i: int,
    f: ClassifierFlags,
) -> Category {
    spec_token_category(
        toks[i].kind,
        spec_token_text(src, toks[i]),
        spec_adjacent(toks, i),
        spec_peek_kind(toks, i) == Some(TokenKind::Ident),
        spec_peek_kind(toks, i) == Some(TokenKind::Not),
        f.is_macro,
        f.is_macro_nonterminal,
    )
}

/// The parts the token at `i` contributes: `#` opens an attribute span
/// and `]` closes an open one, each without a `Text` event of its own;
/// every other token is one `Text` event.
pub open spec fn spec_token_parts(
    src: Seq<char>,
    toks: Seq<Token>,
    i: int,
    f: ClassifierFlags,
) -> Seq<PartView> {
    let t = toks[i];
    if t.kind == TokenKind::Pound {
        seq![PartView::Start(Category::Attribute)]
    } else if t.kind == TokenKind::RBracket && f.is_attribute {
        seq![PartView::End(Category::Attribute)]
    } else {
        seq![PartView::Text(spec_category_at(src, toks, i, f), spec_token_text(src, toks[i]))]
    }
}

/// The flags after the token at `i`.
pub open spec fn spec_step_flags(
    src: Seq<char>,
    toks: Seq<Token>,
    i: int,
    f: ClassifierFlags,
) -> ClassifierFlags {
    let t = toks[i];
    let cat = spec_category_at(src, toks, i, f);
    ClassifierFlags {
        is_attribute: spec_next_attr(t.kind, f.is_attribute),
        is_macro: spec_next_macro(t.kind, cat, f.is_macro),
        is_macro_nonterminal: spec_next_nonterminal(
            t.kind,
            cat,
            spec_peek_kind(toks, i) == Some(TokenKind::Ident),
            f.is_macro_nonterminal,
        ),
    }
}

/// The classifier from token `i` on, with the cursor at `last` and the
/// carried flags: emits the gap before each token, then the token's own
/// parts, and flushes the trailing gap at the end of the stream.
pub open spec fn spec_classify_from(
    src: Seq<char>,
    toks: Seq<Token>,
    i: int,
    last: int,
    f: ClassifierFlags,
) -> Seq<PartView>
    decreases toks.len() - i,
{
    if i < 0 || i >= toks.len() {
        spec_gap_parts(src, last, src.len() as int)
    } else {
        spec_gap_parts(src, last, toks[i].lo as int) + spec_token_parts(src, toks, i, f)
            + spec_classify_from(
            src,
            toks,
            i + 1,
            toks[i].hi as int,
            spec_step_flags(src, toks, i, f),
        )
    }
}

/// The whole classification of a source text under its token stream.
pub open spec fn spec_highlight(src: Seq<char>, toks: Seq<Token>) -> Seq<PartView> {
    spec_classify_from(src, toks, 0, 0, spec_flags_init())
}

/// Whether a string slice contains a character.
pub fn contains_char(s: &str, c: char) -> (r: bool)
    ensures
        r == s@.contains(c),
{
    let n = s.unicode_len();
    let mut i: usize = 0;
    while i < n
        invariant
            n == s@.len(),
            i <= n,
            forall|j: int| 0 <= j < i ==> s@[j] != c,
        decreases n - i,
    {
        if s.get_char(i) == c {
            assert(s@.contains(c));
            return true;
        }
        i = i + 1;
    }
    assert(!s@.contains(c));
    false
}

pub(crate) proof fn lemma_seq_add_assoc<A>(a: Seq<A>, b: Seq<A>, c: Seq<A>)
    ensures
        (a + b) + c == a + (b + c),
{
    assert((a + b) + c =~= a + (b + c));
}

proof fn lemma_parts_view_push(s: Seq<Part>, p: Part)
    ensures
        parts_view(s.push(p)) == parts_view(s) + seq![p@],
{
    assert(parts_view(s.push(p)) =~= parts_view(s) + seq![p@]);
}

/// One classifier step: emits the gap before the token at `i` and the
/// token's own parts, and returns the flags carried to the next token.
fn classify_step(
    src: &str,
    tokens: &Vec<Token>,
    i: usize,
    last: usize,
    flags: ClassifierFlags,
    parts: &mut Vec<Part>,
) -> (f2: ClassifierFlags)
    requires
        spec_tokens_wf(src@, tokens@),
        i < tokens@.len(),
        last <= tokens@[i as int].lo,
    ensures
        parts_view(final(parts)@) == parts_view(old(parts)@) + spec_gap_parts(
            src@,
            last as int,
            tokens@[i as int].lo as int,
        ) + spec_token_parts(src@, tokens@, i as int, flags),
        f2 == spec_step_flags(src@, tokens@, i as int, flags),
{
    let ghost parts0 = parts@;
    let t = tokens[i];
    if last < t.lo {
        let snip = src.substring_char(last, t.lo);
        let cat = if contains_char(snip, '/') {
            Category::Comment
        } else {
            Category::Normal
        };
        let p = Part::Text(cat, snip.to_owned());
        let ghost pg = p;
        parts.push(p);
        proof {
            lemma_parts_view_push(parts0, pg);
        }
    }
    proof {
        assert(parts_view(parts@) =~= parts_view(parts0) + spec_gap_parts(
            src@,
            last as int,
            t.lo as int,
        ));
    }
    let ghost parts1 = parts@;
    let mut f2 = flags;
    let n = tokens.len();
    let peek_ident = i + 1 < n && tokens[i + 1].kind == TokenKind::Ident;
    let peek_not = i + 1 < n && tokens[i + 1].kind == TokenKind::Not;
    let adjacent = i + 1 < n && tokens[i + 1].lo == t.hi;
    if t.kind == TokenKind::Pound {
        let p = Part::Start(Category::Attribute);
        let ghost pg = p;
        parts.push(p);
        f2.is_attribute = true;
        proof {
            lemma_parts_view_push(parts1, pg);
        }
    } else if t.kind == TokenKind::RBracket && flags.is_attribute {
        let p = Part::End(Category::Attribute);
        let ghost pg = p;
        parts.push(p);
        f2.is_attribute = false;
        proof {
            lemma_parts_view_push(parts1, pg);
        }
    } else {
        let snip = src.substring_char(t.lo, t.hi);
        let cat = token_category(
            t.kind,
            snip,
            adjacent,
            peek_ident,
            peek_not,
            flags.is_macro,
            flags.is_macro_nonterminal,
        );
        if t.kind == TokenKind::Not {
            f2.is_macro = false;
        } else if t.kind == TokenKind::Ident {
            if cat == Category::Macro {
                f2.is_macro = true;
            }
            if cat == Category::MacroNonterminal {
                f2.is_macro_nonterminal = false;
            }
        } else if t.kind == TokenKind::Dollar {
            if peek_ident {
                f2.is_macro_nonterminal = true;
            }
        }
        let p = Part::Text(cat, snip.to_owned());
        let ghost pg = p;
        parts.push(p);
        proof {
            lemma_parts_view_push(parts1, pg);
        }
    }
    proof {
        assert(adjacent == spec_adjacent(tokens@, i as int));
        assert(peek_ident == (spec_peek_kind(tokens@, i as int) == Some(TokenKind::Ident)));
        assert(peek_not == (spec_peek_kind(tokens@, i as int) == Some(TokenKind::Not)));
        assert(f2 == spec_step_flags(src@, tokens@, i as int, flags));
        assert(parts_view(parts@) =~= parts_view(parts0) + spec_gap_parts(
            src@,
            last as int,
            t.lo as int,
        ) + spec_token_parts(src@, tokens@, i as int, flags));
    }
    f2
}

/// Classifies a source text given its token stream: the original text
/// re-emerges as `Text` events, split at token boundaries and tagged, and
/// attribute spans become `Start`/`End` events around their tokens.
pub fn highlight(src: &str, tokens: &Vec<Token>) -> (parts: Vec<Part>)
    requires
        spec_tokens_wf(src@, tokens@),
    ensures
        parts_view(parts@) == spec_highlight(src@, tokens@),
{
    let mut parts: Vec<Part> = Vec::new();
    do_highlight(src, tokens, &mut parts);
    proof {
        assert(parts_view(Seq::<Part>::empty()) + spec_highlight(src@, tokens@) =~= spec_highlight(
            src@,
            tokens@,
        ));
    }
    parts
}

/// Classifies a source text, appending the parts to `parts`.
#[verifier::rlimit(50)]
pub fn do_highlight(src: &str, tokens: &Vec<Token>, parts: &mut Vec<Part>)
    requires
        spec_tokens_wf(src@, tokens@),
    ensures
        parts_view(final(parts)@) == parts_view(old(parts)@) + spec_highlight(src@, tokens@),
{
    let srclen = src.unicode_len();
    let mut last: usize = 0;
    let mut flags = ClassifierFlags {
        is_attribute: false,
        is_macro: false,
        is_macro_nonterminal: false,
    };
    let mut i: usize = 0;
    while i < tokens.len()
        invariant
            spec_tokens_wf(src@, tokens@),
            src@.len() == srclen,
            i <= tokens@.len(),
            last <= srclen,
            i < tokens@.len() ==> last <= tokens@[i as int].lo,
            parts_view(parts@) + spec_classify_from(
                src@,
                tokens@,
                i as int,
                last as int,
                flags,
            ) == parts_view(old(parts)@) + spec_highlight(src@, tokens@),
        decreases tokens@.len() - i,
    {
        let ghost parts0 = parts@;
        let ghost last0 = last as int;
        let ghost i0 = i as int;
        let ghost f0 = flags;
        let t = tokens[i];
        flags = classify_step(src, tokens, i, last, flags, parts);
        proof {
            assert(spec_classify_from(src@, tokens@, i0, last0, f0) == spec_gap_parts(
                src@,
                last0,
                t.lo as int,
            ) + spec_token_parts(src@, tokens@, i0, f0) + spec_classify_from(
                src@,
                tokens@,
                i0 + 1,
                t.hi as int,
                spec_step_flags(src@, tokens@, i0, f0),
            ));
            let g = spec_gap_parts(src@, last0, t.lo as int);
            let tp = spec_token_parts(src@, tokens@, i0, f0);
            let rest = spec_classify_from(
                src@,
                tokens@,
                i0 + 1,
                t.hi as int,
                spec_step_flags(src@, tokens@, i0, f0),
            );
            lemma_seq_add_assoc(parts_view(parts0), g, tp);
            lemma_seq_add_assoc(parts_view(parts0) + g, tp, rest);
            lemma_seq_add_assoc(parts_view(parts0), g + tp, rest);
            lemma_seq_add_assoc(g, tp, rest);
            assert(parts_view(parts@) + spec_classify_from(
                src@,
                tokens@,
                i0 + 1,
                t.hi as int,
                flags,
            ) == parts_view(parts0) + spec_classify_from(src@, tokens@, i0, last0, f0));
        }
        last = t.hi;
        i = i + 1;
    }
    if last < srclen {
        let ghost parts0 = parts@;
        let snip = src.substring_char(last, srclen);
        let cat = if contains_char(snip, '/') {
            Category::Comment
        } else {
            Category::Normal
        };
        let p = Part::Text(cat, snip.to_owned());
        let ghost pg = p;
        parts.push(p);
        proof {
            lemma_parts_view_push(parts0, pg);
            assert(parts_view(parts@) =~= parts_view(parts0) + spec_gap_parts(
                src@,
                last as int,
                srclen as int,
            ));
        }
    } else {
        proof {
            assert(parts_view(parts@) + Seq::<PartView>::empty() =~= parts_view(parts@));
        }
    }
}

/// The literal text one part carries: the snippet of a `Text` leaf,
/// nothing for `Start` and `End`.
pub open spec fn text_of(p: PartView) -> Seq<char> {
    match p {
        PartView::Text(_, s) => s,
        _ => Seq::empty(),
    }
}

/// The concatenation of every literal snippet carried by `Text` events,
/// in emission order.
pub open spec fn text_concat(parts: Seq<PartView>) -> Seq<char>
    decreases parts.len(),
{
    if parts.len() == 0 {
        Seq::empty()
    } else {
        text_of(parts[0]) + text_concat(parts.drop_first())
    }
}

proof fn lemma_text_concat_single(p: PartView)
    ensures
        text_concat(seq![p]) == text_of(p),
{
    let s1 = seq![p];
    assert(s1.drop_first() =~= Seq::<PartView>::empty());
    assert(text_concat(Seq::<PartView>::empty()) == Seq::<char>::empty());
    assert(text_of(p) + Seq::<char>::empty() =~= text_of(p));
}

proof fn lemma_text_concat_add(a: Seq<PartView>, b: Seq<PartView>)
    ensures
        text_concat(a + b) == text_concat(a) + text_concat(b),
    decreases a.len(),
{
    if a.len() == 0 {
        assert(a + b =~= b);
        assert(text_concat(a) + text_concat(b) =~= text_concat(b));
    } else {
        assert((a + b).drop_first() =~= a.drop_first() + b);
        lemma_text_concat_add(a.drop_first(), b);
        lemma_seq_add_assoc(text_of(a[0]), text_concat(a.drop_first()), text_concat(b));
        assert((a + b)[0] == a[0]);
    }
}

#[verifier::rlimit(50)]
proof fn lemma_reconstruct_from(
    src: Seq<char>,
    toks: Seq<Token>,
    i: int,
    last: int,
    f: ClassifierFlags,
)
    requires
        spec_tokens_wf(src, toks),
        0 <= i <= toks.len(),
        0 <= last <= src.len(),
        i < toks.len() ==> last <= toks[i].lo,
        !f.is_attribute,
        forall|j: int| i <= j < toks.len() ==> (#[trigger] toks[j]).kind != TokenKind::Pound,
    ensures
        text_concat(spec_classify_from(src, toks, i, last, f)) == src.subrange(
            last,
            src.len() as int,
        ),
    decreases toks.len() - i,
{
    if i >= toks.len() {
        if last < src.len() {
            let s = src.subrange(last, src.len() as int);
            lemma_text_concat_single(PartView::Text(spec_gap_category(s), s));
        } else {
            assert(src.subrange(last, src.len() as int) =~= Seq::<char>::empty());
        }
    } else {
        let t = toks[i];
        let g = spec_gap_parts(src, last, t.lo as int);
        let tp = spec_token_parts(src, toks, i, f);
        let f2 = spec_step_flags(src, toks, i, f);
        let rest = spec_classify_from(src, toks, i + 1, t.hi as int, f2);
        assert(!f2.is_attribute);
        lemma_reconstruct_from(src, toks, i + 1, t.hi as int, f2);
        lemma_text_concat_add(g + tp, rest);
        lemma_text_concat_add(g, tp);
        assert(text_concat(g) == src.subrange(last, t.lo as int)) by {
            if last < t.lo {
                let s = src.subrange(last, t.lo as int);
                lemma_text_concat_single(PartView::Text(spec_gap_category(s), s));
            } else {
                assert(src.subrange(last, t.lo as int) =~= Seq::<char>::empty());
            }
        }
        assert(text_concat(tp) == spec_token_text(src, t)) by {
            assert(tp =~= seq![
                PartView::Text(spec_category_at(src, toks, i, f), spec_token_text(src, t)),
            ]);
            lemma_text_concat_single(
                PartView::Text(spec_category_at(src, toks, i, f), spec_token_text(src, t)),
            );
        }
        assert((src.subrange(last, t.lo as int) + src.subrange(t.lo as int, t.hi as int))
            + src.subrange(t.hi as int, src.len() as int) =~= src.subrange(
            last,
            src.len() as int,
        ));
    }
}

/// Text-reconstruction law: concatenating every literal snippet carried
/// by `Text` events, in order, reproduces the source text exactly — for
/// any token stream without the attribute sigil `#`. (That sigil, and the
/// `]` that closes the span it opens, are consumed structurally: their
/// glyphs re-emerge in the backends, not in the event text.)
#[verifier::rlimit(50)]
pub proof fn lemma_text_reconstruction(src: Seq<char>, toks: Seq<Token>)
    requires
        spec_tokens_wf(src, toks),
        forall|j: int| 0 <= j < toks.len() ==> (#[trigger] toks[j]).kind != TokenKind::Pound,
    ensures
        text_concat(spec_highlight(src, toks)) == src,
{
    lemma_reconstruct_from(src, toks, 0, 0, spec_flags_init());
    assert(src.subrange(0, src.len() as int) =~= src);
}

/// One delimiter event: `Start` and `End` parts map to one each, and a
/// `Text` leaf is equivalent to an `Open` at once followed by a `Close`.
pub enum Tag {
    Open(Category),
    Close(Category),
}

/// The delimiter events of one part.
pub open spec fn tags_of_part(p: PartView) -> Seq<Tag> {
    match p {
        PartView::Start(c) => seq![Tag::Open(c)],
        PartView::End(c) => seq![Tag::Close(c)],
        PartView::Text(c, _) => seq![Tag::Open(c), Tag::Close(c)],
    }
}

/// The delimiter events of a part stream, `Text` leaves unwrapped.
pub open spec fn tags_of(parts: Seq<PartView>) -> Seq<Tag>
    decreases parts.len(),
{
    if parts.len() == 0 {
        Seq::empty()
    } else {
        tags_of_part(parts[0]) + tags_of(parts.drop_first())
    }
}

proof fn lemma_tags_of_single(p: PartView)
    ensures
        tags_of(seq![p]) == tags_of_part(p),
{
    let s1 = seq![p];
    assert(s1.drop_first() =~= Seq::<PartView>::empty());
    assert(tags_of(Seq::<PartView>::empty()) == Seq::<Tag>::empty());
    assert(tags_of_part(p) + Seq::<Tag>::empty() =~= tags_of_part(p));
}

proof fn lemma_run_open_close(c: Category, stack: Seq<Category>)
    ensures
        run_tags(seq![Tag::Open(c), Tag::Close(c)], stack) == Some(stack),
{
    let tags = seq![Tag::Open(c), Tag::Close(c)];
    let st2 = stack.push(c);
    assert(tags.drop_first() =~= seq![Tag::Close(c)]);
    assert(run_tags(tags, stack) == run_tags(seq![Tag::Close(c)], st2));
    assert(st2.len() > 0 && st2.last() == c);
    assert(seq![Tag::Close(c)].drop_first() =~= Seq::<Tag>::empty());
    assert(run_tags(seq![Tag::Close(c)], st2) == run_tags(Seq::<Tag>::empty(), st2.drop_last()));
    assert(run_tags(Seq::<Tag>::empty(), st2.drop_last()) == Some(st2.drop_last()));
    assert(st2.drop_last() =~= stack);
}

proof fn lemma_run_single_open(c: Category, stack: Seq<Category>)
    ensures
        run_tags(seq![Tag::Open(c)], stack) == Some(stack.push(c)),
{
    let tags = seq![Tag::Open(c)];
    assert(tags.drop_first() =~= Seq::<Tag>::empty());
    assert(run_tags(tags, stack) == run_tags(Seq::<Tag>::empty(), stack.push(c)));
}

proof fn lemma_run_single_close(c: Category, stack: Seq<Category>)
    requires
        stack.len() > 0,
        stack.last() == c,
    ensures
        run_tags(seq![Tag::Close(c)], stack) == Some(stack.drop_last()),
{
    let tags = seq![Tag::Close(c)];
    assert(tags.drop_first() =~= Seq::<Tag>::empty());
    assert(run_tags(tags, stack) == run_tags(Seq::<Tag>::empty(), stack.drop_last()));
}

/// Runs the delimiter events over a stack of open categories: `Open`
/// pushes; `Close` matches the innermost open category and pops, and
/// fails on a mismatch or an empty stack.
pub open spec fn run_tags(tags: Seq<Tag>, stack: Seq<Category>) -> Option<Seq<Category>>
    decreases tags.len(),
{
    if tags.len() == 0 {
        Some(stack)
    } else {
        match tags[0] {
            Tag::Open(c) => run_tags(tags.drop_first(), stack.push(c)),
            Tag::Close(c) => if stack.len() > 0 && stack.last() == c {
                run_tags(tags.drop_first(), stack.drop_last())
            } else {
                None
            },
        }
    }
}

/// A part stream is well nested when every `Close` matches the innermost
/// unmatched `Open` of the same category and the stack is empty at the
/// end of the stream.
pub open spec fn spec_well_nested(parts: Seq<PartView>) -> bool {
    run_tags(tags_of(parts), Seq::empty()) == Some(Seq::<Category>::empty())
}

proof fn lemma_tags_of_add(a: Seq<PartView>, b: Seq<PartView>)
    ensures
        tags_of(a + b) == tags_of(a) + tags_of(b),
    decreases a.len(),
{
    if a.len() == 0 {
        assert(a + b =~= b);
        assert(tags_of(a) + tags_of(b) =~= tags_of(b));
    } else {
        assert((a + b).drop_first() =~= a.drop_first() + b);
        lemma_tags_of_add(a.drop_first(), b);
        lemma_seq_add_assoc(tags_of_part(a[0]), tags_of(a.drop_first()), tags_of(b));
        assert((a + b)[0] == a[0]);
    }
}

proof fn lemma_run_tags_add(a: Seq<Tag>, b: Seq<Tag>, stack: Seq<Category>)
    ensures
        run_tags(a + b, stack) == (match run_tags(a, stack) {
            Some(s) => run_tags(b, s),
            None => None,
        }),
    decreases a.len(),
{
    if a.len() == 0 {
        assert(a + b =~= b);
    } else {
        assert((a + b).drop_first() =~= a.drop_first() + b);
        assert((a + b)[0] == a[0]);
        match a[0] {
            Tag::Open(c) => {
                lemma_run_tags_add(a.drop_first(), b, stack.push(c));
            },
            Tag::Close(c) => {
                if stack.len() > 0 && stack.last() == c {
                    lemma_run_tags_add(a.drop_first(), b, stack.drop_last());
                }
            },
        }
    }
}

/// Attribute spans open and close properly from token `i` on, with an
/// attribute span open when `attr` holds: no `#` inside an open span,
/// and no span left open at the end of the stream.
pub open spec fn spec_attrs_ok_from(toks: Seq<Token>, i: int, attr: bool) -> bool
    decreases toks.len() - i,
{
    if i < 0 || i >= toks.len() {
        !attr
    } else {
        match toks[i].kind {
            TokenKind::Pound => !attr && spec_attrs_ok_from(toks, i + 1, true),
            TokenKind::RBracket => spec_attrs_ok_from(toks, i + 1, false),
            _ => spec_attrs_ok_from(toks, i + 1, attr),
        }
    }
}

/// Attribute spans of the whole token stream open and close properly:
/// every `#` is followed by a `]` before the next `#`, and none is left
/// unclosed.
pub open spec fn spec_attrs_balanced(toks: Seq<Token>) -> bool {
    spec_attrs_ok_from(toks, 0, false)
}

/// The open categories that correspond to the attribute flag.
pub open spec fn spec_flag_stack(attr: bool) -> Seq<Category> {
    if attr {
        seq![Category::Attribute]
    } else {
        Seq::empty()
    }
}

proof fn lemma_nested_from(src: Seq<char>, toks: Seq<Token>, i: int, last: int, f: ClassifierFlags)
    requires
        0 <= i,
        spec_attrs_ok_from(toks, i, f.is_attribute),
    ensures
        run_tags(tags_of(spec_classify_from(src, toks, i, last, f)), spec_flag_stack(f.is_attribute))
            == Some(Seq::<Category>::empty()),
    decreases toks.len() - i,
{
    let st = spec_flag_stack(f.is_attribute);
    if i >= toks.len() {
        let parts = spec_classify_from(src, toks, i, last, f);
        assert(!f.is_attribute);
        if last < src.len() {
            let s = src.subrange(last, src.len() as int);
            let c = spec_gap_category(s);
            assert(parts =~= seq![PartView::Text(c, s)]);
            lemma_tags_of_single(PartView::Text(c, s));
            lemma_run_open_close(c, st);
        } else {
            assert(tags_of(parts) =~= Seq::<Tag>::empty());
        }
    } else {
        let t = toks[i];
        let g = spec_gap_parts(src, last, t.lo as int);
        let tp = spec_token_parts(src, toks, i, f);
        let f2 = spec_step_flags(src, toks, i, f);
        let rest = spec_classify_from(src, toks, i + 1, t.hi as int, f2);
        lemma_nested_from(src, toks, i + 1, t.hi as int, f2);
        lemma_tags_of_add(g + tp, rest);
        lemma_tags_of_add(g, tp);
        lemma_run_tags_add(tags_of(g) + tags_of(tp), tags_of(rest), st);
        lemma_run_tags_add(tags_of(g), tags_of(tp), st);
        assert(run_tags(tags_of(g), st) == Some(st)) by {
            if last < t.lo {
                let s = src.subrange(last, t.lo as int);
                let c = spec_gap_category(s);
                assert(g =~= seq![PartView::Text(c, s)]);
                lemma_tags_of_single(PartView::Text(c, s));
                lemma_run_open_close(c, st);
            } else {
                assert(tags_of(g) =~= Seq::<Tag>::empty());
            }
        }
        assert(run_tags(tags_of(tp), st) == Some(spec_flag_stack(f2.is_attribute))) by {
            if t.kind == TokenKind::Pound {
                assert(tp =~= seq![PartView::Start(Category::Attribute)]);
                lemma_tags_of_single(PartView::Start(Category::Attribute));
                assert(!f.is_attribute);
                lemma_run_single_open(Category::Attribute, st);
                assert(st.push(Category::Attribute) =~= spec_flag_stack(true));
            } else if t.kind == TokenKind::RBracket && f.is_attribute {
                assert(tp =~= seq![PartView::End(Category::Attribute)]);
                lemma_tags_of_single(PartView::End(Category::Attribute));
                assert(st.len() > 0 && st.last() == Category::Attribute);
                lemma_run_single_close(Category::Attribute, st);
                assert(st.drop_last() =~= spec_flag_stack(false));
            } else {
                let c = spec_category_at(src, toks, i, f);
                assert(tp =~= seq![PartView::Text(c, spec_token_text(src, t))]);
                lemma_tags_of_single(PartView::Text(c, spec_token_text(src, t)));
                lemma_run_open_close(c, st);
                assert(f2.is_attribute == f.is_attribute);
            }
        }
    }
}

/// Nesting law: with balanced attribute spans in the token stream, the
/// classifier's event stream is well nested — every `End` closes the
/// innermost unmatched `Start` of its category (with each `Text` leaf
/// unwrapped into a `Start` and an `End`), and no region stays open at
/// the end of the stream.
pub proof fn lemma_nesting(src: Seq<char>, toks: Seq<Token>)
    requires
        spec_attrs_balanced(toks),
    ensures
        spec_well_nested(spec_highlight(src, toks)),
{
    lemma_nested_from(src, toks, 0, 0, spec_flags_init());
}

} // verus!
