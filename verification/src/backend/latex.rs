//! The LaTeX backend: renders each colored category through a
//! `\textcolor` command, tracks the open categories on a context stack
//! to know the category of each leaf text, re-colors comment text line
//! by line, and escapes braces and backslashes everywhere else.

use vstd::prelude::*;
use vstd::string::*;

use crate::classifier::lemma_seq_add_assoc;
use crate::classifier::spec_category_name;
use crate::classifier::Category;
use crate::colors::spec_color;
use crate::colors::spec_color_table_keys;

verus! {

/// Brace-and-backslash escaping from `esc` state: a pending backslash
/// wraps the character after it in a `\textbackslash{...}` command (so
/// a backslash that nothing follows vanishes), and every literal brace
/// gets a backslash before it.
pub open spec fn spec_latex_escape_from(s: Seq<char>, esc: bool) -> Seq<char>
    decreases s.len(),
{
    if s.len() == 0 {
        Seq::empty()
    } else {
        let c = s[0];
        (if esc {
            "\\textbackslash{"@
        } else {
            Seq::empty()
        }) + (if c == '{' || c == '}' {
            seq!['\\']
        } else {
            Seq::empty()
        }) + (if c == '\\' {
            Seq::empty()
        } else {
            seq![c]
        }) + (if esc && c != '\\' {
            seq!['}']
        } else {
            Seq::empty()
        }) + spec_latex_escape_from(s.drop_first(), c == '\\')
    }
}

/// Brace-and-backslash escaping of a whole fragment.
pub open spec fn spec_latex_escape(s: Seq<char>) -> Seq<char> {
    spec_latex_escape_from(s, false)
}

/// Escapes braces and backslashes for LaTeX output: one left-to-right
/// scan with one bit of pending-escape state.
pub fn escape_latex(text: &str) -> (r: String)
    ensures
        r@ == spec_latex_escape(text@),
{
    let n = text.unicode_len();
    let mut out = String::new();
    let mut esc = false;
    let mut i: usize = 0;
    proof {
        assert(text@.subrange(0, n as int) =~= text@);
        assert(Seq::<char>::empty() + spec_latex_escape(text@) =~= spec_latex_escape(text@));
    }
    while i < n
        invariant
            n == text@.len(),
            i <= n,
            spec_latex_escape(text@) == out@ + spec_latex_escape_from(
                text@.subrange(i as int, n as int),
                esc,
            ),
        decreases n - i,
    {
        let ghost out0 = out@;
        let was_esc = esc;
        let ghost esc0 = esc;
        let ghost suffix = text@.subrange(i as int, n as int);
        let c = text.get_char(i);
        if esc {
            out.append("\\textbackslash{");
        }
        if c == '{' || c == '}' {
            out.append("\\");
        }
        if c == '\\' {
            esc = true;
        } else {
            let one = text.substring_char(i, i + 1);
            out.append(one);
        }
        if was_esc && c != '\\' {
            out.append("}");
            esc = false;
        }
        proof {
            assert(suffix.drop_first() =~= text@.subrange(i + 1 as int, n as int));
            assert(text@.subrange(i as int, i + 1 as int) =~= seq![text@[i as int]]);
            assert(esc == (c == '\\'));
            let emitted = (if esc0 {
                "\\textbackslash{"@
            } else {
                Seq::<char>::empty()
            }) + (if c == '{' || c == '}' {
                seq!['\\']
            } else {
                Seq::<char>::empty()
            }) + (if c == '\\' {
                Seq::<char>::empty()
            } else {
                seq![c]
            }) + (if esc0 && c != '\\' {
                seq!['}']
            } else {
                Seq::<char>::empty()
            });
            assert(suffix[0] == c);
            reveal_strlit("\\");
            reveal_strlit("}");
            assert("\\"@ =~= seq!['\\']);
            assert("}"@ =~= seq!['}']);
            assert(out@ =~= out0 + emitted);
            assert(spec_latex_escape_from(suffix, esc0) == emitted + spec_latex_escape_from(
                suffix.drop_first(),
                c == '\\',
            ));
            lemma_seq_add_assoc(out0, emitted, spec_latex_escape_from(suffix.drop_first(), esc));
        }
        i = i + 1;
    }
    proof {
        assert(text@.subrange(n as int, n as int) =~= Seq::<char>::empty());
        assert(out@ + Seq::<char>::empty() =~= out@);
    }
    out
}

/// Comment re-coloring from the middle of a line: with a color for the
/// comment category, each non-empty line is wrapped in a comment-colored
/// command, opened at the line's first character and closed at its end;
/// every newline stands as it is, so the count of trailing newlines is
/// preserved exactly. `open` carries whether a wrap is open.
pub open spec fn spec_comment_from(s: Seq<char>, open: bool, has_color: bool) -> Seq<char>
    decreases s.len(),
{
    if s.len() == 0 {
        if open {
            "}"@
        } else {
            Seq::empty()
        }
    } else {
        let c = s[0];
        if c == '\n' {
            (if open {
                "}\n"@
            } else {
                "\n"@
            }) + spec_comment_from(s.drop_first(), false, has_color)
        } else {
            (if !open && has_color {
                "\\textcolor{comment}{"@
            } else {
                Seq::empty()
            }) + seq![c] + spec_comment_from(s.drop_first(), has_color, has_color)
        }
    }
}

/// Comment re-coloring of a whole fragment.
pub open spec fn spec_comment_escape(s: Seq<char>, has_color: bool) -> Seq<char> {
    spec_comment_from(s, false, has_color)
}

/// Wraps each non-empty line of a comment fragment in a comment-colored
/// command when `has_color` holds, preserving every newline.
pub fn escape_comment(text: &str, has_color: bool) -> (r: String)
    ensures
        r@ == spec_comment_escape(text@, has_color),
{
    let n = text.unicode_len();
    let mut out = String::new();
    let mut open = false;
    let mut i: usize = 0;
    proof {
        assert(text@.subrange(0, n as int) =~= text@);
        assert(Seq::<char>::empty() + spec_comment_escape(text@, has_color) =~= spec_comment_escape(
            text@,
            has_color,
        ));
    }
    while i < n
        invariant
            n == text@.len(),
            i <= n,
            spec_comment_escape(text@, has_color) == out@ + spec_comment_from(
                text@.subrange(i as int, n as int),
                open,
                has_color,
            ),
        decreases n - i,
    {
        let ghost out0 = out@;
        let ghost open0 = open;
        let ghost suffix = text@.subrange(i as int, n as int);
        let c = text.get_char(i);
        if c == '\n' {
            if open {
                out.append("}\n");
            } else {
                out.append("\n");
            }
            open = false;
        } else {
            if !open && has_color {
                out.append("\\textcolor{comment}{");
            }
            let one = text.substring_char(i, i + 1);
            out.append(one);
            open = has_color;
        }
        proof {
            assert(suffix.drop_first() =~= text@.subrange(i + 1 as int, n as int));
            assert(text@.subrange(i as int, i + 1 as int) =~= seq![text@[i as int]]);
            if suffix[0] == '\n' {
                assert(out@ =~= out0 + (if open0 {
                    "}\n"@
                } else {
                    "\n"@
                }));
            } else {
                assert(out@ =~= out0 + ((if !open0 && has_color {
                    "\\textcolor{comment}{"@
                } else {
                    Seq::<char>::empty()
                }) + seq![suffix[0]]));
            }
            assert(out@ + spec_comment_from(suffix.drop_first(), open, has_color) =~= out0
                + spec_comment_from(suffix, open0, has_color));
        }
        i = i + 1;
    }
    if open {
        out.append("}");
    }
    proof {
        assert(text@.subrange(n as int, n as int) =~= Seq::<char>::empty());
        assert(out@ =~= out@ + Seq::<char>::empty());
    }
    out
}

/// The fixed preamble of the header: verbatim environment and color
/// machinery.
pub open spec fn spec_latex_preamble() -> Seq<char> {
    "\\usepackage{xcolor}\n\\usepackage{fancyvrb}\n\\newcommand{\\VerbBar}{|}\n\\newcommand{\\VERB}{\\Verb[commandchars=\\\\\\{\\}]}\n\\DefineVerbatimEnvironment{Highlighting}{Verbatim}{commandchars=\\\\\\{\\}}\n% Add ',fontsize=\\small' for more characters per line\n\\newenvironment{Shaded}{}{}\n"@
}

/// One color definition line of the header.
pub open spec fn spec_definecolor_line(c: Category) -> Seq<char> {
    "\\definecolor{"@ + spec_category_name(c) + "}{HTML}{"@ + spec_color(c).unwrap() + "}\n"@
}

/// The color definition lines, one per color table entry.
pub open spec fn spec_definecolor_lines(keys: Seq<Category>) -> Seq<char>
    decreases keys.len(),
{
    if keys.len() == 0 {
        Seq::empty()
    } else {
        spec_definecolor_line(keys[0]) + spec_definecolor_lines(keys.drop_first())
    }
}

/// What `header` emits: the fixed preamble, then one color definition
/// per color table entry.
pub open spec fn spec_latex_header() -> Seq<char> {
    spec_latex_preamble() + spec_definecolor_lines(spec_color_table_keys())
}

/// What `start` emits: outside comments, a color command opening brace
/// for a colored category and a literal `#` for the `attribute` one.
pub open spec fn spec_latex_start(c: Category) -> Seq<char> {
    if c == Category::Comment {
        Seq::empty()
    } else {
        (match spec_color(c) {
            Some(_) => "\\textcolor{"@ + spec_category_name(c) + "}{"@,
            None => Seq::<char>::empty(),
        }) + (if c == Category::Attribute {
            "#"@
        } else {
            Seq::<char>::empty()
        })
    }
}

/// What `end` emits: outside comments, a literal `]` for the
/// `attribute` category, then the closing brace of the color command.
pub open spec fn spec_latex_end(c: Category) -> Seq<char> {
    if c == Category::Comment {
        Seq::empty()
    } else {
        (if c == Category::Attribute {
            "]"@
        } else {
            Seq::<char>::empty()
        }) + (match spec_color(c) {
            Some(_) => "}"@,
            None => Seq::<char>::empty(),
        })
    }
}

/// What `text` emits for a leaf in context `c`: comment re-coloring in
/// the `comment` context, brace-and-backslash escaping everywhere else.
pub open spec fn spec_latex_text(c: Category, s: Seq<char>) -> Seq<char> {
    if c == Category::Comment {
        spec_comment_escape(s, spec_color(Category::Comment) is Some)
    } else {
        spec_latex_escape(s)
    }
}

/// The LaTeX backend's state: the stack of currently open categories,
/// pushed on `start` and popped on `end`, read by `text` to resolve the
/// category a leaf stands in.
pub struct LatexBackend {
    pub contexts: Vec<Category>,
}

impl LatexBackend {
    /// A fresh backend with an empty context stack.
    pub fn new() -> (b: LatexBackend)
        ensures
            b.contexts@.len() == 0,
    {
        LatexBackend { contexts: Vec::new() }
    }

    /// Recognizes no options: configuration always succeeds.
    pub fn configure(&mut self, vars: &Vec<(String, String)>) -> (r: Result<(), String>)
        ensures
            r is Ok,
            final(self).contexts == old(self).contexts,
    {
        Ok(())
    }

    /// Emits the preamble and the color definitions.
    pub fn header(&self, out: &mut String)
        ensures
            final(out)@ == old(out)@ + spec_latex_header(),
    {
        let ghost out0 = out@;
        let ghost keys = spec_color_table_keys();
        out.append(
            "\\usepackage{xcolor}\n\\usepackage{fancyvrb}\n\\newcommand{\\VerbBar}{|}\n\\newcommand{\\VERB}{\\Verb[commandchars=\\\\\\{\\}]}\n\\DefineVerbatimEnvironment{Highlighting}{Verbatim}{commandchars=\\\\\\{\\}}\n% Add ',fontsize=\\small' for more characters per line\n\\newenvironment{Shaded}{}{}\n",
        );
        let table = crate::colors::get_colors();
        let mut i: usize = 0;
        proof {
            assert(keys.subrange(0, keys.len() as int) =~= keys);
            lemma_seq_add_assoc(out0, spec_latex_preamble(), spec_definecolor_lines(keys));
        }
        while i < table.len()
            invariant
                table@.len() == keys.len(),
                keys == spec_color_table_keys(),
                forall|j: int|
                    0 <= j < table@.len() ==> #[trigger] table@[j].0 == keys[j] && spec_color(
                        table@[j].0,
                    ) == Some(table@[j].1@),
                i <= keys.len(),
                out@ + spec_definecolor_lines(keys.subrange(i as int, keys.len() as int)) == out0
                    + spec_latex_header(),
            decreases keys.len() - i,
        {
            let ghost o0 = out@;
            let ghost suffix = keys.subrange(i as int, keys.len() as int);
            let (c, col) = table[i];
            out.append("\\definecolor{");
            out.append(crate::classifier::category_name(c));
            out.append("}{HTML}{");
            out.append(col);
            out.append("}\n");
            proof {
                assert(suffix.drop_first() =~= keys.subrange(i + 1 as int, keys.len() as int));
                assert(out@ =~= o0 + spec_definecolor_line(c));
                lemma_seq_add_assoc(
                    o0,
                    spec_definecolor_line(c),
                    spec_definecolor_lines(suffix.drop_first()),
                );
            }
            i = i + 1;
        }
        proof {
            assert(keys.subrange(keys.len() as int, keys.len() as int) =~= Seq::<Category>::empty());
            assert(out@ + Seq::<char>::empty() =~= out@);
        }
    }

    /// Opens the shaded highlighting environment.
    pub fn code_start(&self, out: &mut String)
        ensures
            final(out)@ == old(out)@ + "\\begin{Shaded}\n\\begin{Highlighting}[]\n"@,
    {
        out.append("\\begin{Shaded}\n\\begin{Highlighting}[]\n");
    }

    /// Closes the shaded highlighting environment.
    pub fn code_end(&self, out: &mut String)
        ensures
            final(out)@ == old(out)@ + "\\end{Highlighting}\n\\end{Shaded}\n"@,
    {
        out.append("\\end{Highlighting}\n\\end{Shaded}\n");
    }

    /// Opens a tagged region and pushes it on the context stack.
    pub fn start(&mut self, out: &mut String, ty: Category)
        ensures
            final(out)@ == old(out)@ + spec_latex_start(ty),
            final(self).contexts@ == old(self).contexts@.push(ty),
    {
        let ghost out0 = out@;
        if !(ty == Category::Comment) {
            match crate::colors::color_of(ty) {
                Some(_) => {
                    out.append("\\textcolor{");
                    out.append(crate::classifier::category_name(ty));
                    out.append("}{");
                },
                None => {},
            }
            if ty == Category::Attribute {
                out.append("#");
            }
        }
        self.contexts.push(ty);
        proof {
            assert(out@ =~= out0 + spec_latex_start(ty));
        }
    }

    /// Closes a tagged region and pops the context stack.
    pub fn end(&mut self, out: &mut String, ty: Category)
        ensures
            final(out)@ == old(out)@ + spec_latex_end(ty),
            final(self).contexts@ == (if old(self).contexts@.len() > 0 {
                old(self).contexts@.drop_last()
            } else {
                old(self).contexts@
            }),
    {
        let ghost out0 = out@;
        if !(ty == Category::Comment) {
            if ty == Category::Attribute {
                out.append("]");
            }
            match crate::colors::color_of(ty) {
                Some(_) => {
                    out.append("}");
                },
                None => {},
            }
        }
        let _ = self.contexts.pop();
        proof {
            assert(out@ =~= out0 + spec_latex_end(ty));
            if old(self).contexts@.len() > 0 {
                assert(self.contexts@ =~= old(self).contexts@.drop_last());
            }
        }
    }

    /// Emits a leaf text fragment, escaped for the category on top of
    /// the context stack; the consumer's matched `start` guarantees the
    /// stack is not empty here.
    pub fn text(&self, out: &mut String, text: &str)
        requires
            self.contexts@.len() > 0,
        ensures
            final(out)@ == old(out)@ + spec_latex_text(self.contexts@.last(), text@),
    {
        let context = self.contexts[self.contexts.len() - 1];
        let escaped = if context == Category::Comment {
            let has_color = match crate::colors::color_of(Category::Comment) {
                Some(_) => true,
                None => false,
            };
            escape_comment(text, has_color)
        } else {
            escape_latex(text)
        };
        out.append(escaped.as_str());
    }
}

/// How many times a character occurs in a sequence.
pub open spec fn spec_count_char(s: Seq<char>, c: char) -> nat
    decreases s.len(),
{
    if s.len() == 0 {
        0
    } else {
        (if s[0] == c {
            1nat
        } else {
            0nat
        }) + spec_count_char(s.drop_first(), c)
    }
}

proof fn lemma_count_char_add(a: Seq<char>, b: Seq<char>, c: char)
    ensures
        spec_count_char(a + b, c) == spec_count_char(a, c) + spec_count_char(b, c),
    decreases a.len(),
{
    if a.len() == 0 {
        assert(a + b =~= b);
    } else {
        assert((a + b).drop_first() =~= a.drop_first() + b);
        assert((a + b)[0] == a[0]);
        lemma_count_char_add(a.drop_first(), b, c);
    }
}

proof fn lemma_count_char_absent(s: Seq<char>, c: char)
    requires
        forall|i: int| 0 <= i < s.len() ==> s[i] != c,
    ensures
        spec_count_char(s, c) == 0,
    decreases s.len(),
{
    if s.len() > 0 {
        lemma_count_char_absent(s.drop_first(), c);
    }
}

proof fn lemma_count_char_single(d: char, c: char)
    ensures
        spec_count_char(seq![d], c) == (if d == c {
            1nat
        } else {
            0nat
        }),
{
    assert(seq![d].drop_first() =~= Seq::<char>::empty());
    assert(spec_count_char(Seq::<char>::empty(), c) == 0);
}

proof fn lemma_comment_pieces_newline_count()
    ensures
        spec_count_char("}"@, '\n') == 0,
        spec_count_char("}\n"@, '\n') == 1,
        spec_count_char("\n"@, '\n') == 1,
        spec_count_char("\\textcolor{comment}{"@, '\n') == 0,
{
    reveal_strlit("}");
    reveal_strlit("}\n");
    reveal_strlit("\n");
    reveal_strlit("\\textcolor{comment}{");
    assert("}"@ =~= seq!['}']);
    assert("}\n"@ =~= seq!['}', '\n']);
    assert("\n"@ =~= seq!['\n']);
    lemma_count_char_single('}', '\n');
    lemma_count_char_single('\n', '\n');
    assert("}\n"@.drop_first() =~= seq!['\n']);
    assert(spec_count_char("}\n"@, '\n') == 1) by {
        assert(spec_count_char("}\n"@, '\n') == 0 + spec_count_char(seq!['\n'], '\n'));
    }
    assert(forall|i: int|
        0 <= i < "\\textcolor{comment}{"@.len() ==> "\\textcolor{comment}{"@[i] != '\n');
    lemma_count_char_absent("\\textcolor{comment}{"@, '\n');
}

proof fn lemma_comment_count_from(s: Seq<char>, open: bool, has_color: bool)
    ensures
        spec_count_char(spec_comment_from(s, open, has_color), '\n') == spec_count_char(s, '\n'),
    decreases s.len(),
{
    lemma_comment_pieces_newline_count();
    if s.len() == 0 {
    } else {
        let c = s[0];
        if c == '\n' {
            lemma_comment_count_from(s.drop_first(), false, has_color);
            lemma_count_char_add(
                if open {
                    "}\n"@
                } else {
                    "\n"@
                },
                spec_comment_from(s.drop_first(), false, has_color),
                '\n',
            );
        } else {
            lemma_comment_count_from(s.drop_first(), has_color, has_color);
            let pre = if !open && has_color {
                "\\textcolor{comment}{"@
            } else {
                Seq::<char>::empty()
            };
            lemma_count_char_single(c, '\n');
            lemma_count_char_add(pre, seq![c], '\n');
            lemma_count_char_add(
                pre + seq![c],
                spec_comment_from(s.drop_first(), has_color, has_color),
                '\n',
            );
        }
    }
}

/// Comment re-coloring neither loses nor duplicates a newline: the
/// rendered fragment holds exactly as many newline characters as the
/// original fragment, so trailing blank lines survive bit for bit.
pub proof fn lemma_comment_newlines_preserved(s: Seq<char>, has_color: bool)
    ensures
        spec_count_char(spec_comment_escape(s, has_color), '\n') == spec_count_char(s, '\n'),
{
    lemma_comment_count_from(s, false, has_color);
}

} // verus!
