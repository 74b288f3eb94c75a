//! The HTML backend: wraps every decorated category in a `span` tag,
//! inline-colored from the color table or carrying the category name as
//! a class, and escapes the five markup metacharacters in leaf text.

use vstd::prelude::*;
use vstd::string::*;

use crate::classifier::lemma_seq_add_assoc;
use crate::classifier::spec_category_name;
use crate::classifier::Category;
use crate::colors::spec_color;
use crate::colors::spec_color_table_keys;

verus! {

/// What one character of leaf text becomes: `&`, `<`, `>`, `"` and `'`
/// turn into their character references, everything else stands as is.
pub open spec fn spec_html_escape_char(c: char) -> Seq<char> {
    if c == '&' {
        "&amp;"@
    } else if c == '<' {
        "&lt;"@
    } else if c == '>' {
        "&gt;"@
    } else if c == '"' {
        "&quot;"@
    } else if c == '\'' {
        "&#39;"@
    } else {
        seq![c]
    }
}

/// HTML-escaped text: each character replaced by its escape.
pub open spec fn spec_html_escape(s: Seq<char>) -> Seq<char>
    decreases s.len(),
{
    if s.len() == 0 {
        Seq::empty()
    } else {
        spec_html_escape_char(s[0]) + spec_html_escape(s.drop_first())
    }
}

/// Escapes `&`, `<`, `>`, `"` and `'` for HTML output.
pub fn escape_html(text: &str) -> (r: String)
    ensures
        r@ == spec_html_escape(text@),
{
    let n = text.unicode_len();
    let mut out = String::new();
    let mut i: usize = 0;
    proof {
        assert(text@.subrange(0, n as int) =~= text@);
        assert(Seq::<char>::empty() + spec_html_escape(text@) =~= spec_html_escape(text@));
    }
    while i < n
        invariant
            n == text@.len(),
            i <= n,
            spec_html_escape(text@) == out@ + spec_html_escape(
                text@.subrange(i as int, n as int),
            ),
        decreases n - i,
    {
        let ghost out0 = out@;
        let ghost suffix = text@.subrange(i as int, n as int);
        let c = text.get_char(i);
        if c == '&' {
            out.append("&amp;");
        } else if c == '<' {
            out.append("&lt;");
        } else if c == '>' {
            out.append("&gt;");
        } else if c == '"' {
            out.append("&quot;");
        } else if c == '\'' {
            out.append("&#39;");
        } else {
            let one = text.substring_char(i, i + 1);
            out.append(one);
        }
        proof {
            assert(suffix.drop_first() =~= text@.subrange(i + 1 as int, n as int));
            assert(text@.subrange(i as int, i + 1 as int) =~= seq![text@[i as int]]);
            assert(out@ == out0 + spec_html_escape_char(suffix[0]));
            lemma_seq_add_assoc(
                out0,
                spec_html_escape_char(suffix[0]),
                spec_html_escape(suffix.drop_first()),
            );
        }
        i = i + 1;
    }
    proof {
        assert(text@.subrange(n as int, n as int) =~= Seq::<char>::empty());
        assert(out@ + Seq::<char>::empty() =~= out@);
    }
    out
}

/// What `start` emits: for a decorated category an opening `span` tag,
/// carrying the category name as a class or the table color as an inline
/// style (or no attribute at all without a table entry), and after the
/// tag a literal `#` glyph for the `attribute` category.
pub open spec fn spec_html_start(use_classes: bool, c: Category) -> Seq<char> {
    (if c == Category::Unstyled || c == Category::Normal {
        Seq::<char>::empty()
    } else {
        "<span"@ + (if use_classes {
            " class=\""@ + spec_category_name(c) + "\""@
        } else {
            match spec_color(c) {
                Some(col) => " style=\"color: #"@ + col + ";\""@,
                None => Seq::<char>::empty(),
            }
        }) + ">"@
    }) + (if c == Category::Attribute {
        "#"@
    } else {
        Seq::<char>::empty()
    })
}

/// What `end` emits: a literal `]` glyph for the `attribute` category,
/// then the closing tag for every decorated category.
pub open spec fn spec_html_end(c: Category) -> Seq<char> {
    (if c == Category::Attribute {
        "]"@
    } else {
        Seq::<char>::empty()
    }) + (if c == Category::Unstyled || c == Category::Normal {
        Seq::<char>::empty()
    } else {
        "</span>"@
    })
}

/// One style rule of the header, for a category of the color table.
pub open spec fn spec_html_style_rule(c: Category) -> Seq<char> {
    "    pre.rust ."@ + spec_category_name(c) + " { color: #"@ + spec_color(c).unwrap() + "; }\n"@
}

/// The style rules of the header, one per color table entry.
pub open spec fn spec_html_style_rules(keys: Seq<Category>) -> Seq<char>
    decreases keys.len(),
{
    if keys.len() == 0 {
        Seq::empty()
    } else {
        spec_html_style_rule(keys[0]) + spec_html_style_rules(keys.drop_first())
    }
}

/// What `header` emits: a style block with one rule per color table
/// entry when classes are in use, nothing otherwise.
pub open spec fn spec_html_header(use_classes: bool) -> Seq<char> {
    if use_classes {
        "<style>\n"@ + spec_html_style_rules(spec_color_table_keys()) + "</style>\n"@
    } else {
        Seq::empty()
    }
}

/// The HTML backend's state: whether `start` names categories through
/// CSS classes instead of inline colors.
pub struct HtmlBackend {
    pub use_classes: bool,
}

impl HtmlBackend {
    /// A fresh backend, rendering inline colors.
    pub fn new() -> (b: HtmlBackend)
        ensures
            !b.use_classes,
    {
        HtmlBackend { use_classes: false }
    }

    /// Applies the recognized options: `use_classes` must hold a boolean
    /// literal; any other value is a configuration error naming it.
    pub fn configure(&mut self, vars: &Vec<(String, String)>) -> (r: Result<(), String>)
        ensures
            match crate::backend::spec_lookup_var(crate::backend::vars_view(vars@), "use_classes"@) {
                None => r is Ok && final(self).use_classes == old(self).use_classes,
                Some(v) => match crate::backend::spec_parse_bool(v) {
                    Some(b) => r is Ok && final(self).use_classes == b,
                    None => (r matches Err(m) && m@ == "Bad `use_classes` value: "@ + v)
                        && final(self).use_classes == old(self).use_classes,
                },
            },
    {
        match crate::backend::lookup_var(vars, "use_classes") {
            Some(value) => {
                match crate::backend::parse_bool(value.as_str()) {
                    Some(b) => {
                        self.use_classes = b;
                        Ok(())
                    },
                    None => {
                        let mut msg = String::new();
                        msg.append("Bad `use_classes` value: ");
                        msg.append(value.as_str());
                        proof {
                            assert(Seq::<char>::empty() + "Bad `use_classes` value: "@ + value@
                                =~= "Bad `use_classes` value: "@ + value@);
                        }
                        Err(msg)
                    },
                }
            },
            None => Ok(()),
        }
    }

    /// Emits the style block when classes are in use.
    pub fn header(&self, out: &mut String)
        ensures
            final(out)@ == old(out)@ + spec_html_header(self.use_classes),
    {
        if self.use_classes {
            let ghost out0 = out@;
            out.append("<style>\n");
            let table = crate::colors::get_colors();
            let mut i: usize = 0;
            proof {
                let keys = spec_color_table_keys();
                assert(keys.subrange(0, keys.len() as int) =~= keys);
                lemma_seq_add_assoc(out0, "<style>\n"@, spec_html_style_rules(keys));
            }
            while i < table.len()
                invariant
                    table@.len() == spec_color_table_keys().len(),
                    forall|j: int|
                        0 <= j < table@.len() ==> #[trigger] table@[j].0
                            == spec_color_table_keys()[j] && spec_color(table@[j].0) == Some(
                            table@[j].1@,
                        ),
                    i <= table@.len(),
                    out@ + spec_html_style_rules(spec_color_table_keys().subrange(
                        i as int,
                        table@.len() as int,
                    )) == out0 + "<style>\n"@ + spec_html_style_rules(spec_color_table_keys()),
                decreases table@.len() - i,
            {
                let ghost o0 = out@;
                let ghost keys = spec_color_table_keys();
                let ghost suffix = keys.subrange(i as int, table@.len() as int);
                let (c, col) = table[i];
                out.append("    pre.rust .");
                out.append(crate::classifier::category_name(c));
                out.append(" { color: #");
                out.append(col);
                out.append("; }\n");
                proof {
                    assert(suffix.drop_first() =~= keys.subrange(
                        i + 1 as int,
                        table@.len() as int,
                    ));
                    assert(out@ =~= o0 + spec_html_style_rule(c));
                    lemma_seq_add_assoc(
                        o0,
                        spec_html_style_rule(c),
                        spec_html_style_rules(suffix.drop_first()),
                    );
                }
                i = i + 1;
            }
            out.append("</style>\n");
            proof {
                let keys = spec_color_table_keys();
                assert(keys.subrange(keys.len() as int, keys.len() as int) =~= Seq::<
                    Category,
                >::empty());
                assert(final(out)@ =~= old(out)@ + spec_html_header(self.use_classes));
            }
        } else {
            proof {
                assert(old(out)@ + Seq::<char>::empty() =~= old(out)@);
            }
        }
    }

    /// Opens the code block.
    pub fn code_start(&self, out: &mut String)
        ensures
            final(out)@ == old(out)@ + "<pre class=\"rust\">"@,
    {
        out.append("<pre class=\"rust\">");
    }

    /// Closes the code block.
    pub fn code_end(&self, out: &mut String)
        ensures
            final(out)@ == old(out)@ + "</pre>"@,
    {
        out.append("</pre>");
    }

    /// Opens a tagged region.
    pub fn start(&self, out: &mut String, ty: Category)
        ensures
            final(out)@ == old(out)@ + spec_html_start(self.use_classes, ty),
    {
        let ghost out0 = out@;
        if !(ty == Category::Unstyled || ty == Category::Normal) {
            out.append("<span");
            if self.use_classes {
                out.append(" class=\"");
                out.append(crate::classifier::category_name(ty));
                out.append("\"");
            } else {
                match crate::colors::color_of(ty) {
                    Some(col) => {
                        out.append(" style=\"color: #");
                        out.append(col);
                        out.append(";\"");
                    },
                    None => {},
                }
            }
            out.append(">");
        }
        if ty == Category::Attribute {
            out.append("#");
        }
        proof {
            assert(out@ =~= out0 + spec_html_start(self.use_classes, ty));
        }
    }

    /// Closes a tagged region.
    pub fn end(&self, out: &mut String, ty: Category)
        ensures
            final(out)@ == old(out)@ + spec_html_end(ty),
    {
        let ghost out0 = out@;
        if ty == Category::Attribute {
            out.append("]");
        }
        if !(ty == Category::Unstyled || ty == Category::Normal) {
            out.append("</span>");
        }
        proof {
            assert(out@ =~= out0 + spec_html_end(ty));
        }
    }

    /// Emits a leaf text fragment, escaped.
    pub fn text(&self, out: &mut String, text: &str)
        ensures
            final(out)@ == old(out)@ + spec_html_escape(text@),
    {
        let escaped = escape_html(text);
        out.append(escaped.as_str());
    }
}

} // verus!
