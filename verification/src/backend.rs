//! The rendering backends: each consumes the classifier's event stream
//! and renders it into its target format.

use vstd::prelude::*;
use vstd::string::*;

use crate::classifier::str_eq;

pub mod html;
pub mod json;
pub mod latex;

verus! {

/// The closed set of backend kinds.
#[derive(Clone, Copy, Debug, PartialEq, Eq, Structural)]
pub enum BackendType {
    Html,
    Json,
    Latex,
}

/// The key/value pairs of a variable list, as character sequences.
pub open spec fn vars_view(vars: Seq<(String, String)>) -> Seq<(Seq<char>, Seq<char>)> {
    vars.map_values(|p: (String, String)| (p.0@, p.1@))
}

/// The value bound to a key in a variable list: the last binding wins,
/// as each later setting of a key overrides the earlier one.
pub open spec fn spec_lookup_var(vars: Seq<(Seq<char>, Seq<char>)>, key: Seq<char>) -> Option<
    Seq<char>,
>
    decreases vars.len(),
{
    if vars.len() == 0 {
        None
    } else if vars.last().0 == key {
        Some(vars.last().1)
    } else {
        spec_lookup_var(vars.drop_last(), key)
    }
}

/// Looks a key up in a variable list; the last binding wins.
pub fn lookup_var(vars: &Vec<(String, String)>, key: &str) -> (r: Option<String>)
    ensures
        match r {
            Some(v) => spec_lookup_var(vars_view(vars@), key@) == Some(v@),
            None => spec_lookup_var(vars_view(vars@), key@) is None,
        },
{
    let mut found: Option<String> = None;
    let mut i: usize = 0;
    while i < vars.len()
        invariant
            i <= vars@.len(),
            match found {
                Some(v) => spec_lookup_var(vars_view(vars@).subrange(0, i as int), key@) == Some(
                    v@,
                ),
                None => spec_lookup_var(vars_view(vars@).subrange(0, i as int), key@) is None,
            },
        decreases vars@.len() - i,
    {
        let ghost pre = vars_view(vars@).subrange(0, i as int);
        if str_eq(vars[i].0.as_str(), key) {
            found = Some(clone_string(&vars[i].1));
        }
        proof {
            let cur = vars_view(vars@).subrange(0, i + 1 as int);
            assert(cur.drop_last() =~= pre);
            assert(cur.last() == vars_view(vars@)[i as int]);
        }
        i = i + 1;
    }
    proof {
        assert(vars_view(vars@).subrange(0, vars@.len() as int) =~= vars_view(vars@));
    }
    found
}

/// A copy of a string with the same characters.
pub fn clone_string(s: &String) -> (r: String)
    ensures
        r@ == s@,
{
    let mut r = String::new();
    r.append(s.as_str());
    proof {
        assert(Seq::<char>::empty() + s@ =~= s@);
    }
    r
}

/// The boolean a literal spells: `true` or `false`, nothing else.
pub open spec fn spec_parse_bool(s: Seq<char>) -> Option<bool> {
    if s == "true"@ {
        Some(true)
    } else if s == "false"@ {
        Some(false)
    } else {
        None
    }
}

/// Parses a boolean literal.
pub fn parse_bool(s: &str) -> (r: Option<bool>)
    ensures
        r == spec_parse_bool(s@),
{
    if str_eq(s, "true") {
        Some(true)
    } else if str_eq(s, "false") {
        Some(false)
    } else {
        None
    }
}

/// The mathematical state of a backend: which variant it is, with the
/// variant's own state.
pub enum BackendView {
    Html { use_classes: bool },
    Json(json::JsonBackendView),
    Latex(Seq<crate::classifier::Category>),
}

/// A rendering backend: one of the three variants, behind the uniform
/// capability interface the event consumer drives.
pub enum Backend {
    Html(html::HtmlBackend),
    Json(json::JsonBackend),
    Latex(latex::LatexBackend),
}

impl View for Backend {
    type V = BackendView;

    open spec fn view(&self) -> BackendView {
        match self {
            Backend::Html(h) => BackendView::Html { use_classes: h.use_classes },
            Backend::Json(j) => BackendView::Json(j@),
            Backend::Latex(l) => BackendView::Latex(l.contexts@),
        }
    }
}

/// A fresh backend of the chosen kind.
pub fn new_backend(ty: BackendType) -> (b: Backend)
    ensures
        match ty {
            BackendType::Html => b@ == (BackendView::Html { use_classes: false }),
            BackendType::Json => b@ == BackendView::Json(
                json::JsonBackendView { pretty: false, entries: Seq::empty() },
            ),
            BackendType::Latex => b@ == BackendView::Latex(
                Seq::<crate::classifier::Category>::empty(),
            ),
        },
{
    match ty {
        BackendType::Html => Backend::Html(html::HtmlBackend::new()),
        BackendType::Json => {
            let b = Backend::Json(json::JsonBackend::new());
            proof {
                assert(b@ matches BackendView::Json(j) ==> j.entries =~= Seq::<
                    json::EntryView,
                >::empty());
            }
            b
        },
        BackendType::Latex => {
            let b = Backend::Latex(latex::LatexBackend::new());
            proof {
                assert(b@ matches BackendView::Latex(st) ==> st =~= Seq::<
                    crate::classifier::Category,
                >::empty());
            }
            b
        },
    }
}

/// What configuring a backend does: each variant reads its own option
/// and rejects a malformed value with an error naming it.
pub open spec fn spec_backend_configure(b: BackendView, vars: Seq<(Seq<char>, Seq<char>)>) -> Result<
    BackendView,
    Seq<char>,
> {
    match b {
        BackendView::Html { use_classes } => match spec_lookup_var(vars, "use_classes"@) {
            None => Ok(b),
            Some(v) => match spec_parse_bool(v) {
                Some(x) => Ok(BackendView::Html { use_classes: x }),
                None => Err("Bad `use_classes` value: "@ + v),
            },
        },
        BackendView::Json(j) => match spec_lookup_var(vars, "pretty"@) {
            None => Ok(b),
            Some(v) => match spec_parse_bool(v) {
                Some(x) => Ok(
                    BackendView::Json(json::JsonBackendView { pretty: x, entries: j.entries }),
                ),
                None => Err("Bad value for pretty: "@ + v),
            },
        },
        BackendView::Latex(_) => Ok(b),
    }
}

/// What `header` emits.
pub open spec fn spec_backend_header(b: BackendView) -> Seq<char> {
    match b {
        BackendView::Html { use_classes } => html::spec_html_header(use_classes),
        BackendView::Json(j) => json::spec_colors_json(j.pretty),
        BackendView::Latex(_) => latex::spec_latex_header(),
    }
}

/// What `code_start` emits.
pub open spec fn spec_backend_code_start(b: BackendView) -> Seq<char> {
    match b {
        BackendView::Html { .. } => "<pre class=\"rust\">"@,
        BackendView::Json(_) => Seq::empty(),
        BackendView::Latex(_) => "\\begin{Shaded}\n\\begin{Highlighting}[]\n"@,
    }
}

/// What `code_end` emits: for the JSON backend, the whole buffer
/// serialized in one pass.
pub open spec fn spec_backend_code_end(b: BackendView) -> Seq<char> {
    match b {
        BackendView::Html { .. } => "</pre>"@,
        BackendView::Json(j) => if j.pretty {
            json::spec_entries_pretty(j.entries)
        } else {
            json::spec_entries_compact(j.entries)
        },
        BackendView::Latex(_) => "\\end{Highlighting}\n\\end{Shaded}\n"@,
    }
}

/// What `start` does: the backend state after it and the text it emits.
pub open spec fn spec_backend_start(b: BackendView, c: crate::classifier::Category) -> (
    BackendView,
    Seq<char>,
) {
    match b {
        BackendView::Html { use_classes } => (b, html::spec_html_start(use_classes, c)),
        BackendView::Json(j) => (
            BackendView::Json(
                json::JsonBackendView {
                    pretty: j.pretty,
                    entries: j.entries.push(
                        json::EntryView {
                            kind: json::EntryKind::Start,
                            value: crate::classifier::spec_category_name(c),
                        },
                    ),
                },
            ),
            Seq::empty(),
        ),
        BackendView::Latex(st) => (BackendView::Latex(st.push(c)), latex::spec_latex_start(c)),
    }
}

/// What `end` does: the backend state after it and the text it emits.
pub open spec fn spec_backend_end(b: BackendView, c: crate::classifier::Category) -> (
    BackendView,
    Seq<char>,
) {
    match b {
        BackendView::Html { .. } => (b, html::spec_html_end(c)),
        BackendView::Json(j) => (
            BackendView::Json(
                json::JsonBackendView {
                    pretty: j.pretty,
                    entries: j.entries.push(
                        json::EntryView {
                            kind: json::EntryKind::End,
                            value: crate::classifier::spec_category_name(c),
                        },
                    ),
                },
            ),
            Seq::empty(),
        ),
        BackendView::Latex(st) => (
            BackendView::Latex(
                if st.len() > 0 {
                    st.drop_last()
                } else {
                    st
                },
            ),
            latex::spec_latex_end(c),
        ),
    }
}

/// What `text` does: the backend state after it and the text it emits;
/// the LaTeX variant resolves the category on top of its context stack.
pub open spec fn spec_backend_text(b: BackendView, s: Seq<char>) -> (BackendView, Seq<char>) {
    match b {
        BackendView::Html { .. } => (b, html::spec_html_escape(s)),
        BackendView::Json(j) => (
            BackendView::Json(
                json::JsonBackendView {
                    pretty: j.pretty,
                    entries: j.entries.push(
                        json::EntryView { kind: json::EntryKind::Text, value: s },
                    ),
                },
            ),
            Seq::empty(),
        ),
        BackendView::Latex(st) => (
            b,
            if st.len() > 0 {
                latex::spec_latex_text(st.last(), s)
            } else {
                Seq::empty()
            },
        ),
    }
}

impl Backend {
    /// Validates and applies the options this backend recognizes.
    pub fn configure(&mut self, vars: &Vec<(String, String)>) -> (r: Result<(), String>)
        ensures
            match r {
                Ok(_) => spec_backend_configure(old(self)@, vars_view(vars@)) == Ok::<
                    BackendView,
                    Seq<char>,
                >(final(self)@),
                Err(m) => spec_backend_configure(old(self)@, vars_view(vars@)) == Err::<
                    BackendView,
                    Seq<char>,
                >(m@) && final(self)@ == old(self)@,
            },
    {
        match self {
            Backend::Html(h) => h.configure(vars),
            Backend::Json(j) => j.configure(vars),
            Backend::Latex(l) => l.configure(vars),
        }
    }

    /// Emits the format's preamble, independent of the event stream.
    pub fn header(&self, out: &mut String)
        ensures
            final(out)@ == old(out)@ + spec_backend_header(self@),
    {
        match self {
            Backend::Html(h) => h.header(out),
            Backend::Json(j) => j.header(out),
            Backend::Latex(l) => l.header(out),
        }
    }

    /// Opens the rendered block.
    pub fn code_start(&self, out: &mut String)
        ensures
            final(out)@ == old(out)@ + spec_backend_code_start(self@),
    {
        match self {
            Backend::Html(h) => h.code_start(out),
            Backend::Json(j) => j.code_start(out),
            Backend::Latex(l) => l.code_start(out),
        }
    }

    /// Closes the rendered block; the JSON backend serializes its buffer
    /// here.
    pub fn code_end(&self, out: &mut String)
        ensures
            final(out)@ == old(out)@ + spec_backend_code_end(self@),
    {
        match self {
            Backend::Html(h) => h.code_end(out),
            Backend::Json(j) => j.code_end(out),
            Backend::Latex(l) => l.code_end(out),
        }
    }

    /// Opens a tagged region.
    pub fn start(&mut self, out: &mut String, ty: crate::classifier::Category)
        ensures
            final(self)@ == spec_backend_start(old(self)@, ty).0,
            final(out)@ == old(out)@ + spec_backend_start(old(self)@, ty).1,
    {
        match self {
            Backend::Html(h) => h.start(out, ty),
            Backend::Json(j) => j.start(out, ty),
            Backend::Latex(l) => l.start(out, ty),
        }
    }

    /// Closes a tagged region.
    pub fn end(&mut self, out: &mut String, ty: crate::classifier::Category)
        ensures
            final(self)@ == spec_backend_end(old(self)@, ty).0,
            final(out)@ == old(out)@ + spec_backend_end(old(self)@, ty).1,
    {
        match self {
            Backend::Html(h) => h.end(out, ty),
            Backend::Json(j) => j.end(out, ty),
            Backend::Latex(l) => l.end(out, ty),
        }
    }

    /// Emits a leaf text fragment; for the LaTeX variant the consumer's
    /// matched `start` guarantees a non-empty context stack.
    pub fn text(&mut self, out: &mut String, text: &str)
        requires
            old(self)@ matches BackendView::Latex(st) ==> st.len() > 0,
        ensures
            final(self)@ == spec_backend_text(old(self)@, text@).0,
            final(out)@ == old(out)@ + spec_backend_text(old(self)@, text@).1,
    {
        match self {
            Backend::Html(h) => h.text(out, text),
            Backend::Json(j) => j.text(out, text),
            Backend::Latex(l) => l.text(out, text),
        }
    }
}

/// What consuming one part does: `Start` and `End` forward directly; a
/// `Text` leaf becomes the `start`, `text`, `end` triple, so every leaf
/// is wrapped by matching delimiters.
pub open spec fn spec_consume_part(b: BackendView, p: crate::classifier::PartView) -> (
    BackendView,
    Seq<char>,
) {
    match p {
        crate::classifier::PartView::Start(c) => spec_backend_start(b, c),
        crate::classifier::PartView::End(c) => spec_backend_end(b, c),
        crate::classifier::PartView::Text(c, s) => {
            let (b1, o1) = spec_backend_start(b, c);
            let (b2, o2) = spec_backend_text(b1, s);
            let (b3, o3) = spec_backend_end(b2, c);
            (b3, o1 + o2 + o3)
        },
    }
}

/// What consuming a whole part stream does.
pub open spec fn spec_consume(b: BackendView, parts: Seq<crate::classifier::PartView>) -> (
    BackendView,
    Seq<char>,
)
    decreases parts.len(),
{
    if parts.len() == 0 {
        (b, Seq::empty())
    } else {
        let (b1, o1) = spec_consume_part(b, parts[0]);
        let (b2, o2) = spec_consume(b1, parts.drop_first());
        (b2, o1 + o2)
    }
}

/// Drives a backend over a part stream: the event consumer of the
/// pipeline. The backend ends in the state, and the output grows by the
/// text, that `spec_consume` gives.
pub fn render(backend: &mut Backend, parts: &Vec<crate::classifier::Part>, out: &mut String)
    ensures
        final(backend)@ == spec_consume(
            old(backend)@,
            crate::classifier::parts_view(parts@),
        ).0,
        final(out)@ == old(out)@ + spec_consume(
            old(backend)@,
            crate::classifier::parts_view(parts@),
        ).1,
{
    let ghost pv = crate::classifier::parts_view(parts@);
    let ghost full = spec_consume(old(backend)@, pv);
    let mut i: usize = 0;
    proof {
        assert(pv.subrange(0, pv.len() as int) =~= pv);
        assert(old(out)@ + Seq::<char>::empty() =~= old(out)@);
    }
    while i < parts.len()
        invariant
            pv == crate::classifier::parts_view(parts@),
            full == spec_consume(old(backend)@, pv),
            i <= pv.len(),
            spec_consume(backend@, pv.subrange(i as int, pv.len() as int)).0 == full.0,
            out@ + spec_consume(backend@, pv.subrange(i as int, pv.len() as int)).1 == old(out)@
                + full.1,
        decreases pv.len() - i,
    {
        let ghost b0 = backend@;
        let ghost o0 = out@;
        let ghost suffix = pv.subrange(i as int, pv.len() as int);
        match &parts[i] {
            crate::classifier::Part::Start(c) => {
                backend.start(out, *c);
            },
            crate::classifier::Part::End(c) => {
                backend.end(out, *c);
            },
            crate::classifier::Part::Text(c, s) => {
                backend.start(out, *c);
                backend.text(out, s.as_str());
                backend.end(out, *c);
            },
        }
        proof {
            assert(suffix[0] == pv[i as int]);
            assert(pv[i as int] == parts@[i as int]@);
            assert(suffix.drop_first() =~= pv.subrange(i + 1 as int, pv.len() as int));
            let (b1, o1) = spec_consume_part(b0, suffix[0]);
            assert(backend@ == b1);
            assert(out@ =~= o0 + o1);
            let (b2, o2) = spec_consume(b1, suffix.drop_first());
            assert(spec_consume(b0, suffix) == (b2, o1 + o2));
            crate::classifier::lemma_seq_add_assoc(o0, o1, o2);
        }
        i = i + 1;
    }
    proof {
        assert(pv.subrange(pv.len() as int, pv.len() as int) =~= Seq::<
            crate::classifier::PartView,
        >::empty());
    }
}

/// Serialization content-format independence: two JSON backends that
/// hold the same buffer, whatever their `pretty` flags, hold the same
/// buffer again after consuming the same event stream — the same record
/// count and, record for record, the same kind and value. The flag
/// reaches only the serialized text of `code_end`, never the records.
pub proof fn lemma_pretty_content_independent(
    j1: json::JsonBackendView,
    j2: json::JsonBackendView,
    parts: Seq<crate::classifier::PartView>,
)
    requires
        j1.entries == j2.entries,
    ensures
        spec_consume(BackendView::Json(j1), parts).0 == BackendView::Json(
            json::JsonBackendView {
                pretty: j1.pretty,
                entries: json::spec_entries_after(j1.entries, parts),
            },
        ),
        spec_consume(BackendView::Json(j2), parts).0 == BackendView::Json(
            json::JsonBackendView {
                pretty: j2.pretty,
                entries: json::spec_entries_after(j2.entries, parts),
            },
        ),
        json::spec_entries_after(j1.entries, parts) == json::spec_entries_after(j2.entries, parts),
{
    lemma_json_consume(j1, parts);
    lemma_json_consume(j2, parts);
}

/// Consuming a part stream with the JSON backend only grows the buffer:
/// the state after is the same `pretty` flag with the records every part
/// appends, as `spec_entries_after` gives them.
pub proof fn lemma_json_consume(j: json::JsonBackendView, parts: Seq<crate::classifier::PartView>)
    ensures
        spec_consume(BackendView::Json(j), parts).0 == BackendView::Json(
            json::JsonBackendView {
                pretty: j.pretty,
                entries: json::spec_entries_after(j.entries, parts),
            },
        ),
    decreases parts.len(),
{
    if parts.len() == 0 {
    } else {
        let p = parts[0];
        let (b1, _) = spec_consume_part(BackendView::Json(j), p);
        let j1 = json::JsonBackendView {
            pretty: j.pretty,
            entries: j.entries + json::spec_entries_of_part(p),
        };
        assert(b1 == BackendView::Json(j1)) by {
            match p {
                crate::classifier::PartView::Start(c) => {
                    assert(j.entries + json::spec_entries_of_part(p) =~= j.entries.push(
                        json::EntryView {
                            kind: json::EntryKind::Start,
                            value: crate::classifier::spec_category_name(c),
                        },
                    ));
                },
                crate::classifier::PartView::End(c) => {
                    assert(j.entries + json::spec_entries_of_part(p) =~= j.entries.push(
                        json::EntryView {
                            kind: json::EntryKind::End,
                            value: crate::classifier::spec_category_name(c),
                        },
                    ));
                },
                crate::classifier::PartView::Text(c, s) => {
                    assert(j.entries + json::spec_entries_of_part(p) =~= j.entries.push(
                        json::EntryView {
                            kind: json::EntryKind::Start,
                            value: crate::classifier::spec_category_name(c),
                        },
                    ).push(json::EntryView { kind: json::EntryKind::Text, value: s }).push(
                        json::EntryView {
                            kind: json::EntryKind::End,
                            value: crate::classifier::spec_category_name(c),
                        },
                    ));
                },
            }
        }
        lemma_json_consume(j1, parts.drop_first());
    }
}

/// The position of the first occurrence of `c` in `s`, or the length of
/// `s` when it does not occur.
pub open spec fn spec_char_index(s: Seq<char>, c: char) -> int
    decreases s.len(),
{
    if s.len() == 0 {
        0
    } else if s[0] == c {
        0
    } else {
        1 + spec_char_index(s.drop_first(), c)
    }
}

/// Finds the first occurrence of a character.
pub fn find_char(s: &str, c: char) -> (i: usize)
    ensures
        i == spec_char_index(s@, c),
{
    let n = s.unicode_len();
    let mut i: usize = 0;
    proof {
        assert(s@.subrange(0, n as int) =~= s@);
    }
    while i < n
        invariant
            n == s@.len(),
            i <= n,
            spec_char_index(s@, c) == i + spec_char_index(s@.subrange(i as int, n as int), c),
        decreases n - i,
    {
        let ghost suffix = s@.subrange(i as int, n as int);
        if s.get_char(i) == c {
            return i;
        }
        proof {
            assert(suffix.drop_first() =~= s@.subrange(i + 1 as int, n as int));
        }
        i = i + 1;
    }
    proof {
        assert(s@.subrange(n as int, n as int) =~= Seq::<char>::empty());
    }
    i
}

/// Splits a backend variable argument at its first `=` into key and
/// value; an argument without the separator is a configuration error
/// naming it.
pub fn parse_backend_var(s: &str) -> (r: Result<(String, String), String>)
    ensures
        ({
            let i = spec_char_index(s@, '=');
            if i < s@.len() {
                r matches Ok(p) && p.0@ == s@.subrange(0, i) && p.1@ == s@.subrange(
                    i + 1,
                    s@.len() as int,
                )
            } else {
                r matches Err(m) && m@ == "Bad backend variable format: "@ + s@
            }
        }),
{
    let n = s.unicode_len();
    let i = find_char(s, '=');
    proof {
        lemma_char_index_le_len(s@, '=');
    }
    if i < n {
        let key = s.substring_char(0, i);
        let value = s.substring_char(i + 1, n);
        Ok((key.to_owned(), value.to_owned()))
    } else {
        let mut msg = String::new();
        msg.append("Bad backend variable format: ");
        msg.append(s);
        proof {
            assert(Seq::<char>::empty() + "Bad backend variable format: "@ + s@
                =~= "Bad backend variable format: "@ + s@);
        }
        Err(msg)
    }
}

proof fn lemma_char_index_le_len(s: Seq<char>, c: char)
    ensures
        0 <= spec_char_index(s, c) <= s.len(),
    decreases s.len(),
{
    if s.len() == 0 {
    } else if s[0] == c {
    } else {
        lemma_char_index_le_len(s.drop_first(), c);
    }
}

} // verus!
