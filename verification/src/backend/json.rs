//! The JSON backend: buffers every `start`/`end`/`text` call as an
//! ordered record and serializes the buffer in one pass at `code_end`,
//! compactly or pretty-printed; the `pretty` option changes whitespace
//! only, never the buffered records.

use vstd::prelude::*;
use vstd::string::*;

use crate::classifier::lemma_seq_add_assoc;
use crate::classifier::spec_category_name;
use crate::classifier::Category;
use crate::classifier::PartView;
use crate::colors::spec_color;
use crate::colors::spec_color_table_keys;

verus! {

/// Which of the three backend calls a buffered record came from.
#[derive(Clone, Copy, Debug, PartialEq, Eq, Structural)]
pub enum EntryKind {
    Start,
    End,
    Text,
}

/// The serialized name of an entry kind.
pub open spec fn spec_entry_kind_name(k: EntryKind) -> Seq<char> {
    match k {
        EntryKind::Start => "start"@,
        EntryKind::End => "end"@,
        EntryKind::Text => "text"@,
    }
}

/// The serialized name of an entry kind.
pub fn entry_kind_name(k: EntryKind) -> (r: &'static str)
    ensures
        r@ == spec_entry_kind_name(k),
{
    match k {
        EntryKind::Start => "start",
        EntryKind::End => "end",
        EntryKind::Text => "text",
    }
}

/// One buffered record: the call it came from and the category name or
/// literal text it carried.
#[derive(Clone, Debug, PartialEq, Eq)]
pub struct Entry {
    pub kind: EntryKind,
    pub value: String,
}

/// The mathematical value of an entry.
pub struct EntryView {
    pub kind: EntryKind,
    pub value: Seq<char>,
}

impl View for Entry {
    type V = EntryView;

    open spec fn view(&self) -> EntryView {
        EntryView { kind: self.kind, value: self.value@ }
    }
}

/// The sequence of entry values a vector of entries carries.
pub open spec fn entries_view(entries: Seq<Entry>) -> Seq<EntryView> {
    entries.map_values(|e: Entry| e@)
}

/// What one character becomes inside a JSON string literal.
pub open spec fn spec_json_escape_char(c: char) -> Seq<char> {
    if c == '"' {
        "\\\""@
    } else if c == '\\' {
        "\\\\"@
    } else if c == '\u{8}' {
        "\\b"@
    } else if c == '\u{c}' {
        "\\f"@
    } else if c == '\n' {
        "\\n"@
    } else if c == '\r' {
        "\\r"@
    } else if c == '\t' {
        "\\t"@
    } else {
        seq![c]
    }
}

/// JSON-escaped text: each character replaced by its escape.
pub open spec fn spec_json_escape(s: Seq<char>) -> Seq<char>
    decreases s.len(),
{
    if s.len() == 0 {
        Seq::empty()
    } else {
        spec_json_escape_char(s[0]) + spec_json_escape(s.drop_first())
    }
}

/// A JSON string literal holding `s`.
pub open spec fn spec_json_string(s: Seq<char>) -> Seq<char> {
    "\""@ + spec_json_escape(s) + "\""@
}

/// Escapes text for the inside of a JSON string literal.
pub fn escape_json(text: &str) -> (r: String)
    ensures
        r@ == spec_json_escape(text@),
{
    let n = text.unicode_len();
    let mut out = String::new();
    let mut i: usize = 0;
    proof {
        assert(text@.subrange(0, n as int) =~= text@);
        assert(Seq::<char>::empty() + spec_json_escape(text@) =~= spec_json_escape(text@));
    }
    while i < n
        invariant
            n == text@.len(),
            i <= n,
            spec_json_escape(text@) == out@ + spec_json_escape(
                text@.subrange(i as int, n as int),
            ),
        decreases n - i,
    {
        let ghost out0 = out@;
        let ghost suffix = text@.subrange(i as int, n as int);
        let c = text.get_char(i);
        if c == '"' {
            out.append("\\\"");
        } else if c == '\\' {
            out.append("\\\\");
        } else if c == '\u{8}' {
            out.append("\\b");
        } else if c == '\u{c}' {
            out.append("\\f");
        } else if c == '\n' {
            out.append("\\n");
        } else if c == '\r' {
            out.append("\\r");
        } else if c == '\t' {
            out.append("\\t");
        } else {
            let one = text.substring_char(i, i + 1);
            out.append(one);
        }
        proof {
            assert(suffix.drop_first() =~= text@.subrange(i + 1 as int, n as int));
            assert(text@.subrange(i as int, i + 1 as int) =~= seq![text@[i as int]]);
            assert(out@ == out0 + spec_json_escape_char(suffix[0]));
            lemma_seq_add_assoc(
                out0,
                spec_json_escape_char(suffix[0]),
                spec_json_escape(suffix.drop_first()),
            );
        }
        i = i + 1;
    }
    proof {
        assert(text@.subrange(n as int, n as int) =~= Seq::<char>::empty());
        assert(out@ + Seq::<char>::empty() =~= out@);
    }
    out
}

/// Appends a JSON string literal holding `s`.
fn append_json_string(out: &mut String, s: &str)
    ensures
        final(out)@ == old(out)@ + spec_json_string(s@),
{
    let ghost out0 = out@;
    out.append("\"");
    let escaped = escape_json(s);
    out.append(escaped.as_str());
    out.append("\"");
    proof {
        assert(out@ =~= out0 + spec_json_string(s@));
    }
}

/// One buffered record, serialized compactly.
pub open spec fn spec_entry_compact(e: EntryView) -> Seq<char> {
    "{\"ty\":"@ + spec_json_string(spec_entry_kind_name(e.kind)) + ",\"value\":"@
        + spec_json_string(e.value) + "}"@
}

/// The records after the first, serialized compactly.
pub open spec fn spec_entries_compact_tail(entries: Seq<EntryView>) -> Seq<char>
    decreases entries.len(),
{
    if entries.len() == 0 {
        Seq::empty()
    } else {
        ","@ + spec_entry_compact(entries[0]) + spec_entries_compact_tail(entries.drop_first())
    }
}

/// The whole buffer as one compact JSON array.
pub open spec fn spec_entries_compact(entries: Seq<EntryView>) -> Seq<char> {
    if entries.len() == 0 {
        "[]"@
    } else {
        "["@ + spec_entry_compact(entries[0]) + spec_entries_compact_tail(entries.drop_first())
            + "]"@
    }
}

/// One buffered record, pretty-printed.
pub open spec fn spec_entry_pretty(e: EntryView) -> Seq<char> {
    "  {\n    \"ty\": "@ + spec_json_string(spec_entry_kind_name(e.kind)) + ",\n    \"value\": "@
        + spec_json_string(e.value) + "\n  }"@
}

/// The records after the first, pretty-printed.
pub open spec fn spec_entries_pretty_tail(entries: Seq<EntryView>) -> Seq<char>
    decreases entries.len(),
{
    if entries.len() == 0 {
        Seq::empty()
    } else {
        ",\n"@ + spec_entry_pretty(entries[0]) + spec_entries_pretty_tail(entries.drop_first())
    }
}

/// The whole buffer as one pretty-printed JSON array.
pub open spec fn spec_entries_pretty(entries: Seq<EntryView>) -> Seq<char> {
    if entries.len() == 0 {
        "[]"@
    } else {
        "[\n"@ + spec_entry_pretty(entries[0]) + spec_entries_pretty_tail(entries.drop_first())
            + "\n]"@
    }
}

/// One color table binding, serialized compactly.
pub open spec fn spec_color_pair_compact(c: Category) -> Seq<char> {
    spec_json_string(spec_category_name(c)) + ":"@ + spec_json_string(spec_color(c).unwrap())
}

/// The color table bindings after the first, serialized compactly.
pub open spec fn spec_colors_compact_tail(keys: Seq<Category>) -> Seq<char>
    decreases keys.len(),
{
    if keys.len() == 0 {
        Seq::empty()
    } else {
        ","@ + spec_color_pair_compact(keys[0]) + spec_colors_compact_tail(keys.drop_first())
    }
}

/// One color table binding, pretty-printed.
pub open spec fn spec_color_pair_pretty(c: Category) -> Seq<char> {
    "  "@ + spec_json_string(spec_category_name(c)) + ": "@ + spec_json_string(
        spec_color(c).unwrap(),
    )
}

/// The color table bindings after the first, pretty-printed.
pub open spec fn spec_colors_pretty_tail(keys: Seq<Category>) -> Seq<char>
    decreases keys.len(),
{
    if keys.len() == 0 {
        Seq::empty()
    } else {
        ",\n"@ + spec_color_pair_pretty(keys[0]) + spec_colors_pretty_tail(keys.drop_first())
    }
}

/// The color table as one JSON object, compact or pretty-printed.
pub open spec fn spec_colors_json(pretty: bool) -> Seq<char> {
    let keys = spec_color_table_keys();
    if pretty {
        "{\n"@ + spec_color_pair_pretty(keys[0]) + spec_colors_pretty_tail(keys.drop_first())
            + "\n}"@
    } else {
        "{"@ + spec_color_pair_compact(keys[0]) + spec_colors_compact_tail(keys.drop_first())
            + "}"@
    }
}

/// The records one part event buffers: `Start` and `End` one each, and a
/// `Text` leaf the `start`, `text`, `end` triple the consumer issues.
pub open spec fn spec_entries_of_part(p: PartView) -> Seq<EntryView> {
    match p {
        PartView::Start(c) => seq![EntryView { kind: EntryKind::Start, value: spec_category_name(c) }],
        PartView::End(c) => seq![EntryView { kind: EntryKind::End, value: spec_category_name(c) }],
        PartView::Text(c, s) => seq![
            EntryView { kind: EntryKind::Start, value: spec_category_name(c) },
            EntryView { kind: EntryKind::Text, value: s },
            EntryView { kind: EntryKind::End, value: spec_category_name(c) },
        ],
    }
}

/// The buffer after consuming a part stream.
pub open spec fn spec_entries_after(entries: Seq<EntryView>, parts: Seq<PartView>) -> Seq<
    EntryView,
>
    decreases parts.len(),
{
    if parts.len() == 0 {
        entries
    } else {
        spec_entries_after(entries + spec_entries_of_part(parts[0]), parts.drop_first())
    }
}

proof fn lemma_entries_view_push(s: Seq<Entry>, e: Entry)
    ensures
        entries_view(s.push(e)) == entries_view(s) + seq![e@],
{
    assert(entries_view(s.push(e)) =~= entries_view(s) + seq![e@]);
}

/// The JSON backend's state: the `pretty` option and the buffer of
/// records taken so far.
pub struct JsonBackend {
    pub pretty: bool,
    pub entries: Vec<Entry>,
}

/// The mathematical state of the JSON backend.
pub struct JsonBackendView {
    pub pretty: bool,
    pub entries: Seq<EntryView>,
}

impl View for JsonBackend {
    type V = JsonBackendView;

    open spec fn view(&self) -> JsonBackendView {
        JsonBackendView { pretty: self.pretty, entries: entries_view(self.entries@) }
    }
}

impl JsonBackend {
    /// A fresh backend: compact output, empty buffer.
    pub fn new() -> (b: JsonBackend)
        ensures
            !b.pretty,
            b.entries@.len() == 0,
    {
        JsonBackend { pretty: false, entries: Vec::new() }
    }

    /// Applies the recognized options: `pretty` must hold a boolean
    /// literal; any other value is a configuration error naming it.
    pub fn configure(&mut self, vars: &Vec<(String, String)>) -> (r: Result<(), String>)
        ensures
            final(self).entries == old(self).entries,
            match crate::backend::spec_lookup_var(crate::backend::vars_view(vars@), "pretty"@) {
                None => r is Ok && final(self).pretty == old(self).pretty,
                Some(v) => match crate::backend::spec_parse_bool(v) {
                    Some(b) => r is Ok && final(self).pretty == b,
                    None => (r matches Err(m) && m@ == "Bad value for pretty: "@ + v)
                        && final(self).pretty == old(self).pretty,
                },
            },
    {
        match crate::backend::lookup_var(vars, "pretty") {
            Some(value) => {
                match crate::backend::parse_bool(value.as_str()) {
                    Some(b) => {
                        self.pretty = b;
                        Ok(())
                    },
                    None => {
                        let mut msg = String::new();
                        msg.append("Bad value for pretty: ");
                        msg.append(value.as_str());
                        proof {
                            assert(Seq::<char>::empty() + "Bad value for pretty: "@ + value@
                                =~= "Bad value for pretty: "@ + value@);
                        }
                        Err(msg)
                    },
                }
            },
            None => Ok(()),
        }
    }

    /// Serializes the color table itself, as a standalone artifact.
    pub fn header(&self, out: &mut String)
        ensures
            final(out)@ == old(out)@ + spec_colors_json(self.pretty),
    {
        let ghost out0 = out@;
        let ghost keys = spec_color_table_keys();
        let table = crate::colors::get_colors();
        if self.pretty {
            out.append("{\n");
        } else {
            out.append("{");
        }
        append_color_pair(out, table[0].0, table[0].1, self.pretty);
        proof {
            assert(keys.subrange(1, keys.len() as int) =~= keys.drop_first());
            assert(out@ + (if self.pretty {
                spec_colors_pretty_tail(keys.subrange(1, keys.len() as int))
            } else {
                spec_colors_compact_tail(keys.subrange(1, keys.len() as int))
            }) + (if self.pretty {
                "\n}"@
            } else {
                "}"@
            }) =~= out0 + spec_colors_json(self.pretty));
        }
        let mut i: usize = 1;
        while i < table.len()
            invariant
                table@.len() == keys.len(),
                keys == spec_color_table_keys(),
                forall|j: int|
                    0 <= j < table@.len() ==> #[trigger] table@[j].0 == keys[j] && spec_color(
                        table@[j].0,
                    ) == Some(table@[j].1@),
                1 <= i <= keys.len(),
                self.pretty ==> out@ + spec_colors_pretty_tail(
                    keys.subrange(i as int, keys.len() as int),
                ) + "\n}"@ == out0 + spec_colors_json(self.pretty),
                !self.pretty ==> out@ + spec_colors_compact_tail(
                    keys.subrange(i as int, keys.len() as int),
                ) + "}"@ == out0 + spec_colors_json(self.pretty),
            decreases keys.len() - i,
        {
            let ghost o0 = out@;
            let ghost suffix = keys.subrange(i as int, keys.len() as int);
            if self.pretty {
                out.append(",\n");
            } else {
                out.append(",");
            }
            append_color_pair(out, table[i].0, table[i].1, self.pretty);
            proof {
                assert(suffix.drop_first() =~= keys.subrange(i + 1 as int, keys.len() as int));
                if self.pretty {
                    assert(out@ =~= o0 + (",\n"@ + spec_color_pair_pretty(keys[i as int])));
                    assert(out@ + spec_colors_pretty_tail(suffix.drop_first()) =~= o0
                        + spec_colors_pretty_tail(suffix));
                } else {
                    assert(out@ =~= o0 + (","@ + spec_color_pair_compact(keys[i as int])));
                    assert(out@ + spec_colors_compact_tail(suffix.drop_first()) =~= o0
                        + spec_colors_compact_tail(suffix));
                }
            }
            i = i + 1;
        }
        if self.pretty {
            out.append("\n}");
        } else {
            out.append("}");
        }
        proof {
            assert(keys.subrange(keys.len() as int, keys.len() as int) =~= Seq::<Category>::empty());
            assert(out@ =~= out0 + spec_colors_json(self.pretty));
        }
    }

    /// Nothing to write: the records are buffered, not streamed.
    pub fn code_start(&self, out: &mut String)
        ensures
            final(out)@ == old(out)@,
    {
    }

    /// Serializes the whole buffer in one pass; the `pretty` flag picks
    /// the formatting and nothing else.
    pub fn code_end(&self, out: &mut String)
        ensures
            final(out)@ == old(out)@ + (if self.pretty {
                spec_entries_pretty(entries_view(self.entries@))
            } else {
                spec_entries_compact(entries_view(self.entries@))
            }),
    {
        let ghost out0 = out@;
        let ghost evs = entries_view(self.entries@);
        if self.entries.len() == 0 {
            out.append("[]");
            return ;
        }
        if self.pretty {
            out.append("[\n");
        } else {
            out.append("[");
        }
        append_entry(out, &self.entries[0], self.pretty);
        proof {
            assert(evs.subrange(1, evs.len() as int) =~= evs.drop_first());
            assert(evs[0] == self.entries@[0]@);
            assert(out@ + (if self.pretty {
                spec_entries_pretty_tail(evs.subrange(1, evs.len() as int))
            } else {
                spec_entries_compact_tail(evs.subrange(1, evs.len() as int))
            }) + (if self.pretty {
                "\n]"@
            } else {
                "]"@
            }) =~= out0 + (if self.pretty {
                spec_entries_pretty(evs)
            } else {
                spec_entries_compact(evs)
            }));
        }
        let mut i: usize = 1;
        while i < self.entries.len()
            invariant
                evs == entries_view(self.entries@),
                1 <= i <= evs.len(),
                self.pretty ==> out@ + spec_entries_pretty_tail(
                    evs.subrange(i as int, evs.len() as int),
                ) + "\n]"@ == out0 + spec_entries_pretty(evs),
                !self.pretty ==> out@ + spec_entries_compact_tail(
                    evs.subrange(i as int, evs.len() as int),
                ) + "]"@ == out0 + spec_entries_compact(evs),
            decreases evs.len() - i,
        {
            let ghost o0 = out@;
            let ghost suffix = evs.subrange(i as int, evs.len() as int);
            if self.pretty {
                out.append(",\n");
            } else {
                out.append(",");
            }
            append_entry(out, &self.entries[i], self.pretty);
            proof {
                assert(suffix.drop_first() =~= evs.subrange(i + 1 as int, evs.len() as int));
                assert(evs[i as int] == self.entries@[i as int]@);
                if self.pretty {
                    assert(out@ =~= o0 + (",\n"@ + spec_entry_pretty(suffix[0])));
                    assert(out@ + spec_entries_pretty_tail(suffix.drop_first()) =~= o0
                        + spec_entries_pretty_tail(suffix));
                } else {
                    assert(out@ =~= o0 + (","@ + spec_entry_compact(suffix[0])));
                    assert(out@ + spec_entries_compact_tail(suffix.drop_first()) =~= o0
                        + spec_entries_compact_tail(suffix));
                }
            }
            i = i + 1;
        }
        if self.pretty {
            out.append("\n]");
        } else {
            out.append("]");
        }
        proof {
            assert(evs.subrange(evs.len() as int, evs.len() as int) =~= Seq::<EntryView>::empty());
            assert(out@ =~= out0 + (if self.pretty {
                spec_entries_pretty(evs)
            } else {
                spec_entries_compact(evs)
            }));
        }
    }

    /// Buffers the opening of a tagged region.
    pub fn start(&mut self, out: &mut String, ty: Category)
        ensures
            final(out)@ == old(out)@,
            final(self).pretty == old(self).pretty,
            entries_view(final(self).entries@) == entries_view(old(self).entries@).push(
                EntryView { kind: EntryKind::Start, value: spec_category_name(ty) },
            ),
    {
        let ghost e0 = self.entries@;
        let name = crate::classifier::category_name(ty);
        let e = Entry { kind: EntryKind::Start, value: name.to_owned() };
        let ghost eg = e;
        self.entries.push(e);
        proof {
            lemma_entries_view_push(e0, eg);
            assert(entries_view(e0) + seq![eg@] =~= entries_view(e0).push(eg@));
        }
    }

    /// Buffers the closing of a tagged region.
    pub fn end(&mut self, out: &mut String, ty: Category)
        ensures
            final(out)@ == old(out)@,
            final(self).pretty == old(self).pretty,
            entries_view(final(self).entries@) == entries_view(old(self).entries@).push(
                EntryView { kind: EntryKind::End, value: spec_category_name(ty) },
            ),
    {
        let ghost e0 = self.entries@;
        let name = crate::classifier::category_name(ty);
        let e = Entry { kind: EntryKind::End, value: name.to_owned() };
        let ghost eg = e;
        self.entries.push(e);
        proof {
            lemma_entries_view_push(e0, eg);
            assert(entries_view(e0) + seq![eg@] =~= entries_view(e0).push(eg@));
        }
    }

    /// Buffers a leaf text fragment.
    pub fn text(&mut self, out: &mut String, text: &str)
        ensures
            final(out)@ == old(out)@,
            final(self).pretty == old(self).pretty,
            entries_view(final(self).entries@) == entries_view(old(self).entries@).push(
                EntryView { kind: EntryKind::Text, value: text@ },
            ),
    {
        let ghost e0 = self.entries@;
        let e = Entry { kind: EntryKind::Text, value: text.to_owned() };
        let ghost eg = e;
        self.entries.push(e);
        proof {
            lemma_entries_view_push(e0, eg);
            assert(entries_view(e0) + seq![eg@] =~= entries_view(e0).push(eg@));
        }
    }
}

/// Appends one buffered record in the chosen format.
fn append_entry(out: &mut String, e: &Entry, pretty: bool)
    ensures
        final(out)@ == old(out)@ + (if pretty {
            spec_entry_pretty(e@)
        } else {
            spec_entry_compact(e@)
        }),
{
    let ghost out0 = out@;
    if pretty {
        out.append("  {\n    \"ty\": ");
        append_json_string(out, entry_kind_name(e.kind));
        out.append(",\n    \"value\": ");
        append_json_string(out, e.value.as_str());
        out.append("\n  }");
        proof {
            assert(out@ =~= out0 + spec_entry_pretty(e@));
        }
    } else {
        out.append("{\"ty\":");
        append_json_string(out, entry_kind_name(e.kind));
        out.append(",\"value\":");
        append_json_string(out, e.value.as_str());
        out.append("}");
        proof {
            assert(out@ =~= out0 + spec_entry_compact(e@));
        }
    }
}

/// Appends one color table binding in the chosen format.
fn append_color_pair(out: &mut String, c: Category, col: &'static str, pretty: bool)
    requires
        spec_color(c) == Some(col@),
    ensures
        final(out)@ == old(out)@ + (if pretty {
            spec_color_pair_pretty(c)
        } else {
            spec_color_pair_compact(c)
        }),
{
    let ghost out0 = out@;
    if pretty {
        out.append("  ");
        append_json_string(out, crate::classifier::category_name(c));
        out.append(": ");
        append_json_string(out, col);
        proof {
            assert(out@ =~= out0 + spec_color_pair_pretty(c));
        }
    } else {
        append_json_string(out, crate::classifier::category_name(c));
        out.append(":");
        append_json_string(out, col);
        proof {
            assert(out@ =~= out0 + spec_color_pair_compact(c));
        }
    }
}

} // verus!
