//! The color table: a fixed mapping from category to a 6-hex-digit RGB
//! color string, shared by the rendering backends.

use vstd::prelude::*;

use crate::classifier::Category;

verus! {

/// The color assigned to a category, if any. The two reserved categories
/// (`Normal` and `Unstyled`) and plain identifiers have no entry.
pub open spec fn spec_color(c: Category) -> Option<Seq<char>> {
    match c {
        Category::Kw => Some("8959A8"@),
        Category::Kw2 => Some("4271AE"@),
        Category::PreludeTy => Some("4271AE"@),
        Category::Number => Some("718C00"@),
        Category::StrLit => Some("718C00"@),
        Category::SelfVal => Some("C82829"@),
        Category::BoolVal => Some("C82829"@),
        Category::PreludeVal => Some("C82829"@),
        Category::Attribute => Some("C82829"@),
        Category::Comment => Some("8E908C"@),
        Category::DocComment => Some("4D4D4C"@),
        Category::Macro => Some("3E999F"@),
        Category::MacroNonterminal => Some("3E999F"@),
        Category::Lifetime => Some("B76514"@),
        Category::Ident => None,
        Category::Op => None,
        Category::Normal => None,
        Category::Unstyled => None,
    }
}

/// Looks a category up in the color table.
pub fn color_of(c: Category) -> (r: Option<&'static str>)
    ensures
        match r {
            Some(s) => spec_color(c) == Some(s@),
            None => spec_color(c) is None,
        },
{
    match c {
        Category::Kw => Some("8959A8"),
        Category::Kw2 => Some("4271AE"),
        Category::PreludeTy => Some("4271AE"),
        Category::Number => Some("718C00"),
        Category::StrLit => Some("718C00"),
        Category::SelfVal => Some("C82829"),
        Category::BoolVal => Some("C82829"),
        Category::PreludeVal => Some("C82829"),
        Category::Attribute => Some("C82829"),
        Category::Comment => Some("8E908C"),
        Category::DocComment => Some("4D4D4C"),
        Category::Macro => Some("3E999F"),
        Category::MacroNonterminal => Some("3E999F"),
        Category::Lifetime => Some("B76514"),
        Category::Ident => None,
        Category::Op => None,
        Category::Normal => None,
        Category::Unstyled => None,
    }
}

/// The categories that have a color table entry, in the table's order.
pub open spec fn spec_color_table_keys() -> Seq<Category> {
    seq![
        Category::Kw,
        Category::Kw2,
        Category::PreludeTy,
        Category::Number,
        Category::StrLit,
        Category::SelfVal,
        Category::BoolVal,
        Category::PreludeVal,
        Category::Attribute,
        Category::Comment,
        Category::DocComment,
        Category::Macro,
        Category::MacroNonterminal,
        Category::Lifetime,
    ]
}

/// The color table as an ordered list of `(category, color)` pairs.
pub fn get_colors() -> (r: Vec<(Category, &'static str)>)
    ensures
        r@.len() == spec_color_table_keys().len(),
        forall|i: int|
            0 <= i < r@.len() ==> #[trigger] r@[i].0 == spec_color_table_keys()[i]
                && spec_color(r@[i].0) == Some(r@[i].1@),
{
    let mut r: Vec<(Category, &'static str)> = Vec::new();
    r.push((Category::Kw, "8959A8"));
    r.push((Category::Kw2, "4271AE"));
    r.push((Category::PreludeTy, "4271AE"));
    r.push((Category::Number, "718C00"));
    r.push((Category::StrLit, "718C00"));
    r.push((Category::SelfVal, "C82829"));
    r.push((Category::BoolVal, "C82829"));
    r.push((Category::PreludeVal, "C82829"));
    r.push((Category::Attribute, "C82829"));
    r.push((Category::Comment, "8E908C"));
    r.push((Category::DocComment, "4D4D4C"));
    r.push((Category::Macro, "3E999F"));
    r.push((Category::MacroNonterminal, "3E999F"));
    r.push((Category::Lifetime, "B76514"));
    assert(r@ =~= seq![
        (Category::Kw, "8959A8"),
        (Category::Kw2, "4271AE"),
        (Category::PreludeTy, "4271AE"),
        (Category::Number, "718C00"),
        (Category::StrLit, "718C00"),
        (Category::SelfVal, "C82829"),
        (Category::BoolVal, "C82829"),
        (Category::PreludeVal, "C82829"),
        (Category::Attribute, "C82829"),
        (Category::Comment, "8E908C"),
        (Category::DocComment, "4D4D4C"),
        (Category::Macro, "3E999F"),
        (Category::MacroNonterminal, "3E999F"),
        (Category::Lifetime, "B76514"),
    ]);
    r
}

/// The categories that have a color, as a list of their string tags.
pub fn get_types() -> (r: Vec<String>)
    ensures
        r@.len() == spec_color_table_keys().len(),
        forall|i: int|
            0 <= i < r@.len() ==> #[trigger] r@[i]@ == crate::classifier::spec_category_name(
                spec_color_table_keys()[i],
            ),
{
    let table = get_colors();
    let mut r: Vec<String> = Vec::new();
    let mut i: usize = 0;
    while i < table.len()
        invariant
            i <= table@.len(),
            table@.len() == spec_color_table_keys().len(),
            forall|j: int|
                0 <= j < table@.len() ==> #[trigger] table@[j].0 == spec_color_table_keys()[j],
            r@.len() == i,
            forall|j: int|
                0 <= j < i ==> #[trigger] r@[j]@ == crate::classifier::spec_category_name(
                    spec_color_table_keys()[j],
                ),
        decreases table@.len() - i,
    {
        let name = crate::classifier::category_name(table[i].0);
        r.push(name.to_owned());
        i = i + 1;
    }
    r
}

/// Looks a color up by the category's string tag, as the table is keyed
/// for callers that hold the tag rather than the category itself.
pub fn get_color(ty: &str) -> (r: Option<String>)
    ensures
        match crate::classifier::spec_category_of_name(ty@) {
            Some(c) => match spec_color(c) {
                Some(col) => r is Some && r.unwrap()@ == col,
                None => r is None,
            },
            None => r is None,
        },
{
    match crate::classifier::category_of_name(ty) {
        Some(c) => match color_of(c) {
            Some(col) => Some(col.to_owned()),
            None => None,
        },
        None => None,
    }
}

} // verus!
