//! The style table: which colour each token category is painted in, and what
//! becomes of a category that the table does not know.

use vstd::prelude::*;
use vstd::string::*;

verus! {

/// What becomes of a span whose category the table has no entry for.
#[derive(Clone, Debug, PartialEq, Eq)]
pub enum Fallback {
    /// The span is emitted without a style.
    Unstyled,
    /// The span is painted in this colour.
    Color(String),
}

impl View for Fallback {
    type V = Option<Seq<char>>;

    open spec fn view(&self) -> Option<Seq<char>> {
        match self {
            Fallback::Unstyled => None,
            Fallback::Color(color) => Some(color@),
        }
    }
}

/// A style table as a mathematical value.
pub struct StyleTableView {
    /// The colour of each category that has an entry.
    pub colors: Map<Seq<char>, Seq<char>>,
    /// The colour of every other category, if they are painted at all.
    pub fallback: Option<Seq<char>>,
}

impl StyleTableView {
    /// Whether the table has an entry for `category`.
    pub open spec fn knows(self, category: Seq<char>) -> bool {
        self.colors.dom().contains(category)
    }

    /// The colour that a span of `category` is painted in: that of its entry,
    /// or else the fallback's. `None` means that the span has no style.
    pub open spec fn style_of(self, category: Seq<char>) -> Option<Seq<char>> {
        if self.knows(category) {
            Some(self.colors[category])
        } else {
            self.fallback
        }
    }
}

#[derive(Clone, Debug)]
struct StyleEntry {
    category: String,
    color: String,
}

/// A mapping from category names to colours, with a fallback for the
/// categories it has no entry for. A rendering reads it and never changes it.
#[derive(Clone, Debug)]
pub struct StyleTable {
    /// The entries in the order they were made. A later entry for a category
    /// shadows an earlier one.
    entries: Vec<StyleEntry>,
    fallback: Fallback,
}

/// The colour that the latest pair for `category` gives it.
pub closed spec fn latest_color(pairs: Seq<(Seq<char>, Seq<char>)>, category: Seq<char>) -> Option<
    Seq<char>,
>
    decreases pairs.len(),
{
    if pairs.len() == 0 {
        None
    } else if pairs.last().0 == category {
        Some(pairs.last().1)
    } else {
        latest_color(pairs.drop_last(), category)
    }
}

/// The colours of the built-in table.
pub open spec fn builtin_colors() -> Map<Seq<char>, Seq<char>> {
    Map::<Seq<char>, Seq<char>>::empty().insert("keyword"@, "#ba8baf"@).insert(
        "struct"@,
        "#f7ca88"@,
    ).insert("boolean"@, "#dc9656"@).insert("number"@, "#dc9656"@).insert(
        "global"@,
        "#dc9656"@,
    ).insert("operator"@, "#d8d8d8"@).insert("comment"@, "#585858"@).insert(
        "reference"@,
        "#585858"@,
    ).insert("string"@, "#a1b56c"@).insert("character"@, "#a1b56c"@).insert(
        "function"@,
        "#7cafc2"@,
    ).insert("macro"@, "#7cafc2"@).insert("regex"@, "#86c1b9"@).insert("symbol"@, "#86c1b9"@)
}

/// The built-in table: the colours above, and no style for any other
/// category.
pub open spec fn builtin_styles() -> StyleTableView {
    StyleTableView { colors: builtin_colors(), fallback: None }
}

impl StyleTable {
    spec fn pairs(&self) -> Seq<(Seq<char>, Seq<char>)> {
        Seq::new(self.entries@.len(), |i: int| (self.entries@[i].category@, self.entries@[i].color@))
    }

    /// A table without entries, with the given fallback.
    pub fn new(fallback: Fallback) -> (table: StyleTable)
        ensures
            table@.colors == Map::<Seq<char>, Seq<char>>::empty(),
            table@.fallback == fallback@,
    {
        let table = StyleTable { entries: Vec::new(), fallback };
        assert(table@.colors =~= Map::<Seq<char>, Seq<char>>::empty());
        table
    }

    /// The built-in table.
    pub fn builtin() -> (table: StyleTable)
        ensures
            table@ == builtin_styles(),
    {
        let mut table = StyleTable::new(Fallback::Unstyled);
        table.insert("keyword", "#ba8baf");
        table.insert("struct", "#f7ca88");
        table.insert("boolean", "#dc9656");
        table.insert("number", "#dc9656");
        table.insert("global", "#dc9656");
        table.insert("operator", "#d8d8d8");
        table.insert("comment", "#585858");
        table.insert("reference", "#585858");
        table.insert("string", "#a1b56c");
        table.insert("character", "#a1b56c");
        table.insert("function", "#7cafc2");
        table.insert("macro", "#7cafc2");
        table.insert("regex", "#86c1b9");
        table.insert("symbol", "#86c1b9");
        table
    }

    /// Gives `category` the colour `color`, in place of the colour it had, if
    /// any.
    pub fn insert(&mut self, category: &str, color: &str)
        ensures
            final(self)@.colors == old(self)@.colors.insert(category@, color@),
            final(self)@.fallback == old(self)@.fallback,
    {
        let ghost before = self.pairs();
        let entry = StyleEntry { category: category.to_owned(), color: color.to_owned() };
        self.entries.push(entry);
        proof {
            let after = self.pairs();
            assert(after.drop_last() =~= before);
            assert(after.last() == (category@, color@));
            assert(self@.colors =~= old(self)@.colors.insert(category@, color@));
        }
    }

    /// Sets what becomes of the categories without an entry.
    pub fn set_fallback(&mut self, fallback: Fallback)
        ensures
            final(self)@.colors == old(self)@.colors,
            final(self)@.fallback == fallback@,
    {
        self.fallback = fallback;
        assert(self.pairs() =~= old(self).pairs());
    }

    /// The colour of the entry for `category`, if there is one.
    pub fn get(&self, category: &str) -> (color: Option<&String>)
        ensures
            match color {
                Some(c) => self@.knows(category@) && c@ == self@.colors[category@],
                None => !self@.knows(category@),
            },
    {
        let key: String = category.to_owned();
        let mut i: usize = self.entries.len();
        assert(self.pairs().take(i as int) =~= self.pairs());
        while i > 0
            invariant
                i <= self.entries.len(),
                key@ == category@,
                latest_color(self.pairs(), category@) == latest_color(
                    self.pairs().take(i as int),
                    category@,
                ),
            decreases i,
        {
            let ghost upto = self.pairs().take(i as int);
            i -= 1;
            assert(upto.drop_last() =~= self.pairs().take(i as int));
            assert(upto.last() == self.pairs()[i as int]);
            if self.entries[i].category == key {
                return Some(&self.entries[i].color);
            }
        }
        None
    }

    /// What becomes of the categories without an entry.
    pub fn fallback(&self) -> (fallback: &Fallback)
        ensures
            fallback@ == self@.fallback,
    {
        &self.fallback
    }

    /// The colour that a span of `category` is painted in, if any: see
    /// `StyleTableView::style_of`.
    pub fn style_of(&self, category: &str) -> (color: Option<&String>)
        ensures
            match color {
                Some(c) => self@.style_of(category@) == Some(c@),
                None => self@.style_of(category@).is_none(),
            },
    {
        match self.get(category) {
            Some(color) => Some(color),
            None => match &self.fallback {
                Fallback::Unstyled => None,
                Fallback::Color(color) => Some(color),
            },
        }
    }
}

impl View for StyleTable {
    type V = StyleTableView;

    closed spec fn view(&self) -> StyleTableView {
        StyleTableView {
            colors: Map::new(
                |category: Seq<char>| latest_color(self.pairs(), category).is_some(),
                |category: Seq<char>| latest_color(self.pairs(), category).unwrap(),
            ),
            fallback: self.fallback@,
        }
    }
}

impl Default for StyleTable {
    /// The built-in table.
    fn default() -> (table: StyleTable)
        ensures
            table@ == builtin_styles(),
    {
        StyleTable::builtin()
    }
}

} // verus!
