//! Classification of a file name into one of four fixed categories,
//! decided by the first two characters of the name.

use vstd::prelude::*;

verus! {

/// The closed set of classification labels. A file name maps to exactly
/// one of these, by its first two characters: `t_` is a table, `l_` a
/// listing, `g_` a graph, and everything else (including names shorter
/// than two characters) is other.
#[derive(Clone, Copy, Debug, PartialEq, Eq, Structural)]
pub enum Category {
    Table,
    Listing,
    Graph,
    Other,
}

/// What `classify` returns: a total function of the name's first two
/// characters. Names with fewer than two characters never match a prefix.
pub open spec fn classify_spec(name: Seq<char>) -> Category {
    if name.len() >= 2 && name[1] == '_' {
        if name[0] == 't' {
            Category::Table
        } else if name[0] == 'l' {
            Category::Listing
        } else if name[0] == 'g' {
            Category::Graph
        } else {
            Category::Other
        }
    } else {
        Category::Other
    }
}

/// The fixed textual label of each category.
pub open spec fn label_spec(c: Category) -> Seq<char> {
    match c {
        Category::Table => "table"@,
        Category::Listing => "listing"@,
        Category::Graph => "graph"@,
        Category::Other => "other"@,
    }
}

/// Classification is total and depends only on a name's first two
/// characters: two names long enough to have them, agreeing on them,
/// fall under the same category.
pub proof fn lemma_classify_prefix(s: Seq<char>, t: Seq<char>)
    requires
        s.len() >= 2,
        t.len() >= 2,
        s[0] == t[0],
        s[1] == t[1],
    ensures
        classify_spec(s) == classify_spec(t),
{
}

/// Classify a file name by its first two characters. Total: accepts the
/// empty string and one-character names, which are `Other`.
pub fn classify(file_name: &str) -> (c: Category)
    ensures
        c == classify_spec(file_name@),
{
    let n = file_name.unicode_len();
    if n >= 2 {
        let c1 = file_name.get_char(1);
        if c1 == '_' {
            let c0 = file_name.get_char(0);
            if c0 == 't' {
                return Category::Table;
            } else if c0 == 'l' {
                return Category::Listing;
            } else if c0 == 'g' {
                return Category::Graph;
            }
        }
    }
    Category::Other
}

/// The textual label of a category, as the report prints it.
pub fn category_label(c: Category) -> (r: String)
    ensures
        r@ == label_spec(c),
{
    match c {
        Category::Table => String::from_str("table"),
        Category::Listing => String::from_str("listing"),
        Category::Graph => String::from_str("graph"),
        Category::Other => String::from_str("other"),
    }
}

/// Group a file name under its category's textual label: the string
/// returned is always one of `table`, `listing`, `graph`, `other`, and
/// depends only on the name's first two characters.
pub fn group_tlg(file_name: &str) -> (r: String)
    ensures
        r@ == label_spec(classify_spec(file_name@)),
{
    category_label(classify(file_name))
}

} // verus!
