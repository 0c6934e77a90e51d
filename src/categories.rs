use vstd::prelude::*;

use crate::annotations::PersonCategories;

verus! {

/// A category of the dataset's annotations.
#[derive(Clone, Debug)]
pub struct Category {
    pub supercategory: String,
    pub id: u32,
    pub name: String,
    pub lines: Option<Vec<String>>,
}

/// The objects that a display can single out.
#[derive(Clone, Copy, Debug, PartialEq, Eq, Structural)]
pub enum SpecialHighlight {
    PossesionHolder,
    Defender,
    Ball,
}

/// Among the first `n` categories, the id of the last one named `name`.
pub open spec fn category_named_upto(cats: Seq<Category>, n: int, name: Seq<char>) -> Option<u32>
    decreases n,
{
    if n <= 0 {
        None
    } else if cats[n - 1].name@ == name {
        Some(cats[n - 1].id)
    } else {
        category_named_upto(cats, n - 1, name)
    }
}

/// The id of the category named `name`; where several share the name, the
/// last one's.
pub open spec fn category_named(cats: Seq<Category>, name: Seq<char>) -> Option<u32> {
    category_named_upto(cats, cats.len() as int, name)
}

/// The id of the category named `name`; where several share the name, the
/// last one's.
pub fn category_id(categories: &Vec<Category>, name: &String) -> (r: Option<u32>)
    ensures
        r == category_named(categories@, name@),
{
    let mut found: Option<u32> = None;
    let mut i: usize = 0;
    while i < categories.len()
        invariant
            i <= categories.len(),
            found == category_named_upto(categories@, i as int, name@),
        decreases categories.len() - i,
    {
        if categories[i].name == *name {
            found = Some(categories[i].id);
        }
        i = i + 1;
    }
    found
}

impl PersonCategories {
    /// The ids of the categories named "player", "goalkeeper" and "referee".
    pub fn from_categories(categories: &Vec<Category>) -> (r: PersonCategories)
        ensures
            r.player == category_named(categories@, "player"@),
            r.goalkeeper == category_named(categories@, "goalkeeper"@),
            r.referee == category_named(categories@, "referee"@),
    {
        PersonCategories {
            player: category_id(categories, &"player".to_owned()),
            goalkeeper: category_id(categories, &"goalkeeper".to_owned()),
            referee: category_id(categories, &"referee".to_owned()),
        }
    }
}

} // verus!
