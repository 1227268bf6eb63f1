//! What the budget database starts with.
use vstd::prelude::*;

verus! {

/// The categories every new budget starts with, in this order.
pub open spec fn default_categories_spec() -> Seq<Seq<char>> {
    seq![
        "Food"@,
        "Transport"@,
        "Utilities"@,
        "Entertainment"@,
        "Shopping"@,
        "Health"@,
        "Other"@,
    ]
}

/// The categories every new budget starts with, in this order.
pub fn default_category_names() -> (names: Vec<String>)
    ensures
        names@.map_values(|s: String| s@) == default_categories_spec(),
{
    let names: Vec<String> = vec![
        "Food".to_owned(),
        "Transport".to_owned(),
        "Utilities".to_owned(),
        "Entertainment".to_owned(),
        "Shopping".to_owned(),
        "Health".to_owned(),
        "Other".to_owned(),
    ];
    proof {
        assert(names@.map_values(|s: String| s@) =~= default_categories_spec());
    }
    names
}

} // verus!
