//! The placeholder file schema.
//!
//! A freshly created version directory holds a fixed set of JSON files,
//! each with fixed empty-state content: five top-level files and five
//! files inside the nested `craving_system` subdirectory.  The schema is a
//! static table of (relative path, default content) pairs, so extending it
//! never touches control flow.

use vstd::prelude::*;
use vstd::string::StringExecFns;

verus! {

/// Name of the nested subdirectory that holds the craving-system files.
pub open spec fn craving_dir_name() -> Seq<char> {
    "craving_system"@
}

/// The fixed placeholder schema: for each file of a fresh version
/// directory, its path relative to the version directory and its default
/// content.
pub open spec fn schema() -> Seq<(Seq<char>, Seq<char>)> {
    seq![
        ("building_recipes.json"@, "{\"recipes\":[]}"@),
        ("building_types.json"@, "{\"buildingTypes\":[]}"@),
        ("commodities.json"@, "{\"commodities\":[]}"@),
        ("worker_types.json"@, "{\"workerTypes\":[]}"@),
        ("work_categories.json"@, "{\"workCategories\":[]}"@),
        ("craving_system/dimension_definitions.json"@, "{}"@),
        ("craving_system/character_classes.json"@, "{}"@),
        ("craving_system/character_traits.json"@, "{}"@),
        ("craving_system/fulfillment_vectors.json"@, "{}"@),
        ("craving_system/enablement_rules.json"@, "{}"@),
    ]
}

/// The nested subdirectory name as a value.
pub fn craving_dir() -> (r: String)
    ensures
        r@ == craving_dir_name(),
{
    String::from_str("craving_system")
}

/// The schema as values: one (relative path, default content) pair per
/// placeholder file, in schema order.
pub fn placeholder_entries() -> (r: Vec<(String, String)>)
    ensures
        r@.len() == schema().len(),
        forall|k: int|
            0 <= k < r@.len() ==> (#[trigger] r@[k]).0@ == schema()[k].0 && r@[k].1@
                == schema()[k].1,
{
    let mut v: Vec<(String, String)> = Vec::new();
    v.push((String::from_str("building_recipes.json"), String::from_str("{\"recipes\":[]}")));
    v.push((String::from_str("building_types.json"), String::from_str("{\"buildingTypes\":[]}")));
    v.push((String::from_str("commodities.json"), String::from_str("{\"commodities\":[]}")));
    v.push((String::from_str("worker_types.json"), String::from_str("{\"workerTypes\":[]}")));
    v.push((String::from_str("work_categories.json"), String::from_str("{\"workCategories\":[]}")));
    v.push(
        (
            String::from_str("craving_system/dimension_definitions.json"),
            String::from_str("{}"),
        ),
    );
    v.push((String::from_str("craving_system/character_classes.json"), String::from_str("{}")));
    v.push((String::from_str("craving_system/character_traits.json"), String::from_str("{}")));
    v.push((String::from_str("craving_system/fulfillment_vectors.json"), String::from_str("{}")));
    v.push((String::from_str("craving_system/enablement_rules.json"), String::from_str("{}")));
    v
}

/// No two schema entries share a relative path.
pub proof fn lemma_schema_distinct()
    ensures
        forall|a: int, b: int|
            0 <= a < b < schema().len() ==> schema()[a].0 != schema()[b].0,
{
    reveal_strlit("building_recipes.json");
    reveal_strlit("building_types.json");
    reveal_strlit("commodities.json");
    reveal_strlit("worker_types.json");
    reveal_strlit("work_categories.json");
    reveal_strlit("craving_system/dimension_definitions.json");
    reveal_strlit("craving_system/character_classes.json");
    reveal_strlit("craving_system/character_traits.json");
    reveal_strlit("craving_system/fulfillment_vectors.json");
    reveal_strlit("craving_system/enablement_rules.json");
    let s = schema();
    assert(s.len() == 10);
    assert(("building_recipes.json"@).len() == 21);
    assert(("building_types.json"@).len() == 19);
    assert(("commodities.json"@).len() == 16);
    assert(("worker_types.json"@).len() == 17);
    assert(("work_categories.json"@).len() == 20);
    assert(("craving_system/dimension_definitions.json"@).len() == 41);
    assert(("craving_system/character_classes.json"@).len() == 37);
    assert(("craving_system/character_traits.json"@).len() == 36);
    assert(("craving_system/fulfillment_vectors.json"@).len() == 39);
    assert(("craving_system/enablement_rules.json"@).len() == 36);
    assert(("craving_system/character_traits.json"@)[15] == 'c');
    assert(("craving_system/enablement_rules.json"@)[15] == 'e');
    assert(s[0].0 != s[1].0);
    assert(s[0].0 != s[2].0);
    assert(s[0].0 != s[3].0);
    assert(s[0].0 != s[4].0);
    assert(s[0].0 != s[5].0);
    assert(s[0].0 != s[6].0);
    assert(s[0].0 != s[7].0);
    assert(s[0].0 != s[8].0);
    assert(s[0].0 != s[9].0);
    assert(s[1].0 != s[2].0);
    assert(s[1].0 != s[3].0);
    assert(s[1].0 != s[4].0);
    assert(s[1].0 != s[5].0);
    assert(s[1].0 != s[6].0);
    assert(s[1].0 != s[7].0);
    assert(s[1].0 != s[8].0);
    assert(s[1].0 != s[9].0);
    assert(s[2].0 != s[3].0);
    assert(s[2].0 != s[4].0);
    assert(s[2].0 != s[5].0);
    assert(s[2].0 != s[6].0);
    assert(s[2].0 != s[7].0);
    assert(s[2].0 != s[8].0);
    assert(s[2].0 != s[9].0);
    assert(s[3].0 != s[4].0);
    assert(s[3].0 != s[5].0);
    assert(s[3].0 != s[6].0);
    assert(s[3].0 != s[7].0);
    assert(s[3].0 != s[8].0);
    assert(s[3].0 != s[9].0);
    assert(s[4].0 != s[5].0);
    assert(s[4].0 != s[6].0);
    assert(s[4].0 != s[7].0);
    assert(s[4].0 != s[8].0);
    assert(s[4].0 != s[9].0);
    assert(s[5].0 != s[6].0);
    assert(s[5].0 != s[7].0);
    assert(s[5].0 != s[8].0);
    assert(s[5].0 != s[9].0);
    assert(s[6].0 != s[7].0);
    assert(s[6].0 != s[8].0);
    assert(s[6].0 != s[9].0);
    assert(s[7].0 != s[8].0);
    assert(s[7].0 != s[9].0);
    assert(s[8].0 != s[9].0);
}

} // verus!
