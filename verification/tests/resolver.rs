use swordfish::pattern::regexify_text;
use swordfish::records::{Character, DroppedCard};
use swordfish::resolver::{
    after_exact, after_fuzzy, begin_resolve, card_for, collect_batch, plan_batch, BatchError,
    BatchQuery, Branch, Facet, PrefixFilter, ResolveStep, StoreQuery,
};

fn record(name: &str, series: &str, wishlist: u32) -> Character {
    Character {
        wishlist: Some(wishlist),
        name: name.to_string(),
        series: series.to_string(),
        last_update_ts: 1700000000,
    }
}

fn pairs(entries: &[(&str, &str)]) -> Vec<(String, String)> {
    entries.iter().map(|(n, s)| (n.to_string(), s.to_string())).collect()
}

#[test]
fn resolving_starts_with_the_exact_pair() {
    assert_eq!(
        begin_resolve("Rem", "Re:Zero"),
        StoreQuery::Exact { name: "Rem".to_string(), series: "Re:Zero".to_string() }
    );
}

#[test]
fn exact_match_ends_resolving_without_a_pattern() {
    let found = record("Rem", "Re:Zero", 7);
    assert_eq!(after_exact("Rem", "Re:Zero", Some(found.clone())), ResolveStep::Done(Some(found)));
}

#[test]
fn exact_miss_leads_to_the_fuzzy_query() {
    assert_eq!(
        after_exact("Rem", "Re:Zero", None),
        ResolveStep::Ask(StoreQuery::Fuzzy {
            name_pattern: "^[rk].*e.*(m|ra)$".to_string(),
            series_pattern: "(?=.*[rk]e)(?=.*\\bzero\\b).+".to_string(),
        })
    );
}

#[test]
fn fuzzy_answer_is_the_result() {
    let found = record("Rem", "Re:Zero", 7);
    assert_eq!(after_fuzzy(Some(found.clone())), ResolveStep::Done(Some(found)));
    assert_eq!(after_fuzzy(None), ResolveStep::Done(None));
}

#[test]
fn card_shows_what_was_found_or_what_was_read() {
    let found = record("Rem", "Re:Zero", 7);
    assert_eq!(
        card_for("Rera".to_string(), "Re Zero".to_string(), Some(found.clone())),
        DroppedCard { character: found, print: 0, edition: 0 }
    );
    assert_eq!(
        card_for("Rera".to_string(), "Re Zero".to_string(), None),
        DroppedCard {
            character: Character {
                wishlist: None,
                name: "Rera".to_string(),
                series: "Re Zero".to_string(),
                last_update_ts: 0,
            },
            print: 0,
            edition: 0,
        }
    );
}

#[test]
fn batch_has_one_branch_per_card() {
    let entries = pairs(&[("Rem", "Re:Zero"), ("Ram", "Re:Zero"), ("Frieren", "Frieren")]);
    let plan = plan_batch(&entries, PrefixFilter::Name).unwrap();
    assert_eq!(plan.name_prefix, Some("^R".to_string()));
    assert_eq!(plan.series_prefix, None);
    assert_eq!(plan.branches.len(), 3);
    for (i, branch) in plan.branches.iter().enumerate() {
        assert_eq!(branch.label, format!("character{}", i + 1));
        assert_eq!(branch.name_pattern, regexify_text(&entries[i].0));
        assert_eq!(branch.series_pattern, regexify_text(&entries[i].1));
    }
}

#[test]
fn batch_narrows_by_the_chosen_fields() {
    let entries = pairs(&[("Rem", "Re:Zero"), ("Ram", "Re:Zero")]);
    let by_series = plan_batch(&entries, PrefixFilter::Series).unwrap();
    assert_eq!(by_series.name_prefix, None);
    assert_eq!(by_series.series_prefix, Some("^R".to_string()));
    let by_both = plan_batch(&pairs(&[("\u{e9}a", "Xy"), ("b", "c")]), PrefixFilter::NameAndSeries).unwrap();
    assert_eq!(by_both.name_prefix, Some("^\u{e9}".to_string()));
    assert_eq!(by_both.series_prefix, Some("^X".to_string()));
}

#[test]
fn batch_takes_two_to_four_cards() {
    let one = pairs(&[("a", "b")]);
    let five = pairs(&[("a", "b"), ("c", "d"), ("e", "f"), ("g", "h"), ("i", "j")]);
    let four = pairs(&[("a", "b"), ("c", "d"), ("e", "f"), ("g", "h")]);
    assert_eq!(plan_batch(&Vec::new(), PrefixFilter::Name), Err(BatchError::TooFew));
    assert_eq!(plan_batch(&one, PrefixFilter::Name), Err(BatchError::TooFew));
    assert_eq!(plan_batch(&five, PrefixFilter::Name), Err(BatchError::TooMany));
    assert_eq!(plan_batch(&four, PrefixFilter::Name).unwrap().branches.len(), 4);
    assert_eq!(plan_batch(&four, PrefixFilter::Name).unwrap().branches[3].label, "character4");
}

#[test]
fn batch_needs_a_first_character_to_narrow_by() {
    let no_name = pairs(&[("", "b"), ("c", "d")]);
    let no_series = pairs(&[("a", ""), ("c", "d")]);
    assert_eq!(plan_batch(&no_name, PrefixFilter::Name), Err(BatchError::NoPrefix));
    assert_eq!(plan_batch(&no_name, PrefixFilter::NameAndSeries), Err(BatchError::NoPrefix));
    assert!(plan_batch(&no_name, PrefixFilter::Series).is_ok());
    assert_eq!(plan_batch(&no_series, PrefixFilter::Series), Err(BatchError::NoPrefix));
    assert!(plan_batch(&no_series, PrefixFilter::Name).is_ok());
}

fn facet(label: &str, matches: Vec<Character>) -> Facet {
    Facet { label: label.to_string(), matches }
}

#[test]
fn batch_results_keep_the_order_of_the_cards() {
    let entries = pairs(&[("Rem", "Re:Zero"), ("Ram", "Re:Zero"), ("Frieren", "Frieren")]);
    let plan = plan_batch(&entries, PrefixFilter::Name).unwrap();
    let rem = record("Rem", "Re:Zero", 1);
    let ram = record("Ram", "Re:Zero", 2);
    let frieren = record("Frieren", "Frieren", 3);
    let want = vec![Some(rem.clone()), Some(ram.clone()), Some(frieren.clone())];
    let orders: [[usize; 3]; 6] = [[0, 1, 2], [0, 2, 1], [1, 0, 2], [1, 2, 0], [2, 0, 1], [2, 1, 0]];
    for order in orders {
        let all = [
            facet("character1", vec![rem.clone()]),
            facet("character2", vec![ram.clone()]),
            facet("character3", vec![frieren.clone()]),
        ];
        let facets: Vec<Facet> = order.iter().map(|&k| all[k].clone()).collect();
        let found = collect_batch(&facets, &plan);
        assert_eq!(found.len(), 3);
        assert_eq!(found, want);
    }
}

#[test]
fn batch_gives_at_most_one_match_per_branch() {
    let entries = pairs(&[("Rem", "Re:Zero"), ("Ram", "Re:Zero"), ("Frieren", "Frieren")]);
    let plan = plan_batch(&entries, PrefixFilter::Name).unwrap();
    let rem = record("Rem", "Re:Zero", 1);
    let other = record("Remu", "Re:Zero", 9);
    let facets = vec![
        facet("character3", vec![]),
        facet("character1", vec![rem.clone(), other]),
        facet("character9", vec![record("x", "y", 0)]),
    ];
    assert_eq!(collect_batch(&facets, &plan), vec![Some(rem), None, None]);
    assert_eq!(collect_batch(&Vec::new(), &plan), vec![None, None, None]);
}

#[test]
fn batch_results_follow_the_labels_of_the_query() {
    let query = BatchQuery {
        name_prefix: None,
        series_prefix: None,
        branches: vec![
            Branch { label: "b".to_string(), name_pattern: String::new(), series_pattern: String::new() },
            Branch { label: "a".to_string(), name_pattern: String::new(), series_pattern: String::new() },
        ],
    };
    let facets = vec![facet("a", vec![record("A", "s", 1)]), facet("b", vec![record("B", "s", 2)])];
    assert_eq!(
        collect_batch(&facets, &query),
        vec![Some(record("B", "s", 2)), Some(record("A", "s", 1))]
    );
}
