use getcat::model::{RequestDraft, SavedRequest};
use getcat::panes::{filter_entries, FilterEntry};
use getcat::saved_filter::{
    add_member, derive_groups, filter_indices, filter_still_valid, normalize_group,
    uncategorized_count, KeyedGroup, SavedFilter,
};

fn saved(name: &str, group: Option<&str>) -> SavedRequest {
    let mut r = SavedRequest::new(name, RequestDraft::default());
    r.group = group.map(str::to_string);
    r
}

#[test]
fn normalize_trims_and_maps_empty_to_none() {
    assert_eq!(normalize_group("  订单  "), Some("订单".to_string()));
    assert_eq!(normalize_group("   "), None);
    assert_eq!(normalize_group(""), None);
}

#[test]
fn derive_groups_dedupes_counts_and_sorts_case_insensitively() {
    let list = vec![
        saved("a", Some("zeta")),
        saved("b", Some("Alpha")),
        saved("c", Some("zeta")),
        saved("d", None),
        // names that differ in case only are two groups, next to each other
        saved("e", Some("alpha")),
    ];
    let groups = derive_groups(&list);
    assert_eq!(
        groups,
        vec![
            ("Alpha".to_string(), 1),
            ("alpha".to_string(), 1),
            ("zeta".to_string(), 2),
        ]
    );
    assert_eq!(uncategorized_count(&list), 1);
}

#[test]
fn groups_are_sorted_by_their_lower_case_names() {
    let list = vec![
        saved("a", Some("éa")),
        saved("b", Some("ÉB")),
        saved("c", Some("Zz")),
    ];
    let names: Vec<String> = derive_groups(&list).into_iter().map(|g| g.0).collect();
    assert_eq!(names, ["Zz", "éa", "ÉB"]);
}

#[test]
fn group_sizes_add_up() {
    let list = vec![
        saved("a", Some("x")),
        saved("b", None),
        saved("c", Some("y")),
        saved("d", Some("x")),
    ];
    let total: usize = derive_groups(&list).iter().map(|g| g.1).sum();
    assert_eq!(total + uncategorized_count(&list), list.len());
    for (name, count) in derive_groups(&list) {
        assert_eq!(filter_indices(&SavedFilter::Group(name), &list).len(), count);
    }
}

#[test]
fn members_are_counted_under_their_group() {
    let mut groups: Vec<KeyedGroup> = Vec::new();
    add_member(&mut groups, "b".into(), "B");
    add_member(&mut groups, "a".into(), "A");
    add_member(&mut groups, "b".into(), "B");
    let seen: Vec<(&str, usize)> = groups.iter().map(|g| (g.name.as_str(), g.count)).collect();
    assert_eq!(seen, [("A", 1), ("B", 2)]);
}

#[test]
fn filter_indices_covers_all_three_variants() {
    let list = vec![
        saved("a", Some("g")),
        saved("b", None),
        saved("c", Some("g")),
        saved("d", Some("h")),
    ];
    assert_eq!(filter_indices(&SavedFilter::All, &list), vec![0, 1, 2, 3]);
    assert_eq!(filter_indices(&SavedFilter::Uncategorized, &list), vec![1]);
    assert_eq!(
        filter_indices(&SavedFilter::Group("g".into()), &list),
        vec![0, 2]
    );
}

#[test]
fn filter_validity_tracks_membership() {
    let list = vec![saved("a", Some("g"))];
    assert!(filter_still_valid(&SavedFilter::All, &list));
    assert!(filter_still_valid(&SavedFilter::Group("g".into()), &list));
    assert!(!filter_still_valid(
        &SavedFilter::Group("gone".into()),
        &list
    ));
    assert!(!filter_still_valid(&SavedFilter::Uncategorized, &list));
    assert!(filter_still_valid(
        &SavedFilter::Uncategorized,
        &[saved("b", None)]
    ));
}

#[test]
fn offered_filters_are_all_loose_and_groups() {
    let list = vec![saved("a", Some("g")), saved("b", None)];
    let entry = |filter, count, selected| FilterEntry {
        filter,
        count,
        selected,
    };
    assert_eq!(
        filter_entries(&list, &SavedFilter::Group("g".into())),
        vec![
            entry(SavedFilter::All, 2, false),
            entry(SavedFilter::Uncategorized, 1, false),
            entry(SavedFilter::Group("g".into()), 1, true),
        ]
    );
    assert_eq!(
        filter_entries(&list[..1], &SavedFilter::All),
        vec![
            entry(SavedFilter::All, 1, true),
            entry(SavedFilter::Group("g".into()), 1, false),
        ]
    );
}
