use snaproll::catalog::{build_catalog, Snapshot};
use snaproll::resolver::{next_tag_sequence, resolve_by_tag};

fn b(s: &str) -> Vec<u8> {
    s.as_bytes().to_vec()
}

fn catalog_of(names: &[&str]) -> Vec<Snapshot> {
    let listed: Vec<Vec<u8>> = names.iter().map(|n| b(n)).collect();
    build_catalog(&listed)
}

#[test]
fn resolve_picks_the_later_date() {
    let catalog = catalog_of(&["@_arch-1-snapshot-1-20250101", "@_arch-1-snapshot-2-20250102"]);
    let i = resolve_by_tag(&catalog, &b("snapshot")).expect("a match");
    assert_eq!(catalog[i].name, b("@_arch-1-snapshot-2-20250102"));
}

#[test]
fn resolve_lets_the_date_dominate_the_sequence() {
    let catalog = catalog_of(&["@_arch-1-snapshot-3-20250101", "@_arch-1-snapshot-1-20250105"]);
    let i = resolve_by_tag(&catalog, &b("snapshot")).expect("a match");
    assert_eq!(catalog[i].name, b("@_arch-1-snapshot-1-20250105"));
}

#[test]
fn resolve_matches_the_tag_exactly() {
    let catalog = catalog_of(&["@_arch-1-snapshot-1-20250101", "@_arch-1-rollback-9-20250109"]);
    let i = resolve_by_tag(&catalog, &b("rollback")).expect("a match");
    assert_eq!(catalog[i].name, b("@_arch-1-rollback-9-20250109"));
    assert!(resolve_by_tag(&catalog, &b("snap")).is_none());
    assert!(resolve_by_tag(&catalog, &b("snapshots")).is_none());
}

#[test]
fn resolve_returns_none_on_an_empty_catalog() {
    let catalog = catalog_of(&[]);
    assert!(resolve_by_tag(&catalog, &b("snapshot")).is_none());
}

#[test]
fn resolve_is_deterministic_across_calls_and_orders() {
    let names = [
        "@_arch-1-snapshot-2-20250103",
        "@_arch-1-snapshot-1-20250101",
        "@_arch-2-snapshot-7-20250103",
    ];
    let forward = catalog_of(&names);
    let mut reversed_names = names;
    reversed_names.reverse();
    let reversed = catalog_of(&reversed_names);

    let first = resolve_by_tag(&forward, &b("snapshot")).expect("a match");
    let again = resolve_by_tag(&forward, &b("snapshot")).expect("a match");
    assert_eq!(first, again);

    let other = resolve_by_tag(&reversed, &b("snapshot")).expect("a match");
    assert_eq!(forward[first].name, reversed[other].name);
}

#[test]
fn next_sequence_starts_a_new_tag_at_one() {
    let catalog = catalog_of(&["@_arch-1-snapshot-4-20250101"]);
    assert_eq!(next_tag_sequence(&catalog, &b("arch"), 1, &b("rollback")), Some(1));
}

#[test]
fn next_sequence_is_one_above_the_highest_in_the_lineage() {
    let catalog = catalog_of(&[
        "@_arch-1-snapshot-4-20250101",
        "@_arch-1-snapshot-9-20250102",
        "@_arch-2-snapshot-30-20250102",
        "@_arch-1-rollback-90-20250102",
    ]);
    assert_eq!(next_tag_sequence(&catalog, &b("arch"), 1, &b("snapshot")), Some(10));
    assert_eq!(next_tag_sequence(&catalog, &b("arch"), 2, &b("snapshot")), Some(31));
    assert_eq!(next_tag_sequence(&catalog, &b("arch"), 1, &b("rollback")), Some(91));
}

#[test]
fn next_sequence_refuses_an_exhausted_counter() {
    let catalog = catalog_of(&["@_arch-1-snapshot-18446744073709551615-20250101"]);
    assert_eq!(next_tag_sequence(&catalog, &b("arch"), 1, &b("snapshot")), None);
}
