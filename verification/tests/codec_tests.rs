use snaproll::codec::{parse, precedes, SnapshotId};

fn b(s: &str) -> Vec<u8> {
    s.as_bytes().to_vec()
}

fn id(root_name: &str, root_id: u64, tag: &str, tag_sequence: u64, date: u64) -> SnapshotId {
    SnapshotId {
        root_name: b(root_name),
        root_id,
        tag: b(tag),
        tag_sequence,
        date,
    }
}

#[test]
fn format_renders_the_reference_grammar() {
    let x = id("arch", 1, "snapshot", 1, 20250101);
    assert_eq!(snaproll::codec::format(&x), b("@_arch-1-snapshot-1-20250101"));
}

#[test]
fn parse_reads_a_well_formed_name() {
    let r = parse(&b("@_arch-1-snapshot-2-20250102")).expect("a snapshot name");
    assert_eq!(r.root_name, b("arch"));
    assert_eq!(r.root_id, 1);
    assert_eq!(r.tag, b("snapshot"));
    assert_eq!(r.tag_sequence, 2);
    assert_eq!(r.date, 20250102);
}

#[test]
fn parse_inverts_format() {
    let cases = vec![
        id("arch", 1, "snapshot", 1, 20250101),
        id("arch", 0, "rollback", 0, 0),
        id("base.img", 18446744073709551615, "t", 18446744073709551615, 99999999),
        id("a b", 7, "x_y", 12, 19991231),
    ];
    for x in cases {
        let name = snaproll::codec::format(&x);
        let y = parse(&name).expect("formatted names parse");
        assert_eq!(y.root_name, x.root_name);
        assert_eq!(y.root_id, x.root_id);
        assert_eq!(y.tag, x.tag);
        assert_eq!(y.tag_sequence, x.tag_sequence);
        assert_eq!(y.date, x.date);
    }
}

#[test]
fn parse_reports_non_snapshots_as_none() {
    let not_snapshots = vec![
        "",
        "@",
        "@_",
        "snapshots",
        "@-arch-1-snapshot-1-20250101",
        "_@arch-1-snapshot-1-20250101",
        "@_arch-1-snapshot-1",
        "@_arch-1-snapshot-1-2025010",
        "@_arch-1-snapshot-1-202501012",
        "@_arch-1-snapshot-1-2025010a",
        "@_-1-snapshot-1-20250101",
        "@_arch-1--1-20250101",
        "@_arch--snapshot-1-20250101",
        "@_arch-01-snapshot-1-20250101",
        "@_arch-1-snapshot-007-20250101",
        "@_arch-1x-snapshot-1-20250101",
        "@_arch-1-snapshot-1-20250101-extra",
        "@_arch-99999999999999999999-snapshot-1-20250101",
    ];
    for s in not_snapshots {
        assert!(parse(&b(s)).is_none(), "{:?} must not parse", s);
    }
}

#[test]
fn parse_accepts_the_number_zero_but_not_a_padded_one() {
    assert!(parse(&b("@_arch-0-snapshot-0-00000000")).is_some());
    assert!(parse(&b("@_arch-00-snapshot-0-00000000")).is_none());
}

#[test]
fn order_puts_the_later_date_last() {
    let older = id("arch", 1, "snapshot", 9, 20250101);
    let newer = id("arch", 1, "snapshot", 1, 20250105);
    assert!(precedes(&older, &newer));
    assert!(!precedes(&newer, &older));
}

#[test]
fn order_breaks_date_ties_by_tag_sequence() {
    let first = id("arch", 1, "snapshot", 1, 20250101);
    let second = id("arch", 1, "snapshot", 2, 20250101);
    assert!(precedes(&first, &second));
    assert!(!precedes(&second, &first));
}

#[test]
fn order_is_strict_and_transitive_on_samples() {
    let a = id("arch", 1, "snapshot", 1, 20250101);
    let c = id("arch", 1, "snapshot", 2, 20250102);
    let e = id("arch", 1, "snapshot", 3, 20250103);
    assert!(!precedes(&a, &a));
    assert!(precedes(&a, &c) && precedes(&c, &e) && precedes(&a, &e));
}
