use snaproll::catalog::{
    build_catalog, current_root_lineage, default_subvolume, entry_file_name, get_current_id,
    names_from_lines, names_from_listing, snapshot_children, snapshot_exists, Snapshot,
};

fn b(s: &str) -> Vec<u8> {
    s.as_bytes().to_vec()
}

#[test]
fn catalog_keeps_snapshots_and_drops_unknown_entries() {
    let names = vec![
        b("@_arch-1-snapshot-1-20250101"),
        b("lost+found"),
        b("@"),
        b("@_arch-1-snapshot-2-20250102"),
        b("backup.tar"),
    ];
    let catalog = build_catalog(&names);
    assert_eq!(catalog.len(), 2);
    assert_eq!(catalog[0].name, b("@_arch-1-snapshot-1-20250101"));
    assert_eq!(catalog[0].id.tag_sequence, 1);
    assert_eq!(catalog[1].name, b("@_arch-1-snapshot-2-20250102"));
    assert_eq!(catalog[1].id.date, 20250102);
}

#[test]
fn listing_names_are_the_last_field_of_full_lines() {
    let output = b(
        "ID 256 gen 41 top level 5 path @_arch-1-snapshot-1-20250101\nshort line\nnoise\nID 257 gen 44 top level 5 path @_arch-1-snapshot-2-20250102\n",
    );
    let names = names_from_listing(&output);
    assert_eq!(
        names,
        vec![b("@_arch-1-snapshot-1-20250101"), b("line"), b("@_arch-1-snapshot-2-20250102")]
    );
}

#[test]
fn bare_listing_names_are_the_non_empty_lines() {
    let output = b("@_arch-1-snapshot-1-20250101\n\n@\n");
    let names = names_from_lines(&output);
    assert_eq!(names, vec![b("@_arch-1-snapshot-1-20250101"), b("@")]);
}

#[test]
fn current_id_is_the_trimmed_first_line() {
    let output = b("@_arch-1-snapshot-1-20250101\n\tName: \t x\n");
    assert_eq!(get_current_id(&output), Some(b("@_arch-1-snapshot-1-20250101")));
    assert_eq!(get_current_id(&b("  padded  \nrest")), Some(b("padded")));
    assert_eq!(get_current_id(&b("")), None);
}

#[test]
fn children_come_out_of_the_snapshot_field() {
    let details = "@_arch-1-snapshot-1-20250101\n\tName: \t\t\t@_arch-1-snapshot-1-20250101\n\tCreation time: \t\t2025-01-01 09:00:00 +0000\n\tFlags: \t\t\treadonly\n\tSnapshot(s):\n\t\t\t\t@_arch-1-snapshot-2-20250102\n\t\t\t\t@_arch-1-rollback-1-20250103\n\tQuota group:\t\t0/256\n";
    let children = snapshot_children(details);
    assert_eq!(
        children,
        vec![b("@_arch-1-snapshot-2-20250102"), b("@_arch-1-rollback-1-20250103")]
    );
}

#[test]
fn a_report_without_the_snapshot_field_has_no_children() {
    let details = "@_arch-1-snapshot-1-20250101\n\tName: x\n";
    assert_eq!(snapshot_children(details), Vec::<Vec<u8>>::new());
}

#[test]
fn lineage_is_the_entry_that_lists_the_root_among_its_snapshots() {
    let names = vec![b("@_arch-1-snapshot-1-20250101"), b("@_arch-1-snapshot-2-20250102")];
    let mut catalog: Vec<Snapshot> = build_catalog(&names);
    catalog[1].children = vec![b("@"), b("@_arch-1-rollback-1-20250103")];
    assert_eq!(current_root_lineage(&catalog, &b("@")), Some(1));
    assert_eq!(current_root_lineage(&catalog, &b("@root")), None);
}

#[test]
fn existence_goes_by_the_exact_name() {
    let names = vec![b("@_arch-1-snapshot-1-20250101")];
    let catalog = build_catalog(&names);
    assert!(snapshot_exists(&catalog, &b("@_arch-1-snapshot-1-20250101")));
    assert!(!snapshot_exists(&catalog, &b("@_arch-1-snapshot-1-20250102")));
}

#[test]
fn default_subvolume_is_the_last_token() {
    let output = b("ID 256 gen 7 top level 5 path @_arch-1-snapshot-1-20250101\n");
    assert_eq!(default_subvolume(&output), Some(b("@_arch-1-snapshot-1-20250101")));
    assert_eq!(default_subvolume(&b("  \n \t ")), None);
}

#[test]
fn entry_file_names_carry_the_conf_suffix() {
    assert_eq!(
        entry_file_name(&b("@_arch-1-snapshot-1-20250101")),
        b("@_arch-1-snapshot-1-20250101.conf")
    );
}
