use snaproll::errors::CoreError;
use snaproll::mount::{ensure_mounted_as_expected_type, parse_mount_table};

fn b(s: &str) -> Vec<u8> {
    s.as_bytes().to_vec()
}

#[test]
fn mount_table_lines_become_entries() {
    let output = b("TARGET FSTYPE\n/mnt   btrfs\n\n/boot  vfat\n");
    let table = parse_mount_table(&output);
    assert_eq!(table.len(), 3);
    assert_eq!(table[1].target, b("/mnt"));
    assert_eq!(table[1].fstype, b("btrfs"));
    assert_eq!(table[2].target, b("/boot"));
    assert_eq!(table[2].fstype, b("vfat"));
}

#[test]
fn guard_accepts_the_expected_mount() {
    let table = parse_mount_table(&b("TARGET FSTYPE\n/mnt btrfs\n"));
    assert!(ensure_mounted_as_expected_type(&table, &b("/mnt"), &b("btrfs")).is_ok());
}

#[test]
fn guard_rejects_a_different_filesystem_type() {
    let table = parse_mount_table(&b("TARGET FSTYPE\n/mnt ext4\n"));
    assert_eq!(
        ensure_mounted_as_expected_type(&table, &b("/mnt"), &b("btrfs")),
        Err(CoreError::NotMounted)
    );
}

#[test]
fn guard_rejects_an_absent_target() {
    let table = parse_mount_table(&b("TARGET FSTYPE\n/home btrfs\n"));
    assert_eq!(
        ensure_mounted_as_expected_type(&table, &b("/mnt"), &b("btrfs")),
        Err(CoreError::NotMounted)
    );
    let empty = parse_mount_table(&b(""));
    assert_eq!(
        ensure_mounted_as_expected_type(&empty, &b("/mnt"), &b("btrfs")),
        Err(CoreError::NotMounted)
    );
}

#[test]
fn guard_matches_on_a_target_prefix() {
    let table = parse_mount_table(&b("/mnt/subvolumes btrfs\n"));
    assert!(ensure_mounted_as_expected_type(&table, &b("/mnt"), &b("btrfs")).is_ok());
    assert!(ensure_mounted_as_expected_type(&table, &b("/mnt/sub"), &b("btrfs")).is_ok());
    assert!(ensure_mounted_as_expected_type(&table, &b("/var"), &b("btrfs")).is_err());
}

#[test]
fn error_messages_name_their_cause() {
    assert_eq!(
        CoreError::NotMounted.message(),
        "target directory is not mounted as expected"
    );
    assert_eq!(CoreError::NotFound.message(), "no snapshot matches the query");
    assert_eq!(CoreError::StorageUnavailable.message(), "storage primitive failed to run");
    assert_eq!(
        CoreError::Dangerous.message(),
        "no primary root present; manual recovery required"
    );
}
