use samevol::mount::{MountPoint, ALTERNATE_SEPARATOR, SEPARATOR};

fn text_of(mount_point: &MountPoint) -> String {
    mount_point.as_chars().iter().collect()
}

#[test]
fn separators_are_backslash_and_slash() {
    assert_eq!(SEPARATOR, '\\');
    assert_eq!(ALTERNATE_SEPARATOR, '/');
}

#[test]
fn mount_point_keeps_normal_form() {
    assert_eq!(text_of(&MountPoint::new("C:\\")), "C:\\");
    assert_eq!(text_of(&MountPoint::new("D:\\Vdisks\\Wechat\\")), "D:\\Vdisks\\Wechat\\");
}

#[test]
fn mount_point_adds_trailing_separator() {
    assert_eq!(text_of(&MountPoint::new("C:")), "C:\\");
    assert_eq!(text_of(&MountPoint::new("D:\\mnt\\disk")), "D:\\mnt\\disk\\");
}

#[test]
fn mount_point_replaces_forward_slashes() {
    assert_eq!(text_of(&MountPoint::new("D:/mnt/disk")), "D:\\mnt\\disk\\");
    assert_eq!(text_of(&MountPoint::new("D:/mnt\\disk/")), "D:\\mnt\\disk\\");
    assert_eq!(text_of(&MountPoint::new("/")), "\\");
}

#[test]
fn mount_point_of_empty_text_is_separator() {
    assert_eq!(text_of(&MountPoint::new("")), "\\");
}

#[test]
fn mount_point_normalizing_twice_changes_nothing() {
    let once = MountPoint::new("D:/mnt/disk");
    let twice = MountPoint::new(&text_of(&once));
    assert_eq!(once, twice);
    assert!(once.same_as(&twice));
}

#[test]
fn mount_point_len_counts_characters() {
    assert_eq!(MountPoint::new("C:").len(), 3);
    assert_eq!(MountPoint::new("D:\\\u{00E9}t\u{00E9}\\").len(), 7);
    assert_eq!(MountPoint::new("D:\\\u{1F600}").len(), 5);
}

#[test]
fn mount_point_prefix_is_by_whole_path() {
    let root = MountPoint::new("D:\\");
    let nested = MountPoint::new("D:\\Vdisks\\Wechat\\");
    assert!(root.is_prefix_of(&nested));
    assert!(!nested.is_prefix_of(&root));
    assert!(root.is_prefix_of(&root));
    assert!(!MountPoint::new("C:\\").is_prefix_of(&nested));
}

#[test]
fn mount_point_prefix_respects_segment_ends() {
    let data = MountPoint::new("C:\\Data");
    let database = MountPoint::new("C:\\Database");
    assert!(!data.is_prefix_of(&database));
    assert!(!database.is_prefix_of(&data));
    assert!(data.is_prefix_of(&MountPoint::new("C:\\Data\\base")));
}

#[test]
fn mount_point_same_as_compares_text() {
    assert!(MountPoint::new("C:/Data").same_as(&MountPoint::new("C:\\Data\\")));
    assert!(!MountPoint::new("C:\\Data").same_as(&MountPoint::new("C:\\data")));
    assert!(!MountPoint::new("C:\\").same_as(&MountPoint::new("C:\\Data")));
}
