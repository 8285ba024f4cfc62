use samevol::builder::{EnumerationError, VolumeListing, VolumeRecord};
use samevol::resolver::PathAnswer;
use samevol::table::VolumeTable;
use samevol::{is_same_vol, reinitialize_volume_map, resolve_device_path};

const DISK_C: &str = "\\\\?\\Volume{aaaaaaaa-0000-0000-0000-00000000000c}\\";
const DISK_D: &str = "\\\\?\\Volume{bbbbbbbb-0000-0000-0000-00000000000d}\\";
const DISK_WECHAT: &str = "\\\\?\\Volume{cccccccc-0000-0000-0000-00000000000e}\\";

/// The mount points of the machine that these tests describe.
const MOUNT_POINTS: [&str; 3] = ["C:\\", "D:\\", "D:\\Vdisks\\Wechat\\"];

fn volume(name: &str, mount_points: &[&str]) -> VolumeRecord {
    let mut name_buffer: Vec<u16> = name.encode_utf16().collect();
    name_buffer.resize(50, 0);
    let mut paths: Vec<u16> = Vec::new();
    for mount_point in mount_points {
        paths.extend(mount_point.encode_utf16());
        paths.push(0);
    }
    paths.push(0);
    let paths_len = paths.len() as u32;
    paths.resize(4096, 0);
    VolumeRecord { name: name_buffer, paths_found: true, paths_len, paths }
}

fn machine() -> VolumeListing {
    VolumeListing::Volumes {
        records: vec![
            volume(DISK_C, &["C:\\"]),
            volume(DISK_D, &["D:\\"]),
            volume(DISK_WECHAT, &["D:\\Vdisks\\Wechat\\"]),
        ],
    }
}

fn machine_table() -> VolumeTable {
    let mut table = VolumeTable::new();
    assert_eq!(reinitialize_volume_map(&mut table, &machine()), Ok(3));
    table
}

/// What the machine answers about the absolute path `full`: its length, and
/// the longest of its mount points under which the path lies.
fn answer_for(full: &str) -> PathAnswer {
    let with_end = format!("{}\\", full);
    let mut best: Option<&str> = None;
    for mount_point in MOUNT_POINTS {
        if with_end.starts_with(mount_point) && best.map_or(true, |b| b.len() < mount_point.len()) {
            best = Some(mount_point);
        }
    }
    let mut buffer: Vec<u16> = best.unwrap_or("").encode_utf16().collect();
    buffer.resize(4096, 0);
    PathAnswer {
        full_len: full.encode_utf16().count() as u32,
        full_capacity: 4096,
        mount_found: best.is_some(),
        mount_point: buffer,
    }
}

#[test]
fn test_basic() {
    let table = machine_table();
    let path1 = r"C:\Windows\System32";
    let path2 = r"C:\Users\Public";
    assert!(is_same_vol(&table, &answer_for(path1), &answer_for(path2)));
}

#[test]
fn test_vhd_detection() {
    let table = machine_table();
    let path1 = r"D:\";
    let path2 = r"D:\Vdisks\Wechat\another_file.txt";
    assert!(!is_same_vol(&table, &answer_for(path1), &answer_for(path2)));
}

#[test]
fn test_resolve_device_path_of_relative() {
    let table = machine_table();
    let path = r"src";
    let current_dir_str = r"C:\Users\Public\project";
    let resolved_path1 = resolve_device_path(&table, &answer_for(&format!("{}\\{}", current_dir_str, path))).unwrap();
    let resolved_path2 = resolve_device_path(&table, &answer_for(current_dir_str)).unwrap();
    assert_eq!(resolved_path1, resolved_path2);
}

#[test]
fn distinct_drives_are_distinct_volumes() {
    let table = machine_table();
    assert!(!is_same_vol(&table, &answer_for(r"C:\Windows\System32"), &answer_for(r"D:\Data")));
}

#[test]
fn resolve_gives_volume_identifier() {
    let table = machine_table();
    assert_eq!(resolve_device_path(&table, &answer_for(r"C:\Windows")), Some(String::from(DISK_C)));
    assert_eq!(resolve_device_path(&table, &answer_for(r"D:\Data\file.txt")), Some(String::from(DISK_D)));
    assert_eq!(
        resolve_device_path(&table, &answer_for(r"D:\Vdisks\Wechat\file.txt")),
        Some(String::from(DISK_WECHAT))
    );
    assert_eq!(resolve_device_path(&table, &answer_for(r"D:\Vdisks\Other")), Some(String::from(DISK_D)));
}

#[test]
fn resolve_takes_longest_mount_point_of_the_table() {
    let table = machine_table();
    let mut nested = answer_for(r"D:\Vdisks\Wechat\deep\file.txt");
    nested.mount_point = r"D:\Vdisks\Wechat\deep\".encode_utf16().collect();
    assert_eq!(resolve_device_path(&table, &nested), Some(String::from(DISK_WECHAT)));
}

#[test]
fn resolve_is_none_without_mount_point() {
    let table = machine_table();
    assert_eq!(resolve_device_path(&table, &answer_for(r"E:\Data")), None);
    let mut failed = answer_for(r"C:\Windows");
    failed.full_len = 0;
    assert_eq!(resolve_device_path(&table, &failed), None);
    let mut too_long = answer_for(r"C:\Windows");
    too_long.full_len = 4096;
    assert_eq!(resolve_device_path(&table, &too_long), None);
    let mut undecodable = answer_for(r"C:\Windows");
    undecodable.mount_point[0] = 0xDFFF;
    assert_eq!(resolve_device_path(&table, &undecodable), None);
}

#[test]
fn resolve_is_none_in_empty_table() {
    let table = VolumeTable::new();
    assert_eq!(resolve_device_path(&table, &answer_for(r"C:\Windows")), None);
}

#[test]
fn same_volume_is_reflexive_for_resolvable_paths() {
    let table = machine_table();
    for path in [r"C:\", r"C:\Windows\System32", r"D:\Data", r"D:\Vdisks\Wechat\file.txt"] {
        assert!(is_same_vol(&table, &answer_for(path), &answer_for(path)));
    }
}

#[test]
fn same_volume_is_false_for_unresolvable_paths() {
    let table = machine_table();
    let unknown = answer_for(r"E:\Data");
    assert!(!is_same_vol(&table, &unknown, &unknown));
    assert!(!is_same_vol(&table, &unknown, &answer_for(r"C:\")));
    assert!(!is_same_vol(&table, &answer_for(r"C:\"), &unknown));
    let empty = VolumeTable::new();
    assert!(!is_same_vol(&empty, &answer_for(r"C:\"), &answer_for(r"C:\")));
}

#[test]
fn same_volume_is_symmetric() {
    let table = machine_table();
    let paths = [r"C:\Windows", r"C:\Users", r"D:\", r"D:\Vdisks\Wechat\a", r"D:\Vdisks", r"E:\x"];
    for first in paths {
        for second in paths {
            assert_eq!(
                is_same_vol(&table, &answer_for(first), &answer_for(second)),
                is_same_vol(&table, &answer_for(second), &answer_for(first))
            );
        }
    }
}

#[test]
fn same_volume_through_two_mount_points() {
    let mut table = VolumeTable::new();
    let listing = VolumeListing::Volumes {
        records: vec![volume(DISK_C, &["C:\\"]), volume(DISK_D, &["D:\\", "C:\\mnt\\d\\"])],
    };
    assert_eq!(reinitialize_volume_map(&mut table, &listing), Ok(3));
    let mut through_link = answer_for(r"C:\mnt\d\file.txt");
    through_link.mount_point = "C:\\mnt\\d\\".encode_utf16().collect();
    assert!(is_same_vol(&table, &through_link, &answer_for(r"D:\file.txt")));
    assert!(!is_same_vol(&table, &through_link, &answer_for(r"C:\file.txt")));
}

#[test]
fn reinitialize_counts_distinct_mount_points() {
    let mut table = VolumeTable::new();
    let listing = VolumeListing::Volumes {
        records: vec![volume(DISK_C, &["C:\\", "C:/"]), volume(DISK_D, &["D:\\", "C:\\"])],
    };
    assert_eq!(reinitialize_volume_map(&mut table, &listing), Ok(2));
    assert_eq!(table.len(), 2);
    assert_eq!(resolve_device_path(&table, &answer_for(r"C:\Windows")), Some(String::from(DISK_D)));
}

#[test]
fn reinitialize_twice_gives_same_count() {
    let mut table = VolumeTable::new();
    let first = reinitialize_volume_map(&mut table, &machine());
    let second = reinitialize_volume_map(&mut table, &machine());
    assert_eq!(first, Ok(3));
    assert_eq!(second, first);
    assert_eq!(table, machine_table());
}

#[test]
fn reinitialize_replaces_the_whole_table() {
    let mut table = machine_table();
    let listing = VolumeListing::Volumes { records: vec![volume(DISK_D, &["E:\\"])] };
    assert_eq!(reinitialize_volume_map(&mut table, &listing), Ok(1));
    assert_eq!(table.len(), 1);
    assert_eq!(resolve_device_path(&table, &answer_for(r"C:\Windows")), None);
}

#[test]
fn reinitialize_failure_leaves_table_untouched() {
    let mut table = machine_table();
    let outcome = reinitialize_volume_map(&mut table, &VolumeListing::Unavailable { code: 1168 });
    assert_eq!(outcome, Err(EnumerationError { code: 1168 }));
    assert_eq!(table, machine_table());
    assert!(is_same_vol(&table, &answer_for(r"C:\Windows\System32"), &answer_for(r"C:\Users\Public")));
}
