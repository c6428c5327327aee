use sysinfo::disks::{classify_media, DiskType, DiskTypeCache, Volume};
use sysinfo::system::System;

#[test]
fn media_classification_rule() {
    assert_eq!(classify_media(false, false), None);
    assert_eq!(classify_media(false, true), None);
    assert_eq!(classify_media(true, true), Some(DiskType::Unknown(-1)));
    assert_eq!(classify_media(true, false), Some(DiskType::SSD));
}

#[test]
fn cache_classifies_after_one_enumeration() {
    let mut c = DiskTypeCache::new();
    assert!(c.needs_enumeration());
    c.install(vec![
        (b"disk0".to_vec(), DiskType::SSD),
        (b"raid1".to_vec(), DiskType::Unknown(-1)),
    ]);
    assert!(!c.needs_enumeration());
    assert_eq!(c.classify(&b"disk0".to_vec()), DiskType::SSD);
    assert_eq!(c.classify(&b"raid1".to_vec()), DiskType::Unknown(-1));
    assert_eq!(c.classify(&b"nope".to_vec()), DiskType::Unknown(-2));
}

#[test]
fn failed_enumeration_leaves_everything_unindexed() {
    let mut c = DiskTypeCache::new();
    c.install(Vec::new());
    assert!(!c.needs_enumeration());
    assert_eq!(c.classify(&b"disk0".to_vec()), DiskType::Unknown(-2));
}

#[test]
fn disk_list_classifies_and_skips_unresolved_mounts() {
    let mut s = System::new(4);
    assert!(s.disk_types_pending());
    s.install_disk_types(vec![(b"disk0".to_vec(), DiskType::SSD)]);
    assert!(!s.disk_types_pending());
    let vols = vec![
        Volume { name: b"disk0".to_vec(), mount_point: b"/Volumes/disk0".to_vec() },
        Volume { name: b"ghost".to_vec(), mount_point: Vec::new() },
        Volume { name: b"usb".to_vec(), mount_point: b"/Volumes/usb".to_vec() },
    ];
    s.refresh_disk_list(vols);
    let disks = s.get_disks();
    assert_eq!(disks.len(), 2);
    assert_eq!(disks[0].name, b"disk0".to_vec());
    assert_eq!(disks[0].mount_point, b"/Volumes/disk0".to_vec());
    assert_eq!(disks[0].type_, DiskType::SSD);
    assert_eq!(disks[1].name, b"usb".to_vec());
    assert_eq!(disks[1].type_, DiskType::Unknown(-2));
}
