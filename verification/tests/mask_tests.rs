use gdt_cpus::AffinityMask;

#[test]
fn test_empty_mask() {
    let mask = AffinityMask::empty();
    assert!(mask.is_empty());
    assert_eq!(mask.count(), 0);
    assert!(!mask.contains(0));
}

#[test]
fn test_single_core() {
    let mask = AffinityMask::single(5);
    assert!(!mask.is_empty());
    assert_eq!(mask.count(), 1);
    assert!(mask.contains(5));
    assert!(!mask.contains(4));
}

#[test]
fn test_from_cores() {
    let mask = AffinityMask::from_cores(&[0, 2, 4, 6]);
    assert_eq!(mask.count(), 4);
    assert!(mask.contains(0));
    assert!(!mask.contains(1));
    assert!(mask.contains(2));
}

#[test]
fn test_add_remove() {
    let mut mask = AffinityMask::empty();
    mask.add(0);
    mask.add(1);
    assert_eq!(mask.count(), 2);

    mask.remove(0);
    assert_eq!(mask.count(), 1);
    assert!(!mask.contains(0));
    assert!(mask.contains(1));
}

#[test]
fn test_high_core_ids() {
    let mut mask = AffinityMask::empty();
    mask.add(0);
    mask.add(64);
    mask.add(128);

    assert_eq!(mask.count(), 3);
    assert!(mask.contains(0));
    assert!(mask.contains(64));
    assert!(mask.contains(128));
    assert!(!mask.contains(63));
    assert!(!mask.contains(65));
}

#[test]
fn test_iter() {
    let mask = AffinityMask::from_cores(&[1, 3, 5, 64, 65]);
    let cores: Vec<usize> = mask.iter();
    assert_eq!(cores, vec![1, 3, 5, 64, 65]);
}

#[test]
fn test_as_raw_u64() {
    let mask = AffinityMask::from_cores(&[0, 1, 63]);
    assert_eq!(mask.as_raw_u64(), 0x8000_0000_0000_0003);
}

#[test]
fn test_from_iterator() {
    let ids: Vec<usize> = vec![0, 2, 4].into_iter().collect();
    let mask = AffinityMask::from_cores(&ids);
    assert_eq!(mask.count(), 3);
    assert!(mask.contains(0));
    assert!(mask.contains(2));
    assert!(mask.contains(4));
}

#[test]
fn iter_roundtrip_rebuilds_equal_mask() {
    let mut m = AffinityMask::from_cores(&[3, 9, 70, 200]);
    m.add(500);
    m.remove(9);
    let ids = m.iter();
    let rebuilt = AffinityMask::from_cores(&ids);
    assert!(rebuilt == m);
}

#[test]
fn union_and_intersection_with_self_are_identity() {
    let m = AffinityMask::from_cores(&[0, 5, 64, 129]);
    assert!(m.union(&m) == m);
    assert!(m.intersection(&m) == m);
}

#[test]
fn union_with_empty_is_identity() {
    let m = AffinityMask::from_cores(&[1, 2, 66]);
    assert!(AffinityMask::empty().union(&m) == m);
}

#[test]
fn single_holds_exactly_one_id() {
    let m = AffinityMask::single(7);
    assert!(m.contains(7));
    assert_eq!(m.count(), 1);
    assert_eq!(m.iter(), vec![7]);
}

#[test]
fn single_without_its_id_is_empty() {
    let mut m = AffinityMask::single(7);
    m.remove(7);
    assert!(m.is_empty());
}

#[test]
fn raw_u64_of_low_ids() {
    let m = AffinityMask::from_cores(&[0, 1, 63]);
    assert_eq!(m.as_raw_u64(), 0x8000_0000_0000_0003);
}

#[test]
fn high_ids_do_not_change_raw_u64_but_extend_raw_words() {
    let mut m = AffinityMask::from_cores(&[0, 1, 63]);
    let raw_before = m.as_raw_u64();
    let words_before = m.as_raw_bits().len();
    m.add(64);
    m.add(130);
    assert_eq!(m.as_raw_u64(), raw_before);
    assert!(m.as_raw_bits().len() > words_before);
    assert_eq!(m.as_raw_bits().len(), 3);
}

#[test]
fn union_and_intersection_combine_ids() {
    let a = AffinityMask::from_cores(&[0, 1, 2]);
    let b = AffinityMask::from_cores(&[1, 2, 3]);
    let u = a.union(&b);
    assert_eq!(u.count(), 4);
    let i = a.intersection(&b);
    assert_eq!(i.count(), 2);
    assert!(i.contains(1));
    assert!(i.contains(2));
    assert!(!i.contains(0));
}

#[test]
fn default_mask_is_empty() {
    let m = AffinityMask::default();
    assert!(m.is_empty());
}

#[test]
fn equality_ignores_trailing_empty_words() {
    let mut a = AffinityMask::from_cores(&[1, 2]);
    a.add(100);
    a.remove(100);
    let b = AffinityMask::from_cores(&[1, 2]);
    assert!(a == b);
}
