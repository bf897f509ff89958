use std::collections::HashMap;
use voice_recorder::identity::{group_by_speaker, group_ssrcs_by_user, IdentityMap};

#[test]
fn test_group_ssrcs_by_user() {
    let mut ssrc_map = HashMap::new();
    ssrc_map.insert(1000, 12345);
    ssrc_map.insert(1001, 12345); // Same user
    ssrc_map.insert(2000, 67890);

    let grouped = group_ssrcs_by_user(&ssrc_map);

    assert_eq!(grouped.len(), 2);
    assert_eq!(grouped.get(&12345).unwrap(), &vec![1000, 1001]);
    assert_eq!(grouped.get(&67890).unwrap(), &vec![2000]);
}

#[test]
fn grouping_sorts_each_speakers_streams() {
    let mut ids = IdentityMap::new();
    ids.insert(9, 1);
    ids.insert(3, 2);
    ids.insert(5, 1);
    ids.insert(1, 1);
    let grouped = group_by_speaker(&ids);
    assert_eq!(grouped.len(), 2);
    assert_eq!(grouped.get(&1).unwrap(), &vec![1, 5, 9]);
    assert_eq!(grouped.get(&2).unwrap(), &vec![3]);
    assert!(grouped.get(&7).is_none());
    assert_eq!(group_ssrcs_by_user(&HashMap::new()).len(), 0);
}

#[test]
fn identity_update_twice_equals_once() {
    let mut once = IdentityMap::new();
    once.update(1000, Some(12345));
    let mut twice = IdentityMap::new();
    twice.update(1000, Some(12345));
    twice.update(1000, Some(12345));
    assert_eq!(once.entries(), twice.entries());
    assert_eq!(twice.len(), 1);
    assert_eq!(twice.get(1000), Some(12345));
}

#[test]
fn identity_update_overwrites_and_ignores_unknown_speaker() {
    let mut ids = IdentityMap::new();
    ids.update(7, Some(1));
    ids.update(7, Some(2));
    ids.update(8, None);
    assert_eq!(ids.get(7), Some(2));
    assert_eq!(ids.get(8), None);
    assert_eq!(ids.len(), 1);
}
