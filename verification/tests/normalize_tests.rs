use npkg::normalize::{name_to_pname, pname_to_name, NameIndex};

#[test]
fn index_maps_both_directions() {
    let mut index = NameIndex::new();
    assert!(index.insert("htop".to_string(), "htop-3.2.2".to_string()));
    assert!(index.insert("curl".to_string(), "curl-8.0.1".to_string()));
    assert_eq!(index.get_by_left(&"htop".to_string()), "htop-3.2.2");
    assert_eq!(index.get_by_right(&"curl-8.0.1".to_string()), "curl");
}

#[test]
fn index_identity_fallback() {
    let index = NameIndex::new();
    assert_eq!(index.get_by_left(&"unknown".to_string()), "unknown");
    assert_eq!(index.get_by_right(&"unknown-1.0".to_string()), "unknown-1.0");
}

#[test]
fn index_rejects_duplicate_keys() {
    let mut index = NameIndex::new();
    assert!(index.insert("htop".to_string(), "htop-3.2.2".to_string()));
    assert!(!index.insert("htop".to_string(), "htop-9.9.9".to_string()));
    assert!(!index.insert("other".to_string(), "htop-3.2.2".to_string()));
    assert_eq!(index.get_by_left(&"htop".to_string()), "htop-3.2.2");
}

#[test]
fn batch_mapping_mixes_known_and_unknown() {
    let mut index = NameIndex::new();
    assert!(index.insert("htop".to_string(), "htop-3.2.2".to_string()));
    let q = vec!["htop".to_string(), "vim".to_string()];
    assert_eq!(pname_to_name(&q, &index), vec!["htop-3.2.2", "vim"]);
    let r = vec!["htop-3.2.2".to_string(), "vim-9.0".to_string()];
    assert_eq!(name_to_pname(&r, &index), vec!["htop", "vim-9.0"]);
}
