//! Files by name, in order.

use nfs::Files;

#[test]
fn names_are_in_the_order_of_their_bytes_each_once() {
    let mut files = Files::new();
    assert!(files.is_empty());
    for name in ["b", "a", "ab", "Z", "é", "", "a"] {
        files.insert(name.to_string(), name.as_bytes().to_vec());
    }
    assert_eq!(files.names(), ["", "Z", "a", "ab", "b", "é"]);
    assert_eq!(files.len(), 6);
    assert!(!files.is_empty());
}

#[test]
fn a_file_holds_what_was_put_last() {
    let mut files = Files::new();
    files.insert("a".to_string(), vec![1]);
    files.insert("a".to_string(), vec![2, 3]);
    assert_eq!(files.get("a"), Some(&vec![2, 3]));
    assert!(files.contains("a"));
    assert_eq!(files.get("b"), None);
    let copy = files.clone();
    assert_eq!(files.remove("b"), None);
    assert_eq!(files.remove("a"), Some(vec![2, 3]));
    assert!(!files.contains("a"));
    assert_eq!(files.len(), 0);
    assert_eq!(copy.get("a"), Some(&vec![2, 3]));
}
