use server::access::{access_decision, access_list_key, AuthorizedUsers};

#[test]
fn listed_endpoint_is_permitted() {
    let list = AuthorizedUsers { authorized_users: vec!["alice".to_string(), "bob".to_string()] };
    assert!(list.permits("bob"));
    assert!(list.permits("alice"));
    assert!(!list.permits("carol"));
    assert!(!list.permits("bo"));
}

#[test]
fn empty_list_permits_nobody() {
    let list = AuthorizedUsers { authorized_users: Vec::new() };
    assert!(!list.permits(""));
}

#[test]
fn uploader_is_admitted_by_own_list() {
    let list = AuthorizedUsers::single("k51qzi5uqu5d");
    assert_eq!(list.authorized_users, vec!["k51qzi5uqu5d"]);
    assert!(list.permits("k51qzi5uqu5d"));
    assert!(!list.permits("someone else"));
}

#[test]
fn decision_without_access_list_is_no() {
    assert!(!access_decision(None, "alice"));
    let list = AuthorizedUsers::single("alice");
    assert!(access_decision(Some(&list), "alice"));
    assert!(!access_decision(Some(&list), "eve"));
}

#[test]
fn access_list_key_text() {
    assert_eq!(access_list_key(), "accesslist");
}
