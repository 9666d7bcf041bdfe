use teams::registry::Registry;

#[test]
fn register_and_lookup() {
    let mut reg = Registry::new();
    assert!(!reg.contains("alice"));
    assert!(reg.register(String::from("alice"), 1));
    assert!(reg.contains("alice"));
    assert_eq!(reg.lookup("alice"), Some(1));
    assert_eq!(reg.lookup("bob"), None);
}

#[test]
fn duplicate_registration_is_rejected() {
    let mut reg = Registry::new();
    assert!(reg.register(String::from("carol"), 7));
    // The second claim on the same username fails and changes nothing:
    // the first registration keeps its connection.
    assert!(!reg.register(String::from("carol"), 8));
    assert_eq!(reg.lookup("carol"), Some(7));
}

#[test]
fn remove_frees_the_username() {
    let mut reg = Registry::new();
    assert!(reg.register(String::from("alice"), 1));
    assert!(reg.remove("alice"));
    assert!(!reg.contains("alice"));
    assert!(reg.register(String::from("alice"), 2));
    assert_eq!(reg.lookup("alice"), Some(2));
}

#[test]
fn second_removal_is_a_noop() {
    let mut reg = Registry::new();
    assert!(reg.register(String::from("alice"), 1));
    assert!(reg.register(String::from("bob"), 2));
    assert!(reg.remove("alice"));
    // A repeated exit finds nothing to remove and disturbs nothing.
    assert!(!reg.remove("alice"));
    assert_eq!(reg.lookup("bob"), Some(2));
    assert!(!reg.remove("never-registered"));
}
