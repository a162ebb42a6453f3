use frospy::util::{random_name, random_name_tag};

#[test]
fn test_random_name() {
    assert!(random_name().len() == 10);
}

#[test]
fn test_random_name_tag() {
    assert!(random_name_tag("", 5).len() == 5);
    assert!(random_name_tag("tag_", 5).len() == 9);
    assert!(random_name_tag("tag_", 5).starts_with("tag_"));
}

#[test]
fn random_names_are_lowercase() {
    let n = random_name_tag("x_", 20);
    assert!(n["x_".len()..].chars().all(|c| c.is_ascii_lowercase()));
}
