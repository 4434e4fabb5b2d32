use msv_supervisor::hex::hex_name;

#[test]
fn hex_names_are_safe_and_distinct() {
    assert_eq!(hex_name("a/b"), "612f62");
    assert_eq!(hex_name(""), "");
    let names = ["a/b", "a?b", "a_b", "é"];
    let spelled: Vec<String> = names.iter().map(|n| hex_name(n)).collect();
    for s in &spelled {
        assert!(s.chars().all(|c| c.is_ascii_digit() || ('a'..='f').contains(&c)));
    }
    for i in 0..spelled.len() {
        for j in (i + 1)..spelled.len() {
            assert_ne!(spelled[i], spelled[j]);
        }
    }
    assert_eq!(hex_name("é"), "c3a9");
}
