use logic_sim::file_names::{
    append_to_file_name, ensure_unique_directory_name, ensure_unique_file_name, name_contains_forbidden_char,
    valid_file_name,
};

#[test]
fn forbidden_chars_are_detected() {
    for c in ['<', '>', ':', '"', '/', '\\', '|', '?', '*', '.'] {
        let name = format!("chip{c}name");
        assert!(name_contains_forbidden_char(&name), "expected {c:?} to be forbidden");
    }
    assert!(!name_contains_forbidden_char("valid-chip_name 123"));
    assert!(!name_contains_forbidden_char(""));
}

#[test]
fn reserved_device_names_and_empty_names_are_not_valid() {
    assert!(valid_file_name("My Adder"));
    assert!(!valid_file_name(""));
    assert!(!valid_file_name("con"));
    assert!(!valid_file_name("  LPT3 "));
    assert!(!valid_file_name("com1"));
    assert!(valid_file_name("COM10"));
    assert!(valid_file_name("COM0"));
    assert!(!valid_file_name("a.b"));
}

fn names(v: &[&str]) -> Vec<String> {
    v.iter().map(|s| s.to_string()).collect()
}

#[test]
fn a_free_file_name_is_kept() {
    assert_eq!(ensure_unique_file_name("AND.json", &names(&["OR.json"])), "AND.json");
}

#[test]
fn a_taken_file_name_gets_the_first_free_number_before_its_extension() {
    let taken = names(&["AND.json", "AND_1.json", "AND_3.json"]);
    assert_eq!(ensure_unique_file_name("AND.json", &taken), "AND_2.json");
    assert_eq!(ensure_unique_file_name("AND.json", &names(&["AND.json"])), "AND_1.json");
}

#[test]
fn file_names_split_at_the_last_dot_unless_it_leads() {
    assert_eq!(ensure_unique_file_name("a.tar.gz", &names(&["a.tar.gz"])), "a.tar_1.gz");
    assert_eq!(ensure_unique_file_name(".hidden", &names(&[".hidden"])), ".hidden_1");
    assert_eq!(ensure_unique_file_name("README", &names(&["README"])), "README_1");
    assert_eq!(ensure_unique_file_name("..", &names(&[".."])), ".._1");
}

#[test]
fn directory_names_get_a_number_appended() {
    assert_eq!(ensure_unique_directory_name("GOL", &names(&["Other"])), "GOL");
    assert_eq!(ensure_unique_directory_name("GOL", &names(&["GOL", "GOL_1"])), "GOL_2");
    assert_eq!(ensure_unique_directory_name("v1.2", &names(&["v1.2"])), "v1.2_1");
}

#[test]
fn appending_to_a_file_name() {
    assert_eq!(append_to_file_name("Project", "_3"), "Project_3");
    assert_eq!(append_to_file_name("", "x"), "x");
}
