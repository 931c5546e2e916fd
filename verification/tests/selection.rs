use standings::selection::SelectionSet;

fn code(text: &str) -> String {
    text.to_string()
}

fn holds(selection: &SelectionSet, codes: &[&str]) -> bool {
    codes.iter().all(|code| selection.contains(code))
}

#[test]
fn a_new_selection_is_empty() {
    let selection = SelectionSet::new();
    assert!(selection.is_empty());
    assert_eq!(selection.len(), 0);
    assert!(!selection.contains("HAM"));
}

#[test]
fn ticking_adds_a_code_once() {
    let mut selection = SelectionSet::new();
    assert!(selection.insert(code("HAM")));
    assert!(!selection.insert(code("HAM")));
    assert_eq!(selection.len(), 1);
    assert!(selection.contains("HAM"));
    assert!(!selection.is_empty());
}

#[test]
fn unticking_removes_a_code() {
    let mut selection = SelectionSet::new();
    selection.insert(code("HAM"));
    selection.insert(code("VER"));
    selection.insert(code("ALO"));
    assert!(selection.remove("VER"));
    assert!(!selection.remove("VER"));
    assert_eq!(selection.len(), 2);
    assert!(selection.contains("HAM"));
    assert!(!selection.contains("VER"));
    assert!(selection.contains("ALO"));
}

#[test]
fn a_toggle_gives_a_new_selection_and_keeps_the_old() {
    let mut old = SelectionSet::new();
    old.insert(code("HAM"));
    let with = old.toggled("VER", true);
    assert!(with.contains("HAM") && with.contains("VER"));
    assert_eq!(old.len(), 1);
    let without = with.toggled("HAM", false);
    assert!(!without.contains("HAM") && without.contains("VER"));
    assert_eq!(with.len(), 2);
}

#[test]
fn toggling_to_the_state_already_held_changes_nothing() {
    let mut selection = SelectionSet::new();
    selection.insert(code("HAM"));
    let again = selection.toggled("HAM", true);
    assert_eq!(again.len(), 1);
    let still = selection.toggled("VER", false);
    assert_eq!(still.len(), 1);
    assert!(still.contains("HAM"));
}

#[test]
fn a_copy_holds_the_same_codes() {
    let mut selection = SelectionSet::new();
    selection.insert(code("HAM"));
    selection.insert(code("VER"));
    let copy = selection.clone();
    assert_eq!(copy.len(), 2);
    assert!(holds(&copy, &["HAM", "VER"]));
}
