use toon_settings::selection::CopySelection;

fn ids(list: &[&str]) -> Vec<String> {
    list.iter().map(|s| s.to_string()).collect()
}

#[test]
fn a_new_selection_is_empty() {
    let selection = CopySelection::new();
    assert_eq!(selection.source(), None);
    assert!(selection.destinations().is_empty());
    assert_eq!(selection.destination_count(), 0);
    assert!(!selection.can_copy());
}

#[test]
fn selecting_a_destination_as_source_takes_it_from_the_destinations() {
    let mut selection = CopySelection::new();
    assert!(selection.add_destination("5".to_string()));
    assert!(selection.add_destination("6".to_string()));
    assert!(selection.is_destination("5"));
    selection.select_source("5".to_string());
    assert_eq!(selection.source(), Some(&"5".to_string()));
    assert!(!selection.is_destination("5"));
    assert_eq!(selection.destinations(), &ids(&["6"]));
}

#[test]
fn the_source_cannot_become_a_destination() {
    let mut selection = CopySelection::new();
    selection.select_source("5".to_string());
    assert!(!selection.add_destination("5".to_string()));
    assert!(selection.destinations().is_empty());
    assert!(selection.is_source("5"));
    assert!(!selection.is_source("6"));
}

#[test]
fn a_destination_is_chosen_once() {
    let mut selection = CopySelection::new();
    assert!(selection.add_destination("2".to_string()));
    assert!(selection.add_destination("3".to_string()));
    assert!(selection.add_destination("2".to_string()));
    assert_eq!(selection.destinations(), &ids(&["2", "3"]));
    assert_eq!(selection.destination_count(), 2);
}

#[test]
fn a_new_source_replaces_the_old_one() {
    let mut selection = CopySelection::new();
    selection.select_source("1".to_string());
    assert!(selection.add_destination("2".to_string()));
    selection.select_source("2".to_string());
    assert_eq!(selection.source(), Some(&"2".to_string()));
    assert!(selection.destinations().is_empty());
    assert!(selection.add_destination("1".to_string()));
    assert_eq!(selection.destinations(), &ids(&["1"]));
}

#[test]
fn removing_a_destination_leaves_the_others() {
    let mut selection = CopySelection::new();
    selection.add_destination("2".to_string());
    selection.add_destination("3".to_string());
    selection.add_destination("4".to_string());
    selection.remove_destination("3");
    assert_eq!(selection.destinations(), &ids(&["2", "4"]));
    selection.remove_destination("9");
    assert_eq!(selection.destinations(), &ids(&["2", "4"]));
}

#[test]
fn a_copy_needs_a_source_and_a_destination() {
    let mut selection = CopySelection::new();
    assert!(!selection.can_copy());
    selection.select_source("1".to_string());
    assert!(!selection.can_copy());
    selection.add_destination("2".to_string());
    assert!(selection.can_copy());
    selection.clear_source();
    assert!(!selection.can_copy());
    assert_eq!(selection.destinations(), &ids(&["2"]));
}

#[test]
fn clear_leaves_nothing_chosen() {
    let mut selection = CopySelection::new();
    selection.select_source("1".to_string());
    selection.add_destination("2".to_string());
    selection.clear();
    assert_eq!(selection.source(), None);
    assert!(selection.destinations().is_empty());
}
