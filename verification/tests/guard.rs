use see::guard::{
    answer_of, check, prompt_labels, has_content_in_dir, is_dir_exist, is_dir_not_empty, try_download, Answer,
    Destination, Occupancy, Step,
};

fn seen(exists: bool, is_dir: bool, entries: Option<Vec<bool>>) -> Destination {
    Destination { path: "dest".to_string(), exists, is_dir, entries }
}

#[test]
fn empty_directory_is_free_and_needs_no_prompt() {
    let d = seen(true, true, Some(vec![]));
    assert_eq!(check(&d), Occupancy::Empty);
    assert!(!has_content_in_dir(&d));
    assert_eq!(try_download(&d, None), Step::Download);
}

#[test]
fn missing_destination_is_free() {
    let d = seen(false, false, None);
    assert_eq!(check(&d), Occupancy::Empty);
    assert_eq!(try_download(&d, None), Step::Download);
}

#[test]
fn directory_with_one_file_is_occupied() {
    let d = seen(true, true, Some(vec![true]));
    assert_eq!(check(&d), Occupancy::Occupied);
    assert!(has_content_in_dir(&d));
    assert_eq!(try_download(&d, None), Step::Ask);
}

#[test]
fn quitting_ends_the_run_with_code_1() {
    let d = seen(true, true, Some(vec![true]));
    assert_eq!(try_download(&d, Some(Answer::Quit)), Step::Exit(1));
    assert_eq!(try_download(&d, Some(Answer::Cancelled)), Step::Exit(1));
}

#[test]
fn overwriting_goes_on() {
    let d = seen(true, true, Some(vec![false, true]));
    assert_eq!(try_download(&d, Some(Answer::Overwrite)), Step::Download);
}

#[test]
fn answer_is_ignored_at_a_free_destination() {
    let d = seen(true, true, Some(vec![]));
    assert_eq!(try_download(&d, Some(Answer::Quit)), Step::Download);
}

#[test]
fn one_readable_entry_is_enough() {
    assert!(is_dir_not_empty(&seen(true, true, Some(vec![false, false, true]))));
    assert!(!is_dir_not_empty(&seen(true, true, Some(vec![false, false]))));
    assert!(!is_dir_not_empty(&seen(true, true, None)));
}

#[test]
fn directory_that_cannot_be_listed_is_free() {
    assert_eq!(check(&seen(true, true, None)), Occupancy::Empty);
}

#[test]
fn file_at_the_destination_is_no_directory() {
    let d = seen(true, false, Some(vec![true]));
    assert!(!is_dir_exist(&d));
    assert_eq!(check(&d), Occupancy::Empty);
    assert!(is_dir_exist(&seen(true, true, None)));
    assert!(!is_dir_exist(&seen(false, true, None)));
}

#[test]
fn labels_of_the_prompt() {
    assert_eq!(answer_of(Some("overwrite")), Answer::Overwrite);
    assert_eq!(answer_of(Some("quit")), Answer::Quit);
    assert_eq!(answer_of(Some("Quit")), Answer::Cancelled);
    assert_eq!(answer_of(None), Answer::Cancelled);
}

#[test]
fn prompt_offers_two_choices_that_are_understood() {
    let (overwrite, quit) = prompt_labels();
    assert_eq!(overwrite, "overwrite");
    assert_eq!(quit, "quit");
    assert_eq!(answer_of(Some(overwrite)), Answer::Overwrite);
    assert_eq!(answer_of(Some(quit)), Answer::Quit);
}

#[test]
fn root_of_the_crate_offers_the_guard() {
    assert!(see::has_content_in_dir(&seen(true, true, Some(vec![true]))));
    assert!(!see::has_content_in_dir(&seen(true, true, Some(vec![]))));
}
