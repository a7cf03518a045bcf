use std::path::PathBuf;
use tkrar::walk::{is_ignored_file, Walk};

fn words(list: &[&str]) -> Vec<String> {
    list.iter().map(|w| w.to_string()).collect()
}

fn paths(list: &[&str]) -> Vec<PathBuf> {
    list.iter().map(PathBuf::from).collect()
}

#[test]
fn listed_names_are_ignored() {
    let ignore = Some(words(&["dummy.txt", "ignored.txt"]));
    assert!(is_ignored_file("dummy.txt", &ignore));
    assert!(is_ignored_file("ignored.txt", &ignore));
    assert!(!is_ignored_file("kept.txt", &ignore));
    assert!(!is_ignored_file("Dummy.txt", &ignore));
    assert!(!is_ignored_file("dummy.txt.bak", &ignore));
    assert!(!is_ignored_file("dummy.txt", &None));
    assert!(!is_ignored_file("dummy.txt", &Some(Vec::new())));
}

#[test]
fn targets_are_visited_in_their_order() {
    let mut walk = Walk::new(paths(&["a", "b", "c"]));
    assert_eq!(walk.next(), Some(PathBuf::from("a")));
    assert_eq!(walk.next(), Some(PathBuf::from("b")));
    assert_eq!(walk.next(), Some(PathBuf::from("c")));
    assert_eq!(walk.next(), None);
    assert_eq!(walk.next(), None);
    assert_eq!(walk.into_files(), Vec::<PathBuf>::new());
}

#[test]
fn a_walk_without_targets_ends_at_once() {
    let mut walk = Walk::new(Vec::new());
    assert_eq!(walk.next(), None);
    assert_eq!(walk.into_files(), Vec::<PathBuf>::new());
}

#[test]
fn files_are_kept_unless_ignored() {
    let ignore = Some(words(&["skip.txt"]));
    let mut walk = Walk::new(paths(&["a.txt", "skip.txt", "dir/skip.txt", "b.txt"]));
    while let Some(path) = walk.next() {
        let name = path.file_name().unwrap().to_string_lossy().to_string();
        walk.file(path, &name, &ignore);
    }
    assert_eq!(walk.into_files(), paths(&["a.txt", "b.txt"]));
}

#[test]
fn entries_of_a_directory_come_before_what_was_waiting() {
    // top: a.txt, d/, z.txt; d/ holds d/1.txt, d/e/, d/2.txt; d/e/ holds d/e/x.txt
    let mut walk = Walk::new(paths(&["a.txt", "d", "z.txt"]));
    let mut seen = Vec::new();
    while let Some(path) = walk.next() {
        seen.push(path.clone());
        let text = path.to_string_lossy().to_string();
        if text == "d" {
            walk.directory(text, paths(&["d/1.txt", "d/e", "d/2.txt"]));
        } else if text == "d/e" {
            walk.directory(text, paths(&["d/e/x.txt"]));
        } else {
            let name = path.file_name().unwrap().to_string_lossy().to_string();
            walk.file(path, &name, &None);
        }
    }
    assert_eq!(seen, paths(&["a.txt", "d", "d/1.txt", "d/e", "d/e/x.txt", "d/2.txt", "z.txt"]));
    assert_eq!(
        walk.into_files(),
        paths(&["a.txt", "d/1.txt", "d/e/x.txt", "d/2.txt", "z.txt"])
    );
}

#[test]
fn paths_that_are_passed_over_leave_no_trace() {
    let mut walk = Walk::new(paths(&["missing", "a.txt", "locked"]));
    while let Some(path) = walk.next() {
        if path.to_string_lossy() == "a.txt" {
            walk.file(path, "a.txt", &None);
        }
    }
    assert_eq!(walk.into_files(), paths(&["a.txt"]));
}

#[test]
fn a_directory_is_entered_once() {
    // d/ holds a link back to itself
    let mut walk = Walk::new(paths(&["d"]));
    let mut visits = 0;
    while let Some(path) = walk.next() {
        visits += 1;
        assert!(visits < 10);
        let text = path.to_string_lossy().to_string();
        if text == "d/f.txt" {
            walk.file(path, "f.txt", &None);
        } else {
            walk.directory("/real/d".to_string(), paths(&["d/f.txt", "d/loop"]));
        }
    }
    assert_eq!(visits, 3);
    assert_eq!(walk.into_files(), paths(&["d/f.txt"]));
}

#[test]
fn an_empty_directory_adds_nothing() {
    let mut walk = Walk::new(paths(&["d", "a.txt"]));
    assert_eq!(walk.next(), Some(PathBuf::from("d")));
    walk.directory("d".to_string(), Vec::new());
    assert_eq!(walk.next(), Some(PathBuf::from("a.txt")));
    assert_eq!(walk.next(), None);
}
