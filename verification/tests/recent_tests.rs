use store_things::recent::{most_recent_file, most_recent_index, Listed};

fn file(path: &str, modified: i128) -> Listed {
    Listed { path: path.to_string(), is_file: true, modified }
}

fn other(path: &str, modified: i128) -> Listed {
    Listed { path: path.to_string(), is_file: false, modified }
}

#[test]
fn most_recent_has_maximum_timestamp() {
    let entries = vec![file("a.png", 100), file("b.png", 300), file("c.png", 200)];
    assert_eq!(most_recent_index(&entries), Some(1));
    assert_eq!(most_recent_file(&entries), Some("b.png".to_string()));
}

#[test]
fn most_recent_in_any_position() {
    let first = vec![file("a", 9), file("b", 3), file("c", 5)];
    assert_eq!(most_recent_file(&first), Some("a".to_string()));
    let last = vec![file("a", 1), file("b", 3), file("c", 5)];
    assert_eq!(most_recent_file(&last), Some("c".to_string()));
}

#[test]
fn most_recent_ignores_what_is_not_a_file() {
    let entries = vec![file("old.png", 10), other("subdir", 999), file("new.png", 20)];
    assert_eq!(most_recent_index(&entries), Some(2));
    assert_eq!(most_recent_file(&entries), Some("new.png".to_string()));
}

#[test]
fn most_recent_of_empty_listing_is_none() {
    assert_eq!(most_recent_index(&Vec::new()), None);
    assert_eq!(most_recent_file(&Vec::new()), None);
}

#[test]
fn most_recent_without_files_is_none() {
    let entries = vec![other("a", 5), other("b", 7)];
    assert_eq!(most_recent_index(&entries), None);
    assert_eq!(most_recent_file(&entries), None);
}

#[test]
fn most_recent_of_single_file() {
    let entries = vec![file("only", -5)];
    assert_eq!(most_recent_file(&entries), Some("only".to_string()));
}

#[test]
fn ties_go_to_the_later_entry() {
    let entries = vec![file("a", 7), file("b", 7), file("c", 1)];
    assert_eq!(most_recent_index(&entries), Some(1));
}

#[test]
fn timestamps_before_the_epoch_are_ordered() {
    let entries = vec![file("a", -300), file("b", -100), file("c", -200)];
    assert_eq!(most_recent_file(&entries), Some("b".to_string()));
}

#[test]
fn most_recent_agrees_with_stable_sort() {
    let entries = vec![
        file("a", 4),
        other("d1", 100),
        file("b", 8),
        file("c", 8),
        file("d", 2),
        other("d2", 8),
        file("e", 7),
    ];
    let mut files: Vec<&Listed> = entries.iter().filter(|e| e.is_file).collect();
    files.sort_by_key(|e| e.modified);
    let expected = files.last().map(|e| e.path.clone());
    assert_eq!(most_recent_file(&entries), expected);
    assert_eq!(expected, Some("c".to_string()));
}

#[test]
fn newer_file_added_anywhere_is_selected() {
    let base = vec![file("a", 10), other("d", 500), file("b", 30), file("c", 20)];
    for at in 0..=base.len() {
        let mut entries: Vec<Listed> = Vec::new();
        for (i, e) in base.iter().enumerate() {
            if i == at {
                entries.push(file("new", 31));
            }
            entries.push(Listed { path: e.path.clone(), is_file: e.is_file, modified: e.modified });
        }
        if at == base.len() {
            entries.push(file("new", 31));
        }
        assert_eq!(most_recent_index(&entries), Some(at));
        assert_eq!(most_recent_file(&entries), Some("new".to_string()));
    }
}
