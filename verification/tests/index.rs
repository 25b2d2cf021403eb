use pollkit::index::index_lines;

fn positions_for<'a>(idx: &'a [(String, Vec<usize>)], word: &str) -> Option<&'a Vec<usize>> {
    for (w, positions) in idx {
        if w == word {
            return Some(positions);
        }
    }
    None
}

#[test]
fn index_counts_across_lines() {
    let lines = vec!["Hello world".to_string(), "hello There".to_string()];
    let idx = index_lines(&lines).unwrap();

    assert_eq!(idx.len(), 3);
    assert_eq!(positions_for(&idx, "hello"), Some(&vec![0, 2]));
    assert_eq!(positions_for(&idx, "world"), Some(&vec![1]));
    assert_eq!(positions_for(&idx, "there"), Some(&vec![3]));
    assert_eq!(positions_for(&idx, "Hello"), None);
}

#[test]
fn index_lowercases_words() {
    // One word in two spellings must collapse to a single lowered entry.
    let lines = vec!["Apple aPPle APPLE".to_string()];
    let idx = index_lines(&lines).unwrap();

    assert_eq!(idx.len(), 1);
    assert_eq!(positions_for(&idx, "apple"), Some(&vec![0, 1, 2]));
}

#[test]
fn index_splits_on_whitespace() {
    // Tabs and repeated blanks separate words; nothing keeps the blanks.
    let lines = vec!["one\ttwo   three".to_string()];
    let idx = index_lines(&lines).unwrap();

    assert_eq!(idx.len(), 3);
    assert_eq!(positions_for(&idx, "one"), Some(&vec![0]));
    assert_eq!(positions_for(&idx, "two"), Some(&vec![1]));
    assert_eq!(positions_for(&idx, "three"), Some(&vec![2]));
    assert_eq!(positions_for(&idx, "one\ttwo   three"), None);
}

#[test]
fn index_empty_input() {
    let none: Vec<String> = Vec::new();
    let idx = index_lines(&none).unwrap();
    assert!(idx.is_empty());

    let blank = vec!["".to_string(), "   ".to_string()];
    let idx = index_lines(&blank).unwrap();
    assert!(idx.is_empty());
}
