use stfu::text::AsText;
use stfu::types::OwnedFilter;

#[test]
fn check_owned_filter() {
    let mut filter = OwnedFilter::empty();
    filter.add_word("hello".to_string());
    filter.add_vec(vec![
        "world".to_string(),
        "this".to_string(),
        "is".to_string(),
    ]);
    filter.add_slice(&["a", "test"]);
    assert_eq!(
        filter.word_list(),
        &["hello", "world", "this", "is", "a", "test"]
    );
}

#[test]
fn add_word_then_add_vec_keeps_order() {
    let mut filter = OwnedFilter::empty();
    assert!(filter.word_list().is_empty());
    filter.add_word("hello".to_string());
    filter.add_vec(vec!["world".to_string()]);
    assert_eq!(filter.word_list(), &["hello", "world"]);
}

#[test]
fn duplicates_are_kept() {
    let mut filter = OwnedFilter::new(vec!["x".to_string()]);
    filter.add_word("x".to_string());
    filter.add_vec(vec!["x".to_string(), "y".to_string()]);
    filter.add_slice(&["y", "x"]);
    assert_eq!(filter.word_list(), &["x", "x", "x", "y", "y", "x"]);
}

#[test]
fn remove_word_removes_all_occurrences() {
    let mut filter = OwnedFilter::new(vec!["x".to_string(), "y".to_string(), "x".to_string()]);
    filter.remove_word("x");
    assert_eq!(filter.word_list(), &["y"]);
}

#[test]
fn remove_word_keeps_the_order_of_the_rest() {
    let mut filter = OwnedFilter::empty();
    filter.add_slice(&["a", "x", "b", "x", "x", "c"]);
    filter.remove_word("x");
    assert_eq!(filter.word_list(), &["a", "b", "c"]);
}

#[test]
fn remove_word_that_is_not_held_changes_nothing() {
    let mut filter = OwnedFilter::new(vec!["x".to_string(), "y".to_string()]);
    filter.remove_word("z");
    assert_eq!(filter.word_list(), &["x", "y"]);
    filter.remove_word("X");
    assert_eq!(filter.word_list(), &["x", "y"]);
    filter.remove_word("");
    assert_eq!(filter.word_list(), &["x", "y"]);
}

#[test]
fn remove_word_from_empty_filter() {
    let mut filter = OwnedFilter::empty();
    filter.remove_word("x");
    assert!(filter.word_list().is_empty());
}

#[test]
fn remove_word_can_empty_the_filter() {
    let mut filter = OwnedFilter::new(vec!["x".to_string(), "x".to_string()]);
    filter.remove_word("x");
    assert!(filter.word_list().is_empty());
}

#[test]
fn new_takes_the_list_as_it_is() {
    let filter = OwnedFilter::new(vec!["b".to_string(), "a".to_string(), "b".to_string()]);
    assert_eq!(filter.word_list(), &["b", "a", "b"]);
}

#[test]
fn default_is_empty() {
    let filter = OwnedFilter::default();
    assert!(filter.word_list().is_empty());
    assert_eq!(filter.filter_string("hello world"), None);
}

#[test]
fn as_ref_gives_the_word_list() {
    let filter = OwnedFilter::new(vec!["a".to_string(), "b".to_string()]);
    let words: &[String] = filter.as_ref();
    assert_eq!(words, &["a", "b"]);
}

#[test]
fn add_slice_copies_owned_and_borrowed_words() {
    let mut filter = OwnedFilter::empty();
    let owned = vec![String::from("a"), String::from("b")];
    filter.add_slice(&owned);
    filter.add_slice(&["c"]);
    let none: [&str; 0] = [];
    filter.add_slice(&none);
    assert_eq!(filter.word_list(), &["a", "b", "c"]);
    assert_eq!(owned, vec!["a", "b"]);
}

#[test]
fn add_vec_of_nothing_changes_nothing() {
    let mut filter = OwnedFilter::new(vec!["a".to_string()]);
    filter.add_vec(Vec::new());
    assert_eq!(filter.word_list(), &["a"]);
}

#[test]
fn owned_filter_answers_queries() {
    let mut filter = OwnedFilter::default();
    filter.add_slice(&["cunt", "fucking", "penis"]);
    assert_eq!(filter.filter_string("hello world"), None);
    assert_eq!(
        filter.filter_string("Mary had a little fucking lamb"),
        Some("fucking")
    );
    assert_eq!(filter.filter_string("scunthorpe is a nice place"), None);
}

#[test]
fn owned_filter_query_is_repeatable() {
    let mut filter = OwnedFilter::empty();
    filter.add_slice(&["hell", "damn"]);
    let first = filter.filter_string("Go to HELL, damn it");
    let second = filter.filter_string("Go to HELL, damn it");
    assert_eq!(first, Some("hell"));
    assert_eq!(first, second);
    assert_eq!(filter.word_list(), &["hell", "damn"]);
}

#[test]
fn owned_filter_follows_its_changes() {
    let mut filter = OwnedFilter::empty();
    assert_eq!(filter.filter_string("go to hell"), None);
    filter.add_word("hell".to_string());
    assert_eq!(filter.filter_string("go to hell"), Some("hell"));
    filter.remove_word("hell");
    assert_eq!(filter.filter_string("go to hell"), None);
}

#[test]
fn owned_filter_answer_is_the_stored_word() {
    let filter = OwnedFilter::new(vec!["damn".to_string(), "hell".to_string()]);
    let answer = filter.filter_string("HELL").unwrap();
    assert_eq!(answer.as_ptr(), filter.word_list()[1].as_ptr());
}

#[test]
fn as_text_reads_owned_and_borrowed_text() {
    assert_eq!(String::from("abc").as_text(), "abc");
    assert_eq!("abc".as_text(), "abc");
}
