use fastfingers::WordQueue;

fn words(list: &[&str]) -> Vec<String> {
    list.iter().map(|w| w.to_string()).collect()
}

#[test]
fn new_queue_is_empty() {
    let queue = WordQueue::new();
    assert_eq!(queue.len(), 0);
    assert_eq!(queue.width(), 0);
}

#[test]
fn set_width_fills_two_rows_of_distinct_words() {
    let lexicon = words(&["a", "b", "c", "d", "e", "f", "g"]);
    let mut queue = WordQueue::new();
    queue.set_lexicon(&lexicon);
    queue.set_width(3);
    assert_eq!(queue.width(), 3);
    assert_eq!(queue.len(), 6);
    let mut seen: Vec<String> = Vec::new();
    for i in 0..queue.len() {
        let w = queue.get(i).clone();
        assert!(lexicon.contains(&w));
        assert!(!seen.contains(&w));
        seen.push(w);
    }
}

#[test]
fn small_lexicon_limits_the_queue() {
    let lexicon = words(&["a", "b"]);
    let mut queue = WordQueue::new();
    queue.set_lexicon(&lexicon);
    queue.set_width(5);
    assert_eq!(queue.len(), 2);
}

#[test]
fn advance_shifts_in_words_from_the_lexicon() {
    let mut queue = WordQueue::new();
    queue.set_lexicon(&words(&["a", "b", "c", "d"]));
    queue.set_width(1);
    assert_eq!(queue.len(), 2);
    let second = queue.get(1).clone();
    queue.set_lexicon(&words(&["z"]));
    queue.advance();
    assert_eq!(queue.len(), 2);
    assert_eq!(queue.get(0), &second);
    assert_eq!(queue.get(1), "z");
}
