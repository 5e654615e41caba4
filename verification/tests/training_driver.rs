use mlpnet::driver::{count_correct, Trainer, BATCH_SIZE};

fn names(n: usize) -> Vec<String> {
    (0..n).map(|k| format!("{}_{:04}.png", k % 10, k)).collect()
}

#[test]
fn test_batches_tile_the_epoch() {
    let mut t = Trainer::new(names(250));
    t.start_epoch();
    assert_eq!(t.next_batch(), Some((0, 100)));
    assert_eq!(t.next_batch(), Some((100, 200)));
    assert_eq!(t.next_batch(), Some((200, 250)));
    assert_eq!(t.next_batch(), None);
    t.start_epoch();
    assert_eq!(t.next_batch(), Some((0, 100)));
}

#[test]
fn test_small_epoch_is_one_batch() {
    let mut t = Trainer::new(names(7));
    t.start_epoch();
    assert_eq!(t.next_batch(), Some((0, 7)));
    assert_eq!(t.next_batch(), None);
    assert!(BATCH_SIZE > 7);
}

#[test]
fn test_shuffle_keeps_the_files() {
    let original = names(101);
    let mut t = Trainer::new(original.clone());
    t.start_epoch();
    assert_eq!(t.files.len(), original.len());
    let mut sorted_before = original;
    let mut sorted_after = t.files.clone();
    sorted_before.sort();
    sorted_after.sort();
    assert_eq!(sorted_before, sorted_after);
}

#[test]
fn test_count_correct_scores_matches() {
    let pairs = vec![(7, 7), (3, 5), (0, 0), (9, 8), (2, 2)];
    assert_eq!(count_correct(&pairs), 3);
    assert_eq!(count_correct(&Vec::new()), 0);
}
