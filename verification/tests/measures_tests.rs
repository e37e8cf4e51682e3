use rust_decision_tree::comms::Receiver;
use rust_decision_tree::comms::Sender;
use rust_decision_tree::comms::PipelineConfig;
use rust_decision_tree::comms::LockedReceiver;
use rust_decision_tree::fixedlog::log2_q16;
use rust_decision_tree::fixedlog::ONE_Q16;
use rust_decision_tree::measures::EntropySelectionMeasure;
use rust_decision_tree::measures::SelectionMeasure;
use rust_decision_tree::measures::entropy;
use rust_decision_tree::measures::count_label;
use rust_decision_tree::model_selection::train_test_split;

#[test]
fn log2_is_exact_on_powers_of_two() {
    assert_eq!(log2_q16(1), 0);
    assert_eq!(log2_q16(2), ONE_Q16);
    assert_eq!(log2_q16(4), 2 * ONE_Q16);
    assert_eq!(log2_q16(8), 3 * ONE_Q16);
    assert_eq!(log2_q16(1 << 20), 20 * ONE_Q16);
}

#[test]
fn log2_shifts_by_one_per_doubling() {
    // 6 and 3 share the same mantissa, so their fixed-point logs differ by
    // exactly one whole bit; and log2(3) lies strictly between 1 and 2
    let three = log2_q16(3);
    assert_eq!(log2_q16(6), three + ONE_Q16);
    assert_eq!(log2_q16(12), three + 2 * ONE_Q16);
    assert!(ONE_Q16 < three && three < 2 * ONE_Q16);
}

#[test]
fn entropy_of_a_single_class_is_zero() {
    assert_eq!(entropy(&vec![3]), 0);
    assert_eq!(entropy(&vec![4, 4, 4, 4, 4]), 0);
}

#[test]
fn entropy_of_equally_probable_classes_is_the_log_of_their_count() {
    // two balanced classes: exactly one bit
    assert_eq!(entropy(&vec![0, 0, 0, 0, 1, 1, 1, 1]), ONE_Q16);
    // four singleton classes: exactly two bits
    assert_eq!(entropy(&vec![10, 11, 12, 13]), 2 * ONE_Q16);
}

#[test]
fn gain_of_the_perfect_split_is_one_bit_per_row() {
    let y: Vec<u64> = vec![0, 0, 0, 0, 1, 1, 1, 1];
    let left: Vec<usize> = vec![0, 1, 2, 3];
    let right: Vec<usize> = vec![4, 5, 6, 7];

    let measure = EntropySelectionMeasure::new();
    assert_eq!(measure.apply(&y, &left, &right), 8 * ONE_Q16 as i128);
}

#[test]
fn gain_of_the_degenerate_split_is_zero() {
    let y: Vec<u64> = vec![0, 0, 1, 1];
    let left: Vec<usize> = vec![];
    let right: Vec<usize> = vec![0, 1, 2, 3];

    let measure = EntropySelectionMeasure::new();
    assert_eq!(measure.apply(&y, &left, &right), 0);
}

#[test]
fn count_label_counts_occurrences() {
    let y: Vec<u64> = vec![1, 2, 1, 1, 3];
    assert_eq!(count_label(&y, 1), 3);
    assert_eq!(count_label(&y, 3), 1);
    assert_eq!(count_label(&y, 9), 0);
}

#[test]
fn sender_delivers_in_order_and_receiver_hands_out_in_order() {
    let mut tx: Sender<u32> = Sender::new(PipelineConfig::default().batch_size(2));
    tx.send(1);
    tx.send(2);
    tx.send(3);
    let items = tx.into_items();
    assert_eq!(items, vec![1, 2, 3]);

    let mut rx = Receiver::from_vec(items);
    assert_eq!(rx.recv(), Some(1));
    assert_eq!(rx.recv(), Some(2));
    assert_eq!(rx.recv(), Some(3));
    assert_eq!(rx.recv(), None);
}

#[test]
fn locked_receiver_hands_out_in_order() {
    let rx = Receiver::from_vec(vec![5u64, 6]);
    let mut locked = LockedReceiver::new(rx);
    assert_eq!(locked.next(), Some(5));
    assert_eq!(locked.next(), Some(6));
    assert_eq!(locked.next(), None);
}

#[test]
fn train_test_split_partitions_by_the_mask() {
    let x: Vec<Vec<i64>> = vec![vec![1], vec![2], vec![3]];
    let y: Vec<u64> = vec![10, 20, 30];
    let mask: Vec<bool> = vec![true, false, true];

    let (x_train, x_test, y_train, y_test) = train_test_split(&x, &y, &mask);

    assert_eq!(x_train, vec![vec![1], vec![3]]);
    assert_eq!(x_test, vec![vec![2]]);
    assert_eq!(y_train, vec![10, 30]);
    assert_eq!(y_test, vec![20]);
}

#[test]
fn histogram_counts_labels_in_first_seen_order() {
    let h = rust_decision_tree::math::histogram(&vec![4, 2, 4, 7, 2, 4]);
    assert_eq!(h, vec![(4, 3), (2, 2), (7, 1)]);
}

#[test]
fn histogram_of_empty_input_is_empty() {
    let h = rust_decision_tree::math::histogram(&vec![]);
    assert_eq!(h, vec![]);
}

#[test]
fn outcome_counts_match_the_label_pairs() {
    let y_true: Vec<u64> = vec![1, 0, 1, 0];
    let y_pred: Vec<u64> = vec![1, 0, 0, 1];

    assert_eq!(rust_decision_tree::metrics::true_positives(&y_true, &y_pred), 1);
    assert_eq!(rust_decision_tree::metrics::false_positives(&y_true, &y_pred), 1);
    assert_eq!(rust_decision_tree::metrics::false_negatives(&y_true, &y_pred), 1);
    assert_eq!(rust_decision_tree::metrics::true_negatives(&y_true, &y_pred), 1);
}

#[test]
fn entropy_of_an_empty_vector_is_zero_by_convention() {
    assert_eq!(entropy(&vec![]), 0);
}
