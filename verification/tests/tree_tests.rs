use rust_decision_tree::feature_selector::FeatureSelector;
use rust_decision_tree::feature_selector::GreedyFeatureSelector;
use rust_decision_tree::measures::EntropySelectionMeasure;
use rust_decision_tree::measures::SelectionMeasure;
use rust_decision_tree::tree::DecisionTreeClassifier;
use rust_decision_tree::tree::DecisionTreeNode;
use rust_decision_tree::tree::TreeError;
use rust_decision_tree::tree::majority_label;

fn classifier(max_depth: u32, min_size: usize) -> DecisionTreeClassifier<
    GreedyFeatureSelector<EntropySelectionMeasure>,
> {
    DecisionTreeClassifier::new(
        max_depth,
        min_size,
        GreedyFeatureSelector::new(EntropySelectionMeasure::new()),
    )
}

#[test]
fn test_terminal_node_takes_majority() {
    let groups: Vec<u64> = vec![1, 0, 1];

    let terminal_node = DecisionTreeNode::new_leaf_node(&groups);
    assert!(terminal_node == DecisionTreeNode::Leaf { label: 1 })
}

#[test]
fn majority_breaks_ties_towards_smallest_label() {
    // both labels appear twice; the smaller one wins
    assert_eq!(majority_label(&vec![2, 1, 1, 2]), 1);
    assert_eq!(majority_label(&vec![5]), 5);
}

#[test]
fn greedy_selector_finds_the_separating_threshold() {
    // one feature column separates the two classes exactly at value 5
    let x: Vec<Vec<i64>> = vec![
        vec![1],
        vec![1],
        vec![1],
        vec![1],
        vec![5],
        vec![5],
        vec![5],
        vec![5],
    ];
    let y: Vec<u64> = vec![0, 0, 0, 0, 1, 1, 1, 1];

    let selector = GreedyFeatureSelector::new(EntropySelectionMeasure::new());
    let (left, right, threshold, feature) = selector.apply(&x, &y);

    assert_eq!(left, vec![0, 1, 2, 3]);
    assert_eq!(right, vec![4, 5, 6, 7]);
    assert_eq!(threshold, 5);
    assert_eq!(feature, 0);

    // the winning split has the largest possible gain for two balanced
    // classes: one full bit per row, scaled by the eight rows
    let measure = EntropySelectionMeasure::new();
    assert_eq!(measure.apply(&y, &left, &right), 8 * 65536);
}

#[test]
fn classifier_learns_the_two_leaf_tree() {
    // training on the separable eight-row dataset grows a root split at 5
    // with one pure leaf per side
    let x: Vec<Vec<i64>> = vec![
        vec![1],
        vec![1],
        vec![1],
        vec![1],
        vec![5],
        vec![5],
        vec![5],
        vec![5],
    ];
    let y: Vec<u64> = vec![0, 0, 0, 0, 1, 1, 1, 1];

    let model = classifier(1, 1).fit(&x, &y).unwrap();

    match &model.tree {
        DecisionTreeNode::Interior { feature, threshold, left, right } => {
            assert_eq!(*feature, 0);
            assert_eq!(*threshold, 5);
            assert_eq!(**left, DecisionTreeNode::Leaf { label: 0 });
            assert_eq!(**right, DecisionTreeNode::Leaf { label: 1 });
        },
        DecisionTreeNode::Leaf { .. } => panic!("expected an interior root"),
    }

    let predictions = model.predict(&vec![vec![1], vec![5]]);
    assert_eq!(predictions, vec![0, 1]);
}

#[test]
fn max_depth_zero_returns_the_majority_leaf() {
    let x: Vec<Vec<i64>> = vec![vec![1], vec![2], vec![3], vec![4]];
    let y: Vec<u64> = vec![7, 9, 9, 9];

    let model = classifier(0, 1).fit(&x, &y).unwrap();

    assert_eq!(model.tree, DecisionTreeNode::Leaf { label: 9 });
}

#[test]
fn predict_is_idempotent() {
    let x: Vec<Vec<i64>> = vec![vec![1, 10], vec![2, 20], vec![8, 30], vec![9, 40]];
    let y: Vec<u64> = vec![0, 0, 1, 1];

    let model = classifier(3, 1).fit(&x, &y).unwrap();
    let test_rows: Vec<Vec<i64>> = vec![vec![0, 15], vec![9, 35], vec![5, 25]];

    let first = model.predict(&test_rows);
    let second = model.predict(&test_rows);
    assert_eq!(first, second);
}

#[test]
fn identical_rows_fall_back_to_the_majority_leaf() {
    // every row is identical but the labels disagree: no split can separate
    // anything, so training must stop with a majority leaf
    let x: Vec<Vec<i64>> = vec![vec![7, 7], vec![7, 7], vec![7, 7]];
    let y: Vec<u64> = vec![0, 1, 1];

    let model = classifier(5, 1).fit(&x, &y).unwrap();

    assert_eq!(model.tree, DecisionTreeNode::Leaf { label: 1 });
    assert_eq!(model.predict(&x), vec![1, 1, 1]);
}

#[test]
fn fit_rejects_empty_input() {
    let x: Vec<Vec<i64>> = vec![];
    let y: Vec<u64> = vec![];
    assert_eq!(classifier(1, 1).fit(&x, &y), Err(TreeError::InvalidInput));
}

#[test]
fn fit_rejects_mismatched_lengths() {
    let x: Vec<Vec<i64>> = vec![vec![1], vec![2]];
    let y: Vec<u64> = vec![0];
    assert_eq!(classifier(1, 1).fit(&x, &y), Err(TreeError::InvalidInput));
}

#[test]
fn fit_rejects_ragged_rows() {
    let x: Vec<Vec<i64>> = vec![vec![1, 2], vec![3]];
    let y: Vec<u64> = vec![0, 1];
    assert_eq!(classifier(1, 1).fit(&x, &y), Err(TreeError::InvalidInput));
}

#[test]
fn fit_rejects_rows_without_features() {
    let x: Vec<Vec<i64>> = vec![vec![], vec![]];
    let y: Vec<u64> = vec![0, 1];
    assert_eq!(classifier(1, 1).fit(&x, &y), Err(TreeError::InvalidInput));
}

#[test]
fn small_nodes_become_leaves() {
    // min_size covers the whole dataset, so the root is a leaf even though a
    // perfect split exists
    let x: Vec<Vec<i64>> = vec![vec![1], vec![5], vec![5]];
    let y: Vec<u64> = vec![0, 1, 1];

    let model = classifier(4, 3).fit(&x, &y).unwrap();
    assert_eq!(model.tree, DecisionTreeNode::Leaf { label: 1 });
}
