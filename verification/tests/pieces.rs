use by_blocks::list::{ListConsumer, ListFolder, ListReducer};
use by_blocks::producer::DownGradedProducer;
use by_blocks::two_levels::TwoLevelsConsumer;

fn split_range(r: (usize, usize), mid: usize) -> ((usize, usize), (usize, usize)) {
    ((r.0, r.0 + mid), (r.0 + mid, r.1))
}

#[test]
fn split_halves_a_block() {
    let p = DownGradedProducer { len: 5, indexed_producer: (10usize, 15usize) };
    let (left, right) = p.split(split_range);
    let right = right.unwrap();
    assert_eq!(left.len, 2);
    assert_eq!(right.len, 3);
    assert_eq!(left.indexed_producer, (10, 12));
    assert_eq!(right.indexed_producer, (12, 15));
}

#[test]
fn single_item_block_is_not_split() {
    let p = DownGradedProducer { len: 1, indexed_producer: (3usize, 4usize) };
    let (whole, none) = p.split(split_range);
    assert!(none.is_none());
    assert_eq!(whole.len, 1);
    assert_eq!(whole.indexed_producer, (3, 4));
    let p = DownGradedProducer { len: 0, indexed_producer: (3usize, 3usize) };
    assert!(p.split(split_range).1.is_none());
}

#[test]
fn only_the_right_piece_stays_rightmost() {
    let identity = || 0u64;
    let right_op = |a: u64, b: u64| a * 10 + b;
    let left_op = |a: u64, b: u64| a + b;
    let c = TwoLevelsConsumer {
        rightmost: true,
        identity: &identity,
        rightmost_reduce: &right_op,
        left_reduce: &left_op,
    };
    assert!(!c.full());
    assert!(!c.split_off_left().rightmost);
    let (l, r, red) = c.split_at(3);
    assert!(!l.rightmost);
    assert!(r.rightmost);
    assert_eq!(red.reduce(1, 2), 12);
    let (l2, r2, red2) = l.split_at(1);
    assert!(!l2.rightmost);
    assert!(!r2.rightmost);
    assert_eq!(red2.reduce(1, 2), 3);
    assert_eq!(r.to_reducer().reduce(3, 4), 34);
}

#[test]
fn folder_folds_with_the_left_reduction_from_the_identity() {
    let identity = || 100u64;
    let right_op = |a: u64, b: u64| a * b;
    let left_op = |a: u64, b: u64| a - b;
    let c = TwoLevelsConsumer {
        rightmost: true,
        identity: &identity,
        rightmost_reduce: &right_op,
        left_reduce: &left_op,
    };
    let f = c.into_folder();
    assert!(!f.full());
    let f = f.consume(1).consume(2).consume(3);
    assert_eq!(f.complete(), 94);
}

#[test]
fn list_reduction_keeps_the_order_of_pieces() {
    let a = vec![1, 2];
    let b = vec![3];
    let c = vec![4, 5];
    let left_first = ListReducer.reduce(ListReducer.reduce(a.clone(), b.clone()), c.clone());
    let right_first = ListReducer.reduce(a, ListReducer.reduce(b, c));
    assert_eq!(left_first, vec![1, 2, 3, 4, 5]);
    assert_eq!(left_first, right_first);
}

#[test]
fn list_folder_completes_into_a_single_result() {
    let f = ListFolder { folder: 7u32 };
    assert_eq!(f.complete(|x: u32| x * 3), vec![21]);
}

#[test]
fn list_consumer_splits_its_inner_consumer() {
    let c = ListConsumer { consumer: (0usize, 10usize) };
    let (l, r, red) = c.split_at(4, |r: (usize, usize), i: usize| ((r.0, r.0 + i), (r.0 + i, r.1), "unused"));
    assert_eq!(l.consumer, (0, 4));
    assert_eq!(r.consumer, (4, 10));
    assert_eq!(red.reduce(vec![1], vec![2]), vec![1, 2]);
    let f = l.into_folder(|r: (usize, usize)| r.1 - r.0);
    assert_eq!(f.folder, 4);
    let _ = r.to_reducer();
}

#[test]
fn only_the_all_right_path_of_a_split_tree_is_rightmost() {
    let identity = || 0u64;
    let op = |a: u64, b: u64| a + b;
    let root = TwoLevelsConsumer {
        rightmost: true,
        identity: &identity,
        rightmost_reduce: &op,
        left_reduce: &op,
    };
    let (a, b, _) = root.split_at(8);
    let (aa, ab, _) = a.split_at(4);
    let (ba, bb, _) = b.split_at(4);
    let bbl = bb.split_off_left();
    let flags = [aa.rightmost, ab.rightmost, ba.rightmost, bb.rightmost, bbl.rightmost];
    assert_eq!(flags, [false, false, false, true, false]);
}

#[test]
fn folder_of_no_item_completes_with_the_identity() {
    let identity = || 7u64;
    let op = |a: u64, b: u64| a * b;
    let c = TwoLevelsConsumer {
        rightmost: false,
        identity: &identity,
        rightmost_reduce: &op,
        left_reduce: &op,
    };
    assert_eq!(c.into_folder().complete(), 7);
}
