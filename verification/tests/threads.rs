use hyprcollab::threads::{
    build_tree, build_tree_bounded, collect_thread, collect_thread_bounded, ThreadEntry,
};

fn entry(id: u128, parent_id: Option<u128>) -> ThreadEntry {
    ThreadEntry { id, parent_id }
}

#[test]
fn thread_holds_root_and_its_reply_only() {
    let all = vec![entry(10, None), entry(11, Some(10)), entry(12, None)];
    assert_eq!(collect_thread(&all, 10), vec![0, 1]);
}

#[test]
fn thread_is_breadth_first() {
    let all = vec![entry(1, None), entry(2, Some(1)), entry(3, Some(1)), entry(4, Some(2))];
    assert_eq!(collect_thread(&all, 1), vec![0, 1, 2, 3]);
    let all = vec![entry(1, None), entry(2, Some(1)), entry(5, Some(2)), entry(3, Some(1))];
    assert_eq!(collect_thread(&all, 1), vec![0, 1, 3, 2]);
}

#[test]
fn thread_of_unknown_root_is_empty() {
    let all = vec![entry(1, None), entry(2, Some(1))];
    assert!(collect_thread(&all, 99).is_empty());
}

#[test]
fn thread_from_inner_message() {
    let all = vec![entry(1, None), entry(2, Some(1)), entry(3, Some(2)), entry(4, Some(1))];
    assert_eq!(collect_thread(&all, 2), vec![1, 2]);
}

#[test]
fn tree_has_root_child_and_grandchild() {
    let all = vec![entry(1, None), entry(2, Some(1)), entry(3, Some(2))];
    let tree = build_tree(&all, None);
    assert_eq!(tree.len(), 1);
    assert_eq!(tree[0].index, 0);
    assert_eq!(tree[0].children.len(), 1);
    assert_eq!(tree[0].children[0].index, 1);
    assert_eq!(tree[0].children[0].children.len(), 1);
    assert_eq!(tree[0].children[0].children[0].index, 2);
    assert!(tree[0].children[0].children[0].children.is_empty());
}

#[test]
fn tree_of_empty_conversation_is_empty() {
    let all: Vec<ThreadEntry> = vec![];
    assert!(build_tree(&all, None).is_empty());
}

#[test]
fn tree_keeps_stored_order_of_replies() {
    let all = vec![entry(1, None), entry(2, Some(1)), entry(3, None), entry(4, Some(1))];
    let tree = build_tree(&all, None);
    assert_eq!(tree.len(), 2);
    assert_eq!(tree[0].index, 0);
    assert_eq!(tree[1].index, 2);
    let kids: Vec<usize> = tree[0].children.iter().map(|n| n.index).collect();
    assert_eq!(kids, vec![1, 3]);
}

#[test]
fn tree_root_includes_message_with_parent_outside_chat() {
    let all = vec![entry(5, Some(999)), entry(6, Some(5))];
    let tree = build_tree(&all, None);
    assert_eq!(tree.len(), 1);
    assert_eq!(tree[0].index, 0);
    assert_eq!(tree[0].children.len(), 1);
    assert_eq!(tree[0].children[0].index, 1);
}

#[test]
fn bounded_thread_matches_unbounded() {
    let all = vec![entry(1, None), entry(2, Some(1)), entry(5, Some(2)), entry(3, Some(1))];
    assert_eq!(collect_thread_bounded(&all, 1, 10), Some(collect_thread(&all, 1)));
    assert_eq!(collect_thread_bounded(&all, 1, 10), Some(vec![0, 1, 3, 2]));
    assert_eq!(collect_thread_bounded(&all, 1, 4), Some(vec![0, 1, 3, 2]));
    assert_eq!(collect_thread_bounded(&all, 1, 3), None);
    assert_eq!(collect_thread_bounded(&all, 99, 1), Some(vec![]));
    assert_eq!(collect_thread_bounded(&all, 99, 0), None);
}

#[test]
fn bounded_thread_stops_on_a_loop() {
    let all = vec![entry(1, Some(2)), entry(2, Some(1))];
    assert_eq!(collect_thread_bounded(&all, 1, 50), None);
}

#[test]
fn bounded_tree_matches_unbounded_and_stops_on_a_loop() {
    let all = vec![entry(1, None), entry(2, Some(1)), entry(3, Some(2))];
    let t = build_tree_bounded(&all, None, all.len()).unwrap();
    let u = build_tree(&all, None);
    assert_eq!(t.len(), 1);
    assert_eq!(t[0].index, u[0].index);
    assert_eq!(t[0].children[0].children[0].index, 2);
    assert!(build_tree_bounded(&all, None, 2).is_none());
    let looped = vec![entry(1, Some(2)), entry(2, Some(1)), entry(3, Some(1))];
    assert!(build_tree_bounded(&looped, Some(1), looped.len()).is_none());
    assert!(build_tree_bounded(&looped, Some(3), 1).unwrap().is_empty());
}
