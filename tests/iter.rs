use park::iter::{Element, NodeMetadata};
use park::node::{Edges, Node};

fn element(level: usize, last_sibling: bool, target_path: &str, link_path: Option<&str>) -> Element {
    Element {
        metadata: NodeMetadata { level, last_sibling },
        target_path: target_path.into(),
        link_path: link_path.map(|s| s.into()),
    }
}

fn sample_root(qux: &str, bar: &str) -> Node {
    Node::Branch(Edges::from([
        (
            "baz".into(),
            Node::Branch(Edges::from([("qux".into(), Node::Leaf(qux.into()))])),
        ),
        (
            "foo".into(),
            Node::Branch(Edges::from([("bar".into(), Node::Leaf(bar.into()))])),
        ),
        ("test".into(), Node::Leaf("something/else".into())),
    ]))
}

fn check_sample(root: &Node, qux: &str, bar: &str) {
    let mut iter = root.elements().into_iter();
    assert_eq!(iter.next(), Some(element(0, false, "", None)));
    assert_eq!(iter.next(), Some(element(1, false, "baz", None)));
    assert_eq!(iter.next(), Some(element(2, true, "baz/qux", Some(qux))));
    assert_eq!(iter.next(), Some(element(1, false, "foo", None)));
    assert_eq!(iter.next(), Some(element(2, true, "foo/bar", Some(bar))));
    assert_eq!(iter.next(), Some(element(1, true, "test", Some("something/else"))));
    assert_eq!(iter.next(), None);
}

#[test]
fn iter_iterate_in_correct_order() {
    let root = sample_root("test/qux", "test/bar");
    check_sample(&root, "test/qux", "test/bar");
}

#[test]
fn tests_iterate_in_correct_order() {
    let root = sample_root("test/qux", "test/bar");
    check_sample(&root, "test/qux", "test/bar");
}

#[test]
fn depth_first_iterate_in_insertion_order() {
    let root = Node::Branch(Edges::from([
        (
            "baz".into(),
            Node::Branch(Edges::from([("qux".into(), Node::Leaf("test/quxlinkku".into()))])),
        ),
        ("test".into(), Node::Leaf("something/else".into())),
        (
            "foo".into(),
            Node::Branch(Edges::from([("bar".into(), Node::Leaf("test/barlinkku".into()))])),
        ),
    ]));
    let mut iter = root.elements().into_iter();
    assert_eq!(iter.next(), Some(element(0, false, "", None)));
    assert_eq!(iter.next(), Some(element(1, false, "baz", None)));
    assert_eq!(iter.next(), Some(element(2, true, "baz/qux", Some("test/quxlinkku"))));
    assert_eq!(iter.next(), Some(element(1, false, "test", Some("something/else"))));
    assert_eq!(iter.next(), Some(element(1, true, "foo", None)));
    assert_eq!(iter.next(), Some(element(2, true, "foo/bar", Some("test/barlinkku"))));
    assert_eq!(iter.next(), None);
}

#[test]
fn insertion_order_is_kept_not_alphabetical() {
    let mut root = Node::Branch(Edges::new());
    for (path, link) in [("baz/qux", "l1"), ("foo/bar", "l2"), ("test", "l3")] {
        let segments: Vec<String> = path.split('/').map(|s| s.to_string()).collect();
        assert_eq!(root.add(segments, link.into()), Ok(()));
    }
    let targets: Vec<String> = root.elements().into_iter().map(|e| e.target_path).collect();
    assert_eq!(targets, vec!["", "baz", "baz/qux", "foo", "foo/bar", "test"]);
}

#[test]
fn leaf_root_is_a_single_element() {
    let root = Node::Leaf("x".into());
    assert_eq!(root.elements(), vec![element(0, false, "", Some("x"))]);
}
