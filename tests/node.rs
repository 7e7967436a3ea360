use park::node::{Edges, Error, Node};

fn segs(parts: &[&str]) -> Vec<String> {
    parts.iter().map(|s| s.to_string()).collect()
}

fn leaf(link: &str) -> Node {
    Node::Leaf(link.into())
}

struct Case {
    description: &'static str,
    input: (Node, Vec<String>, String),
    output: (Node, Result<(), Error>),
}

fn run_cases(cases: Vec<Case>) {
    for case in cases {
        let (mut tree, segments, link) = case.input;
        let result = tree.add(segments, link);
        let (want_tree, want_result) = case.output;
        assert_eq!(tree, want_tree, "mismatch when adding nodes: {:?}", case.description);
        assert_eq!(result, want_result, "{}", case.description);
    }
}

fn common_cases() -> Vec<Case> {
    Vec::from([
        Case {
            description: "simple first node",
            input: (Node::Branch(Edges::new()), segs(&["foo"]), "test/foo".into()),
            output: (Node::Branch(Edges::from([("foo".into(), leaf("test/foo"))])), Ok(())),
        },
        Case {
            description: "add sibling node to existing one",
            input: (
                Node::Branch(Edges::from([("foo".into(), leaf("test/foo"))])),
                segs(&["bar"]),
                "yay/bar".into(),
            ),
            output: (
                Node::Branch(Edges::from([
                    ("foo".into(), leaf("test/foo")),
                    ("bar".into(), leaf("yay/bar")),
                ])),
                Ok(()),
            ),
        },
        Case {
            description: "add nested node",
            input: (Node::Branch(Edges::new()), segs(&["foo", "bar"]), "test/bar".into()),
            output: (
                Node::Branch(Edges::from([(
                    "foo".into(),
                    Node::Branch(Edges::from([("bar".into(), leaf("test/bar"))])),
                )])),
                Ok(()),
            ),
        },
        Case {
            description: "add sibling to nested node",
            input: (
                Node::Branch(Edges::from([(
                    "foo".into(),
                    Node::Branch(Edges::from([("bar".into(), leaf("test/bar"))])),
                )])),
                segs(&["foo", "baz"]),
                "yay/baz".into(),
            ),
            output: (
                Node::Branch(Edges::from([(
                    "foo".into(),
                    Node::Branch(Edges::from([
                        ("bar".into(), leaf("test/bar")),
                        ("baz".into(), leaf("yay/baz")),
                    ])),
                )])),
                Ok(()),
            ),
        },
        Case {
            description: "add existing node path",
            input: (
                Node::Branch(Edges::from([(
                    "foo".into(),
                    Node::Branch(Edges::from([("bar".into(), leaf("test/bar"))])),
                )])),
                segs(&["foo", "bar"]),
                "please/let_me_in".into(),
            ),
            output: (
                Node::Branch(Edges::from([(
                    "foo".into(),
                    Node::Branch(Edges::from([("bar".into(), leaf("test/bar"))])),
                )])),
                Err(Error::LeafExists("bar".into(), "please/let_me_in".into())),
            ),
        },
        Case {
            description: "add node to a leaf node",
            input: (
                Node::Branch(Edges::from([("foo".into(), leaf("test/foo"))])),
                segs(&["foo", "bar"]),
                "please/let_me_in".into(),
            ),
            output: (
                Node::Branch(Edges::from([("foo".into(), leaf("test/foo"))])),
                Err(Error::NotABranch("bar".into(), "please/let_me_in".into())),
            ),
        },
        Case {
            description: "add node to a leaf node",
            input: (Node::Branch(Edges::new()), Vec::new(), "please/let_me_in".into()),
            output: (Node::Branch(Edges::new()), Err(Error::EmptySegment)),
        },
    ])
}

fn unsorted_case(description: &'static str) -> Case {
    Case {
        description,
        input: (
            Node::Branch(Edges::from([
                ("C".into(), leaf("1")),
                ("Z".into(), leaf("2")),
                ("B".into(), leaf("3")),
                ("A".into(), leaf("4")),
            ])),
            segs(&["E"]),
            "5".into(),
        ),
        output: (
            Node::Branch(Edges::from([
                ("C".into(), leaf("1")),
                ("Z".into(), leaf("2")),
                ("B".into(), leaf("3")),
                ("A".into(), leaf("4")),
                ("E".into(), leaf("5")),
            ])),
            Ok(()),
        ),
    }
}

#[test]
fn node_test_add_nodes() {
    let mut cases = common_cases();
    cases.push(unsorted_case("nodes don't get sorted anymore"));
    run_cases(cases);
}

#[test]
fn tests_test_add_nodes() {
    let mut cases = common_cases();
    cases.push(unsorted_case("add nodes to get sorted"));
    run_cases(cases);
}

#[test]
fn add_to_a_leaf_root_is_not_a_branch() {
    let mut root = leaf("x");
    assert_eq!(
        root.add(segs(&["a"]), "l".into()),
        Err(Error::NotABranch("a".into(), "l".into()))
    );
    assert_eq!(root, leaf("x"));
}

#[test]
fn reinserting_a_leaf_yields_leaf_exists() {
    let mut root = Node::Branch(Edges::new());
    assert_eq!(root.add(segs(&["a", "b", "c"]), "one".into()), Ok(()));
    let snapshot = Node::Branch(Edges::from([(
        "a".into(),
        Node::Branch(Edges::from([(
            "b".into(),
            Node::Branch(Edges::from([("c".into(), leaf("one"))])),
        )])),
    )]));
    assert_eq!(root, snapshot);
    assert_eq!(
        root.add(segs(&["a", "b", "c"]), "two".into()),
        Err(Error::LeafExists("c".into(), "two".into()))
    );
    assert_eq!(
        root.add(segs(&["a", "b", "c", "d", "e"]), "three".into()),
        Err(Error::NotABranch("d".into(), "three".into()))
    );
    assert_eq!(root, snapshot);
}

#[test]
fn children_and_link_path_accessors() {
    let branch = Node::Branch(Edges::from([("foo".into(), leaf("test/foo"))]));
    assert_eq!(branch.get_link_path(), None);
    assert_eq!(branch.get_children().map(|c| c.len()), Some(1));
    let l = leaf("test/foo");
    assert_eq!(l.get_children(), None);
    assert_eq!(l.get_link_path().map(|s| s.as_str()), Some("test/foo"));
}
