use nailgun::node::{Node, NodeContents};
use nailgun::unicode::readCodepoint;

fn nameOnly(name: &'static str) -> Node {
    Node { name, start: 0, end: 0, contents: NodeContents::Data(b"".to_vec()) }
}

fn contentsOnly(contents: &'static [u8]) -> Node {
    Node { name: "", start: 0, end: 0, contents: NodeContents::Data(contents.to_vec()) }
}

fn testTree() -> Node {
    // Tree looks like the following:
    //        a
    //   b    c    d
    //  e f   g
    Node::withChildren(
        "a",
        vec![
            Node::withChildren("b", vec![nameOnly("e"), nameOnly("f")]),
            Node::withChildren("c", vec![nameOnly("g")]),
            nameOnly("d"),
        ],
    )
}

fn testTreeWithContents() -> Node {
    // Tree looks like the following (nodes with ' have contents):
    //          a
    //    b     c     'd
    // 'e  'f  'g
    Node::withChildren(
        "a",
        vec![
            Node::withChildren("b", vec![contentsOnly(b"e"), contentsOnly(b"f")]),
            Node::withChildren("c", vec![contentsOnly(b"g")]),
            contentsOnly(b"d"),
        ],
    )
}

#[test]
fn preOrder_FullIteration() {
    let root = testTree();
    let mut names: Vec<char> = Vec::new();
    let mut it = root.preOrder();
    while let Some(node) = it.next() {
        names.push(node.displayName().chars().next().unwrap());
    }
    assert_eq!(names, vec!['a', 'b', 'e', 'f', 'c', 'g', 'd'])
}

#[test]
fn matchedData_FullTree() {
    let root = testTreeWithContents();
    assert_eq!(b"efgd".to_vec(), root.matchedData())
}

#[test]
fn readCodepoint_Roundtrip_SimpleAscii() {
    assert_eq!('a', readCodepoint(b"a").unwrap());
    assert_eq!('z', readCodepoint(b"z").unwrap());
    assert_eq!('A', readCodepoint(b"A").unwrap());
    assert_eq!('9', readCodepoint(b"9").unwrap());
    assert_eq!('*', readCodepoint(b"*").unwrap());
    assert_eq!('\n', readCodepoint(b"\n").unwrap());
    assert_eq!('\0', readCodepoint(b"\0").unwrap());
}

#[test]
fn readCodepoint_Roundtrip_NonAscii() {
    // 2 UTF-8 bytes
    assert_eq!('¢', readCodepoint("¢".as_bytes()).unwrap());

    // 3 UTF-8 bytes
    assert_eq!('€', readCodepoint("€".as_bytes()).unwrap());

    // 4 UTF-8 bytes
    assert_eq!('𤭢', readCodepoint("𤭢".as_bytes()).unwrap());

    // Some extras
    assert_eq!('Ć', readCodepoint("Ć".as_bytes()).unwrap());
    assert_eq!('Ө', readCodepoint("Ө".as_bytes()).unwrap());
    assert_eq!('自', readCodepoint("自".as_bytes()).unwrap());
    assert_eq!('由', readCodepoint("由".as_bytes()).unwrap());
}

#[test]
fn readCodepoint_FailsOnBadChars() {
    assert!(readCodepoint(&[0b1111_1111]).is_none());
    assert!(readCodepoint(&[0b1000_0000]).is_none());
    assert!(readCodepoint(&[0b1100_0000, 0b1100_0000]).is_none());
}
