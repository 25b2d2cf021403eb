use pollkit::list::Node;
use pollkit::list::u32_str;

fn new_1_to_4() -> Node<u32> {
    let mut node = Node::new(1);
    node.insert(4);
    node.insert(3);
    node.insert(2);
    node
}

fn is_static<T: 'static>(value: T) -> T {
    value
}

fn collect_u32(node: &Node<u32>) -> Vec<u32> {
    let mut values = Vec::new();
    let mut iter = node.iter();
    loop {
        match iter.next() {
            Some(v) => values.push(*v),
            None => break,
        }
    }
    values
}

#[test]
fn test_insert() {
    let mut node = new_1_to_4();
    assert_eq!(collect_u32(&node), [1, 2, 3, 4]);

    node.insert(5);
    assert_eq!(collect_u32(&node), [1, 5, 2, 3, 4]);
}

#[test]
fn test_debug() {
    let node = new_1_to_4();
    let debug_str = node.repr();
    assert_eq!(debug_str, "[1,2,3,4]");
}

#[test]
fn test_clone() {
    let node1 = new_1_to_4();
    let node2 = node1.clone();

    let debug_str1 = node1.repr();
    let debug_str2 = node2.repr();
    assert_eq!(debug_str1, debug_str2);
}

#[test]
fn test_iter() {
    let node = new_1_to_4();
    let mut iter = node.iter();

    assert_eq!(iter.next().copied(), Some(1));
    assert_eq!(iter.next().copied(), Some(2));
    assert_eq!(iter.next().copied(), Some(3));
    assert_eq!(iter.next().copied(), Some(4));
    assert_eq!(iter.next().copied(), None);
}

#[test]
fn test_drop() {
    let mut node = Node::new(1);
    for index in 0..10_000_000 {
        node.insert(index);
    }
    // Did it panic or blow the stack? No: the elements live in one flat
    // buffer, so dropping the list does not recurse.
}

#[test]
fn test_retain_some() {
    let node = new_1_to_4();
    let node = node.retain(|e| e % 2 == 0).unwrap();
    assert_eq!(collect_u32(&node), [2, 4]);
}

#[test]
fn test_retain_none() {
    let node = new_1_to_4();
    let node = node.retain(|_| false);
    assert!(node.is_none());
}

#[test]
fn test_into_iter() {
    let mut node = Node::new("1".to_string());
    node.insert("3".to_string());
    node.insert("2".to_string());

    let mut iter = node.into_iter();
    assert_eq!(is_static(iter.next()), Some("1".to_string()));
    assert_eq!(is_static(iter.next()), Some("2".to_string()));
    assert_eq!(is_static(iter.next()), Some("3".to_string()));
    assert_eq!(is_static(iter.next()), None);
}

#[test]
fn test_repr_single() {
    let node = Node::new(7u32);
    assert_eq!(node.repr(), "[7]");
}

#[test]
fn test_u32_str() {
    assert_eq!(u32_str(0), "0");
    assert_eq!(u32_str(9), "9");
    assert_eq!(u32_str(10), "10");
    assert_eq!(u32_str(1234), "1234");
    assert_eq!(u32_str(4294967295), "4294967295");
}

#[test]
fn test_retain_keep_all() {
    let node = new_1_to_4();
    let node = node.retain(|_| true).unwrap();
    assert_eq!(collect_u32(&node), [1, 2, 3, 4]);
}

#[test]
fn test_into_iter_after_retain() {
    let node = new_1_to_4();
    let node = node.retain(|e| *e != 1).unwrap();
    let mut iter = node.into_iter();
    assert_eq!(iter.next(), Some(2));
    assert_eq!(iter.next(), Some(3));
    assert_eq!(iter.next(), Some(4));
    assert_eq!(iter.next(), None);
}
