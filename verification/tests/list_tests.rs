use servant::evictor;
use servant::list::List;

#[test]
fn test1() {
    let mut l: List<i32> = List::new();
    l.push_back(1);
    l.push_back(2);
    assert_eq!(l.pop_back(), Some(2));
    assert_eq!(l.pop_back(), Some(1));
    assert_eq!(l.pop_back(), None);
    let n1 = l.push_back(1);
    let n4 = l.push_head(4);
    let n2 = l.push_back(2);
    let n5 = l.push_head(5);
    let n3 = l.push_back(3);

    l.remove(n1);
    l.remove(n5);
    l.remove(n2);
    l.remove(n3);
    l.remove(n4);
}

#[test]
fn test2() {
    let mut l: List<i32> = List::new();

    let n1 = l.push_back(1);
    let n4 = l.push_head(4);
    let n2 = l.push_back(2);
    let n5 = l.push_head(5);
    let n3 = l.push_back(3);

    l.top(n1);
    l.top(n5);
    l.top(n2);
    l.top(n3);
    l.top(n4);

    l.bottom(n2);
    l.bottom(n3);
    l.bottom(n4);

    assert_eq!(Some(5), l.pop_head());
}

#[test]
fn test3() {
    let mut l: evictor::List<i32> = evictor::List::new(10);

    let n1 = l.push(1);
    let n4 = l.push(4);
    let n2 = l.push(2);
    let n5 = l.push(5);
    let n3 = l.push(3);

    l.top(n1);
    l.top(n5);
    l.top(n2);
    l.top(n3);
    l.top(n4);

    assert_eq!(Some(1), l.pop());
}

#[test]
fn evictor_caps_and_pins() {
    let mut l: evictor::List<i32> = evictor::List::new(2);
    assert_eq!(l.len(), 0);
    assert_eq!(l.evict(), None);
    let _a = l.push(10);
    assert_eq!(l.evict(), None);
    let _b = l.push(20);
    assert_eq!(l.evict(), Some(10));
    assert_eq!(l.len(), 1);

    let mut pinned: evictor::List<i32> = evictor::List::new(0);
    let _p = pinned.push(7);
    assert_eq!(pinned.evict(), None);
    assert_eq!(pinned.len(), 1);
    assert_eq!(pinned.pop(), Some(7));
}
