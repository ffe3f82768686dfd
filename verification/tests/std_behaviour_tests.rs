use std::cell::RefCell;
use std::collections::{HashMap, HashSet};
use std::rc::Rc;

use dispatch_core::channel::Channel;
use dispatch_core::counter::SharedCounter;
use dispatch_core::fan_out::{fan_in, fan_out};
use dispatch_core::smart_pointers::MyBox;

#[test]
fn test_vector_operations() {
    let mut v = vec![1, 2, 3];
    v.push(4);
    assert_eq!(v.len(), 4);
    assert_eq!(v.pop(), Some(4));
    assert_eq!(v.len(), 3);
}

#[test]
fn test_hashmap_insert() {
    let mut map = HashMap::new();
    map.insert("key", "value");
    assert_eq!(map.get("key"), Some(&"value"));
    assert_eq!(map.get("missing"), None);
}

#[test]
fn test_hashset_unique() {
    let mut set = HashSet::new();
    assert!(set.insert(1));
    assert!(!set.insert(1)); // Returns false for duplicate
    assert_eq!(set.len(), 1);
}

#[test]
fn test_string_concatenation() {
    let s1 = String::from("Hello, ");
    let s2 = String::from("world!");
    let s3 = s1 + &s2;
    assert_eq!(s3, "Hello, world!");
}

#[test]
fn test_option_map() {
    let some = Some(5);
    let doubled = some.map(|x| x * 2);
    assert_eq!(doubled, Some(10));
}

#[test]
fn test_result_and_then() {
    let ok: Result<i32, &str> = Ok(5);
    let result = ok.and_then(|x| Ok(x * 2));
    assert_eq!(result, Ok(10));
}

#[test]
fn test_closure() {
    let add = |x, y| x + y;
    assert_eq!(add(2, 3), 5);
}

#[test]
fn test_iterator_map() {
    let v = vec![1, 2, 3];
    let doubled: Vec<i32> = v.iter().map(|x| x * 2).collect();
    assert_eq!(doubled, vec![2, 4, 6]);
    let doubled = fan_out(&v, 1, &|chunk: Vec<i32>| chunk[0] * 2);
    assert_eq!(doubled, vec![2, 4, 6]);
}

#[test]
fn test_iterator_filter() {
    let v = vec![1, 2, 3, 4, 5];
    let evens: Vec<i32> = v.iter().filter(|x| *x % 2 == 0).cloned().collect();
    assert_eq!(evens, vec![2, 4]);
}

#[test]
fn test_fold() {
    let v = vec![1, 2, 3, 4, 5];
    let sum = v.iter().fold(0, |acc, x| acc + x);
    assert_eq!(sum, 15);
    let sum = fan_in(v, &|acc, x| acc + x, 0);
    assert_eq!(sum, 15);
}

#[test]
fn test_slices() {
    let arr = [1, 2, 3, 4, 5];
    let slice = &arr[1..4];
    assert_eq!(slice, &[2, 3, 4]);
}

#[test]
fn test_box_deref() {
    let x = Box::new(5);
    assert_eq!(5, *x);
    let y = MyBox::new(5);
    assert_eq!(5, *y);
}

#[test]
fn test_rc_clone() {
    let a = Rc::new(5);
    let b = Rc::clone(&a);
    assert_eq!(2, Rc::strong_count(&a));
    assert_eq!(*a, *b);
    let mut channel = Channel::open(None);
    assert!(channel.add_sender());
    assert_eq!(2, channel.sender_count());
}

#[test]
fn test_refcell_borrow() {
    let value = RefCell::new(5);
    *value.borrow_mut() += 10;
    assert_eq!(15, *value.borrow());
    let mut counter = SharedCounter::new(5);
    counter.increment(10);
    assert_eq!(15, counter.read());
}
