use dispatch_core::advanced::{do_twice, split_at_mut};
use dispatch_core::basics::{add, calculate};
use dispatch_core::functional;
use dispatch_core::ownership::{
    calculate_length, calculate_length_with_ownership, change, first_word, first_word_elided,
    longest, no_dangle, takes_and_gives_back,
};
use dispatch_core::structures::{plus_one, value_in_cents, Coin, Rectangle, UsState};
use dispatch_core::traits_generics::{some_function, AddPoint, Counter, MixedPoint, Pair, Point};

#[test]
fn test_add_function() {
    assert_eq!(add(2, 3), 5);
    assert_eq!(add(-1, 1), 0);
}

#[test]
fn test_calculate_function() {
    let (sum, product) = calculate(3, 4);
    assert_eq!(sum, 7);
    assert_eq!(product, 12);
}

#[test]
fn test_arithmetic() {
    assert_eq!(add(5, 5), 10);
    assert_eq!(10 - 5, 5);
    assert_eq!(calculate(4, 3).1, 12);
    assert_eq!(10 / 2, 5);
    assert_eq!(10 % 3, 1);
}

#[test]
fn test_first_word() {
    assert_eq!(first_word("hello world"), "hello");
    assert_eq!(first_word("hello"), "hello");
}

#[test]
fn first_word_edge_cases() {
    assert_eq!(first_word(""), "");
    assert_eq!(first_word(" leading"), "");
    assert_eq!(first_word("gr\u{fc}\u{df}e dich"), "gr\u{fc}\u{df}e");
    assert_eq!(first_word_elided("one two three"), "one");
}

#[test]
fn test_longest() {
    assert_eq!(longest("short", "longer"), "longer");
    assert_eq!(longest("same", "size"), "same");
}

#[test]
fn strings_move_and_lend() {
    assert_eq!(takes_and_gives_back(String::from("hello")), "hello");
    assert_eq!(calculate_length_with_ownership(String::from("hello")), (String::from("hello"), 5));
    assert_eq!(calculate_length(&String::from("h\u{e9}llo")), 6);
    let mut s = String::from("hello");
    change(&mut s);
    assert_eq!(s, "hello, world");
    assert_eq!(no_dangle(), "hello");
}

#[test]
fn test_rectangle_area() {
    let rect = Rectangle { width: 10, height: 20 };
    assert_eq!(rect.area(), 200);
}

#[test]
fn test_rectangle_can_hold() {
    let rect1 = Rectangle { width: 30, height: 50 };
    let rect2 = Rectangle { width: 10, height: 40 };
    assert!(rect1.can_hold(&rect2));
    assert!(!rect2.can_hold(&rect1));
}

#[test]
fn rectangle_shapes() {
    assert_eq!(Rectangle::square(4), Rectangle { width: 4, height: 4 });
    assert!(Rectangle::square(4).is_square());
    assert!(!Rectangle { width: 4, height: 5 }.is_square());
    assert_eq!(Rectangle { width: 4, height: 5 }.perimeter(), 18);
}

#[test]
fn test_plus_one() {
    assert_eq!(plus_one(Some(5)), Some(6));
    assert_eq!(plus_one(None), None);
}

#[test]
fn test_coin_value() {
    assert_eq!(value_in_cents(Coin::Penny), 1);
    assert_eq!(value_in_cents(Coin::Nickel), 5);
    assert_eq!(value_in_cents(Coin::Dime), 10);
    assert_eq!(value_in_cents(Coin::Quarter(UsState::Alaska)), 25);
}

#[test]
fn test_add_points() {
    let p1 = AddPoint { x: 1, y: 2 };
    let p2 = AddPoint { x: 3, y: 4 };
    let p3 = p1 + p2;
    assert_eq!(p3.x, 4);
    assert_eq!(p3.y, 6);
}

#[test]
fn test_counter() {
    let mut counter = Counter { count: 0 };
    let sum: u32 = counter.take(5).iter().sum();
    assert_eq!(sum, 15); // 1+2+3+4+5
}

#[test]
fn counter_stops_at_ten() {
    let mut counter = Counter { count: 8 };
    assert_eq!(counter.take(5), vec![9, 10]);
    assert_eq!(counter.next(), None);
    assert_eq!(counter.count, 10);
}

#[test]
fn test_custom_iterator() {
    let mut counter = functional::Counter::new();
    let sum: u32 = counter.take(5).iter().sum();
    assert_eq!(sum, 15); // 1+2+3+4+5
}

#[test]
fn counter_stops_at_a_hundred() {
    let mut counter = functional::Counter::new();
    let all = counter.take(1000);
    assert_eq!(all.len(), 100);
    assert_eq!(all[0], 1);
    assert_eq!(all[99], 100);
    assert_eq!(counter.next(), None);
    assert_eq!(counter.next(), None);
}

#[test]
fn test_function_pointer() {
    fn double(x: i32) -> i32 {
        x * 2
    }
    let f: fn(i32) -> i32 = double;
    assert_eq!(f(5), 10);
    assert_eq!(do_twice(f, 5), 20);
}

#[test]
fn test_split_at_mut() {
    let mut v = vec![1, 2, 3, 4, 5];
    let (a, b) = split_at_mut(&mut v, 3);
    assert_eq!(a, &[1, 2, 3]);
    assert_eq!(b, &[4, 5]);
}

#[test]
fn generic_containers() {
    let p = Point { x: 5, y: 10 };
    assert_eq!(*p.x(), 5);
    let mixed = MixedPoint { x: 5, y: 10.4 }.mixup(MixedPoint { x: "Hello", y: 'c' });
    assert_eq!(mixed.x, 5);
    assert_eq!(mixed.y, 'c');
    let pair = Pair::new(1, 2);
    assert_eq!((pair.x, pair.y), (1, 2));
    assert_eq!(some_function(&String::from("a"), &1), 42);
}

#[test]
fn closures_are_called() {
    let cell = std::cell::Cell::new(0);
    functional::call_once(|| cell.set(cell.get() + 1));
    functional::call_fn(&|| cell.set(cell.get() + 10));
    assert_eq!(cell.get(), 11);
    let mut count = 0;
    let mut bump = || count += 1;
    functional::call_mut(&mut bump);
    functional::call_mut(&mut bump);
    assert_eq!(count, 2);
}
