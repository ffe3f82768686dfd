use dispatch_core::error_handling::{check_age, parse_age, parse_u32, AgeError};
use dispatch_core::largest::largest;
use dispatch_core::smart_pointers::{MockDatabase, MyBox};
use dispatch_core::traits_generics::{
    default_author_summary, notify, notify_verbose, returns_summarizable, NewsArticle, Pair,
    Summary, Tweet,
};

#[test]
fn test_parse_age_valid() {
    assert!(parse_age("25").is_ok());
    assert_eq!(parse_age("25").unwrap(), 25);
}

#[test]
fn test_parse_age_invalid() {
    assert!(parse_age("abc").is_err());
    assert!(parse_age("200").is_err());
}

#[test]
fn parse_age_errors_and_limits() {
    assert_eq!(parse_age("abc"), Err(AgeError::InvalidFormat));
    assert_eq!(parse_age("200"), Err(AgeError::TooOld));
    assert_eq!(parse_age("151"), Err(AgeError::TooOld));
    assert_eq!(parse_age("150"), Ok(150));
    assert_eq!(parse_age("0"), Ok(0));
    assert_eq!(parse_age(""), Err(AgeError::InvalidFormat));
    assert_eq!(parse_age("-5"), Err(AgeError::InvalidFormat));
    assert_eq!(parse_age(" 5"), Err(AgeError::InvalidFormat));
    assert_eq!(parse_age("4294967296"), Err(AgeError::InvalidFormat));
    assert_eq!(check_age(None), Err(AgeError::InvalidFormat));
    assert_eq!(check_age(Some(151)), Err(AgeError::TooOld));
    assert_eq!(check_age(Some(7)), Ok(7));
}

#[test]
fn parse_u32_agrees_with_std() {
    let samples = [
        "0", "7", "007", "+5", "+", "", "-0", "12a", "a12", "4294967295", "4294967296",
        "99999999999999999999", "1 2", "+-1", "++1", "\u{661}", "42",
    ];
    for text in samples.iter() {
        assert_eq!(parse_u32(text), text.parse::<u32>().ok(), "on {:?}", text);
    }
}

#[test]
fn age_errors_in_words() {
    assert_eq!(AgeError::InvalidFormat.message(), "Invalid age format");
    assert_eq!(AgeError::NegativeAge.message(), "Age cannot be negative");
    assert_eq!(AgeError::TooOld.message(), "Age is unrealistically high");
}

#[test]
fn test_largest() {
    let numbers = vec![34, 50, 25, 100, 65];
    assert_eq!(largest(&numbers), 100);

    let chars = vec!['y', 'm', 'a', 'q'];
    assert_eq!(largest(&chars), 'y');
}

#[test]
fn largest_of_one_and_of_equals() {
    assert_eq!(largest(&[7]), 7);
    assert_eq!(largest(&[3, 3, 3]), 3);
    assert_eq!(largest(&[-5, -2, -9]), -2);
}

#[test]
fn summaries() {
    let article = NewsArticle {
        headline: String::from("Penguins win the Stanley Cup Championship!"),
        location: String::from("Pittsburgh, PA, USA"),
        author: String::from("Iceburgh"),
        content: String::from("The Pittsburgh Penguins once again are the best."),
    };
    assert_eq!(
        article.summarize(),
        "Penguins win the Stanley Cup Championship!, by Iceburgh (Pittsburgh, PA, USA)"
    );
    assert_eq!(article.author_summary(), "By Iceburgh");
    let tweet = Tweet {
        username: String::from("horse_ebooks"),
        content: String::from("of course, as you probably already know, people"),
        reply: false,
        retweet: false,
    };
    assert_eq!(tweet.summarize(), "horse_ebooks: of course, as you probably already know, people");
    assert_eq!(tweet.author_summary(), "(Read more...)");
    assert_eq!(default_author_summary(), "(Read more...)");
    assert_eq!(notify(&tweet), "Breaking news! horse_ebooks: of course, as you probably already know, people");
    assert_eq!(notify_verbose(&article), format!("Notification: {}", article.summarize()));
    let returned = returns_summarizable(true);
    assert_eq!(returned.summarize(), "rustacean: Learning Rust!");
    assert!(!returned.reply && !returned.retweet);
}

#[test]
fn my_box_derefs() {
    let x = 5;
    let y = MyBox::new(x);
    assert_eq!(5, *y);
    let name = MyBox::new(String::from("Rust"));
    assert_eq!(name.len(), 4);
}

#[test]
fn mock_database_keeps_insertions() {
    let mut db = MockDatabase::new();
    assert_eq!(db.len(), 0);
    db.insert(String::from("key1"), String::from("value1"));
    db.insert(String::from("key2"), String::from("value2"));
    assert_eq!(db.len(), 2);
}

#[test]
fn the_largest_member_of_a_pair() {
    assert!(!Pair::new(10, 20).largest_is_x());
    assert!(Pair::new(20, 10).largest_is_x());
    assert!(Pair::new(7, 7).largest_is_x());
    assert!(!Pair::new("hello", "world").largest_is_x());
}
