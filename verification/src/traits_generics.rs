//! Generic containers, a counting sequence, and points that add up.

use vstd::prelude::*;
use vstd::string::StringExecFns;

verus! {

/// What can be summed up in a line.
pub trait Summary {
    /// The summary, as a mathematical value.
    spec fn summary(&self) -> Seq<char>;

    /// The line about the author, as a mathematical value.
    spec fn author_line(&self) -> Seq<char>;

    /// The summary.
    fn summarize(&self) -> (line: String)
        ensures
            line@ == self.summary(),
    ;

    /// The line about the author.
    fn author_summary(&self) -> (line: String)
        ensures
            line@ == self.author_line(),
    ;
}

/// The author line of what names no author.
pub fn default_author_summary() -> (line: String)
    ensures
        line@ == "(Read more...)"@,
{
    String::from_str("(Read more...)")
}

/// A news article.
pub struct NewsArticle {
    pub headline: String,
    pub location: String,
    pub author: String,
    pub content: String,
}

impl Summary for NewsArticle {
    open spec fn summary(&self) -> Seq<char> {
        self.headline@ + ", by "@ + self.author@ + " ("@ + self.location@ + ")"@
    }

    open spec fn author_line(&self) -> Seq<char> {
        "By "@ + self.author@
    }

    fn summarize(&self) -> (line: String) {
        let mut line = self.headline.clone();
        line.append(", by ");
        line.append(self.author.as_str());
        line.append(" (");
        line.append(self.location.as_str());
        line.append(")");
        line
    }

    fn author_summary(&self) -> (line: String) {
        let mut line = String::from_str("By ");
        line.append(self.author.as_str());
        line
    }
}

/// A short message.
pub struct Tweet {
    pub username: String,
    pub content: String,
    pub reply: bool,
    pub retweet: bool,
}

impl Summary for Tweet {
    open spec fn summary(&self) -> Seq<char> {
        self.username@ + ": "@ + self.content@
    }

    open spec fn author_line(&self) -> Seq<char> {
        "(Read more...)"@
    }

    fn summarize(&self) -> (line: String) {
        let mut line = self.username.clone();
        line.append(": ");
        line.append(self.content.as_str());
        line
    }

    fn author_summary(&self) -> (line: String) {
        default_author_summary()
    }
}

/// The notice that announces `item`.
pub fn notify<T: Summary>(item: &T) -> (notice: String)
    ensures
        notice@ == "Breaking news! "@ + item.summary(),
{
    let mut notice = String::from_str("Breaking news! ");
    let line = item.summarize();
    notice.append(line.as_str());
    notice
}

/// The notification about `item`.
pub fn notify_verbose<T: Summary>(item: &T) -> (notice: String)
    ensures
        notice@ == "Notification: "@ + item.summary(),
{
    let mut notice = String::from_str("Notification: ");
    let line = item.summarize();
    notice.append(line.as_str());
    notice
}

/// Something that can be summed up: a message by `rustacean`.
pub fn returns_summarizable(is_tweet: bool) -> (tweet: Tweet)
    ensures
        tweet.username@ == "rustacean"@,
        tweet.content@ == "Learning Rust!"@,
        !tweet.reply,
        !tweet.retweet,
{
    Tweet {
        username: String::from_str("rustacean"),
        content: String::from_str("Learning Rust!"),
        reply: false,
        retweet: false,
    }
}

/// A point with two coordinates of one type.
pub struct Point<T> {
    pub x: T,
    pub y: T,
}

impl<T> Point<T> {
    /// The first coordinate.
    pub fn x(&self) -> (x: &T)
        ensures
            *x == self.x,
    {
        &self.x
    }
}

/// A point whose coordinates may differ in type.
pub struct MixedPoint<T, U> {
    pub x: T,
    pub y: U,
}

impl<T, U> MixedPoint<T, U> {
    /// The point with the first coordinate of `self` and the second of `other`.
    pub fn mixup<V, W>(self, other: MixedPoint<V, W>) -> (mixed: MixedPoint<T, W>)
        ensures
            mixed.x == self.x,
            mixed.y == other.y,
    {
        MixedPoint { x: self.x, y: other.y }
    }
}

/// Two values of one type.
pub struct Pair<T> {
    pub x: T,
    pub y: T,
}

impl<T> Pair<T> {
    /// The pair of `x` and `y`.
    pub fn new(x: T, y: T) -> (pair: Pair<T>)
        ensures
            pair.x == x,
            pair.y == y,
    {
        Self { x, y }
    }
}

/// The answer for any two arguments.
pub fn some_function<T, U>(_t: &T, _u: &U) -> (answer: i32) where
    T: std::fmt::Display + Clone,
    U: Clone + std::fmt::Debug,
    ensures
        answer == 42,
{
    42
}

/// A point of whole coordinates, for which `+` adds coordinate by coordinate.
#[derive(Debug, Copy, Clone)]
pub struct AddPoint {
    pub x: i32,
    pub y: i32,
}

impl AddPoint {
    /// Whether the sum of two points has coordinates that fit.
    pub open spec fn can_add(self, other: AddPoint) -> bool {
        &&& i32::MIN <= self.x + other.x <= i32::MAX
        &&& i32::MIN <= self.y + other.y <= i32::MAX
    }
}

impl vstd::std_specs::ops::AddSpecImpl<AddPoint> for AddPoint {
    open spec fn obeys_add_spec() -> bool {
        true
    }

    open spec fn add_req(self, other: AddPoint) -> bool {
        self.can_add(other)
    }

    open spec fn add_spec(self, other: AddPoint) -> AddPoint {
        AddPoint { x: (self.x + other.x) as i32, y: (self.y + other.y) as i32 }
    }
}

impl std::ops::Add<AddPoint> for AddPoint {
    type Output = AddPoint;

    fn add(self, other: AddPoint) -> (sum: AddPoint) {
        AddPoint { x: self.x + other.x, y: self.y + other.y }
    }
}

/// Counts from one to ten, then stops.
pub struct Counter {
    pub count: u32,
}

impl Counter {
    /// The next number, or `None` once ten has been reached.
    pub fn next(&mut self) -> (item: Option<u32>)
        ensures
            old(self).count < 10 ==> final(self).count == old(self).count + 1 && item == Some(
                final(self).count,
            ),
            old(self).count >= 10 ==> final(self).count == old(self).count && item.is_none(),
    {
        if self.count < 10 {
            self.count += 1;
            Some(self.count)
        } else {
            None
        }
    }

    /// The next `limit` numbers, or fewer where the counter stops before.
    pub fn take(&mut self, limit: usize) -> (items: Vec<u32>)
        ensures
            items@.len() == if old(self).count >= 10 {
                0
            } else if limit <= 10 - old(self).count {
                limit as int
            } else {
                10 - old(self).count
            },
            forall|i: int| 0 <= i < items@.len() ==> items@[i] == old(self).count + 1 + i,
            final(self).count == old(self).count + items@.len(),
    {
        let mut items: Vec<u32> = Vec::new();
        while items.len() < limit && self.count < 10
            invariant
                items@.len() <= limit,
                self.count == old(self).count + items@.len(),
                self.count <= 10 || items@.len() == 0,
                forall|i: int| 0 <= i < items@.len() ==> items@[i] == old(self).count + 1 + i,
            decreases 10 - self.count,
        {
            match self.next() {
                Some(item) => {
                    items.push(item);
                },
                None => {},
            }
        }
        items
    }
}

} // verus!
