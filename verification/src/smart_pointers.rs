//! A box of one's own, and a store that is filled through a handle.

use vstd::prelude::*;

verus! {

/// A box that holds one value.
pub struct MyBox<T>(pub T);

impl<T> MyBox<T> {
    /// The box that holds `x`.
    pub fn new(x: T) -> (b: MyBox<T>)
        ensures
            b.0 == x,
    {
        MyBox(x)
    }
}

impl<T> std::ops::Deref for MyBox<T> {
    type Target = T;

    fn deref(&self) -> (target: &T)
        ensures
            *target == self.0,
    {
        &self.0
    }
}

/// A store of pairs of key and value, in the order of their insertion.
pub struct MockDatabase {
    data: Vec<(String, String)>,
}

impl MockDatabase {
    /// The pairs stored, oldest first.
    pub closed spec fn view(&self) -> Seq<(Seq<char>, Seq<char>)> {
        self.data@.map_values(|pair: (String, String)| (pair.0@, pair.1@))
    }

    /// An empty store.
    pub fn new() -> (db: MockDatabase)
        ensures
            db@ == Seq::<(Seq<char>, Seq<char>)>::empty(),
    {
        let db = MockDatabase { data: Vec::new() };
        assert(db@ =~= Seq::<(Seq<char>, Seq<char>)>::empty());
        db
    }

    /// Stores the pair after all others.
    pub fn insert(&mut self, key: String, value: String)
        ensures
            final(self)@ == old(self)@.push((key@, value@)),
    {
        self.data.push((key, value));
        assert(self@ =~= old(self)@.push((key@, value@)));
    }

    /// The number of pairs stored.
    pub fn len(&self) -> (n: usize)
        ensures
            n == self@.len(),
    {
        self.data.len()
    }
}

} // verus!
