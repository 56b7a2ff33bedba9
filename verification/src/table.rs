//! Tables: values by key, kept in key order.
use crate::json;
use crate::text;
use vstd::prelude::*;

verus! {

/// Values by key.
#[derive(Debug, PartialEq)]
pub struct Table<T> {
    rows: Vec<(String, T)>,
}

/// The rows as mathematical values.
pub open spec fn row_views<T: View>(s: Seq<(String, T)>) -> Seq<(Seq<char>, T::V)> {
    Seq::new(s.len(), |i: int| (s[i].0@, s[i].1@))
}

impl<T: View> View for Table<T> {
    type V = Seq<(Seq<char>, T::V)>;

    closed spec fn view(&self) -> Seq<(Seq<char>, T::V)> {
        row_views(self.rows@)
    }
}

impl<T: View> Table<T> {
    /// A table without rows.
    pub fn new() -> (r: Self)
        ensures
            r@ == Seq::<(Seq<char>, T::V)>::empty(),
    {
        let t = Table { rows: Vec::new() };
        assert(row_views(t.rows@) =~= Seq::empty());
        t
    }

    /// The value of a key.
    pub fn find(&self, key: &str) -> (r: Option<&T>)
        ensures
            match r {
                Some(v) => json::find(self@, key@) == Some(v@),
                None => json::find(self@, key@) is None,
            },
    {
        let ghost e = self@;
        let mut i: usize = 0;
        assert(e.skip(0) =~= e);
        while i < self.rows.len()
            invariant
                i <= self.rows.len(),
                e == row_views(self.rows@),
                e == self@,
                json::find(e.skip(i as int), key@) == json::find(e, key@),
            decreases self.rows.len() - i,
        {
            if text::str_eq(self.rows[i].0.as_str(), key) {
                return Some(&self.rows[i].1);
            }
            assert(e.skip(i as int).skip(1) =~= e.skip(i + 1));
            i = i + 1;
        }
        None
    }

    /// Binds a key to a value.
    pub fn put(&mut self, key: &str, value: T)
        ensures
            final(self)@ == json::put(old(self)@, key@, value@),
    {
        let ghost e = self@;
        let ghost j = value@;
        let mut i: usize = 0;
        assert(e.skip(0) =~= e);
        assert(e.take(0) + json::put(e, key@, j) =~= json::put(e, key@, j));
        while i < self.rows.len()
            invariant
                i <= self.rows.len(),
                self.rows@ == old(self).rows@,
                e == row_views(self.rows@),
                e == old(self)@,
                value@ == j,
                e.take(i as int) + json::put(e.skip(i as int), key@, j) == json::put(e, key@, j),
            decreases self.rows.len() - i,
        {
            let ghost rest = e.skip(i as int);
            if text::str_eq(self.rows[i].0.as_str(), key) {
                let k = key.to_owned();
                self.rows.set(i, (k, value));
                assert(row_views(self.rows@) =~= e.take(i as int) + (seq![(key@, j)] + rest.skip(
                    1,
                )));
                return;
            }
            if text::str_lt(key, self.rows[i].0.as_str()) {
                let k = key.to_owned();
                self.rows.insert(i, (k, value));
                assert(row_views(self.rows@) =~= e.take(i as int) + (seq![(key@, j)] + rest));
                return;
            }
            assert(rest.skip(1) =~= e.skip(i + 1));
            assert(e.take(i as int) + (seq![rest[0]] + json::put(e.skip(i + 1), key@, j))
                =~= e.take(i + 1) + json::put(e.skip(i + 1), key@, j));
            i = i + 1;
        }
        let k = key.to_owned();
        self.rows.push((k, value));
        assert(e.take(i as int) =~= e);
        assert(row_views(self.rows@) =~= e + seq![(key@, j)]);
    }
}

} // verus!
