//! An ordered list of header fields in which no name occurs twice.

use crate::ascii::same_bytes;
use crate::assoc::{
    first_key, has_key, lemma_with_first, lemma_with_last, lookup, unique_keys, with_first,
    with_last,
};
use vstd::prelude::*;

verus! {

/// The mathematical value of a header list: names and values in order.
pub type Fields = Seq<(Seq<u8>, Seq<u8>)>;

/// An ordered list of header fields. No name occurs twice; names are
/// compared byte for byte.
#[derive(Debug)]
pub struct Headers {
    entries: Vec<(Vec<u8>, Vec<u8>)>,
}

impl View for Headers {
    type V = Fields;

    closed spec fn view(&self) -> Fields {
        Seq::new(self.entries@.len(), |i: int| (self.entries@[i].0@, self.entries@[i].1@))
    }
}

impl Headers {
    /// What holds of every header list: no name occurs twice.
    #[verifier::type_invariant]
    pub open spec fn well_formed(self) -> bool {
        unique_keys(self@)
    }

    /// An empty list.
    pub fn new() -> (r: Headers)
        ensures
            r@ == Fields::empty(),
    {
        let r = Headers { entries: Vec::new() };
        assert(r@ =~= Fields::empty());
        r
    }

    /// The number of fields. No two of them bear the same name.
    pub fn len(&self) -> (r: usize)
        ensures
            r == self@.len(),
            unique_keys(self@),
    {
        proof {
            use_type_invariant(self);
        }
        self.entries.len()
    }

    /// The name of the field at position `i`.
    pub fn name_at(&self, i: usize) -> (r: &Vec<u8>)
        requires
            i < self@.len(),
        ensures
            r@ == self@[i as int].0,
    {
        &self.entries[i].0
    }

    /// The value of the field at position `i`.
    pub fn value_at(&self, i: usize) -> (r: &Vec<u8>)
        requires
            i < self@.len(),
        ensures
            r@ == self@[i as int].1,
    {
        &self.entries[i].1
    }

    fn position(&self, name: &[u8]) -> (r: usize)
        ensures
            r == first_key(self@, name@, 0),
            r <= self@.len(),
    {
        let mut i: usize = 0;
        while i < self.entries.len() && !same_bytes(self.entries[i].0.as_slice(), name)
            invariant
                i <= self.entries.len(),
                self.entries.len() == self@.len(),
                first_key(self@, name@, 0) == first_key(self@, name@, i as int),
            decreases self.entries.len() - i,
        {
            i += 1;
        }
        i
    }

    /// Whether a field called `name` is in the list.
    pub fn contains(&self, name: &[u8]) -> (r: bool)
        ensures
            r == has_key(self@, name@),
    {
        self.position(name) < self.entries.len()
    }

    /// The value of the field called `name`.
    pub fn get(&self, name: &[u8]) -> (r: Option<&Vec<u8>>)
        ensures
            match lookup(self@, name@) {
                Some(value) => r is Some && r->0@ == value,
                None => r is None,
            },
    {
        let i: usize = self.position(name);
        if i < self.entries.len() {
            Some(&self.entries[i].1)
        } else {
            None
        }
    }

    /// Gives `name` the value `value`, replacing the value it had, if any.
    pub fn set(&mut self, name: Vec<u8>, value: Vec<u8>)
        ensures
            final(self)@ == with_last(old(self)@, name@, value@),
            unique_keys(final(self)@),
    {
        proof {
            use_type_invariant(&*self);
            lemma_with_last(self@, name@, value@);
        }
        let i: usize = self.position(name.as_slice());
        let mut entries: Vec<(Vec<u8>, Vec<u8>)> = Vec::new();
        core::mem::swap(&mut self.entries, &mut entries);
        assert(self@ =~= Fields::empty());
        if i < entries.len() {
            entries.set(i, (name, value));
        } else {
            entries.push((name, value));
        }
        assert(Seq::new(entries@.len(), |k: int| (entries@[k].0@, entries@[k].1@)) =~= with_last(
            old(self)@,
            name@,
            value@,
        ));
        core::mem::swap(&mut self.entries, &mut entries);
    }

    /// Gives `name` the value `value` unless it has one already; says
    /// whether the field was added.
    pub fn add(&mut self, name: Vec<u8>, value: Vec<u8>) -> (added: bool)
        ensures
            final(self)@ == with_first(old(self)@, name@, value@),
            added == !has_key(old(self)@, name@),
            unique_keys(final(self)@),
    {
        proof {
            use_type_invariant(&*self);
            lemma_with_first(self@, name@, value@);
        }
        let i: usize = self.position(name.as_slice());
        if i < self.entries.len() {
            return false;
        }
        let mut entries: Vec<(Vec<u8>, Vec<u8>)> = Vec::new();
        core::mem::swap(&mut self.entries, &mut entries);
        assert(self@ =~= Fields::empty());
        entries.push((name, value));
        assert(Seq::new(entries@.len(), |k: int| (entries@[k].0@, entries@[k].1@)) =~= with_first(
            old(self)@,
            name@,
            value@,
        ));
        core::mem::swap(&mut self.entries, &mut entries);
        true
    }
}

} // verus!
