//! Header fields: a mapping from names to values that remembers the order in
//! which the names first came.

use crate::text::same_text;
use vstd::prelude::*;

verus! {

/// Header fields as mathematics: name and value pairs, in order.
pub type Fields = Seq<(Seq<char>, Seq<char>)>;

/// The first position at or after `from` whose name is `name`, or the length
/// of `fields` if there is none.
pub open spec fn position(fields: Fields, name: Seq<char>, from: int) -> int
    decreases fields.len() - from,
{
    if 0 <= from < fields.len() && fields[from].0 != name {
        position(fields, name, from + 1)
    } else {
        from
    }
}

/// The value stored under `name`, if any.
pub open spec fn lookup(fields: Fields, name: Seq<char>) -> Option<Seq<char>> {
    let i = position(fields, name, 0);
    if i < fields.len() {
        Some(fields[i].1)
    } else {
        None
    }
}

/// `fields` with `value` stored under `name`: in the place of an earlier
/// value of that name, or else at the end.
pub open spec fn put(fields: Fields, name: Seq<char>, value: Seq<char>) -> Fields {
    let i = position(fields, name, 0);
    if i < fields.len() {
        fields.update(i, (name, value))
    } else {
        fields.push((name, value))
    }
}

/// No name occurs twice.
pub open spec fn distinct_names(fields: Fields) -> bool {
    forall|i: int, j: int|
        0 <= i < j < fields.len() ==> (#[trigger] fields[i]).0 != (#[trigger] fields[j]).0
}

/// The mapping that a list of pairs gives when they are stored one after
/// another: of two pairs with one name the later one wins.
pub open spec fn from_pairs(pairs: Fields) -> Fields
    decreases pairs.len(),
{
    if pairs.len() == 0 {
        Seq::empty()
    } else {
        put(from_pairs(pairs.drop_last()), pairs.last().0, pairs.last().1)
    }
}

/// Where the search for a name stops: the name does not lie before, and
/// lies at the stop unless it is the end.
pub proof fn lemma_position(fields: Fields, name: Seq<char>, from: int)
    requires
        0 <= from <= fields.len(),
    ensures
        from <= position(fields, name, from) <= fields.len(),
        forall|k: int| from <= k < position(fields, name, from) ==> (#[trigger] fields[k]).0 != name,
        position(fields, name, from) < fields.len() ==> fields[position(fields, name, from)].0
            == name,
    decreases fields.len() - from,
{
    if from < fields.len() && fields[from].0 != name {
        lemma_position(fields, name, from + 1);
    }
}

/// Storing a value keeps the names distinct.
pub proof fn lemma_put_distinct(fields: Fields, name: Seq<char>, value: Seq<char>)
    requires
        distinct_names(fields),
    ensures
        distinct_names(put(fields, name, value)),
{
    lemma_position(fields, name, 0);
    let i = position(fields, name, 0);
    let after = put(fields, name, value);
    assert forall|a: int, b: int| 0 <= a < b < after.len() implies (#[trigger] after[a]).0 != (
    #[trigger] after[b]).0 by {
        if i < fields.len() {
            assert(after[a].0 == fields[a].0);
            assert(after[b].0 == fields[b].0);
        } else {
            if b < fields.len() {
                assert(after[a] == fields[a]);
                assert(after[b] == fields[b]);
            } else {
                assert(after[a] == fields[a]);
            }
        }
    }
}

/// A stored value is found again under its name, and storing it leaves the
/// values of all other names as they were.
pub proof fn theorem_put_then_lookup(fields: Fields, name: Seq<char>, value: Seq<char>, other: Seq<char>)
    ensures
        lookup(put(fields, name, value), name) == Some(value),
        other != name ==> lookup(put(fields, name, value), other) == lookup(fields, other),
{
    let after = put(fields, name, value);
    let i = position(fields, name, 0);
    lemma_position(fields, name, 0);
    lemma_position(after, name, 0);
    if position(after, name, 0) < i {
        assert(after[position(after, name, 0)].0 == fields[position(after, name, 0)].0);
    }
    assert(after[i] == (name, value));
    if other != name {
        lemma_position(fields, other, 0);
        lemma_position(after, other, 0);
        let p = position(fields, other, 0);
        let q = position(after, other, 0);
        if p < fields.len() {
            assert(after[p].0 == fields[p].0);
        }
        if q < after.len() {
            if q < fields.len() {
                assert(after[q].0 == fields[q].0);
            }
        }
        if q < p {
            assert(fields[q].0 != other);
        }
        if p < q {
            assert(after[p].0 != other);
        }
    }
}

/// The mapping of a list of pairs has distinct names.
pub proof fn theorem_from_pairs_distinct(pairs: Fields)
    ensures
        distinct_names(from_pairs(pairs)),
    decreases pairs.len(),
{
    if pairs.len() > 0 {
        theorem_from_pairs_distinct(pairs.drop_last());
        lemma_put_distinct(from_pairs(pairs.drop_last()), pairs.last().0, pairs.last().1);
    }
}

/// The value of the last pair of `pairs` that has the name `name`.
pub open spec fn last_value(pairs: Fields, name: Seq<char>) -> Option<Seq<char>>
    decreases pairs.len(),
{
    if pairs.len() == 0 {
        None
    } else if pairs.last().0 == name {
        Some(pairs.last().1)
    } else {
        last_value(pairs.drop_last(), name)
    }
}

/// Under each name the mapping of a list of pairs holds the value of the
/// last pair with that name, and it holds nothing under other names.
pub proof fn theorem_last_pair_wins(pairs: Fields, name: Seq<char>)
    ensures
        lookup(from_pairs(pairs), name) == last_value(pairs, name),
    decreases pairs.len(),
{
    if pairs.len() > 0 {
        theorem_last_pair_wins(pairs.drop_last(), name);
        theorem_put_then_lookup(
            from_pairs(pairs.drop_last()),
            pairs.last().0,
            pairs.last().1,
            name,
        );
    }
}

/// Header fields of a request or a response.
#[derive(Debug)]
pub struct Headers {
    entries: Vec<(String, String)>,
}

/// Stored entries as mathematics.
spec fn fields_of(entries: Seq<(String, String)>) -> Fields {
    Seq::new(entries.len(), |i: int| (entries[i].0@, entries[i].1@))
}

impl View for Headers {
    type V = Fields;

    closed spec fn view(&self) -> Fields {
        fields_of(self.entries@)
    }
}

impl Headers {
    #[verifier::type_invariant]
    closed spec fn names_are_distinct(&self) -> bool {
        distinct_names(self@)
    }

    /// No header fields.
    pub fn new() -> (r: Headers)
        ensures
            r@ == Fields::empty(),
    {
        let r = Headers { entries: Vec::new() };
        proof {
            assert(r@ =~= Fields::empty());
        }
        r
    }

    /// The number of names.
    pub fn len(&self) -> (n: usize)
        ensures
            n == self@.len(),
            distinct_names(self@),
    {
        proof {
            use_type_invariant(self);
        }
        self.entries.len()
    }

    /// Whether there is no header field.
    pub fn is_empty(&self) -> (b: bool)
        ensures
            b == (self@.len() == 0),
    {
        self.entries.len() == 0
    }

    /// The name at position `i`.
    pub fn name_at(&self, i: usize) -> (name: &String)
        requires
            i < self@.len(),
        ensures
            name@ == self@[i as int].0,
    {
        &self.entries[i].0
    }

    /// The value at position `i`.
    pub fn value_at(&self, i: usize) -> (value: &String)
        requires
            i < self@.len(),
        ensures
            value@ == self@[i as int].1,
    {
        &self.entries[i].1
    }

    /// The names, in order.
    pub fn names(&self) -> (names: Vec<String>)
        ensures
            names@.len() == self@.len(),
            forall|i: int| 0 <= i < names@.len() ==> (#[trigger] names@[i])@ == self@[i].0,
    {
        let mut names: Vec<String> = Vec::new();
        let mut i: usize = 0;
        while i < self.entries.len()
            invariant
                i <= self.entries.len(),
                self@.len() == self.entries.len(),
                names@.len() == i,
                forall|k: int| 0 <= k < i ==> (#[trigger] names@[k])@ == self@[k].0,
            decreases self.entries.len() - i,
        {
            names.push(self.entries[i].0.clone());
            i += 1;
        }
        names
    }

    /// The position of `name`, or the number of names if it is not there.
    fn find(&self, name: &str) -> (i: usize)
        ensures
            i == position(self@, name@, 0),
            i <= self@.len(),
    {
        let mut i: usize = 0;
        while i < self.entries.len() && !same_text(self.entries[i].0.as_str(), name)
            invariant
                i <= self.entries.len(),
                self@.len() == self.entries.len(),
                position(self@, name@, 0) == position(self@, name@, i as int),
            decreases self.entries.len() - i,
        {
            i += 1;
        }
        i
    }

    /// The value stored under `name`.
    pub fn get(&self, name: &str) -> (value: Option<&String>)
        ensures
            match value {
                Some(v) => lookup(self@, name@) == Some(v@),
                None => lookup(self@, name@) is None,
            },
    {
        let i = self.find(name);
        if i < self.entries.len() {
            Some(&self.entries[i].1)
        } else {
            None
        }
    }

    /// Stores `value` under `name`, in the place of an earlier value of that
    /// name if there is one.
    pub fn insert(&mut self, name: String, value: String)
        ensures
            final(self)@ == put(old(self)@, name@, value@),
    {
        proof {
            use_type_invariant(&*self);
            lemma_put_distinct(self@, name@, value@);
        }
        let i = self.find(name.as_str());
        let mut taken = Headers::new();
        std::mem::swap(self, &mut taken);
        let mut entries = taken.entries;
        if i < entries.len() {
            entries.set(i, (name, value));
        } else {
            entries.push((name, value));
        }
        proof {
            assert(fields_of(entries@) =~= put(old(self)@, name@, value@));
        }
        *self = Headers { entries };
    }
}

} // verus!
