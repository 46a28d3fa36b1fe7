//! Name tables: the variables of a scope and the functions of a run.
//!
//! A table keeps its entries in the order in which their names first
//! appeared. It starts without entries and holds each name once: putting an
//! item under a name that is there takes the place of the old item.

use vstd::prelude::*;
use crate::text::str_eq;

verus! {

/// A table from names to items.
#[derive(Debug)]
pub struct Table<T> {
    entries: Vec<(String, T)>,
}

/// The entry under `name`, if there is one: the first that bears the name.
pub open spec fn lookup<V>(entries: Seq<(Seq<char>, V)>, name: Seq<char>) -> Option<V>
    decreases entries.len(),
{
    if entries.len() == 0 {
        None
    } else if entries[0].0 == name {
        Some(entries[0].1)
    } else {
        lookup(entries.drop_first(), name)
    }
}

/// The table after `item` is put under `name`: in the place of the entry
/// that bore the name, or at the end.
pub open spec fn assign<V>(entries: Seq<(Seq<char>, V)>, name: Seq<char>, item: V) -> Seq<
    (Seq<char>, V),
>
    decreases entries.len(),
{
    if entries.len() == 0 {
        seq![(name, item)]
    } else if entries[0].0 == name {
        entries.update(0, (name, item))
    } else {
        seq![entries[0]] + assign(entries.drop_first(), name, item)
    }
}

/// The names of the entries, in order.
pub open spec fn names_of<V>(entries: Seq<(Seq<char>, V)>) -> Seq<Seq<char>> {
    Seq::new(entries.len(), |i: int| entries[i].0)
}

impl<T: DeepView> View for Table<T> {
    type V = Seq<(Seq<char>, T::V)>;

    closed spec fn view(&self) -> Seq<(Seq<char>, T::V)> {
        Seq::new(self.entries@.len(), |i: int| (self.entries@[i].0@, self.entries@[i].1.deep_view()))
    }
}

/// What was put under a name is what is found there.
pub proof fn lemma_lookup_assigned<V>(entries: Seq<(Seq<char>, V)>, name: Seq<char>, item: V)
    ensures
        lookup(assign(entries, name, item), name) == Some(item),
    decreases entries.len(),
{
    if entries.len() > 0 && entries[0].0 != name {
        lemma_lookup_assigned(entries.drop_first(), name, item);
        let rest = assign(entries.drop_first(), name, item);
        assert((seq![entries[0]] + rest).drop_first() =~= rest);
    }
}

/// Putting an item under one name leaves every other name as it was.
pub proof fn lemma_lookup_other<V>(
    entries: Seq<(Seq<char>, V)>,
    name: Seq<char>,
    item: V,
    other: Seq<char>,
)
    requires
        other != name,
    ensures
        lookup(assign(entries, name, item), other) == lookup(entries, other),
    decreases entries.len(),
{
    reveal_with_fuel(lookup, 2);
    if entries.len() == 0 {
        assert(seq![(name, item)].drop_first() =~= Seq::<(Seq<char>, V)>::empty());
    } else if entries[0].0 == name {
        assert(entries.update(0, (name, item)).drop_first() =~= entries.drop_first());
    } else {
        lemma_lookup_other(entries.drop_first(), name, item, other);
        let rest = assign(entries.drop_first(), name, item);
        assert((seq![entries[0]] + rest).drop_first() =~= rest);
    }
}

/// No two entries bear the same name.
pub open spec fn distinct<V>(entries: Seq<(Seq<char>, V)>) -> bool {
    forall|i: int, j: int|
        0 <= i < j < entries.len() ==> (#[trigger] entries[i]).0 != (#[trigger] entries[j]).0
}

/// Putting an item under a name changes no name but adds that one at the
/// end, if it was not there.
pub proof fn lemma_assign_names<V>(entries: Seq<(Seq<char>, V)>, name: Seq<char>, item: V)
    ensures
        lookup(entries, name) is Some ==> names_of(assign(entries, name, item)) == names_of(entries),
        lookup(entries, name) is None ==> names_of(assign(entries, name, item)) == names_of(
            entries,
        ).push(name),
        lookup(entries, name) is None ==> forall|i: int|
            0 <= i < entries.len() ==> (#[trigger] entries[i]).0 != name,
    decreases entries.len(),
{
    if entries.len() == 0 {
        assert(names_of(assign(entries, name, item)) =~= names_of(entries).push(name));
    } else if entries[0].0 == name {
        assert(names_of(assign(entries, name, item)) =~= names_of(entries));
    } else {
        let rest = entries.drop_first();
        lemma_assign_names(rest, name, item);
        let tail = assign(rest, name, item);
        let after = seq![entries[0]] + tail;
        assert(tail.len() == names_of(tail).len());
        assert(rest.len() == names_of(rest).len());
        assert(lookup(entries, name) == lookup(rest, name));
        if lookup(entries, name) is Some {
            assert(names_of(after) =~= names_of(entries)) by {
                assert(names_of(assign(rest, name, item)) == names_of(rest));
                assert forall|i: int| 0 <= i < after.len() implies names_of(after)[i] == names_of(
                    entries,
                )[i] by {
                    if i > 0 {
                        assert(after[i] == assign(rest, name, item)[i - 1]);
                        assert(names_of(assign(rest, name, item))[i - 1] == names_of(rest)[i - 1]);
                    }
                }
            }
        } else {
            assert(names_of(after) =~= names_of(entries).push(name)) by {
                assert(names_of(assign(rest, name, item)) == names_of(rest).push(name));
                assert forall|i: int| 0 <= i < after.len() implies names_of(after)[i] == names_of(
                    entries,
                ).push(name)[i] by {
                    if i > 0 {
                        assert(after[i] == assign(rest, name, item)[i - 1]);
                        assert(names_of(assign(rest, name, item))[i - 1] == names_of(rest).push(
                            name,
                        )[i - 1]);
                    }
                }
            }
            assert forall|i: int| 0 <= i < entries.len() implies (#[trigger] entries[i]).0
                != name by {
                if i > 0 {
                    assert(entries[i] == rest[i - 1]);
                }
            }
        }
    }
}

/// A table that holds each name once still does after an item is put into
/// it: a table that starts empty never holds a name twice.
pub proof fn lemma_assign_keeps_distinct<V>(entries: Seq<(Seq<char>, V)>, name: Seq<char>, item: V)
    requires
        distinct(entries),
    ensures
        distinct(assign(entries, name, item)),
{
    lemma_assign_names(entries, name, item);
    let after = assign(entries, name, item);
    assert(after.len() == names_of(after).len());
    assert forall|i: int, j: int| 0 <= i < j < after.len() implies (#[trigger] after[i]).0 != (
    #[trigger] after[j]).0 by {
        assert(after[i].0 == names_of(after)[i]);
        assert(after[j].0 == names_of(after)[j]);
        if lookup(entries, name) is Some {
            assert(names_of(entries)[i] == entries[i].0);
            assert(names_of(entries)[j] == entries[j].0);
        } else {
            assert(names_of(entries).push(name)[i] == entries[i].0);
            if j < entries.len() {
                assert(names_of(entries).push(name)[j] == entries[j].0);
            }
        }
    }
}

impl<T: DeepView> Table<T> {
    /// A table without entries.
    pub fn new() -> (r: Self)
        ensures
            r@ == Seq::<(Seq<char>, T::V)>::empty(),
            distinct(r@),
    {
        let r = Table { entries: Vec::new() };
        assert(r@ =~= Seq::<(Seq<char>, T::V)>::empty());
        r
    }

    /// The number of entries.
    pub fn len(&self) -> (n: usize)
        ensures
            n == self@.len(),
    {
        self.entries.len()
    }

    /// The name of the entry at position `i`.
    pub fn name_at(&self, i: usize) -> (r: &String)
        requires
            i < self@.len(),
        ensures
            r@ == self@[i as int].0,
    {
        &self.entries[i].0
    }

    /// The item under `name`, if there is one.
    pub fn get(&self, name: &str) -> (r: Option<&T>)
        ensures
            match r {
                Some(item) => lookup(self@, name@) == Some(item.deep_view()),
                None => lookup(self@, name@) is None,
            },
    {
        let mut i: usize = 0;
        assert(self@.skip(0) =~= self@);
        while i < self.entries.len()
            invariant
                i <= self.entries.len(),
                lookup(self@, name@) == lookup(self@.skip(i as int), name@),
            decreases self.entries.len() - i,
        {
            assert(self@.skip(i as int).drop_first() =~= self@.skip(i + 1));
            if str_eq(self.entries[i].0.as_str(), name) {
                return Some(&self.entries[i].1);
            }
            i += 1;
        }
        None
    }

    /// Puts `item` under `name`, in the place of what was there.
    pub fn insert(&mut self, name: String, item: T)
        ensures
            final(self)@ == assign(old(self)@, name@, item.deep_view()),
            distinct(old(self)@) ==> distinct(final(self)@),
    {
        proof {
            if distinct(old(self)@) {
                lemma_assign_keeps_distinct(old(self)@, name@, item.deep_view());
            }
        }
        let mut i: usize = 0;
        assert(self@.skip(0) =~= self@);
        assert(self@.take(0) =~= Seq::<(Seq<char>, T::V)>::empty());
        while i < self.entries.len()
            invariant
                i <= self.entries.len(),
                self@ == old(self)@,
                assign(self@, name@, item.deep_view()) == self@.take(i as int) + assign(
                    self@.skip(i as int),
                    name@,
                    item.deep_view(),
                ),
            decreases self.entries.len() - i,
        {
            let ghost rest = self@.skip(i as int);
            assert(rest.drop_first() =~= self@.skip(i + 1));
            if str_eq(self.entries[i].0.as_str(), name.as_str()) {
                self.entries.set(i, (name, item));
                assert(self@ =~= old(self)@.take(i as int) + rest.update(
                    0,
                    (name@, item.deep_view()),
                ));
                return ;
            }
            assert(self@.take(i + 1) =~= self@.take(i as int) + seq![rest[0]]);
            assert(self@.take(i as int) + (seq![rest[0]] + assign(
                rest.drop_first(),
                name@,
                item.deep_view(),
            )) =~= self@.take(i + 1) + assign(self@.skip(i + 1), name@, item.deep_view()));
            i += 1;
        }
        assert(self@.take(i as int) =~= self@);
        self.entries.push((name, item));
        assert(self@ =~= old(self)@ + seq![(name@, item.deep_view())]);
    }
}

} // verus!
