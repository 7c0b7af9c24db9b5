use vstd::prelude::*;

verus! {

/// Either a single item or a list of items, as configuration files may give either.
#[derive(Clone, Debug)]
pub enum OneOrMany<T> {
    One(T),
    Many(Vec<T>),
}

impl<T> OneOrMany<T> {
    /// The items, in order: the single item alone, or the list.
    pub open spec fn items(&self) -> Seq<T> {
        match self {
            OneOrMany::One(item) => seq![*item],
            OneOrMany::Many(items) => items@,
        }
    }

    /// The items as a vector, whether there was one or many.
    pub fn into_vec(self) -> (v: Vec<T>)
        ensures
            v@ == self.items(),
    {
        match self {
            OneOrMany::One(item) => {
                let mut v: Vec<T> = Vec::new();
                v.push(item);
                proof { assert(v@ =~= seq![item]); }
                v
            },
            OneOrMany::Many(items) => items,
        }
    }

    /// References to the items, in order.
    pub fn as_vec(&self) -> (v: Vec<&T>)
        ensures
            v@.len() == self.items().len(),
            forall|i: int| 0 <= i < v@.len() ==> *v@[i] == self.items()[i],
    {
        match self {
            OneOrMany::One(item) => {
                let mut v: Vec<&T> = Vec::new();
                v.push(item);
                v
            },
            OneOrMany::Many(items) => {
                let mut v: Vec<&T> = Vec::new();
                let mut i: usize = 0;
                while i < items.len()
                    invariant
                        0 <= i <= items@.len(),
                        v@.len() == i,
                        forall|j: int| 0 <= j < i ==> *v@[j] == items@[j],
                    decreases items@.len() - i,
                {
                    v.push(&items[i]);
                    i = i + 1;
                }
                v
            },
        }
    }

    /// The number of items.
    pub fn len(&self) -> (n: usize)
        ensures
            n == self.items().len(),
    {
        match self {
            OneOrMany::One(_) => 1,
            OneOrMany::Many(items) => items.len(),
        }
    }

    /// Whether there are no items; a single item is never empty.
    pub fn is_empty(&self) -> (b: bool)
        ensures
            b == (self.items().len() == 0),
    {
        match self {
            OneOrMany::One(_) => false,
            OneOrMany::Many(items) => items.len() == 0,
        }
    }

    /// The items in order, by reference.
    pub fn iter(&self) -> (v: Vec<&T>)
        ensures
            v@.len() == self.items().len(),
            forall|i: int| 0 <= i < v@.len() ==> *v@[i] == self.items()[i],
    {
        self.as_vec()
    }
}

} // verus!
