use vstd::prelude::*;

verus! {

/// Either a single value or an ordered list of them.
#[derive(Debug, PartialEq)]
pub enum OneOrMany<T> {
    One(T),
    Many(Vec<T>),
}

impl<T> OneOrMany<T> {
    /// The values, in order.
    pub open spec fn items(&self) -> Seq<T> {
        match self {
            OneOrMany::One(x) => seq![*x],
            OneOrMany::Many(v) => v@,
        }
    }

    /// The number of values held.
    pub fn len(&self) -> (r: usize)
        ensures
            r == self.items().len(),
    {
        match self {
            OneOrMany::One(_) => 1,
            OneOrMany::Many(v) => v.len(),
        }
    }

    /// Whether no value is held (only a `Many` with an empty list).
    pub fn is_empty(&self) -> (r: bool)
        ensures
            r == (self.items().len() == 0),
    {
        match self {
            OneOrMany::One(_) => false,
            OneOrMany::Many(v) => v.len() == 0,
        }
    }

    /// `None` for no values, `One` for exactly one, `Many` for more, keeping the order.
    pub fn from_vec(mut v: Vec<T>) -> (r: Option<Self>)
        ensures
            v@.len() == 0 <==> r is None,
            r matches Some(x) ==> x.items() == v@,
            r matches Some(x) ==> (x is One <==> v@.len() == 1),
    {
        if v.len() == 0 {
            None
        } else if v.len() == 1 {
            let x = v.pop().unwrap();
            assert(seq![x] =~= v@.push(x));
            Some(OneOrMany::One(x))
        } else {
            Some(OneOrMany::Many(v))
        }
    }
}

} // verus!
