//! Named parameters, as a scene description hands them to the parts of the
//! renderer that it configures.

use vstd::prelude::*;
use crate::float::Float;

verus! {

/// A named list of numbers.
pub struct ParamSetItem {
    pub name: String,
    pub values: Vec<Float>,
}

/// The named lists of numbers of one scene element.
pub struct ParamSet {
    pub floats: Vec<ParamSetItem>,
}

/// Whether `item` gives a single number under the name `name`.
pub open spec fn gives_one(item: ParamSetItem, name: Seq<char>) -> bool {
    item.name@ == name && item.values@.len() == 1
}

/// The number that the first item from `start` on gives under `name` alone,
/// or `d` where none does.
pub open spec fn first_single(items: Seq<ParamSetItem>, name: Seq<char>, d: Float, start: int)
    -> Float
    decreases items.len() - start,
{
    if start < 0 || start >= items.len() {
        d
    } else if gives_one(items[start], name) {
        items[start].values@[0]
    } else {
        first_single(items, name, d, start + 1)
    }
}

impl ParamSet {
    pub fn new() -> (r: ParamSet)
        ensures
            r.floats@.len() == 0,
    {
        ParamSet { floats: Vec::new() }
    }

    /// Adds the list `values` under the name `name`, after the lists that
    /// are there.
    pub fn add_floats(&mut self, name: String, values: Vec<Float>)
        ensures
            final(self).floats@ == old(self).floats@.push(ParamSetItem { name, values }),
    {
        self.floats.push(ParamSetItem { name, values });
    }

    /// The number given under `name`: the single value of the first list of
    /// that name that holds exactly one, or `d` where there is none.
    pub fn find_one_float(&self, name: &String, d: Float) -> (r: Float)
        ensures
            r == first_single(self.floats@, name@, d, 0),
    {
        let mut i: usize = 0;
        while i < self.floats.len()
            invariant
                i <= self.floats@.len(),
                first_single(self.floats@, name@, d, 0) == first_single(
                    self.floats@,
                    name@,
                    d,
                    i as int,
                ),
            decreases self.floats@.len() - i,
        {
            if self.floats[i].name == *name && self.floats[i].values.len() == 1 {
                return self.floats[i].values[0];
            }
            i = i + 1;
        }
        d
    }
}

} // verus!
