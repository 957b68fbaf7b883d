//! Values that carry an optional source position.

use vstd::prelude::*;
use vstd::std_specs::cmp::{PartialEqSpec, PartialEqSpecImpl};

verus! {

/// Line and column of a token in the source text, where known.
pub type Location = Option<[u32; 2]>;

/// A value together with the place in the source it came from.
///
/// Two located values are equal where their data are equal and their
/// places do not differ; a value without a place differs in place from
/// none.
#[derive(Clone, Debug)]
pub struct Located<T> {
    pub data: T,
    pub location: Location,
}

/// Whether two places do not differ: one of them is unknown, or they are
/// the same.
pub open spec fn places_agree(first: Location, second: Location) -> bool {
    match (first, second) {
        (Some(one), Some(other)) => one[0] == other[0] && one[1] == other[1],
        _ => true,
    }
}

fn same_place(first: Location, second: Location) -> (agree: bool)
    ensures
        agree == places_agree(first, second),
{
    match (first, second) {
        (Some(one), Some(other)) => one[0] == other[0] && one[1] == other[1],
        _ => true,
    }
}

impl<T: PartialEq + PartialEqSpec> PartialEq for Located<T> {
    fn eq(&self, other: &Located<T>) -> (equal: bool) {
        self.data == other.data && same_place(self.location, other.location)
    }
}

impl<T: PartialEq + PartialEqSpec> PartialEqSpecImpl for Located<T> {
    open spec fn obeys_eq_spec() -> bool {
        T::obeys_eq_spec()
    }

    open spec fn eq_spec(&self, other: &Located<T>) -> bool {
        self.data.eq_spec(&other.data) && places_agree(self.location, other.location)
    }
}

impl<T: View> View for Located<T> {
    type V = Located<T::V>;

    open spec fn view(&self) -> Located<T::V> {
        Located { data: self.data@, location: self.location }
    }
}

impl<T> Located<T> {
    /// Wraps `data` without a source position.
    pub fn from_data(data: T) -> (located: Located<T>)
        ensures
            located == (Located { data, location: None }),
    {
        Located { data, location: None }
    }
}

/// The sequence obtained from `datas` by giving each element no position.
pub open spec fn unlocated<T>(datas: Seq<T>) -> Seq<Located<T>> {
    Seq::new(datas.len(), |i: int| Located { data: datas[i], location: None })
}

/// Wraps every element of `datas`, in order, without a source position.
pub fn convert_located<T>(datas: Vec<T>) -> (located: Vec<Located<T>>)
    ensures
        located@ == unlocated(datas@),
{
    let ghost all = datas@;
    let mut rest = datas;
    let mut reversed: Vec<Located<T>> = Vec::new();
    while rest.len() > 0
        invariant
            rest@.len() <= all.len(),
            reversed@.len() + rest@.len() == all.len(),
            rest@ == all.subrange(0, rest@.len() as int),
            forall|i: int|
                0 <= i < reversed@.len() ==> #[trigger] reversed@[i] == (Located {
                    data: all[all.len() - 1 - i],
                    location: None,
                }),
        decreases rest@.len(),
    {
        let data = rest.pop().unwrap();
        reversed.push(Located::from_data(data));
    }
    let mut located: Vec<Located<T>> = Vec::new();
    while reversed.len() > 0
        invariant
            reversed@.len() + located@.len() == all.len(),
            forall|i: int|
                0 <= i < reversed@.len() ==> #[trigger] reversed@[i] == (Located {
                    data: all[all.len() - 1 - i],
                    location: None,
                }),
            forall|i: int|
                0 <= i < located@.len() ==> #[trigger] located@[i] == (Located {
                    data: all[i],
                    location: None,
                }),
        decreases reversed@.len(),
    {
        let item = reversed.pop().unwrap();
        located.push(item);
    }
    assert(located@ =~= unlocated(all));
    located
}

} // verus!
