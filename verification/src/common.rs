//! Small value types and helpers shared by the whole crate.

use vstd::prelude::*;

verus! {

/// A pair of unsigned coordinates: a cell of a board, or a board's extent.
#[derive(Clone, Copy, Debug, PartialEq, Eq, Structural)]
pub struct Size {
    pub x: u32,
    pub y: u32,
}

impl Size {
    pub fn new(x: u32, y: u32) -> (s: Self)
        ensures
            s.x == x,
            s.y == y,
    {
        Self { x, y }
    }
}

/// `predicate` can be asked about every item of `arr`.
pub open spec fn can_test_all<T, P: Fn(&T) -> bool>(arr: Seq<T>, predicate: P) -> bool {
    forall|i: int| 0 <= i < arr.len() ==> call_requires(predicate, (&#[trigger] arr[i],))
}

/// The index of the first item of `arr` that `predicate` accepts: it said
/// yes to that item and no to every item before it. `None` where it said no
/// to all of them.
pub fn find_index<T, P: Fn(&T) -> bool>(arr: &Vec<T>, predicate: P) -> (index: Option<usize>)
    requires
        can_test_all(arr@, predicate),
    ensures
        match index {
            Some(i) => i < arr@.len() && call_ensures(predicate, (&arr@[i as int],), true)
                && forall|j: int|
                0 <= j < i ==> call_ensures(predicate, (&#[trigger] arr@[j],), false),
            None => forall|j: int|
                0 <= j < arr@.len() ==> call_ensures(predicate, (&#[trigger] arr@[j],), false),
        },
{
    let mut i: usize = 0;
    while i < arr.len()
        invariant
            i <= arr.len(),
            can_test_all(arr@, predicate),
            forall|j: int| 0 <= j < i ==> call_ensures(predicate, (&#[trigger] arr@[j],), false),
        decreases arr.len() - i,
    {
        if predicate(&arr[i]) {
            return Some(i);
        }
        i += 1;
    }
    None
}

/// The first item of `arr` that `predicate` accepts, if there is one.
pub fn get_object<T, P: Fn(&T) -> bool>(arr: &Vec<T>, predicate: P) -> (found: Option<&T>)
    requires
        can_test_all(arr@, predicate),
    ensures
        match found {
            Some(item) => exists|i: int|
                0 <= i < arr@.len() && *item == #[trigger] arr@[i] && call_ensures(
                    predicate,
                    (&arr@[i],),
                    true,
                ) && forall|j: int|
                    0 <= j < i ==> call_ensures(predicate, (&#[trigger] arr@[j],), false),
            None => forall|j: int|
                0 <= j < arr@.len() ==> call_ensures(predicate, (&#[trigger] arr@[j],), false),
        },
{
    match find_index(arr, predicate) {
        Some(i) => Some(&arr[i]),
        None => None,
    }
}

/// Hands out the next identifier: returns the counter's value and moves the
/// counter on by one.
pub fn get_unique_id(id_counter: &mut i32) -> (id: i32)
    requires
        *old(id_counter) < i32::MAX,
    ensures
        id == *old(id_counter),
        *final(id_counter) == *old(id_counter) + 1,
{
    let id = *id_counter;
    *id_counter += 1;
    id
}

} // verus!
