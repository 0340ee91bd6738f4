use vstd::prelude::*;
use vstd::std_specs::cmp::PartialEqSpec;

verus! {

/// The index of the first element of `array` that equals `value`.
pub fn find<T: PartialEq>(array: &[T], value: &T) -> (r: Option<usize>)
    ensures
        match r {
            Some(i) => i < array@.len(),
            None => true,
        },
        T::obeys_eq_spec() ==> match r {
            Some(i) => array@[i as int].eq_spec(value) && forall|j: int|
                0 <= j < i ==> !(#[trigger] array@[j]).eq_spec(value),
            None => forall|j: int| 0 <= j < array@.len() ==> !(#[trigger] array@[j]).eq_spec(value),
        },
{
    let mut i: usize = 0;
    while i < array.len()
        invariant
            i <= array@.len(),
            T::obeys_eq_spec() ==> forall|j: int|
                0 <= j < i ==> !(#[trigger] array@[j]).eq_spec(value),
        decreases array.len() - i,
    {
        if array[i].eq(value) {
            return Some(i);
        }
        i += 1;
    }
    None
}

} // verus!
