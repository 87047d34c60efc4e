//! Building vectors: empty, from a list of elements, or by repeating one element.
use vstd::prelude::*;

verus! {

/// An empty vector.
pub fn myvec_empty<T>() -> (v: Vec<T>)
    ensures
        v@ == Seq::<T>::empty(),
{
    Vec::new()
}

/// A vector holding `elements`, in order.
pub fn myvec_list<T: Copy>(elements: &[T]) -> (v: Vec<T>)
    ensures
        v@ == elements@,
{
    let mut l: Vec<T> = Vec::new();
    let mut i: usize = 0;
    while i < elements.len()
        invariant
            0 <= i <= elements@.len(),
            l@ == elements@.subrange(0, i as int),
        decreases elements@.len() - i,
    {
        l.push(elements[i]);
        i = i + 1;
        assert(l@ =~= elements@.subrange(0, i as int));
    }
    assert(l@ =~= elements@);
    l
}

/// A vector holding `element` `repetation` times.
pub fn myvec_repeat<T: Copy>(element: T, repetation: usize) -> (v: Vec<T>)
    ensures
        v@ == Seq::new(repetation as nat, |_i: int| element),
{
    let mut l: Vec<T> = Vec::new();
    let mut number: usize = 0;
    while number < repetation
        invariant
            0 <= number <= repetation,
            l@ == Seq::new(number as nat, |_i: int| element),
        decreases repetation - number,
    {
        l.push(element);
        number = number + 1;
        assert(l@ =~= Seq::new(number as nat, |_i: int| element));
    }
    l
}

} // verus!
