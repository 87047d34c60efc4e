//! Walking the items of a sequence of sequences one after another.
use vstd::prelude::*;

verus! {

/// The concatenation of the sequences in `s`, in order.
pub open spec fn flat<T>(s: Seq<Seq<T>>) -> Seq<T>
    decreases s.len(),
{
    if s.len() == 0 {
        Seq::empty()
    } else {
        s[0] + flat(s.drop_first())
    }
}

/// The contents of each vector.
pub open spec fn views<T>(o: Seq<Vec<T>>) -> Seq<Seq<T>> {
    o.map_values(|v: Vec<T>| v@)
}

/// Hands out the items of each inner vector in turn, skipping empty ones.
pub struct Flatten<T> {
    outer: Vec<Vec<T>>,
    front: Vec<T>,
}

impl<T> View for Flatten<T> {
    type V = Seq<T>;

    /// The items still to be handed out.
    closed spec fn view(&self) -> Seq<T> {
        self.front@ + flat(views(self.outer@))
    }
}

/// A cursor over the items of the vectors in `iter`, in order.
pub fn flatten<T>(iter: Vec<Vec<T>>) -> (f: Flatten<T>)
    ensures
        f@ == flat(views(iter@)),
{
    Flatten::new(iter)
}

impl<T> Flatten<T> {
    pub fn new(iter: Vec<Vec<T>>) -> (f: Flatten<T>)
        ensures
            f@ == flat(views(iter@)),
    {
        let f = Flatten { outer: iter, front: Vec::new() };
        assert(f@ =~= flat(views(iter@)));
        f
    }

    /// The next item, or `None` once every inner vector is used up.
    pub fn next(&mut self) -> (r: Option<T>)
        ensures
            old(self)@.len() == 0 ==> r is None && final(self)@ == old(self)@,
            old(self)@.len() > 0 ==> r == Some(old(self)@[0]) && final(self)@ == old(
                self,
            )@.drop_first(),
    {
        loop
            invariant
                self@ == old(self)@,
            decreases self.outer@.len(),
        {
            if self.front.len() > 0 {
                let ghost before = self@;
                let x = self.front.remove(0);
                assert(self@ =~= before.drop_first());
                return Some(x);
            }
            if self.outer.len() == 0 {
                assert(self@ =~= Seq::<T>::empty());
                return None;
            }
            let ghost o = self.outer@;
            let inner = self.outer.remove(0);
            assert(views(self.outer@) =~= views(o).drop_first());
            self.front = inner;
            assert(self@ =~= old(self)@);
        }
    }

    /// Every item still to be handed out, in order: the items of each inner
    /// vector in turn, empty ones contributing nothing.
    pub fn collect(self) -> (v: Vec<T>)
        ensures
            v@ == self@,
    {
        let ghost all = self@;
        let mut it = self;
        let mut v: Vec<T> = Vec::new();
        loop
            invariant
                all == self@,
                v@ + it@ == all,
            decreases it@.len(),
        {
            let ghost before = it@;
            match it.next() {
                Some(x) => {
                    v.push(x);
                    assert(v@ + it@ =~= all) by {
                        assert(before =~= seq![x] + before.drop_first());
                    }
                },
                None => {
                    assert(v@ =~= all);
                    return v;
                },
            }
        }
    }

    /// The number of items still to be handed out.
    pub fn count(self) -> (n: usize)
        requires
            self@.len() <= usize::MAX,
        ensures
            n == self@.len(),
    {
        let ghost total = self@.len();
        let mut it = self;
        let mut n: usize = 0;
        loop
            invariant
                n + it@.len() == total,
                total == self@.len(),
                total <= usize::MAX,
            decreases it@.len(),
        {
            match it.next() {
                Some(_) => {
                    n = n + 1;
                },
                None => {
                    return n;
                },
            }
        }
    }
}

/// The number of items of a flattened sequence is the sum of the inner lengths.
pub open spec fn total_len<T>(s: Seq<Seq<T>>) -> nat
    decreases s.len(),
{
    if s.len() == 0 {
        0
    } else {
        s[0].len() + total_len(s.drop_first())
    }
}

/// Flattening hands out exactly as many items as the inner sequences hold.
pub proof fn law_flat_len<T>(s: Seq<Seq<T>>)
    ensures
        flat(s).len() == total_len(s),
    decreases s.len(),
{
    if s.len() > 0 {
        law_flat_len(s.drop_first());
    }
}

/// Flattening a concatenation flattens each part: the order of items is kept.
pub proof fn law_flat_append<T>(a: Seq<Seq<T>>, b: Seq<Seq<T>>)
    ensures
        flat(a + b) == flat(a) + flat(b),
    decreases a.len(),
{
    if a.len() == 0 {
        assert(a + b =~= b);
    } else {
        law_flat_append(a.drop_first(), b);
        assert((a + b).drop_first() =~= a.drop_first() + b);
        assert(flat(a + b) =~= flat(a) + flat(b));
    }
}

} // verus!

verus! {

/// Flattening a single inner sequence gives it back unchanged: its items
/// come out from its front, in order. With `law_flat_append`, flattening is
/// the plain concatenation of the inner sequences.
pub proof fn law_flat_single<T>(x: Seq<T>)
    ensures
        flat(seq![x]) == x,
        flat(Seq::<Seq<T>>::empty()) == Seq::<T>::empty(),
{
    assert(seq![x].drop_first() =~= Seq::<Seq<T>>::empty());
    assert(flat(Seq::<Seq<T>>::empty()) == Seq::<T>::empty());
    assert(seq![x][0] == x);
    assert(flat(seq![x]) == x + Seq::<T>::empty());
    assert(x + Seq::<T>::empty() =~= x);
}

/// Item `k` of inner sequence `j` is handed out after every item of the inner
/// sequences before `j` and the `k` items before it in sequence `j`.
pub proof fn law_flat_position<T>(s: Seq<Seq<T>>, j: int, k: int)
    requires
        0 <= j < s.len(),
        0 <= k < s[j].len(),
    ensures
        flat(s)[total_len(s.subrange(0, j)) + k] == s[j][k],
        total_len(s.subrange(0, j)) + k < flat(s).len(),
    decreases j,
{
    law_flat_len(s);
    law_flat_len(s.drop_first());
    if j == 0 {
        assert(s.subrange(0, 0) =~= Seq::<Seq<T>>::empty());
    } else {
        law_flat_position(s.drop_first(), j - 1, k);
        assert(s.drop_first().subrange(0, j - 1) =~= s.subrange(0, j).drop_first());
        assert(s.subrange(0, j)[0] == s[0]);
        assert(s.drop_first()[j - 1] == s[j]);
    }
}

} // verus!
