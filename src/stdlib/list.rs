//! `List<T>` of the language's standard library: a growable sequence.
use vstd::prelude::*;

verus! {

/// std's iterator of mutable references into a slice, carried opaquely.
#[verifier::external_type_specification]
#[verifier::external_body]
#[verifier::reject_recursive_types(T)]
pub struct ExIterMut<'a, T: 'a>(core::slice::IterMut<'a, T>);

/// A growable sequence of values.
#[derive(Debug, Clone)]
pub struct List<T> {
    data: Vec<T>,
}

impl<T> View for List<T> {
    type V = Seq<T>;

    closed spec fn view(&self) -> Seq<T> {
        self.data@
    }
}

impl<T> List<T> {
    /// An empty list.
    pub fn new() -> (r: List<T>)
        ensures
            r@ == Seq::<T>::empty(),
    {
        List { data: Vec::new() }
    }

    /// Adds `value` at the end.
    pub fn push(&mut self, value: T)
        ensures
            final(self)@ == old(self)@.push(value),
    {
        self.data.push(value);
    }

    /// Removes and returns the last value, if any.
    pub fn pop(&mut self) -> (r: core::option::Option<T>)
        ensures
            old(self)@.len() == 0 ==> r is None && final(self)@ == old(self)@,
            old(self)@.len() > 0 ==> r == core::option::Option::Some(old(self)@.last())
                && final(self)@ == old(self)@.drop_last(),
    {
        self.data.pop()
    }

    /// The number of values.
    pub fn len(&self) -> (r: usize)
        ensures
            r == self@.len(),
    {
        self.data.len()
    }

    /// Whether the list is empty.
    pub fn is_empty(&self) -> (r: bool)
        ensures
            r == (self@.len() == 0),
    {
        self.data.len() == 0
    }

    /// The value at `index`, if there is one.
    pub fn get(&self, index: usize) -> (r: core::option::Option<&T>)
        ensures
            index < self@.len() ==> r == core::option::Option::Some(&self@[index as int]),
            index >= self@.len() ==> r is None,
    {
        if index < self.data.len() {
            core::option::Option::Some(&self.data[index])
        } else {
            core::option::Option::None
        }
    }

    /// An iterator over the values, in order.
    pub fn iter(&self) -> (r: core::slice::Iter<'_, T>)
        ensures
            vstd::std_specs::iter::IteratorSpec::remaining(&r) == self@.map_values(|x: T| &x),
    {
        self.data.iter()
    }

    /// A mutable reference to the value at `index`, when there is one.
    pub fn get_mut(&mut self, index: usize) -> (r: core::option::Option<&mut T>)
        ensures
            index >= old(self)@.len() ==> r is None && final(self)@ == old(self)@,
            index < old(self)@.len() ==> r is Some && *r.unwrap() == old(self)@[index as int]
                && final(self)@ == old(self)@.update(index as int, *final(r.unwrap())),
    {
        if index >= self.data.len() {
            return core::option::Option::None;
        }
        let slice = self.data.as_mut_slice();
        let (_, rest) = slice.split_at_mut(index);
        rest.first_mut()
    }

    /// Relies on `slice::iter_mut`: an iterator of mutable references to the
    /// values, in order.
    #[verifier::external_body]
    pub fn iter_mut(&mut self) -> core::slice::IterMut<'_, T> {
        self.data.iter_mut()
    }

    /// Replaces the value at `index`; nothing happens past the end.
    pub fn set(&mut self, index: usize, value: T)
        ensures
            index < old(self)@.len() ==> final(self)@ == old(self)@.update(index as int, value),
            index >= old(self)@.len() ==> final(self)@ == old(self)@,
    {
        if index < self.data.len() {
            self.data.set(index, value);
        }
    }

    /// A list of `f` applied to each value, in order.
    pub fn map<U, F: Fn(&T) -> U>(&self, f: F) -> (r: List<U>)
        requires
            forall|i: int| 0 <= i < self@.len() ==> f.requires((&self@[i],)),
        ensures
            r@.len() == self@.len(),
            forall|i: int| 0 <= i < self@.len() ==> f.ensures((&self@[i],), #[trigger] r@[i]),
    {
        let mut data: Vec<U> = Vec::new();
        let mut i: usize = 0;
        while i < self.data.len()
            invariant
                i <= self@.len(),
                data@.len() == i,
                forall|k: int| 0 <= k < self@.len() ==> f.requires((&self@[k],)),
                forall|k: int| 0 <= k < i ==> f.ensures((&self@[k],), #[trigger] data@[k]),
            decreases self@.len() - i,
        {
            let u = f(&self.data[i]);
            data.push(u);
            i = i + 1;
        }
        List { data }
    }

    /// A list of the values (cloned) on which `f` holds, in order.
    pub fn filter<F: Fn(&T) -> bool>(&self, f: F) -> (r: List<T>) where T: Clone
        requires
            forall|i: int| 0 <= i < self@.len() ==> f.requires((&self@[i],)),
        ensures
            exists|kept: Seq<int>| filtered_by(self@, r@, f, kept, self@.len() as int),
    {
        let mut data: Vec<T> = Vec::new();
        let ghost mut kept: Seq<int> = Seq::empty();
        let mut i: usize = 0;
        while i < self.data.len()
            invariant
                i <= self@.len(),
                forall|k: int| 0 <= k < self@.len() ==> f.requires((&self@[k],)),
                filtered_by(self@, data@, f, kept, i as int),
            decreases self@.len() - i,
        {
            let x = &self.data[i];
            let keep = f(x);
            let ghost old_kept = kept;
            let ghost old_data = data@;
            proof {
                assert(f.ensures((&self@[i as int],), keep));
            }
            if keep {
                let c = x.clone();
                proof {
                    assert(cloned(self@[i as int], c));
                }
                data.push(c);
                proof {
                    kept = kept.push(i as int);
                    assert forall|j: int, k: int| 0 <= j < k < kept.len() implies kept[j] < kept[k] by {
                        assert(kept[j] == old_kept[j]);
                        if k < old_kept.len() {
                            assert(kept[k] == old_kept[k]);
                        }
                    }
                    assert forall|j: int| 0 <= j < kept.len() implies 0 <= kept[j] < i + 1 && f.ensures(
                        (&self@[kept[j]],),
                        true,
                    ) && cloned(self@[kept[j]], data@[j]) by {
                        if j < old_kept.len() {
                            assert(kept[j] == old_kept[j]);
                            assert(data@[j] == old_data[j]);
                        }
                    }
                }
            }
            proof {
                assert forall|k: int| 0 <= k < i + 1 && !kept.contains(k) implies f.ensures((&self@[k],), false) by {
                    if k < i {
                        if old_kept.contains(k) {
                            let j = choose|j: int| 0 <= j < old_kept.len() && old_kept[j] == k;
                            assert(kept[j] == k);
                        }
                    } else {
                        if keep {
                            assert(kept[kept.len() - 1] == k);
                        }
                    }
                }
                assert forall|j: int| 0 <= j < kept.len() implies f.ensures((&self@[kept[j]],), true)
                    && cloned(self@[kept[j]], #[trigger] data@[j]) by {
                    if j < old_kept.len() {
                        assert(kept[j] == old_kept[j]);
                        assert(data@[j] == old_data[j]);
                        assert(f.ensures((&self@[old_kept[j]],), true) && cloned(self@[old_kept[j]], old_data[j]));
                    }
                }
                assert(filtered_by(self@, data@, f, kept, i + 1));
            }
            i = i + 1;
        }
        let r = List { data };
        proof {
            assert(r@ == data@);
            assert(filtered_by(self@, r@, f, kept, self@.len() as int));
        }
        r
    }
}

/// `r` holds, in order, clones of the values among the first `n` of `s` on
/// which `f` returned true (at the indices `kept`); `f` returned false on
/// every other of those values.
pub open spec fn filtered_by<T: Clone, F: Fn(&T) -> bool>(s: Seq<T>, r: Seq<T>, f: F, kept: Seq<int>, n: int) -> bool {
    &&& kept.len() == r.len()
    &&& forall|j: int| 0 <= j < kept.len() ==> 0 <= #[trigger] kept[j] < n
    &&& forall|j: int, k: int| 0 <= j < k < kept.len() ==> kept[j] < kept[k]
    &&& forall|j: int| 0 <= j < kept.len() ==> f.ensures((&s[#[trigger] kept[j]],), true)
    &&& forall|j: int| 0 <= j < kept.len() ==> cloned(s[kept[j]], #[trigger] r[j])
    &&& forall|i: int| 0 <= i < n && !kept.contains(i) ==> f.ensures((&s[i],), false)
}

} // verus!
