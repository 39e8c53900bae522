use vstd::prelude::*;

verus! {

/// The one way a push onto a [`FixedVec`] can fail.
#[derive(Debug, Clone, Copy, PartialEq, Eq, Structural)]
pub enum FixedVecErr {
    AlreadyFull,
}

/// The contents after pushing `v` onto contents `s` with capacity `cap`,
/// and the result: a full vector is left as it is.
pub open spec fn pushed<T>(s: Seq<T>, cap: nat, v: T) -> (Seq<T>, Result<(), FixedVecErr>) {
    if s.len() >= cap {
        (s, Err(FixedVecErr::AlreadyFull))
    } else {
        (s.push(v), Ok(()))
    }
}

/// The contents after a pop from contents `s`, and the value popped.
pub open spec fn popped<T>(s: Seq<T>) -> (Seq<T>, Option<T>) {
    if s.len() == 0 {
        (s, None)
    } else {
        (s.drop_last(), Some(s.last()))
    }
}

/// A pop right after a successful push gives back the value pushed and the
/// contents from before the push.
pub proof fn lemma_pop_undoes_push<T>(s: Seq<T>, cap: nat, v: T)
    requires
        s.len() < cap,
    ensures
        pushed(s, cap, v).1 is Ok,
        popped(pushed(s, cap, v).0) == (s, Some(v)),
{
    assert(s.push(v).drop_last() =~= s);
}

/// A push never takes the contents past the capacity.
pub proof fn lemma_push_keeps_capacity<T>(s: Seq<T>, cap: nat, v: T)
    requires
        s.len() <= cap,
    ensures
        pushed(s, cap, v).0.len() <= cap,
{
}

/// A vector whose length never exceeds the capacity `N` fixed in its type.
#[derive(Debug)]
pub struct FixedVec<T, const N: usize> {
    items: Vec<T>,
}

impl<T, const N: usize> View for FixedVec<T, N> {
    type V = Seq<T>;

    closed spec fn view(&self) -> Seq<T> {
        self.items@
    }
}

impl<T, const N: usize> FixedVec<T, N> {
    #[verifier::type_invariant]
    closed spec fn within_capacity(&self) -> bool {
        self.items@.len() <= N
    }

    /// An empty vector.
    pub fn new() -> (r: Self)
        ensures
            r@ == Seq::<T>::empty(),
    {
        FixedVec { items: Vec::new() }
    }

    /// Pushes a value to the array. Returns Err if the array was full.
    pub fn push(&mut self, val: T) -> (r: Result<(), FixedVecErr>)
        ensures
            (final(self)@, r) == pushed(old(self)@, N as nat, val),
    {
        if self.items.len() >= N {
            Err(FixedVecErr::AlreadyFull)
        } else {
            let mut taken = FixedVec::new();
            std::mem::swap(self, &mut taken);
            let FixedVec { mut items } = taken;
            items.push(val);
            *self = FixedVec { items };
            Ok(())
        }
    }

    /// Removes and returns the last value, or `None` when there is none.
    pub fn pop(&mut self) -> (r: Option<T>)
        ensures
            (final(self)@, r) == popped(old(self)@),
    {
        let mut taken = FixedVec::new();
        std::mem::swap(self, &mut taken);
        proof {
            use_type_invariant(&taken);
        }
        let FixedVec { mut items } = taken;
        let r = items.pop();
        *self = FixedVec { items };
        r
    }

    /// The value at `index`, or `None` when `index` is not below the length.
    pub fn get(&self, index: usize) -> (r: Option<&T>)
        ensures
            index < self@.len() ==> r == Some(&self@[index as int]),
            index >= self@.len() ==> r == None::<&T>,
    {
        if index < self.items.len() {
            Some(&self.items[index])
        } else {
            None
        }
    }

    /// The number of values held.
    pub fn len(&self) -> (r: usize)
        ensures
            r == self@.len(),
            r <= N,
    {
        proof {
            use_type_invariant(self);
        }
        self.items.len()
    }

    /// The largest number of values the vector can hold.
    pub fn capacity(&self) -> (r: usize)
        ensures
            r == N,
    {
        N
    }

    /// The values held, first pushed first.
    pub fn iter(&self) -> (r: &[T])
        ensures
            r@ == self@,
    {
        self.items.as_slice()
    }

    /// The value at `index`, which must be below the length.
    pub fn index(&self, index: usize) -> (r: &T)
        requires
            index < self@.len(),
        ensures
            *r == self@[index as int],
    {
        &self.items[index]
    }

    /// Replaces the value at `index`, which must be below the length.
    pub fn set(&mut self, index: usize, val: T)
        requires
            index < old(self)@.len(),
        ensures
            final(self)@ == old(self)@.update(index as int, val),
    {
        let mut taken = FixedVec::new();
        std::mem::swap(self, &mut taken);
        proof {
            use_type_invariant(&taken);
        }
        let FixedVec { mut items } = taken;
        items.set(index, val);
        *self = FixedVec { items };
    }

    /// The values, first pushed first.
    pub fn into_vec(self) -> (r: Vec<T>)
        ensures
            r@ == self@,
    {
        self.items
    }
}

} // verus!
