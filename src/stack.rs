use vstd::prelude::*;

verus! {

/// A list of errors a stack operation may return.
#[derive(Copy, Clone, Debug, PartialEq, Eq, Structural)]
pub enum StackErr {
    Overflow,
    Underflow,
}

/// A last-in, first-out sequence of values that never grows past the
/// capacity it was created with.
#[derive(Debug, Clone)]
pub struct Stack<Data> {
    data: Vec<Data>,
    capacity: usize,
}

impl<Data> View for Stack<Data> {
    /// The live contents, bottom to top.
    type V = Seq<Data>;

    closed spec fn view(&self) -> Seq<Data> {
        self.data@
    }
}

impl<Data> Stack<Data> {
    /// The most values the stack holds at once.
    pub closed spec fn spec_capacity(&self) -> nat {
        self.capacity as nat
    }

    /// The contents never exceed the capacity.
    pub open spec fn wf(&self) -> bool {
        self@.len() <= self.spec_capacity()
    }

    /// Creates a new, empty stack with the given capacity.
    pub fn new(capacity: usize) -> (r: Self)
        ensures
            r.wf(),
            r@ == Seq::<Data>::empty(),
            r.spec_capacity() == capacity,
    {
        Self { capacity, data: Vec::new() }
    }

    /// The most values the stack holds at once.
    pub fn capacity(&self) -> (r: usize)
        ensures
            r == self.spec_capacity(),
    {
        self.capacity
    }

    /// The live contents, bottom to top.
    pub fn data(&self) -> (r: &[Data])
        ensures
            r@ == self@,
    {
        self.data.as_slice()
    }

    /// Pushes a new item onto the stack; fails with `Overflow`, leaving the
    /// stack as it was, when it is full.
    pub fn push(&mut self, data: Data) -> (r: Result<(), StackErr>)
        requires
            old(self).wf(),
        ensures
            final(self).wf(),
            final(self).spec_capacity() == old(self).spec_capacity(),
            old(self)@.len() < old(self).spec_capacity() ==> r == Ok::<(), StackErr>(())
                && final(self)@ == old(self)@.push(data),
            old(self)@.len() >= old(self).spec_capacity() ==> r == Err::<(), StackErr>(
                StackErr::Overflow,
            ) && final(self)@ == old(self)@,
    {
        if self.data.len() < self.capacity {
            self.data.push(data);
            Ok(())
        } else {
            Err(StackErr::Overflow)
        }
    }

    /// Clears all values from the stack.
    pub fn clear(&mut self)
        ensures
            final(self).wf(),
            final(self)@ == Seq::<Data>::empty(),
            final(self).spec_capacity() == old(self).spec_capacity(),
    {
        self.data.clear();
    }

    /// Pops the most recently pushed item off the stack; fails with
    /// `Underflow`, leaving the stack as it was, when it is empty.
    pub fn pop(&mut self) -> (r: Result<Data, StackErr>)
        requires
            old(self).wf(),
        ensures
            final(self).wf(),
            final(self).spec_capacity() == old(self).spec_capacity(),
            old(self)@.len() > 0 ==> r == Ok::<Data, StackErr>(old(self)@.last())
                && final(self)@ == old(self)@.drop_last(),
            old(self)@.len() == 0 ==> r == Err::<Data, StackErr>(StackErr::Underflow)
                && final(self)@ == old(self)@,
    {
        match self.data.pop() {
            Some(d) => Ok(d),
            None => Err(StackErr::Underflow),
        }
    }
}

} // verus!
