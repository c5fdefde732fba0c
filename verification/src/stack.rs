use vstd::prelude::*;

use crate::value::Value;

verus! {

/// The fixed capacity of the execution stack.
pub const STACK_SIZE: usize = 150;

/// The execution stack: a bounded last-in/first-out buffer of runtime
/// values. Pushing at capacity and popping when empty are excluded by
/// precondition; the virtual machine checks both and reports a runtime
/// error instead of faulting.
pub struct Stack {
    pub values: Vec<Value>,
}

impl View for Stack {
    type V = Seq<Value>;

    open spec fn view(&self) -> Seq<Value> {
        self.values@
    }
}

impl Stack {
    pub open spec fn wf(&self) -> bool {
        self@.len() <= STACK_SIZE
    }

    pub fn new() -> (s: Self)
        ensures
            s@ == Seq::<Value>::empty(),
            s.wf(),
    {
        Stack { values: Vec::new() }
    }

    pub fn push(&mut self, value: Value)
        requires
            old(self)@.len() < STACK_SIZE,
        ensures
            final(self)@ == old(self)@.push(value),
            final(self).wf(),
    {
        self.values.push(value);
    }

    pub fn pop(&mut self) -> (v: Value)
        requires
            old(self)@.len() > 0,
        ensures
            v == old(self)@.last(),
            final(self)@ == old(self)@.drop_last(),
    {
        let v = self.values.pop().unwrap();
        proof {
            assert(self@ =~= old(self)@.drop_last());
        }
        v
    }
}

} // verus!
