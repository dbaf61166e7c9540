//! The call stack: the return addresses of the pending calls.

use vstd::prelude::*;

verus! {

/// How many calls can be pending at once.
pub const STACK_LIMIT: usize = 15;

/// A stack of at most `STACK_LIMIT` return addresses.
#[derive(Debug)]
pub struct CallStack {
    /// Slot 0 is never used: the pending calls are in slots 1 to `depth`.
    slots: [u16; 16],
    depth: u8,
}

impl CallStack {
    #[verifier::type_invariant]
    spec fn inv(self) -> bool {
        self.depth <= STACK_LIMIT
    }

    /// The return addresses, the latest call's last.
    pub closed spec fn view(&self) -> Seq<u16> {
        let depth = if self.depth <= STACK_LIMIT {
            self.depth as int
        } else {
            STACK_LIMIT as int
        };
        self.slots@.subrange(1, depth + 1)
    }

    /// No stack holds more than `STACK_LIMIT` addresses.
    pub proof fn lemma_view_len(&self)
        ensures
            self@.len() <= STACK_LIMIT,
    {
    }

    /// A stack with no call pending.
    pub fn new() -> (stack: CallStack)
        ensures
            stack@ == Seq::<u16>::empty(),
    {
        let stack = CallStack { slots: [0u16; 16], depth: 0 };
        assert(stack@ =~= Seq::<u16>::empty());
        stack
    }

    /// How many calls are pending.
    pub fn depth(&self) -> (depth: u8)
        ensures
            depth == self@.len(),
            depth <= STACK_LIMIT,
    {
        proof {
            use_type_invariant(self);
        }
        self.depth
    }

    /// Remembers a return address. With `STACK_LIMIT` calls pending nothing
    /// is stored and the result is `false`.
    pub fn push(&mut self, addr: u16) -> (pushed: bool)
        ensures
            pushed == (old(self)@.len() < STACK_LIMIT),
            pushed ==> final(self)@ == old(self)@.push(addr),
            !pushed ==> final(self)@ == old(self)@,
            final(self)@.len() <= STACK_LIMIT,
    {
        proof {
            use_type_invariant(&*self);
        }
        if self.depth as usize >= STACK_LIMIT {
            return false;
        }
        self.depth = self.depth + 1;
        self.slots[self.depth as usize] = addr;
        assert(self@ =~= old(self)@.push(addr));
        true
    }

    /// Takes the latest return address off the stack, if there is one.
    pub fn pop(&mut self) -> (top: Option<u16>)
        ensures
            match top {
                Some(addr) => old(self)@.len() > 0 && addr == old(self)@.last() && final(self)@
                    == old(self)@.drop_last(),
                None => old(self)@.len() == 0 && final(self)@ == old(self)@,
            },
            final(self)@.len() <= STACK_LIMIT,
    {
        proof {
            use_type_invariant(&*self);
        }
        if self.depth == 0 {
            return None;
        }
        let addr: u16 = self.slots[self.depth as usize];
        self.depth = self.depth - 1;
        assert(self@ =~= old(self)@.drop_last());
        Some(addr)
    }
}

} // verus!
