use vstd::prelude::*;

use crate::MAX_PAYLOAD;

verus! {

/// The ASCII message `ready` that status storage holds after startup.
pub open spec fn ready_message() -> Seq<u8> {
    seq![0x72u8, 0x65u8, 0x61u8, 0x64u8, 0x79u8]
}

/// A fixed-capacity, single-entry status queue.
#[derive(Clone, Copy, Debug, Eq, PartialEq)]
pub struct StatusQueue {
    newest: [u8; MAX_PAYLOAD],
    newest_len: u8,
}

impl View for StatusQueue {
    type V = Seq<u8>;

    /// The newest message, empty when none is stored.
    closed spec fn view(&self) -> Seq<u8> {
        self.newest@.take(self.newest_len as int)
    }
}

impl StatusQueue {
    /// The stored message fits a response payload.
    pub open spec fn wf(&self) -> bool {
        &&& self.holds_message()
        &&& self@.len() <= MAX_PAYLOAD
    }

    /// The stored length is within the message buffer.
    pub closed spec fn holds_message(&self) -> bool {
        self.newest_len as int <= MAX_PAYLOAD
    }

    /// Status storage holding the startup message `ready`.
    pub fn ready() -> (r: Self)
        ensures
            r.wf(),
            r@ == ready_message(),
    {
        let r = Self {
            newest: [
                0x72, 0x65, 0x61, 0x64, 0x79, 0, 0, 0, 0, 0, 0, 0, 0, 0, 0, 0,
            ],
            newest_len: 5,
        };
        assert(r@ =~= ready_message());
        r
    }

    /// Removes and returns the newest message; empty when none is stored.
    pub fn pop(&mut self) -> (r: &[u8])
        requires
            old(self).wf(),
        ensures
            final(self).wf(),
            r@ == old(self)@,
            r@.len() <= MAX_PAYLOAD,
            final(self)@ == Seq::<u8>::empty(),
    {
        let length = self.newest_len as usize;
        self.newest_len = 0;
        assert(self@ =~= Seq::<u8>::empty());
        vstd::slice::slice_subrange(self.newest.as_slice(), 0, length)
    }
}

} // verus!
