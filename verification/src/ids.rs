//! Numeric identifiers used throughout the system, and the allocator that
//! issues connection identifiers.

use vstd::prelude::*;

verus! {

/// Opaque numeric identity of a registered account, assigned at registration.
#[derive(Debug, Clone, Copy, PartialEq, Eq, Structural, Hash)]
pub struct UserId(pub u32);

/// Opaque numeric identity of a chat group.
#[derive(Debug, Clone, Copy, PartialEq, Eq, Structural, Hash)]
pub struct GroupId(pub u32);

/// Identity of one persisted direct message.
#[derive(Debug, Clone, Copy, PartialEq, Eq, Structural, Hash)]
pub struct UserMessageId(pub u64);

/// Identity of one persisted group message.
#[derive(Debug, Clone, Copy, PartialEq, Eq, Structural, Hash)]
pub struct GroupMessageId(pub u64);

/// Opaque numeric identity of one live stream; unique for the process
/// lifetime, never reused.
#[derive(Debug, Clone, Copy, PartialEq, Eq, Structural, Hash)]
pub struct ConnectionId(pub u64);

/// Issues unique, monotonically increasing connection identifiers.
pub struct ConnectionIdAllocator {
    inner: u64,
}

impl ConnectionIdAllocator {
    /// The next identifier this allocator will hand out.
    pub closed spec fn next(&self) -> u64 {
        self.inner
    }

    pub fn new() -> (r: ConnectionIdAllocator)
        ensures
            r.next() == 0,
    {
        ConnectionIdAllocator { inner: 0 }
    }

    /// Whether the allocator can still hand out an identifier.
    pub fn has_next(&self) -> (r: bool)
        ensures
            r == (self.next() < u64::MAX),
    {
        self.inner < u64::MAX
    }

    /// Hand out the next identifier and advance the counter.
    pub fn get(&mut self) -> (r: ConnectionId)
        requires
            old(self).next() < u64::MAX,
        ensures
            r.0 == old(self).next(),
            final(self).next() == old(self).next() + 1,
    {
        let res = ConnectionId(self.inner);
        self.inner = self.inner + 1;
        res
    }
}

} // verus!
