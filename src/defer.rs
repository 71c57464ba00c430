use vstd::prelude::*;
use crate::doc::DocKind;
use crate::ids::Id;

verus! {

/// A structural mutation held back until the deferred block ends.
pub enum Command<V> {
    Add(u64, Id),
    Remove(u64, Id),
    Assign(u64, Id, V),
    Clear(u64),
    Delete(u64),
    /// Sets a documentation string.
    Document(u64, DocKind, Vec<char>),
}

impl<V> Command<V> {
    pub open spec fn spec_entity(self) -> u64 {
        match self {
            Command::Add(e, _) => e,
            Command::Remove(e, _) => e,
            Command::Assign(e, _, _) => e,
            Command::Clear(e) => e,
            Command::Delete(e) => e,
            Command::Document(e, _, _) => e,
        }
    }
}

/// Nesting state of deferred mutation for one stage.
#[derive(Clone, Copy, Debug, PartialEq, Eq, Structural)]
pub struct DeferState {
    /// Number of open deferred blocks.
    pub depth: u32,
    /// Buffering is bypassed while the block stays open.
    pub suspended: bool,
}

impl DeferState {
    /// Mutations are queued rather than applied.
    pub open spec fn spec_is_deferred(self) -> bool {
        self.depth > 0 && !self.suspended
    }

    pub fn new() -> (r: DeferState)
        ensures
            r.depth == 0,
            !r.suspended,
    {
        DeferState { depth: 0, suspended: false }
    }

    pub fn is_deferred(&self) -> (r: bool)
        ensures
            r == self.spec_is_deferred(),
    {
        self.depth > 0 && !self.suspended
    }

    /// Opens a block; returns whether buffering starts with it.
    pub fn begin(&mut self) -> (r: bool)
        requires
            old(self).depth < u32::MAX,
        ensures
            final(self).depth == old(self).depth + 1,
            final(self).suspended == old(self).suspended,
            r == (old(self).depth == 0),
    {
        let r = self.depth == 0;
        self.depth = self.depth + 1;
        r
    }

    /// Closes a block; returns whether the queue is to be flushed now.
    pub fn end(&mut self) -> (r: bool)
        requires
            old(self).depth > 0,
        ensures
            final(self).depth == old(self).depth - 1,
            final(self).suspended == (old(self).suspended && old(self).depth > 1),
            r == (old(self).depth == 1),
    {
        self.depth = self.depth - 1;
        if self.depth == 0 {
            self.suspended = false;
            true
        } else {
            false
        }
    }

    /// Lets mutations through while the block stays open.
    pub fn suspend(&mut self)
        ensures
            final(self).depth == old(self).depth,
            final(self).suspended,
    {
        self.suspended = true;
    }

    /// Buffers again after a suspension.
    pub fn resume(&mut self)
        ensures
            final(self).depth == old(self).depth,
            !final(self).suspended,
    {
        self.suspended = false;
    }
}

} // verus!
