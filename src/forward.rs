use vstd::prelude::*;

verus! {

/// One end of a splice.
#[derive(PartialEq, Eq, Structural, Debug, Clone, Copy)]
pub enum Side {
    /// The client.
    A,
    /// The target.
    B,
}

/// The other end.
pub open spec fn spec_other(s: Side) -> Side {
    match s {
        Side::A => Side::B,
        Side::B => Side::A,
    }
}

/// What one of the two copies reports. The copy from a side reads from it and writes to the
/// other side.
pub enum CopyEvent {
    /// The copy from this side read bytes (first those already buffered, then the stream's).
    Read(Side),
    /// The copy from this side read end of stream.
    Eof(Side),
    /// The copy from this side failed to read or write.
    Failed(Side),
}

/// What the splice does next.
#[derive(PartialEq, Eq, Structural, Debug, Clone, Copy)]
pub enum CopyAction {
    /// Write what was read to this side, then read on.
    WriteTo(Side),
    /// Shut down the write side of this side; the copy towards it is over. The splice is over
    /// too once `is_finished` says so.
    ShutdownWrite(Side),
    /// Stop both copies: the splice failed.
    Abort,
    /// Nothing to do: the copy that reported is already over.
    Ignore,
}

/// The two copies of a splice: from `a` to `b` and from `b` to `a`.
pub struct Forwarder {
    from_a_open: bool,
    from_b_open: bool,
    failed: bool,
}

impl Forwarder {
    /// True while the copy from side `s` runs.
    pub closed spec fn open(&self, s: Side) -> bool {
        match s {
            Side::A => self.from_a_open,
            Side::B => self.from_b_open,
        }
    }

    /// True once a copy failed.
    pub closed spec fn failed(&self) -> bool {
        self.failed
    }

    pub fn new() -> (r: Self)
        ensures
            r.open(Side::A),
            r.open(Side::B),
            !r.failed(),
    {
        Forwarder { from_a_open: true, from_b_open: true, failed: false }
    }

    pub fn other(s: Side) -> (r: Side)
        ensures
            r == spec_other(s),
    {
        match s {
            Side::A => Side::B,
            Side::B => Side::A,
        }
    }

    /// True once both copies are over.
    pub fn is_finished(&self) -> (r: bool)
        ensures
            r == (!self.open(Side::A) && !self.open(Side::B)),
    {
        !self.from_a_open && !self.from_b_open
    }

    /// True once a copy failed.
    pub fn has_failed(&self) -> (r: bool)
        ensures
            r == self.failed(),
    {
        self.failed
    }

    /// Takes one report of a copy. Bytes read from a side go to the other side; end of stream on
    /// a side half-closes the other side and ends that copy alone; a failure ends both.
    pub fn step(&mut self, event: CopyEvent) -> (r: CopyAction)
        ensures
            match event {
                CopyEvent::Read(s) => if old(self).open(s) {
                    r == CopyAction::WriteTo(spec_other(s)) && *final(self) == *old(self)
                } else {
                    r == CopyAction::Ignore && *final(self) == *old(self)
                },
                CopyEvent::Eof(s) => if old(self).open(s) {
                    &&& r == CopyAction::ShutdownWrite(spec_other(s))
                    &&& !final(self).open(s)
                    &&& final(self).open(spec_other(s)) == old(self).open(spec_other(s))
                    &&& final(self).failed() == old(self).failed()
                } else {
                    r == CopyAction::Ignore && *final(self) == *old(self)
                },
                CopyEvent::Failed(_) => {
                    &&& r == CopyAction::Abort
                    &&& !final(self).open(Side::A)
                    &&& !final(self).open(Side::B)
                    &&& final(self).failed()
                },
            },
    {
        match event {
            CopyEvent::Read(s) => {
                let open = match s {
                    Side::A => self.from_a_open,
                    Side::B => self.from_b_open,
                };
                if open {
                    CopyAction::WriteTo(Self::other(s))
                } else {
                    CopyAction::Ignore
                }
            },
            CopyEvent::Eof(s) => {
                match s {
                    Side::A => {
                        if !self.from_a_open {
                            return CopyAction::Ignore;
                        }
                        self.from_a_open = false;
                    },
                    Side::B => {
                        if !self.from_b_open {
                            return CopyAction::Ignore;
                        }
                        self.from_b_open = false;
                    },
                }
                CopyAction::ShutdownWrite(Self::other(s))
            },
            CopyEvent::Failed(_) => {
                self.from_a_open = false;
                self.from_b_open = false;
                self.failed = true;
                CopyAction::Abort
            },
        }
    }
}

} // verus!
