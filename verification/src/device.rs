//! The walk over the present device interfaces of the xeniface class: which
//! interface is asked for next, and which of them are read.
use vstd::prelude::*;

verus! {

/// What the system answered for the interface at the current position: the
/// list holds no more interfaces, or it holds one whose detail record takes
/// `detail_len` bytes.
#[derive(Clone, Copy, Debug, PartialEq, Eq)]
pub enum Listing {
    End,
    Listed { detail_len: u32 },
}

/// What the walk does next: stop; pass over an interface whose detail record
/// does not fit the buffer; or read the detail record of the interface.
#[derive(Clone, Copy, Debug, PartialEq, Eq)]
pub enum EnumStep {
    Finish,
    Skip,
    Fetch,
}

/// The position of the walk: the index of the interface asked for next.
pub struct InterfaceCursor {
    index: u32,
}

impl InterfaceCursor {
    /// The index of the interface asked for next.
    pub closed spec fn position(self) -> u32 {
        self.index
    }

    /// A walk from the first interface.
    pub fn new() -> (c: Self)
        ensures
            c.position() == 0,
    {
        InterfaceCursor { index: 0 }
    }

    /// The index of the interface asked for next.
    pub fn index(&self) -> (i: u32)
        ensures
            i == self.position(),
    {
        self.index
    }

    /// Decides on the answer for the current interface, given a detail
    /// buffer of `capacity` bytes. The walk stops at the end of the list;
    /// else it moves past the interface, which is read when its detail record
    /// fits the buffer and passed over when it does not.
    pub fn step(&mut self, listing: Listing, capacity: usize) -> (s: EnumStep)
        requires
            listing is Listed ==> old(self).position() < u32::MAX,
        ensures
            match listing {
                Listing::End => s == EnumStep::Finish && final(self).position() == old(
                    self,
                ).position(),
                Listing::Listed { detail_len } => {
                    &&& final(self).position() == old(self).position() + 1
                    &&& s == (if (detail_len as int) > capacity {
                        EnumStep::Skip
                    } else {
                        EnumStep::Fetch
                    })
                },
            },
    {
        match listing {
            Listing::End => EnumStep::Finish,
            Listing::Listed { detail_len } => {
                self.index = self.index + 1;
                if (detail_len as usize) > capacity {
                    EnumStep::Skip
                } else {
                    EnumStep::Fetch
                }
            },
        }
    }
}

} // verus!
