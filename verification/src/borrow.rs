//! Run-time arbitration of the borrows of one store that several handles on
//! one thread may read and write: any number of readers, or one writer.
//!
//! The arbiter only keeps count. A buffer asks it before it hands out a
//! reference and tells it when the reference is given up; a request that
//! conflicts with an outstanding borrow is refused, never queued.
use vstd::prelude::*;

verus! {

/// The borrows that are outstanding.
pub struct Borrows {
    pub readers: nat,
    pub writing: bool,
}

impl Borrows {
    /// No borrow is outstanding.
    pub open spec fn idle() -> Borrows {
        Borrows { readers: 0, writing: false }
    }

    /// Readers and a writer never hold the store together.
    pub open spec fn wf(self) -> bool {
        !(self.writing && self.readers > 0)
    }

    pub open spec fn admits_reader(self) -> bool {
        !self.writing
    }

    pub open spec fn admits_writer(self) -> bool {
        !self.writing && self.readers == 0
    }

    pub open spec fn with_reader(self) -> Borrows {
        Borrows { readers: self.readers + 1, ..self }
    }

    pub open spec fn without_reader(self) -> Borrows
        recommends
            self.readers > 0,
    {
        Borrows { readers: (self.readers - 1) as nat, ..self }
    }

    pub open spec fn with_writer(self) -> Borrows {
        Borrows { writing: true, ..self }
    }

    pub open spec fn without_writer(self) -> Borrows {
        Borrows { writing: false, ..self }
    }
}

/// Counts the borrows of one store and decides on each new one.
#[derive(Clone, Copy, Debug)]
pub struct BorrowArbiter {
    readers: usize,
    writer: bool,
}

impl View for BorrowArbiter {
    type V = Borrows;

    closed spec fn view(&self) -> Borrows {
        Borrows { readers: self.readers as nat, writing: self.writer }
    }
}

impl BorrowArbiter {
    #[verifier::type_invariant]
    spec fn wf(&self) -> bool {
        !(self.writer && self.readers > 0)
    }

    pub fn new() -> (arbiter: BorrowArbiter)
        ensures
            arbiter@ == Borrows::idle(),
    {
        BorrowArbiter { readers: 0, writer: false }
    }

    /// Asks for a read borrow. Refused while a writer holds the store, and
    /// where one more reader could not be counted.
    pub fn try_borrow(&mut self) -> (granted: bool)
        ensures
            final(self)@.wf(),
            granted <==> old(self)@.admits_reader() && old(self)@.readers < usize::MAX,
            granted ==> final(self)@ == old(self)@.with_reader(),
            !granted ==> final(self)@ == old(self)@,
    {
        proof {
            use_type_invariant(&*self);
        }
        if self.writer || self.readers == usize::MAX {
            false
        } else {
            self.readers = self.readers + 1;
            true
        }
    }

    /// Asks for the write borrow. Refused while any borrow is outstanding.
    pub fn try_borrow_mut(&mut self) -> (granted: bool)
        ensures
            final(self)@.wf(),
            granted <==> old(self)@.admits_writer(),
            granted ==> final(self)@ == old(self)@.with_writer(),
            !granted ==> final(self)@ == old(self)@,
    {
        proof {
            use_type_invariant(&*self);
        }
        if self.writer || self.readers > 0 {
            false
        } else {
            self.writer = true;
            true
        }
    }

    /// Gives up one read borrow, if there is one to give up.
    pub fn release(&mut self) -> (released: bool)
        ensures
            final(self)@.wf(),
            released <==> old(self)@.readers > 0,
            released ==> final(self)@ == old(self)@.without_reader(),
            !released ==> final(self)@ == old(self)@,
    {
        proof {
            use_type_invariant(&*self);
        }
        if self.readers > 0 {
            self.readers = self.readers - 1;
            true
        } else {
            false
        }
    }

    /// Gives up the write borrow, if it is held.
    pub fn release_mut(&mut self) -> (released: bool)
        ensures
            final(self)@.wf(),
            released <==> old(self)@.writing,
            released ==> final(self)@ == old(self)@.without_writer(),
            !released ==> final(self)@ == old(self)@,
    {
        proof {
            use_type_invariant(&*self);
        }
        if self.writer {
            self.writer = false;
            true
        } else {
            false
        }
    }
}

/// While a read borrow is held, a write borrow is refused. Once no borrow
/// is held, the write borrow is granted, giving it up leaves no borrow held
/// again, and a read borrow is then granted.
pub proof fn lemma_aliasing_detected(held: Borrows)
    requires
        held.wf(),
    ensures
        held.readers > 0 ==> !held.admits_writer(),
        held.readers == 0 && !held.writing ==> {
            &&& held.admits_writer()
            &&& held.with_writer().without_writer() == held
            &&& held.with_writer().without_writer().admits_reader()
        },
{
}

} // verus!
