//! Session transfer slots are released by consumers, never by queue forwarding.

use vstd::prelude::*;

verus! {

/// How many transfers of a session may wait for their consumers, and how many do.
#[derive(Debug)]
pub struct ReceiveWindow {
    maximum: u32,
    held: u32,
    released: u32,
}

/// The place of one transfer in a receive window. It is to be released on the window that it was
/// taken from, once the transfer was consumed.
#[derive(Debug)]
pub struct Slot {
    taken: (),
}

/// A receive window as it is spoken of.
pub struct WindowView {
    /// How many slots there are.
    pub maximum: u32,
    /// How many slots are taken.
    pub held: u32,
    /// How many slots were released and not yet reported. It wraps.
    pub released: u32,
}

/// The number that follows another. Numbers wrap.
pub open spec fn wrapping_next(number: u32) -> u32 {
    if number == u32::MAX {
        0
    } else {
        (number + 1) as u32
    }
}

impl View for ReceiveWindow {
    type V = WindowView;

    closed spec fn view(&self) -> WindowView {
        WindowView { maximum: self.maximum, held: self.held, released: self.released }
    }
}

impl ReceiveWindow {
    #[verifier::type_invariant]
    spec fn bounded(self) -> bool {
        self.held <= self.maximum
    }

    /// A window of which no slot is taken.
    pub fn new(maximum: u32) -> (window: Self)
        ensures
            window@ == (WindowView { maximum, held: 0, released: 0 }),
    {
        ReceiveWindow { maximum, held: 0, released: 0 }
    }

    /// How many slots there are.
    pub fn maximum(&self) -> (maximum: u32)
        ensures
            maximum == self@.maximum,
    {
        self.maximum
    }

    /// How many slots are free.
    pub fn available(&self) -> (available: u32)
        ensures
            self@.held <= self@.maximum,
            available == self@.maximum - self@.held,
    {
        proof {
            use_type_invariant(self);
        }
        self.maximum - self.held
    }

    /// How many slots were released since this was last asked.
    pub fn take_released(&mut self) -> (released: u32)
        ensures
            released == old(self)@.released,
            final(self)@ == (WindowView { released: 0, ..old(self)@ }),
    {
        proof {
            use_type_invariant(&*self);
        }
        let released = self.released;
        self.released = 0;
        released
    }

    /// Takes a slot, where one is free.
    pub fn reserve(&mut self) -> (slot: Option<Slot>)
        ensures
            match slot {
                Some(_) => {
                    &&& old(self)@.held < old(self)@.maximum
                    &&& final(self)@ == (WindowView {
                        held: (old(self)@.held + 1) as u32,
                        ..old(self)@
                    })
                },
                None => old(self)@.held == old(self)@.maximum && final(self)@ == old(self)@,
            },
    {
        proof {
            use_type_invariant(&*self);
        }
        if self.held >= self.maximum {
            None
        } else {
            self.held = self.held + 1;
            Some(Slot { taken: () })
        }
    }

    /// Gives a slot back, once its transfer was consumed.
    pub fn release(&mut self, slot: Slot)
        requires
            old(self)@.held > 0,
        ensures
            final(self)@ == (WindowView {
                held: (old(self)@.held - 1) as u32,
                released: wrapping_next(old(self)@.released),
                ..old(self)@
            }),
    {
        proof {
            use_type_invariant(&*self);
        }
        self.held = self.held - 1;
        self.released = self.released.wrapping_add(1);
    }
}

/// Released slots are counted one by one, and the count wraps.
pub proof fn law_releases_are_counted(number: u32)
    ensures
        wrapping_next(number) == (number + 1) % 0x1_0000_0000,
{
}

} // verus!
