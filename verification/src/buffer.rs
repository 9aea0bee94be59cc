//! A sequential byte sink with a write cursor, usable in a measure-only mode
//! in which no bytes are stored but the cursor still advances. The two modes
//! share one view: the sequence of bytes accepted so far.

use vstd::prelude::*;

verus! {

/// The one way an encode call can fail: the byte sink refused a write because
/// its capacity would have been exceeded. The encoder itself never fails on
/// well-formed input; it only propagates this outcome.
#[derive(Clone, Copy, Debug, PartialEq, Eq, Structural)]
pub enum EncodeError {
    CapacityExceeded,
}

/// A growable byte sink with a write cursor.
///
/// In writing mode the sink keeps every accepted byte in an internal store.
/// In measure-only mode nothing is stored and every write is a no-op that
/// still advances the cursor, so the same traversal that fills a buffer can
/// also compute the exact length it would need. The view `self@` is the
/// sequence of bytes accepted so far in either mode.
pub struct Buffer {
    /// The byte store; absent in measure-only mode.
    store: Option<Vec<u8>>,
    /// The write cursor: how many bytes have been accepted.
    count: usize,
    /// Writes that would push the cursor past this bound are refused.
    limit: usize,
    /// Every byte accepted so far, in order, in both modes.
    accepted: Ghost<Seq<u8>>,
}

impl View for Buffer {
    type V = Seq<u8>;

    closed spec fn view(&self) -> Seq<u8> {
        self.accepted@
    }
}

impl Buffer {
    /// The cursor, the store and the ghost history agree.
    pub closed spec fn well_formed(&self) -> bool {
        &&& self.count == self.accepted@.len()
        &&& self.count <= self.limit
        &&& match self.store {
            Some(v) => v@ == self.accepted@,
            None => true,
        }
    }

    /// True when the sink keeps the bytes it accepts; false in measure-only
    /// mode.
    pub closed spec fn is_writing(&self) -> bool {
        self.store is Some
    }

    /// The cursor bound past which writes are refused.
    pub closed spec fn capacity(&self) -> usize {
        self.limit
    }

    /// A well-formed buffer never holds more bytes than its capacity; in
    /// particular the byte count always fits the cursor.
    pub broadcast proof fn lemma_len_within_capacity(&self)
        requires
            #[trigger] self.well_formed(),
        ensures
            self@.len() <= self.capacity() <= usize::MAX,
    {
    }

    /// A fresh writing buffer with no practical capacity bound.
    pub fn new() -> (r: Buffer)
        ensures
            r.well_formed(),
            r.is_writing(),
            r.capacity() == usize::MAX,
            r@ == Seq::<u8>::empty(),
    {
        Buffer { store: Some(Vec::new()), count: 0, limit: usize::MAX, accepted: Ghost(Seq::empty()) }
    }

    /// A fresh writing buffer that refuses to grow past `limit` bytes.
    pub fn with_capacity_limit(limit: usize) -> (r: Buffer)
        ensures
            r.well_formed(),
            r.is_writing(),
            r.capacity() == limit,
            r@ == Seq::<u8>::empty(),
    {
        Buffer { store: Some(Vec::new()), count: 0, limit, accepted: Ghost(Seq::empty()) }
    }

    /// A fresh measure-only buffer: it stores nothing and counts everything.
    pub fn measuring() -> (r: Buffer)
        ensures
            r.well_formed(),
            !r.is_writing(),
            r.capacity() == usize::MAX,
            r@ == Seq::<u8>::empty(),
    {
        Buffer { store: None, count: 0, limit: usize::MAX, accepted: Ghost(Seq::empty()) }
    }

    /// The current length: how many bytes have been accepted.
    pub fn len(&self) -> (r: usize)
        requires
            self.well_formed(),
        ensures
            r == self@.len(),
    {
        self.count
    }

    /// Accept one byte.
    pub fn write_u8(&mut self, b: u8) -> (r: Result<(), EncodeError>)
        requires
            old(self).well_formed(),
        ensures
            final(self).well_formed(),
            final(self).is_writing() == old(self).is_writing(),
            final(self).capacity() == old(self).capacity(),
            match r {
                Ok(_) => final(self)@ == old(self)@.push(b),
                Err(e) => {
                    &&& final(self)@ == old(self)@
                    &&& old(self)@.len() + 1 > old(self).capacity()
                    &&& e == EncodeError::CapacityExceeded
                },
            },
    {
        if self.count >= self.limit {
            return Err(EncodeError::CapacityExceeded);
        }
        match &mut self.store {
            Some(v) => v.push(b),
            None => {}
        }
        self.count = self.count + 1;
        self.accepted = Ghost(self.accepted@.push(b));
        Ok(())
    }

    /// Accept a raw byte sequence, in order.
    pub fn write_bytes(&mut self, bytes: &[u8]) -> (r: Result<(), EncodeError>)
        requires
            old(self).well_formed(),
        ensures
            final(self).well_formed(),
            final(self).is_writing() == old(self).is_writing(),
            final(self).capacity() == old(self).capacity(),
            match r {
                Ok(_) => final(self)@ == old(self)@ + bytes@,
                Err(e) => {
                    &&& final(self)@ == old(self)@
                    &&& old(self)@.len() + bytes@.len() > old(self).capacity()
                    &&& e == EncodeError::CapacityExceeded
                },
            },
    {
        if self.limit - self.count < bytes.len() {
            return Err(EncodeError::CapacityExceeded);
        }
        match &mut self.store {
            Some(v) => {
                let ghost pre = v@;
                let mut i: usize = 0;
                while i < bytes.len()
                    invariant
                        i <= bytes@.len(),
                        v@ == pre + bytes@.subrange(0, i as int),
                    decreases bytes@.len() - i,
                {
                    v.push(bytes[i]);
                    i = i + 1;
                }
                proof {
                    assert(v@ =~= pre + bytes@);
                }
            }
            None => {}
        }
        self.count = self.count + bytes.len();
        self.accepted = Ghost(self.accepted@ + bytes@);
        Ok(())
    }

    /// The bytes written so far, as a slice of the store.
    pub fn written_bytes(&self) -> (r: &[u8])
        requires
            self.well_formed(),
            self.is_writing(),
        ensures
            r@ == self@,
    {
        match &self.store {
            Some(v) => v.as_slice(),
            None => vstd::pervasive::unreached(),
        }
    }
}

} // verus!
