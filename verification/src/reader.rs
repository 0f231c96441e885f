//! A cursor over the bytes that a peer has sent.
//!
//! Decoding is best effort: a read that cannot be served hands out nothing and
//! leaves a mark on the reader, and the decoders built on it then fall back to
//! a zero value. Whoever drives a connection looks at the marks after each
//! packet and gives the connection up where one is set.
use vstd::prelude::*;

verus! {

/// What a [`Reader`] stands for: the bytes not yet consumed, and what has gone
/// wrong since it was made.
#[verifier::ext_equal]
pub struct Input {
    /// The bytes that are still to be read, next one first.
    pub bytes: Seq<u8>,
    /// A read asked for more bytes than were left.
    pub truncated: bool,
    /// A decoder refused what it read.
    pub malformed: bool,
}

impl Input {
    /// Fresh input: `bytes`, with no mark set.
    pub open spec fn new(bytes: Seq<u8>) -> Input {
        Input { bytes, truncated: false, malformed: false }
    }

    /// Neither mark is set.
    pub open spec fn intact(self) -> bool {
        !self.truncated && !self.malformed
    }

    /// The next byte, if there is one.
    pub open spec fn first(self) -> Option<u8> {
        if self.bytes.len() > 0 {
            Some(self.bytes[0])
        } else {
            None
        }
    }

    /// The same input with `n` bytes dropped from its front.
    pub open spec fn advance(self, n: nat) -> Input {
        Input { bytes: self.bytes.skip(n as int), ..self }
    }

    /// The same input, marked as malformed.
    pub open spec fn reject(self) -> Input {
        Input { malformed: true, ..self }
    }

    /// The input after a read that fell short: nothing is left, and the
    /// truncation mark is set.
    pub open spec fn drain(self) -> Input {
        Input { bytes: Seq::empty(), truncated: true, malformed: self.malformed }
    }

    /// A read of exactly `n` bytes: the bytes and the input behind them, or,
    /// where fewer than `n` are left, nothing and the drained input.
    pub open spec fn take(self, n: nat) -> (Option<Seq<u8>>, Input) {
        if n <= self.bytes.len() {
            (Some(self.bytes.take(n as int)), self.advance(n))
        } else {
            (None, self.drain())
        }
    }
}

/// A cursor over received bytes.
pub struct Reader {
    data: Vec<u8>,
    pos: usize,
    truncated: bool,
    malformed: bool,
}

impl View for Reader {
    type V = Input;

    closed spec fn view(&self) -> Input {
        Input {
            bytes: self.data@.skip(self.pos as int),
            truncated: self.truncated,
            malformed: self.malformed,
        }
    }
}

impl Reader {
    #[verifier::type_invariant]
    spec fn in_bounds(&self) -> bool {
        self.pos <= self.data.len()
    }

    /// A reader at the start of `data`.
    pub fn new(data: Vec<u8>) -> (reader: Reader)
        ensures
            reader@ == Input::new(data@),
    {
        assert(data@.skip(0) == data@);
        Reader { data, pos: 0, truncated: false, malformed: false }
    }

    /// The number of bytes that are still to be read.
    pub fn remaining(&self) -> (n: usize)
        ensures
            n == self@.bytes.len(),
    {
        proof {
            use_type_invariant(self);
        }
        self.data.len() - self.pos
    }

    /// Whether a read has asked for more bytes than were left.
    pub fn is_truncated(&self) -> (b: bool)
        ensures
            b == self@.truncated,
    {
        self.truncated
    }

    /// Whether a decoder has refused what it read.
    pub fn is_malformed(&self) -> (b: bool)
        ensures
            b == self@.malformed,
    {
        self.malformed
    }

    /// Whether everything read so far was there and was accepted.
    pub fn is_intact(&self) -> (b: bool)
        ensures
            b == self@.intact(),
    {
        !self.truncated && !self.malformed
    }

    /// The next byte, without consuming it.
    pub fn peek(&self) -> (byte: Option<u8>)
        ensures
            byte == self@.first(),
    {
        proof {
            use_type_invariant(self);
        }
        if self.pos < self.data.len() {
            Some(self.data[self.pos])
        } else {
            None
        }
    }

    /// Marks the input as malformed. The position does not move.
    pub fn reject(&mut self)
        ensures
            final(self)@ == old(self)@.reject(),
    {
        proof {
            use_type_invariant(&*self);
        }
        self.malformed = true;
    }

    /// Reads exactly `n` bytes. Where fewer are left, all of them are consumed,
    /// the truncation mark is set and nothing is returned.
    pub fn read_exact(&mut self, n: usize) -> (out: Option<Vec<u8>>)
        ensures
            match out {
                Some(bytes) => old(self)@.take(n as nat) == (Some(bytes@), final(self)@),
                None => old(self)@.take(n as nat) == (None::<Seq<u8>>, final(self)@),
            },
    {
        proof {
            use_type_invariant(&*self);
        }
        let len = self.data.len();
        if n <= len - self.pos {
            let end = self.pos + n;
            let bytes = vstd::slice::slice_to_vec(&self.data[self.pos..end]);
            assert(bytes@ == self@.bytes.take(n as int));
            assert(self.data@.skip(end as int) == self@.bytes.skip(n as int));
            self.pos = end;
            Some(bytes)
        } else {
            assert(self.data@.skip(len as int) == Seq::<u8>::empty());
            self.pos = len;
            self.truncated = true;
            None
        }
    }

    /// Reads one byte, on the terms of [`Reader::read_exact`].
    pub fn read_byte(&mut self) -> (out: Option<u8>)
        ensures
            match out {
                Some(byte) => {
                    &&& old(self)@.first() == Some(byte)
                    &&& final(self)@ == old(self)@.advance(1)
                },
                None => {
                    &&& old(self)@.first() == None::<u8>
                    &&& final(self)@ == old(self)@.drain()
                },
            },
    {
        proof {
            use_type_invariant(&*self);
        }
        if self.pos < self.data.len() {
            let byte = self.data[self.pos];
            assert(self.data@.skip(self.pos + 1) == self@.bytes.skip(1));
            self.pos = self.pos + 1;
            Some(byte)
        } else {
            assert(self.data@.skip(self.pos as int) == Seq::<u8>::empty());
            self.truncated = true;
            None
        }
    }
}

} // verus!
