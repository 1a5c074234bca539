//! A read position in a byte string.
use crate::protocol::ProtocolError;
use vstd::prelude::*;
use vstd::slice::slice_subrange;

verus! {

/// Bytes being read and how many have been read.
pub struct Cur<'a> {
    data: &'a [u8],
    pos: usize,
}

impl<'a> Cur<'a> {
    /// The bytes.
    pub closed spec fn data(&self) -> Seq<u8> {
        self.data@
    }

    /// How many bytes have been read.
    pub closed spec fn pos(&self) -> int {
        self.pos as int
    }

    /// The read position lies within the bytes.
    pub closed spec fn wf(&self) -> bool {
        self.pos <= self.data@.len()
    }

    pub fn new(data: &'a [u8]) -> (r: Cur<'a>)
        ensures
            r.wf(),
            r.data() == data@,
            r.pos() == 0,
    {
        Cur { data, pos: 0 }
    }

    /// The next byte, left unread.
    pub fn peek(&self) -> (r: Result<u8, ProtocolError>)
        requires
            self.wf(),
        ensures
            self.pos() < self.data().len() ==> r == Ok::<u8, ProtocolError>(self.data()[self.pos()]),
            self.pos() >= self.data().len() ==> r == Err::<u8, ProtocolError>(
                ProtocolError::UnexpectedEndOfInput,
            ),
    {
        if self.pos < self.data.len() {
            Ok(self.data[self.pos])
        } else {
            Err(ProtocolError::UnexpectedEndOfInput)
        }
    }

    /// The next `n` bytes, left unread.
    pub fn peek_n(&self, n: usize) -> (r: Result<&'a [u8], ProtocolError>)
        requires
            self.wf(),
        ensures
            match r {
                Ok(s) => self.pos() + n <= self.data().len() && s@ == self.data().subrange(
                    self.pos(),
                    self.pos() + n,
                ),
                Err(e) => self.pos() + n > self.data().len() && e
                    == ProtocolError::UnexpectedEndOfInput,
            },
    {
        if n <= self.data.len() - self.pos {
            Ok(slice_subrange(self.data, self.pos, self.pos + n))
        } else {
            Err(ProtocolError::UnexpectedEndOfInput)
        }
    }

    /// Reads one byte.
    pub fn next(&mut self) -> (r: Result<u8, ProtocolError>)
        requires
            old(self).wf(),
        ensures
            final(self).wf(),
            final(self).data() == old(self).data(),
            match r {
                Ok(b) => old(self).pos() < old(self).data().len() && b == old(self).data()[old(
                    self,
                ).pos()] && final(self).pos() == old(self).pos() + 1,
                Err(e) => old(self).pos() >= old(self).data().len() && e
                    == ProtocolError::UnexpectedEndOfInput && final(self).pos() == old(self).pos(),
            },
    {
        if self.pos < self.data.len() {
            let b = self.data[self.pos];
            self.pos = self.pos + 1;
            Ok(b)
        } else {
            Err(ProtocolError::UnexpectedEndOfInput)
        }
    }

    /// Reads `n` bytes.
    pub fn next_n(&mut self, n: usize) -> (r: Result<&'a [u8], ProtocolError>)
        requires
            old(self).wf(),
        ensures
            final(self).wf(),
            final(self).data() == old(self).data(),
            match r {
                Ok(s) => old(self).pos() + n <= old(self).data().len() && s@ == old(
                    self,
                ).data().subrange(old(self).pos(), old(self).pos() + n) && final(self).pos() == old(
                    self,
                ).pos() + n,
                Err(e) => old(self).pos() + n > old(self).data().len() && e
                    == ProtocolError::UnexpectedEndOfInput && final(self).pos() == old(self).pos(),
            },
    {
        if n <= self.data.len() - self.pos {
            let s = slice_subrange(self.data, self.pos, self.pos + n);
            self.pos = self.pos + n;
            Ok(s)
        } else {
            Err(ProtocolError::UnexpectedEndOfInput)
        }
    }

    /// All bytes not yet read.
    pub fn rest(self) -> (r: &'a [u8])
        requires
            self.wf(),
        ensures
            r@ == self.data().subrange(self.pos(), self.data().len() as int),
    {
        slice_subrange(self.data, self.pos, self.data.len())
    }

    /// The field that the next byte announces the length of, left unread.
    pub fn var_peek(&self) -> (r: Result<&'a [u8], ProtocolError>)
        requires
            self.wf(),
        ensures
            match r {
                Ok(s) => self.pos() < self.data().len() && self.pos() + 1 + self.data()[self.pos()]
                    <= self.data().len() && s@ == self.data().subrange(
                    self.pos() + 1,
                    self.pos() + 1 + self.data()[self.pos()],
                ),
                Err(e) => e == ProtocolError::UnexpectedEndOfInput && (self.pos()
                    >= self.data().len() || self.pos() + 1 + self.data()[self.pos()]
                    > self.data().len()),
            },
    {
        if self.pos >= self.data.len() {
            return Err(ProtocolError::UnexpectedEndOfInput);
        }
        let len = self.data[self.pos] as usize;
        if len < self.data.len() - self.pos {
            Ok(slice_subrange(self.data, self.pos + 1, self.pos + 1 + len))
        } else {
            Err(ProtocolError::UnexpectedEndOfInput)
        }
    }

    /// Reads a field whose length the next byte announces.
    pub fn var_next(&mut self) -> (r: Result<&'a [u8], ProtocolError>)
        requires
            old(self).wf(),
        ensures
            final(self).wf(),
            final(self).data() == old(self).data(),
            match r {
                Ok(s) => old(self).pos() < old(self).data().len() && old(self).pos() + 1 + old(
                    self,
                ).data()[old(self).pos()] <= old(self).data().len() && s@ == old(
                    self,
                ).data().subrange(
                    old(self).pos() + 1,
                    old(self).pos() + 1 + old(self).data()[old(self).pos()],
                ) && final(self).pos() == old(self).pos() + 1 + s@.len(),
                Err(e) => e == ProtocolError::UnexpectedEndOfInput && (old(self).pos() >= old(
                    self,
                ).data().len() || old(self).pos() + 1 + old(self).data()[old(self).pos()] > old(
                    self,
                ).data().len()) && final(self).pos() == old(self).pos(),
            },
    {
        if self.pos >= self.data.len() {
            return Err(ProtocolError::UnexpectedEndOfInput);
        }
        let len = self.data[self.pos] as usize;
        if len < self.data.len() - self.pos {
            let s = slice_subrange(self.data, self.pos + 1, self.pos + 1 + len);
            self.pos = self.pos + 1 + len;
            Ok(s)
        } else {
            Err(ProtocolError::UnexpectedEndOfInput)
        }
    }
}

} // verus!
