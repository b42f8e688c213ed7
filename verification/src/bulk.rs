//! The length-bounded reader: hands out exactly the declared number of
//! payload bytes of a bulk string, then consumes and validates the CRLF
//! terminator that must follow. Every byte value is legal payload,
//! carriage returns and line feeds included.

use vstd::prelude::*;

use crate::source::ByteSource;
use crate::value::DecodeError;

verus! {

/// What reading a bulk payload of declared length `n` from `s` at `pos`
/// yields: exactly `n` verbatim bytes, which must be followed by a
/// carriage return and a line feed; the terminator is consumed but not
/// handed out. A source that ends before the payload and terminator are
/// complete is an end-of-stream error and leaves the cursor at the end.
pub open spec fn spec_bulk(s: Seq<u8>, pos: int, n: int) -> (Result<Seq<u8>, DecodeError>, int) {
    if 0 <= pos && 0 <= n && pos + n + 2 <= s.len() {
        if s[pos + n] == 13u8 && s[pos + n + 1] == 10u8 {
            (Ok(s.subrange(pos, pos + n)), pos + n + 2)
        } else {
            (Err(DecodeError::MalformedLengthTerminator), pos + n + 2)
        }
    } else {
        (Err(DecodeError::UnexpectedEndOfStream), s.len() as int)
    }
}

/// A successfully decoded bulk payload holds exactly as many bytes as
/// its declared length said.
pub proof fn lemma_bulk_length(s: Seq<u8>, pos: int, n: int)
    ensures
        ({
            let (r, q) = spec_bulk(s, pos, n);
            r is Ok ==> r->Ok_0.len() == n
        }),
{
}

/// Emits exactly `length` payload bytes from a byte source, counting its
/// position as it goes, then consumes the two terminator bytes; once the
/// terminator has been seen, every later read returns no bytes. A
/// single-use adapter for one bulk-string frame.
pub struct LengthBoundedReader {
    length: u64,
    position: u64,
    terminated: bool,
}

impl LengthBoundedReader {
    /// The declared payload length.
    pub closed spec fn length(&self) -> int {
        self.length as int
    }

    /// How many payload bytes have been emitted so far.
    pub closed spec fn emitted(&self) -> int {
        self.position as int
    }

    /// Whether the payload and its terminator have been fully consumed.
    pub closed spec fn is_terminated(&self) -> bool {
        self.terminated
    }

    /// Never more bytes emitted than declared.
    #[verifier::type_invariant]
    pub open spec fn wf(&self) -> bool {
        0 <= self.emitted() <= self.length()
    }

    /// A fresh reader for a payload of `length` bytes starting at the
    /// source's cursor. The null sentinel (a negative declared length)
    /// is the caller's to check: a reader always has an actual payload
    /// length.
    pub fn new(length: u64) -> (r: Self)
        ensures
            r.length() == length,
            r.emitted() == 0,
            !r.is_terminated(),
    {
        LengthBoundedReader { length, position: 0, terminated: false }
    }

    /// Whether this reader has consumed its whole payload and the
    /// terminator after it.
    pub fn done(&self) -> (r: bool)
        ensures
            r == self.is_terminated(),
    {
        self.terminated
    }

    /// Emit up to `want` payload bytes into a fresh buffer, verbatim from
    /// the source. The read that completes the payload also consumes the
    /// two terminator bytes and requires them to be a carriage return
    /// then a line feed; after that, every later read returns an empty
    /// buffer without touching the source.
    #[verifier::loop_isolation(false)]
    pub fn read(&mut self, src: &mut ByteSource, want: usize) -> (r: Result<Vec<u8>, DecodeError>)
        ensures
            final(src).bytes() == old(src).bytes(),
            final(self).length() == old(self).length(),
            old(self).is_terminated() ==> {
                &&& *final(self) == *old(self)
                &&& final(src).position() == old(src).position()
                &&& match r {
                    Ok(c) => c@ == Seq::<u8>::empty(),
                    Err(_) => false,
                }
            },
            !old(self).is_terminated() ==> ({
                let s = old(src).bytes();
                let p = old(src).position();
                let q0 = old(self).emitted();
                let n = old(self).length();
                let k = if want as int <= n - q0 {
                    want as int
                } else {
                    n - q0
                };
                if p + k > s.len() {
                    &&& r == Err::<Vec<u8>, DecodeError>(DecodeError::UnexpectedEndOfStream)
                    &&& final(src).position() == s.len()
                    &&& final(self).emitted() == q0
                    &&& !final(self).is_terminated()
                } else if q0 + k < n {
                    &&& final(src).position() == p + k
                    &&& final(self).emitted() == q0 + k
                    &&& !final(self).is_terminated()
                    &&& match r {
                        Ok(c) => c@ == s.subrange(p, p + k),
                        Err(_) => false,
                    }
                } else if p + k + 2 > s.len() {
                    &&& r == Err::<Vec<u8>, DecodeError>(DecodeError::UnexpectedEndOfStream)
                    &&& final(src).position() == s.len()
                    &&& final(self).emitted() == n
                    &&& !final(self).is_terminated()
                } else if s[p + k] == 13u8 && s[p + k + 1] == 10u8 {
                    &&& final(src).position() == p + k + 2
                    &&& final(self).emitted() == n
                    &&& final(self).is_terminated()
                    &&& match r {
                        Ok(c) => c@ == s.subrange(p, p + k),
                        Err(_) => false,
                    }
                } else {
                    &&& r == Err::<Vec<u8>, DecodeError>(DecodeError::MalformedLengthTerminator)
                    &&& final(src).position() == p + k + 2
                    &&& final(self).emitted() == n
                    &&& final(self).is_terminated()
                }
            }),
    {
        proof {
            use_type_invariant(&*src);
            use_type_invariant(&*self);
        }
        let ghost s = src.bytes();
        let ghost p = src.position();
        let mut chunk: Vec<u8> = Vec::new();
        if self.terminated {
            return Ok(chunk);
        }
        let rest = self.length - self.position;
        let k: u64 = if (want as u64) <= rest {
            want as u64
        } else {
            rest
        };
        let mut i: u64 = 0;
        while i < k
            invariant
                s == old(src).bytes(),
                p == old(src).position(),
                src.bytes() == s,
                0 <= p,
                p + i == src.position() <= s.len(),
                i <= k,
                chunk@ == s.subrange(p, p + i),
            decreases k - i,
        {
            match src.next() {
                None => {
                    return Err(DecodeError::UnexpectedEndOfStream);
                },
                Some(b) => {
                    proof {
                        assert(s.subrange(p, p + i + 1) =~= s.subrange(p, p + i).push(b));
                    }
                    chunk.push(b);
                    i = i + 1;
                },
            }
        }
        self.position = self.position + k;
        if self.position == self.length {
            let b1 = match src.next() {
                None => {
                    return Err(DecodeError::UnexpectedEndOfStream);
                },
                Some(b) => b,
            };
            let b2 = match src.next() {
                None => {
                    return Err(DecodeError::UnexpectedEndOfStream);
                },
                Some(b) => b,
            };
            self.terminated = true;
            if b1 == 13u8 && b2 == 10u8 {
                Ok(chunk)
            } else {
                Err(DecodeError::MalformedLengthTerminator)
            }
        } else {
            Ok(chunk)
        }
    }
}

} // verus!
