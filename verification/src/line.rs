//! The delimited line reader: hands out the bytes of one CRLF-terminated
//! line, then signals end-of-data forever. Used for simple strings, error
//! replies, and as the basis of integer parsing.

use vstd::prelude::*;

use crate::source::ByteSource;
use crate::value::DecodeError;

verus! {

/// What reading one whole CRLF-terminated line from `s` at `pos` yields:
/// the line's bytes (the terminator excluded) or the first error, paired
/// with the cursor position after the read. A carriage return must be
/// followed directly by a line feed; a source that ends before the
/// terminator is an error and leaves the cursor at the end.
pub open spec fn spec_line(s: Seq<u8>, pos: int) -> (Result<Seq<u8>, DecodeError>, int)
    decreases s.len() - pos,
{
    if pos < 0 || pos >= s.len() {
        (Err(DecodeError::UnexpectedEndOfStream), s.len() as int)
    } else if s[pos] == 13u8 {
        if pos + 1 >= s.len() {
            (Err(DecodeError::UnexpectedEndOfStream), s.len() as int)
        } else if s[pos + 1] == 10u8 {
            (Ok(Seq::empty()), pos + 2)
        } else {
            (Err(DecodeError::MalformedLineTerminator), pos + 2)
        }
    } else {
        let (r, q) = spec_line(s, pos + 1);
        match r {
            Ok(l) => (Ok(seq![s[pos]] + l), q),
            Err(e) => (Err(e), q),
        }
    }
}

/// What one bounded read of at most `want` bytes from an active line
/// reader yields: the bytes handed out together with whether the line
/// ended on this read, or the first error; paired with the cursor
/// position after the read.
pub open spec fn spec_line_chunk(s: Seq<u8>, pos: int, want: nat) -> (Result<
    (Seq<u8>, bool),
    DecodeError,
>, int)
    decreases want,
{
    if want == 0 {
        (Ok((Seq::empty(), false)), pos)
    } else if pos < 0 || pos >= s.len() {
        (Err(DecodeError::UnexpectedEndOfStream), s.len() as int)
    } else if s[pos] == 13u8 {
        if pos + 1 >= s.len() {
            (Err(DecodeError::UnexpectedEndOfStream), s.len() as int)
        } else if s[pos + 1] == 10u8 {
            (Ok((Seq::empty(), true)), pos + 2)
        } else {
            (Err(DecodeError::MalformedLineTerminator), pos + 2)
        }
    } else {
        let (r, q) = spec_line_chunk(s, pos + 1, (want - 1) as nat);
        match r {
            Ok(p) => (Ok((seq![s[pos]] + p.0, p.1)), q),
            Err(e) => (Err(e), q),
        }
    }
}

/// Prepending already-read bytes to the outcome of reading the rest of
/// a line.
pub open spec fn line_cont(acc: Seq<u8>, r: (Result<Seq<u8>, DecodeError>, int)) -> (Result<
    Seq<u8>,
    DecodeError,
>, int) {
    match r.0 {
        Ok(l) => (Ok(acc + l), r.1),
        Err(e) => (Err(e), r.1),
    }
}

/// One line read never moves the cursor backward nor past the end, and
/// a successful read consumes at least the two terminator bytes.
pub proof fn lemma_line_bounds(s: Seq<u8>, pos: int)
    requires
        0 <= pos <= s.len(),
    ensures
        ({
            let (lr, q) = spec_line(s, pos);
            pos <= q <= s.len() && (lr is Ok ==> q >= pos + 2)
        }),
    decreases s.len() - pos,
{
    if pos < s.len() && s[pos] != 13u8 {
        lemma_line_bounds(s, pos + 1);
    }
}

/// Reading a line whose content holds no carriage return and whose
/// terminator follows directly yields exactly that content and stops
/// right after the terminator.
pub proof fn lemma_line_of_terminated(s: Seq<u8>, pos: int, end: int)
    requires
        0 <= pos <= end,
        end + 2 <= s.len(),
        forall|i: int| pos <= i < end ==> s[i] != 13u8,
        s[end] == 13u8,
        s[end + 1] == 10u8,
    ensures
        spec_line(s, pos) == (Ok::<Seq<u8>, DecodeError>(s.subrange(pos, end)), end + 2),
    decreases end - pos,
{
    if pos == end {
        assert(s.subrange(pos, end) =~= Seq::empty());
    } else {
        lemma_line_of_terminated(s, pos + 1, end);
        assert(seq![s[pos]] + s.subrange(pos + 1, end) =~= s.subrange(pos, end));
    }
}

/// A bounded read that is large enough to cover the rest of the source
/// settles the whole line: it either ends the line exactly as
/// `spec_line` says, or it proves that no terminator is coming.
pub proof fn lemma_chunk_covers_line(s: Seq<u8>, pos: int, want: nat)
    requires
        0 <= pos <= s.len(),
        want >= s.len() - pos,
        want >= 1,
    ensures
        ({
            let (cr, cq) = spec_line_chunk(s, pos, want);
            let (lr, lq) = spec_line(s, pos);
            match cr {
                Ok(p) => {
                    if p.1 {
                        lr == Ok::<Seq<u8>, DecodeError>(p.0) && lq == cq
                    } else {
                        cq == s.len() && lr == Err::<Seq<u8>, DecodeError>(
                            DecodeError::UnexpectedEndOfStream,
                        ) && lq == s.len()
                    }
                },
                Err(e) => lr == Err::<Seq<u8>, DecodeError>(e) && lq == cq,
            }
        }),
    decreases want,
{
    if pos >= s.len() || s[pos] == 13u8 {
        // Both readings settle on the first byte.
    } else if want == 1 {
        assert(pos + 1 == s.len());
    } else {
        lemma_chunk_covers_line(s, pos + 1, (want - 1) as nat);
    }
}

/// Reads the bytes of exactly one CRLF-terminated line from a byte
/// source, then reports end-of-data forever: a single-use adapter.
pub struct SimpleStringReader {
    done: bool,
}

impl SimpleStringReader {
    /// Whether this reader has finished its one line (by success or by a
    /// malformed terminator) and now hands out no further bytes.
    pub closed spec fn is_done(&self) -> bool {
        self.done
    }

    /// A fresh reader for the line that starts at the source's cursor.
    pub fn new() -> (r: Self)
        ensures
            !r.is_done(),
    {
        SimpleStringReader { done: false }
    }

    /// Emit up to `want` bytes of the line into a fresh buffer. Bytes
    /// come one at a time from the source until a carriage return, which
    /// must be followed by a line feed; the terminator is consumed but
    /// never handed out. Once the line has ended, every later read
    /// returns an empty buffer without touching the source.
    pub fn read(&mut self, src: &mut ByteSource, want: usize) -> (r: Result<Vec<u8>, DecodeError>)
        ensures
            final(src).bytes() == old(src).bytes(),
            old(self).is_done() ==> {
                &&& final(self).is_done()
                &&& final(src).position() == old(src).position()
                &&& match r {
                    Ok(c) => c@ == Seq::<u8>::empty(),
                    Err(_) => false,
                }
            },
            !old(self).is_done() ==> ({
                let (cr, cq) = spec_line_chunk(old(src).bytes(), old(src).position(), want as nat);
                &&& final(src).position() == cq
                &&& match (r, cr) {
                    (Ok(c), Ok(p)) => c@ == p.0 && final(self).is_done() == p.1,
                    (Err(e1), Err(e2)) => e1 == e2 && final(self).is_done() == (
                    e1 is MalformedLineTerminator),
                    _ => false,
                }
            }),
    {
        proof {
            use_type_invariant(&*src);
        }
        let ghost s = src.bytes();
        let ghost p0 = src.position();
        let mut chunk: Vec<u8> = Vec::new();
        if self.done {
            return Ok(chunk);
        }
        let mut i: usize = 0;
        while i < want
            invariant
                s == old(src).bytes(),
                p0 == old(src).position(),
                !old(self).is_done(),
                src.bytes() == s,
                0 <= p0,
                p0 + i == src.position() <= s.len(),
                i <= want,
                !self.is_done(),
                spec_line_chunk(s, p0, want as nat) == line_chunk_cont(
                    chunk@,
                    spec_line_chunk(s, src.position(), (want - i) as nat),
                ),
            decreases want - i,
        {
            match src.next() {
                None => {
                    return Err(DecodeError::UnexpectedEndOfStream);
                },
                Some(b) => {
                    if b == 13u8 {
                        match src.next() {
                            None => {
                                return Err(DecodeError::UnexpectedEndOfStream);
                            },
                            Some(b2) => {
                                self.done = true;
                                if b2 == 10u8 {
                                    proof {
                                        assert(chunk@ + Seq::<u8>::empty() =~= chunk@);
                                    }
                                    return Ok(chunk);
                                } else {
                                    return Err(DecodeError::MalformedLineTerminator);
                                }
                            },
                        }
                    } else {
                        proof {
                            let (ir, iq) = spec_line_chunk(s, p0 + i + 1, (want - i - 1) as nat);
                            match ir {
                                Ok(p) => {
                                    assert(chunk@ + (seq![b] + p.0) =~= chunk@.push(b) + p.0);
                                },
                                Err(_) => {},
                            }
                        }
                        chunk.push(b);
                        i = i + 1;
                    }
                },
            }
        }
        proof {
            assert(chunk@ + Seq::<u8>::empty() =~= chunk@);
        }
        Ok(chunk)
    }
}

/// Prepending already-read bytes to the outcome of one further bounded
/// read.
pub open spec fn line_chunk_cont(acc: Seq<u8>, r: (Result<(Seq<u8>, bool), DecodeError>, int)) -> (
    Result<(Seq<u8>, bool), DecodeError>,
    int,
) {
    match r.0 {
        Ok(p) => (Ok((acc + p.0, p.1)), r.1),
        Err(e) => (Err(e), r.1),
    }
}

/// Read a whole line through a line reader: keeps asking the reader for
/// bytes until it signals end-of-data, and returns everything the reader
/// handed out. On a reader that is already done this yields an empty
/// buffer; on a fresh reader it yields exactly what `spec_line` says of
/// the source.
pub fn read_to_string(reader: &mut SimpleStringReader, src: &mut ByteSource) -> (r: Result<
    Vec<u8>,
    DecodeError,
>)
    ensures
        final(src).bytes() == old(src).bytes(),
        old(reader).is_done() ==> {
            &&& final(src).position() == old(src).position()
            &&& match r {
                Ok(c) => c@ == Seq::<u8>::empty(),
                Err(_) => false,
            }
        },
        !old(reader).is_done() ==> ({
            let (lr, lq) = spec_line(old(src).bytes(), old(src).position());
            &&& final(src).position() == lq
            &&& match (r, lr) {
                (Ok(c), Ok(l)) => c@ == l && final(reader).is_done(),
                (Err(e1), Err(e2)) => e1 == e2,
                _ => false,
            }
        }),
{
    proof {
        use_type_invariant(&*src);
    }
    let ghost s = src.bytes();
    let ghost p0 = src.position();
    let mut acc: Vec<u8> = Vec::new();
    if reader.done {
        return Ok(acc);
    }
    loop
        invariant
            s == old(src).bytes(),
            p0 == old(src).position(),
            !old(reader).is_done(),
            src.bytes() == s,
            0 <= p0 <= src.position() <= s.len(),
            !reader.is_done(),
            spec_line(s, p0) == line_cont(acc@, spec_line(s, src.position())),
        decreases s.len() - src.position(),
    {
        let rem = src.remaining();
        let want: usize = if rem == 0 {
            1
        } else {
            rem
        };
        let ghost p = src.position();
        proof {
            lemma_chunk_covers_line(s, p, want as nat);
        }
        match reader.read(src, want) {
            Ok(mut c) => {
                if reader.done {
                    acc.append(&mut c);
                    return Ok(acc);
                } else {
                    acc.append(&mut c);
                }
            },
            Err(e) => {
                return Err(e);
            },
        }
    }
}

} // verus!
