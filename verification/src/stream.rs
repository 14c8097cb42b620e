//! An in-memory byte source with a read position: the connection bytes the
//! engine has in hand, consumed front to back.

use vstd::prelude::*;

use crate::errors::HttpError;
use crate::errors::HttpErrorView;

verus! {

/// The index of the first occurrence of `b` in `s` at or after `from`.
pub open spec fn find_from(s: Seq<u8>, from: int, b: u8) -> Option<int>
    decreases s.len() - from,
{
    if from >= s.len() {
        None
    } else if s[from] == b {
        Some(from)
    } else {
        find_from(s, from + 1, b)
    }
}

/// What `find_from` returns: the first hit, with nothing but misses before
/// it; or a miss everywhere.
pub proof fn lemma_find_from(s: Seq<u8>, from: int, b: u8)
    requires
        0 <= from <= s.len(),
    ensures
        match find_from(s, from, b) {
            Some(idx) => from <= idx < s.len() && s[idx] == b && forall|j: int|
                from <= j < idx ==> s[j] != b,
            None => forall|j: int| from <= j < s.len() ==> s[j] != b,
        },
    decreases s.len() - from,
{
    if from < s.len() && s[from] != b {
        lemma_find_from(s, from + 1, b);
    }
}

/// The line read from position `pos` up to the first `needle`, when that
/// line is no longer than `limit`: the line's bytes and the position just
/// past the terminator.
pub open spec fn spec_line_at(s: Seq<u8>, pos: int, needle: u8, limit: int) -> Option<
    (Seq<u8>, int),
> {
    match find_from(s, pos, needle) {
        Some(idx) => if idx - pos <= limit {
            Some((s.subrange(pos, idx), idx + 1))
        } else {
            None
        },
        None => None,
    }
}

/// The bytes of one connection, buffered in memory, with the position up to
/// which they have been consumed.
pub struct ByteStream {
    data: Vec<u8>,
    pos: usize,
}

impl ByteStream {
    /// All bytes held, consumed or not.
    pub closed spec fn data(&self) -> Seq<u8> {
        self.data@
    }

    /// How many bytes have been consumed.
    pub closed spec fn pos(&self) -> int {
        self.pos as int
    }

    /// The position never passes the end of the data.
    pub open spec fn wf(&self) -> bool {
        0 <= self.pos() <= self.data().len()
    }

    /// The bytes not yet consumed.
    pub open spec fn remaining(&self) -> Seq<u8> {
        self.data().subrange(self.pos(), self.data().len() as int)
    }

    pub fn new(data: Vec<u8>) -> (r: ByteStream)
        ensures
            r.data() == data@,
            r.pos() == 0,
            r.wf(),
    {
        ByteStream { data, pos: 0 }
    }

    pub fn position(&self) -> (r: usize)
        ensures
            r == self.pos(),
    {
        self.pos
    }

    pub fn total_len(&self) -> (r: usize)
        ensures
            r == self.data().len(),
    {
        self.data.len()
    }

    /// Reads the byte at absolute position `i`, without consuming it.
    pub fn byte_at(&self, i: usize) -> (r: u8)
        requires
            i < self.data().len(),
        ensures
            r == self.data()[i as int],
    {
        self.data[i]
    }

    /// Consumes `n` bytes, or whatever is left if fewer remain.
    pub fn advance(&mut self, n: usize)
        requires
            old(self).wf(),
        ensures
            final(self).wf(),
            final(self).data() == old(self).data(),
            final(self).pos() == if old(self).pos() + n <= old(self).data().len() {
                old(self).pos() + n
            } else {
                old(self).data().len() as int
            },
    {
        let left = self.data.len() - self.pos;
        if n <= left {
            self.pos = self.pos + n;
        } else {
            self.pos = self.data.len();
        }
    }

    /// A fresh copy of the bytes in `[from, to)`, consuming nothing.
    pub fn copy_range(&self, from: usize, to: usize) -> (r: Vec<u8>)
        requires
            from <= to <= self.data().len(),
        ensures
            r@ == self.data().subrange(from as int, to as int),
    {
        let total = self.data.len();
        let mut r: Vec<u8> = Vec::new();
        let mut i: usize = from;
        while i < to
            invariant
                from <= i <= to <= self.data().len(),
                total == self.data().len(),
                r@ =~= self.data().subrange(from as int, i as int),
            decreases to - i,
        {
            r.push(self.data[i]);
            i += 1;
        }
        proof {
            assert(r@ =~= self.data().subrange(from as int, to as int));
        }
        r
    }

    /// Consumes and returns the next `n` bytes, or whatever is left if fewer
    /// remain.
    pub fn take(&mut self, n: usize) -> (r: Vec<u8>)
        requires
            old(self).wf(),
        ensures
            final(self).wf(),
            final(self).data() == old(self).data(),
            ({
                let start = old(self).pos();
                let end = if start + n <= old(self).data().len() {
                    start + n
                } else {
                    old(self).data().len() as int
                };
                r@ == old(self).data().subrange(start, end) && final(self).pos() == end
            }),
    {
        let ghost start = self.pos();
        let left = self.data.len() - self.pos;
        let count = if n <= left {
            n
        } else {
            left
        };
        let mut r: Vec<u8> = Vec::new();
        let mut i: usize = 0;
        while i < count
            invariant
                self.wf(),
                self.data() == old(self).data(),
                self.pos() == start,
                start + count <= self.data().len(),
                self.data().len() <= usize::MAX,
                0 <= i <= count,
                r@ =~= self.data().subrange(start, start + i),
            decreases count - i,
        {
            r.push(self.data[self.pos + i]);
            i += 1;
        }
        self.pos = self.pos + count;
        proof {
            assert(r@ =~= self.data().subrange(start, start + count));
        }
        r
    }
}

/// Reads one line: the bytes from the current position up to (and not
/// including) the first `needle`, consuming the terminator too. A line
/// longer than `line_len_limit`, or input with no terminator left, is a
/// client error and consumes nothing.
pub fn read_until_limited(reader: &mut ByteStream, needle: u8, line_len_limit: usize) -> (r:
    Result<Vec<u8>, HttpError>)
    requires
        old(reader).wf(),
    ensures
        final(reader).wf(),
        final(reader).data() == old(reader).data(),
        match r {
            Ok(line) => spec_line_at(
                old(reader).data(),
                old(reader).pos(),
                needle,
                line_len_limit as int,
            ) == Some((line@, final(reader).pos())),
            Err(e) => {
                &&& spec_line_at(
                    old(reader).data(),
                    old(reader).pos(),
                    needle,
                    line_len_limit as int,
                ) is None
                &&& e@ == HttpErrorView::Client(400, "Header line too long"@)
                &&& final(reader).pos() == old(reader).pos()
            },
        },
{
    let ghost data = reader.data();
    let start = reader.position();
    let total = reader.total_len();
    let mut i: usize = start;
    while i < total && i - start <= line_len_limit
        invariant
            reader.wf(),
            data == old(reader).data(),
            reader.data() == data,
            reader.pos() == start,
            start == old(reader).pos(),
            total == data.len(),
            start <= i,
            i <= total,
            forall|j: int| start <= j < i ==> data[j] != needle,
        decreases total - i,
    {
        if reader.byte_at(i) == needle {
            proof {
                lemma_find_from(data, start as int, needle);
                assert(find_from(data, start as int, needle) == Some(i as int));
            }
            let line = reader.take(i - start);
            reader.advance(1);
            return Ok(line);
        }
        i += 1;
    }
    proof {
        lemma_find_from(data, start as int, needle);
        if i == total {
        } else {
            assert(i - start > line_len_limit);
        }
    }
    Err(HttpError::ClientError(400, "Header line too long"))
}

} // verus!
