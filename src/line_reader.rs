use vstd::prelude::*;
use crate::fixed_str::FixedStr;
use crate::mapping::{find_from, lemma_find_from_bounds};

verus! {

/// The lines of `s`: the pieces between newline bytes, the last one included
/// when it has no terminating newline, and no empty piece after a final newline.
pub open spec fn split_lines(s: Seq<u8>) -> Seq<Seq<u8>>
    decreases s.len(),
{
    if s.len() == 0 {
        Seq::empty()
    } else {
        match find_from(s, 10u8, 0) {
            Some(i) => if 0 <= i < s.len() {
                seq![s.subrange(0, i)] + split_lines(s.subrange(i + 1, s.len() as int))
            } else {
                seq![s]
            },
            None => seq![s],
        }
    }
}

/// Reads newline-terminated lines of at most `N - 1` bytes out of a byte
/// source that hands its bytes over in chunks, through a buffer of `N` bytes.
/// A line that does not fit in the buffer ends the reading.
pub struct LineReader<const N: usize> {
    data: Vec<u8>,
    breaks: Vec<usize>,
    pos: usize,
    buf: Vec<u8>,
}

/// A newline found in `a` is found at the same place in `a + b`.
proof fn lemma_find_in_prefix(a: Seq<u8>, b: Seq<u8>, c: u8, from: int)
    requires
        0 <= from,
        find_from(a, c, from) is Some,
    ensures
        find_from(a + b, c, from) == find_from(a, c, from),
    decreases a.len() - from,
{
    if from < a.len() && a[from] != c {
        lemma_find_in_prefix(a, b, c, from + 1);
    }
}

/// With no `c` in `a` from `from` on, the search in `a + b` goes on in `b`.
proof fn lemma_find_past_prefix(a: Seq<u8>, b: Seq<u8>, c: u8, from: int)
    requires
        0 <= from <= a.len(),
        find_from(a, c, from) is None,
    ensures
        match find_from(b, c, 0) {
            Some(j) => find_from(a + b, c, from) == Some(j + a.len()),
            None => find_from(a + b, c, from) is None,
        },
    decreases a.len() + b.len() - from,
{
    if from < a.len() {
        lemma_find_past_prefix(a, b, c, from + 1);
    } else {
        lemma_find_shift(a, b, c, 0);
    }
}

proof fn lemma_find_shift(a: Seq<u8>, b: Seq<u8>, c: u8, k: int)
    requires
        0 <= k,
    ensures
        match find_from(b, c, k) {
            Some(j) => find_from(a + b, c, k + a.len()) == Some(j + a.len()),
            None => find_from(a + b, c, k + a.len()) is None,
        },
    decreases b.len() - k,
{
    if k < b.len() {
        assert((a + b)[k + a.len()] == b[k]);
        if b[k] != c {
            lemma_find_shift(a, b, c, k + 1);
        }
    }
}

/// When `a` holds a newline, the first line of `a + b` is the first line of `a`.
proof fn lemma_split_newline_in_prefix(a: Seq<u8>, b: Seq<u8>, i: int)
    requires
        find_from(a, 10u8, 0) == Some(i),
    ensures
        0 <= i < a.len(),
        split_lines(a + b) == seq![a.subrange(0, i)] + split_lines(
            a.subrange(i + 1, a.len() as int) + b,
        ),
{
    lemma_find_from_bounds(a, 10u8, 0);
    lemma_find_in_prefix(a, b, 10u8, 0);
    let s = a + b;
    assert(s.subrange(0, i) == a.subrange(0, i));
    assert(s.subrange(i + 1, s.len() as int) == a.subrange(i + 1, a.len() as int) + b);
}

/// When `a` is not empty and holds no newline, the first line of `a + b`
/// begins with all of `a`.
proof fn lemma_split_no_newline(a: Seq<u8>, b: Seq<u8>)
    requires
        a.len() > 0,
        find_from(a, 10u8, 0) is None,
    ensures
        split_lines(a + b).len() > 0,
        split_lines(a + b)[0].len() >= a.len(),
        b.len() == 0 ==> split_lines(a + b) == seq![a],
{
    lemma_find_past_prefix(a, b, 10u8, 0);
    let s = a + b;
    match find_from(b, 10u8, 0) {
        Some(j) => {
            lemma_find_from_bounds(b, 10u8, 0);
            assert(s.subrange(0, j + a.len()).len() == j + a.len());
        },
        None => {
            if b.len() == 0 {
                assert(s == a);
            }
        },
    }
}

impl<const N: usize> LineReader<N> {
    /// The bytes not yet handed out as lines: those buffered, then those the
    /// source still holds.
    pub closed spec fn remaining(&self) -> Seq<u8> {
        self.buf@ + self.data@.subrange(self.pos as int, self.data@.len() as int)
    }

    /// The lines still to come, before any overlong one is met.
    pub open spec fn pending_lines(&self) -> Seq<Seq<u8>> {
        split_lines(self.remaining())
    }

    /// Holds for a reader in a consistent state.
    pub closed spec fn wf(&self) -> bool {
        self.buf@.len() <= N && self.pos <= self.data@.len() && N >= 1
    }

    /// A reader over `data`, handed over in one chunk.
    pub fn new(data: Vec<u8>) -> (r: Self)
        requires
            N >= 1,
        ensures
            r.wf(),
            r.remaining() == data@,
    {
        Self::with_chunks(data, Vec::new())
    }

    /// A reader over `data` whose source hands bytes over in chunks that end at
    /// the offsets in `breaks`, as a pipe or socket may.
    pub fn with_chunks(data: Vec<u8>, breaks: Vec<usize>) -> (r: Self)
        requires
            N >= 1,
        ensures
            r.wf(),
            r.remaining() == data@,
    {
        let r = LineReader { data, breaks, pos: 0, buf: Vec::new() };
        assert(r.data@.subrange(0, r.data@.len() as int) == r.data@);
        r
    }

    /// Where the chunk that starts at `pos` ends.
    fn chunk_end(&self) -> (r: usize)
        requires
            self.pos < self.data@.len(),
        ensures
            self.pos < r <= self.data@.len(),
    {
        let mut end = self.data.len();
        let mut i: usize = 0;
        while i < self.breaks.len()
            invariant
                self.pos < end <= self.data@.len(),
                i <= self.breaks@.len(),
            decreases self.breaks@.len() - i,
        {
            let b = self.breaks[i];
            if b > self.pos && b < end {
                end = b;
            }
            i = i + 1;
        }
        end
    }

    /// Moves the next chunk of the source, or as much of it as fits, into the buffer.
    fn fill(&mut self)
        requires
            old(self).wf(),
            old(self).buf@.len() < N,
            old(self).pos < old(self).data@.len(),
        ensures
            final(self).wf(),
            final(self).remaining() == old(self).remaining(),
            final(self).pos > old(self).pos,
            final(self).data@ == old(self).data@,
    {
        let end = self.chunk_end();
        let space = N - self.buf.len();
        let stop = if end - self.pos < space { end } else { self.pos + space };
        let ghost rem = self.remaining();
        while self.pos < stop
            invariant
                self.pos <= stop <= self.data@.len(),
                self.buf@.len() + (stop - self.pos) <= N,
                N >= 1,
                self.remaining() == rem,
                rem == old(self).remaining(),
                self.data@ == old(self).data@,
                self.pos >= old(self).pos,
                stop > old(self).pos,
            decreases stop - self.pos,
        {
            let ghost p = self.pos;
            let ghost b = self.buf@;
            let byte = self.data[self.pos];
            self.buf.push(byte);
            self.pos = self.pos + 1;
            proof {
                let d = self.data@;
                assert(d.subrange(p as int, d.len() as int) == seq![byte] + d.subrange(
                    p + 1,
                    d.len() as int,
                ));
                assert(b.push(byte) + d.subrange(p + 1, d.len() as int) == b + d.subrange(
                    p as int,
                    d.len() as int,
                ));
            }
        }
    }

    /// The next line, or `None` at the end of the input or at a line too long
    /// for the buffer, after which every call returns `None`.
    pub fn next(&mut self) -> (r: Option<FixedStr<N>>)
        requires
            old(self).wf(),
        ensures
            final(self).wf(),
            ({
                let lines = old(self).pending_lines();
                if lines.len() > 0 && lines[0].len() < N {
                    r is Some && r.unwrap()@ == lines[0] && r.unwrap().wf()
                        && final(self).pending_lines() == lines.drop_first()
                } else {
                    r is None && final(self).pending_lines() == lines
                }
            }),
    {
        let ghost lines = self.pending_lines();
        loop
            invariant
                self.wf(),
                self.pending_lines() == lines,
                lines == old(self).pending_lines(),
            decreases self.data@.len() - self.pos,
        {
            let ghost rest = self.data@.subrange(self.pos as int, self.data@.len() as int);
            match crate::mapping::find_byte(self.buf.as_slice(), 10u8, 0) {
                Some(i) => {
                    proof {
                        lemma_split_newline_in_prefix(self.buf@, rest, i as int);
                    }
                    let line = FixedStr::<N>::from_slice(&self.buf.as_slice()[0..i]);
                    let mut tail: Vec<u8> = Vec::new();
                    let mut k: usize = i + 1;
                    while k < self.buf.len()
                        invariant
                            i + 1 <= k <= self.buf@.len(),
                            tail@ == self.buf@.subrange(i + 1, k as int),
                        decreases self.buf@.len() - k,
                    {
                        tail.push(self.buf[k]);
                        k = k + 1;
                    }
                    self.buf = tail;
                    assert(self.remaining() == old(self).remaining().subrange(0, 0) + self.buf@ + rest);
                    assert(self.pending_lines() == lines.drop_first());
                    return line;
                },
                None => {},
            }
            if self.buf.len() == N {
                proof {
                    lemma_split_no_newline(self.buf@, rest);
                }
                return None;
            }
            if self.pos == self.data.len() {
                if self.buf.len() == 0 {
                    assert(self.remaining() =~= Seq::<u8>::empty());
                    return None;
                }
                proof {
                    assert(rest =~= Seq::<u8>::empty());
                    lemma_split_no_newline(self.buf@, rest);
                    assert(self.buf@ + rest == self.buf@);
                }
                let line = FixedStr::<N>::from_slice(self.buf.as_slice());
                self.buf = Vec::new();
                assert(self.remaining() =~= Seq::<u8>::empty());
                assert(lines.drop_first() =~= Seq::<Seq<u8>>::empty());
                return line;
            }
            self.fill();
        }
    }

    /// Reads every line by calling `next` until it returns `None`: the lines
    /// handed out are those of the input in order, up to the first line too
    /// long for the buffer, and every later call returns `None`.
    pub fn read_all(&mut self) -> (r: Vec<FixedStr<N>>)
        requires
            old(self).wf(),
        ensures
            final(self).wf(),
            (forall|i: int| 0 <= i < old(self).pending_lines().len() ==> (#[trigger] old(self).pending_lines()[i]).len() < N)
                ==> r@.len() == old(self).pending_lines().len() && forall|i: int| 0 <= i < r@.len() ==> (#[trigger] r@[i])@ == old(self).pending_lines()[i],
            final(self).pending_lines().len() == 0 || final(self).pending_lines()[0].len() >= N,
            ({
                let lines = old(self).pending_lines();
                &&& r@.len() <= lines.len()
                &&& forall|i: int| 0 <= i < r@.len() ==> (#[trigger] r@[i])@ == lines[i]
                &&& forall|i: int| 0 <= i < r@.len() ==> lines[i].len() < N
                &&& r@.len() < lines.len() ==> lines[r@.len() as int].len() >= N
                &&& final(self).pending_lines() == lines.subrange(r@.len() as int, lines.len() as int)
            }),
    {
        let ghost lines = self.pending_lines();
        let mut out: Vec<FixedStr<N>> = Vec::new();
        loop
            invariant
                self.wf(),
                lines == old(self).pending_lines(),
                out@.len() <= lines.len(),
                forall|i: int| 0 <= i < out@.len() ==> (#[trigger] out@[i])@ == lines[i],
                forall|i: int| 0 <= i < out@.len() ==> lines[i].len() < N,
                self.pending_lines() == lines.subrange(out@.len() as int, lines.len() as int),
            decreases lines.len() - out@.len(),
        {
            let ghost before = self.pending_lines();
            match self.next() {
                Some(line) => {
                    assert(before[0] == lines[out@.len() as int]);
                    out.push(line);
                    assert(before.drop_first() =~= lines.subrange(out@.len() as int, lines.len() as int));
                },
                None => {
                    proof {
                        if out@.len() < lines.len() {
                            assert(before[0] == lines[out@.len() as int]);
                        }
                    }
                    return out;
                },
            }
        }
    }
}


/// How the source splits its bytes into chunks does not change the lines a
/// reader hands out: readers over the same bytes have the same lines to come.
pub proof fn lemma_lines_independent_of_chunks<const N: usize>(a: &LineReader<N>, b: &LineReader<N>)
    requires
        a.remaining() == b.remaining(),
    ensures
        a.pending_lines() == b.pending_lines(),
{
}

} // verus!
