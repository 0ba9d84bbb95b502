use vstd::prelude::*;
use vstd::string::StringSliceAdditionalSpecFns;

verus! {

/// A byte string of at most `N` bytes, for paths and lines read where the
/// text's size must stay bounded.
pub struct FixedStr<const N: usize> {
    bytes: Vec<u8>,
}

/// The error returned when appended text does not fit in the remaining capacity.
#[derive(Debug, Clone, Copy, PartialEq, Eq, Structural)]
pub struct CapacityError;

impl<const N: usize> View for FixedStr<N> {
    type V = Seq<u8>;

    closed spec fn view(&self) -> Seq<u8> {
        self.bytes@
    }
}

impl<const N: usize> FixedStr<N> {
    /// Holds when the content fits in the capacity.
    pub open spec fn wf(&self) -> bool {
        self@.len() <= N
    }

    /// An empty string.
    pub fn new() -> (r: Self)
        ensures
            r.wf(),
            r@ == Seq::<u8>::empty(),
    {
        FixedStr { bytes: Vec::new() }
    }

    /// Copies `buf` into a new string, or `None` when it is longer than `N`.
    pub fn from_slice(buf: &[u8]) -> (r: Option<Self>)
        ensures
            buf@.len() <= N <==> r.is_some(),
            r.is_some() ==> r.unwrap().wf() && r.unwrap()@ == buf@,
    {
        if buf.len() > N {
            return None;
        }
        let mut bytes: Vec<u8> = Vec::new();
        let mut i: usize = 0;
        while i < buf.len()
            invariant
                i <= buf@.len(),
                bytes@ == buf@.subrange(0, i as int),
            decreases buf@.len() - i,
        {
            bytes.push(buf[i]);
            i = i + 1;
        }
        assert(bytes@ == buf@);
        Some(FixedStr { bytes })
    }

    /// Empties the string.
    pub fn clear(&mut self)
        ensures
            final(self).wf(),
            final(self)@ == Seq::<u8>::empty(),
    {
        self.bytes = Vec::new();
    }

    /// The number of bytes held.
    pub fn len(&self) -> (r: usize)
        ensures
            r == self@.len(),
    {
        self.bytes.len()
    }

    /// Holds when no byte is held.
    pub fn is_empty(&self) -> (r: bool)
        ensures
            r == (self@.len() == 0),
    {
        self.bytes.len() == 0
    }

    /// The bytes held.
    pub fn as_bytes(&self) -> (r: &[u8])
        ensures
            r@ == self@,
    {
        self.bytes.as_slice()
    }

    /// Appends `s` when it fits in the remaining capacity; otherwise leaves
    /// the string as it was and fails.
    pub fn write_bytes(&mut self, s: &[u8]) -> (r: Result<(), CapacityError>)
        requires
            old(self).wf(),
        ensures
            final(self).wf(),
            r.is_ok() <==> old(self)@.len() + s@.len() <= N,
            r.is_ok() ==> final(self)@ == old(self)@ + s@,
            r.is_err() ==> final(self)@ == old(self)@,
    {
        if s.len() > N - self.bytes.len() {
            return Err(CapacityError);
        }
        let ghost start = self.bytes@;
        let mut i: usize = 0;
        while i < s.len()
            invariant
                i <= s@.len(),
                self.bytes@ == start + s@.subrange(0, i as int),
            decreases s@.len() - i,
        {
            self.bytes.push(s[i]);
            i = i + 1;
        }
        assert(s@.subrange(0, s@.len() as int) == s@);
        Ok(())
    }

    /// Appends the text `s` when it fits in the remaining capacity.
    pub fn write_str(&mut self, s: &str) -> (r: Result<(), CapacityError>)
        requires
            old(self).wf(),
        ensures
            final(self).wf(),
            r.is_ok() <==> old(self)@.len() + s.spec_bytes().len() <= N,
            r.is_ok() ==> final(self)@ == old(self)@ + s.spec_bytes(),
            r.is_err() ==> final(self)@ == old(self)@,
    {
        self.write_bytes(s.as_bytes())
    }

    /// Appends the decimal digits of `value` when they all fit; otherwise
    /// appends as many leading digits as fit and fails, as a formatter writing
    /// into a full buffer does.
    pub fn write_decimal(&mut self, value: u64) -> (r: Result<(), CapacityError>)
        requires
            old(self).wf(),
        ensures
            final(self).wf(),
            r.is_ok() <==> old(self)@.len() + decimal_digits(value as nat).len() <= N,
            r.is_ok() ==> final(self)@ == old(self)@ + decimal_digits(value as nat),
            r.is_err() ==> final(self)@ == old(self)@ + decimal_digits(value as nat).subrange(
                0,
                N - old(self)@.len(),
            ),
    {
        let digits = decimal_bytes(value);
        let ghost start = self.bytes@;
        let mut i: usize = 0;
        while i < digits.len()
            invariant
                self.bytes@.len() <= N,
                i <= digits@.len(),
                digits@ == decimal_digits(value as nat),
                start.len() <= N,
                start == old(self)@,
                self.bytes@ == start + digits@.subrange(0, i as int),
            decreases digits@.len() - i,
        {
            if self.bytes.len() == N {
                assert(i == N - start.len());
                assert(digits@.len() > N - start.len());
                return Err(CapacityError);
            }
            self.bytes.push(digits[i]);
            i = i + 1;
        }
        assert(digits@.subrange(0, digits@.len() as int) == digits@);
        Ok(())
    }
}

/// A capacity-bounded string whose content is always followed by a NUL byte,
/// so at most `N - 1` bytes of text fit.
pub struct FixedCStr<const N: usize> {
    inner: FixedStr<N>,
}

impl<const N: usize> View for FixedCStr<N> {
    type V = Seq<u8>;

    closed spec fn view(&self) -> Seq<u8> {
        self.inner@
    }
}

impl<const N: usize> FixedCStr<N> {
    /// Holds when the text and its terminator fit in the capacity.
    pub open spec fn wf(&self) -> bool {
        self@.len() + 1 <= N
    }

    /// An empty string; `N` must leave room for the terminator.
    pub fn new() -> (r: Self)
        requires
            N >= 1,
        ensures
            r.wf(),
            r@ == Seq::<u8>::empty(),
    {
        FixedCStr { inner: FixedStr::new() }
    }

    /// Copies the text `buf` (without terminator), or `None` when it and its
    /// terminator do not fit.
    pub fn from_bytes(buf: &[u8]) -> (r: Option<Self>)
        ensures
            buf@.len() < N <==> r.is_some(),
            r.is_some() ==> r.unwrap().wf() && r.unwrap()@ == buf@,
    {
        if buf.len() >= N {
            return None;
        }
        match FixedStr::from_slice(buf) {
            Some(inner) => Some(FixedCStr { inner }),
            None => None,
        }
    }

    /// Empties the string.
    pub fn clear(&mut self)
        requires
            N >= 1,
        ensures
            final(self).wf(),
            final(self)@ == Seq::<u8>::empty(),
    {
        self.inner.clear();
    }

    /// The text followed by its NUL terminator.
    pub fn to_bytes_with_nul(&self) -> (r: Vec<u8>)
        ensures
            r@ == self@.push(0u8),
    {
        let mut out: Vec<u8> = Vec::new();
        let src = self.inner.as_bytes();
        let mut i: usize = 0;
        while i < src.len()
            invariant
                i <= src@.len(),
                src@ == self@,
                out@ == src@.subrange(0, i as int),
            decreases src@.len() - i,
        {
            out.push(src[i]);
            i = i + 1;
        }
        out.push(0u8);
        assert(src@.subrange(0, src@.len() as int) == src@);
        out
    }

    /// Appends the text `s` when it and the terminator fit.
    pub fn write_str(&mut self, s: &str) -> (r: Result<(), CapacityError>)
        requires
            old(self).wf(),
        ensures
            final(self).wf(),
            r.is_ok() <==> old(self)@.len() + s.spec_bytes().len() + 1 <= N,
            r.is_ok() ==> final(self)@ == old(self)@ + s.spec_bytes(),
            r.is_err() ==> final(self)@ == old(self)@,
    {
        let b = s.as_bytes();
        if b.len() >= N - self.inner.len() {
            return Err(CapacityError);
        }
        self.inner.write_bytes(b)
    }

    /// Appends the decimal digits of `value` when they and the terminator all
    /// fit; otherwise appends as many leading digits as leave room for the
    /// terminator and fails.
    pub fn write_decimal(&mut self, value: u64) -> (r: Result<(), CapacityError>)
        requires
            old(self).wf(),
        ensures
            final(self).wf(),
            r.is_ok() <==> old(self)@.len() + decimal_digits(value as nat).len() + 1 <= N,
            r.is_ok() ==> final(self)@ == old(self)@ + decimal_digits(value as nat),
            r.is_err() ==> final(self)@ == old(self)@ + decimal_digits(value as nat).subrange(
                0,
                N - 1 - old(self)@.len(),
            ),
    {
        let digits = decimal_bytes(value);
        let ghost start = self.inner@;
        let mut i: usize = 0;
        while i < digits.len()
            invariant
                self.inner@.len() + 1 <= N,
                self.inner.wf(),
                i <= digits@.len(),
                digits@ == decimal_digits(value as nat),
                start.len() + 1 <= N,
                start == old(self)@,
                self.inner@ == start + digits@.subrange(0, i as int),
            decreases digits@.len() - i,
        {
            if self.inner.len() + 1 == N {
                assert(i == N - 1 - start.len());
                assert(digits@.len() + start.len() + 1 > N);
                return Err(CapacityError);
            }
            let ghost before = self.inner@;
            let _ = self.inner.write_bytes(&digits[i..i + 1]);
            assert(digits@.subrange(i as int, i + 1) == seq![digits@[i as int]]);
            assert(start + digits@.subrange(0, i + 1) == before + seq![digits@[i as int]]);
            i = i + 1;
        }
        assert(digits@.subrange(0, digits@.len() as int) == digits@);
        Ok(())
    }
}

/// The ASCII decimal digits of `v`, most significant first, without leading zeros.
pub open spec fn decimal_digits(v: nat) -> Seq<u8>
    decreases v,
{
    if v < 10 {
        seq![(48 + v) as u8]
    } else {
        decimal_digits(v / 10).push((48 + v % 10) as u8)
    }
}

/// The ASCII decimal digits of `value`.
pub fn decimal_bytes(value: u64) -> (r: Vec<u8>)
    ensures
        r@ == decimal_digits(value as nat),
    decreases value,
{
    if value < 10 {
        let mut v: Vec<u8> = Vec::new();
        v.push((48 + value) as u8);
        v
    } else {
        let mut v = decimal_bytes(value / 10);
        v.push((48 + value % 10) as u8);
        v
    }
}

} // verus!
