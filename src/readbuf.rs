use vstd::prelude::*;

verus! {

/// A lightweight reading buffer of fixed capacity `N`.
///
/// Bytes at and past `idx` are stale: they are never read.
pub struct ReadBuf<const N: usize> {
    idx: usize,
    buffer: [u8; N],
}

impl<const N: usize> View for ReadBuf<N> {
    type V = Seq<u8>;

    /// The bytes pushed since the last reset.
    closed spec fn view(&self) -> Seq<u8> {
        self.buffer@.take(self.idx as int)
    }
}

impl<const N: usize> ReadBuf<N> {
    pub closed spec fn wf(&self) -> bool {
        self.idx <= N
    }

    /// Returns a new, empty buffer.
    pub fn new() -> (r: Self)
        ensures
            r.wf(),
            r@ == Seq::<u8>::empty(),
    {
        let idx: usize = 0;
        let buffer = [0u8; N];
        let r = Self { idx, buffer };
        assert(r@ =~= Seq::<u8>::empty());
        r
    }

    /// Pushes the given byte; fails, storing nothing, when the buffer is full.
    pub fn push(&mut self, value: u8) -> (r: Result<(), ()>)
        requires
            old(self).wf(),
        ensures
            final(self).wf(),
            final(self)@.len() <= N,
            old(self)@.len() < N ==> r is Ok && final(self)@ == old(self)@.push(value),
            old(self)@.len() >= N ==> r is Err && final(self)@ == old(self)@,
    {
        if self.idx < N {
            self.buffer[self.idx] = value;
            self.idx = self.idx + 1;
            assert(self@ =~= old(self)@.push(value));
            Ok(())
        } else {
            Err(())
        }
    }

    /// The number of bytes pushed since the last reset.
    pub fn len(&self) -> (r: usize)
        requires
            self.wf(),
        ensures
            r == self@.len(),
            r <= N,
    {
        self.idx
    }

    /// Returns the bytes pushed since the last reset.
    pub fn as_slice(&self) -> (r: &[u8])
        requires
            self.wf(),
        ensures
            r@ == self@,
            r@.len() <= N,
    {
        let whole: &[u8] = self.buffer.as_slice();
        let (head, _) = whole.split_at(self.idx);
        head
    }

    /// Returns the bytes pushed since the last reset, for in-place changes.
    pub fn as_mut_slice(&mut self) -> (r: &mut [u8])
        requires
            old(self).wf(),
        ensures
            r@ == old(self)@,
            r@.len() <= N,
            final(self).wf(),
            final(self)@ == final(r)@,
    {
        let whole: &mut [u8] = &mut self.buffer;
        let (head, _) = whole.split_at_mut(self.idx);
        head
    }

    /// Forgets the pushed bytes; does not overwrite them, so it is cheap.
    pub fn reset(&mut self)
        requires
            old(self).wf(),
        ensures
            final(self).wf(),
            final(self)@ == Seq::<u8>::empty(),
    {
        self.idx = 0;
        assert(self@ =~= Seq::<u8>::empty());
    }
}

} // verus!
