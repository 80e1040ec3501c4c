use vstd::prelude::*;

verus! {

/// A growable byte store, read from the front and written at the back.
pub trait Buffer: Sized {
    /// The bytes currently held, oldest first.
    spec fn content(&self) -> Seq<u8>;

    /// Every byte currently held.
    fn view(&self) -> (bytes: &[u8])
        ensures
            bytes@ == self.content(),
    ;

    /// Drops the `n` oldest bytes.
    fn consume(&mut self, n: usize)
        requires
            n <= old(self).content().len(),
        ensures
            final(self).content() == old(self).content().skip(n as int),
    ;

    /// Adds `bytes` after the bytes already held.
    fn append(&mut self, bytes: &[u8])
        requires
            old(self).content().len() + bytes@.len() <= usize::MAX,
        ensures
            final(self).content() == old(self).content() + bytes@,
    ;

    /// How many bytes are held.
    fn len(&self) -> (n: usize)
        ensures
            n == self.content().len(),
    ;

    /// How many more bytes fit in the space already reserved.
    fn available(&self) -> (n: usize)
        ensures
            self.content().len() + n <= usize::MAX,
    ;

    /// Whether no byte is held.
    fn is_empty(&self) -> (empty: bool)
        ensures
            empty == (self.content().len() == 0),
    {
        self.len() == 0
    }
}

/// `Vec::capacity`, believed to report a capacity no smaller than the
/// length: std documents that a vector's length never exceeds the space it
/// has reserved. How much more it reserved is up to the allocator and is not
/// stated.
#[verifier::external_body]
fn vec_capacity(v: &Vec<u8>) -> (cap: usize)
    ensures
        cap >= v.len(),
{
    v.capacity()
}

/// The room left in a store of `cap` bytes that holds `len`.
pub fn spare(cap: usize, len: usize) -> (n: usize)
    requires
        len <= cap,
    ensures
        n == cap - len,
{
    cap - len
}

impl Buffer for Vec<u8> {
    open spec fn content(&self) -> Seq<u8> {
        vstd::view::View::view(self)
    }

    fn view(&self) -> (bytes: &[u8]) {
        self.as_slice()
    }

    fn consume(&mut self, n: usize) {
        let rest = self.split_off(n);
        *self = rest;
    }

    fn append(&mut self, bytes: &[u8]) {
        self.extend_from_slice(bytes);
        assert(self.content() =~= old(self).content() + bytes@);
    }

    fn len(&self) -> (n: usize) {
        self.len()
    }

    fn available(&self) -> (n: usize) {
        spare(vec_capacity(self), self.len())
    }
}

} // verus!
