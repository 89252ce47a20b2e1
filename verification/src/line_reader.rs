//! Cutting a stream of bytes into segments.
//!
//! The reader is fed the bytes of a stream as they arrive, in pieces of any
//! size, and hands out the segments that are complete: the bytes in front of
//! each delimiter, without the delimiter. It never reads a stream itself.

use vstd::prelude::*;
use crate::text::{before_first, first_index, lemma_first_index, lemma_first_index_is};

verus! {

/// What is left of `pending` behind its first segment and that segment's
/// delimiter `delimiter`.
pub open spec fn after_first<T>(pending: Seq<T>, delimiter: T) -> Seq<T> {
    pending.skip(first_index(pending, delimiter) + 1)
}

/// The bytes that were fed and not handed out yet.
#[derive(Debug)]
pub struct LineReader {
    pending: Vec<u8>,
}

impl View for LineReader {
    type V = Seq<u8>;

    closed spec fn view(&self) -> Seq<u8> {
        self.pending@
    }
}

/// The index of the first `x` in `v`.
fn position(v: &Vec<u8>, x: u8) -> (r: Option<usize>)
    ensures
        match r {
            Some(i) => i < v@.len() && first_index(v@, x) == i,
            None => first_index(v@, x) == v@.len(),
        },
{
    let mut i: usize = 0;
    while i < v.len()
        invariant
            i <= v@.len(),
            forall|j: int| 0 <= j < i ==> v@[j] != x,
        decreases v@.len() - i,
    {
        if v[i] == x {
            proof {
                lemma_first_index_is(v@, x, i as int);
            }
            return Some(i);
        }
        i += 1;
    }
    proof {
        lemma_first_index_is(v@, x, i as int);
    }
    None
}

impl LineReader {
    /// A reader that holds no bytes.
    pub fn new() -> (r: Self)
        ensures
            r@ == Seq::<u8>::empty(),
    {
        LineReader { pending: Vec::new() }
    }

    /// The number of bytes held.
    pub fn len(&self) -> (r: usize)
        ensures
            r == self@.len(),
    {
        self.pending.len()
    }

    /// Takes `bytes` in, behind what is held already.
    pub fn feed(&mut self, bytes: &[u8])
        ensures
            final(self)@ == old(self)@ + bytes@,
    {
        let mut i: usize = 0;
        while i < bytes.len()
            invariant
                i <= bytes@.len(),
                self.pending@ == old(self).pending@ + bytes@.take(i as int),
            decreases bytes@.len() - i,
        {
            self.pending.push(bytes[i]);
            i += 1;
            assert(bytes@.take(i as int) =~= bytes@.take(i - 1).push(bytes@[i - 1]));
            assert(self.pending@ =~= old(self).pending@ + bytes@.take(i as int));
        }
        assert(bytes@.take(i as int) =~= bytes@);
    }

    /// Hands out the first segment that `delimiter` ends, if there is one:
    /// the bytes in front of the first `delimiter`. The segment and its
    /// delimiter leave the reader. Where no `delimiter` is held, nothing
    /// changes.
    pub fn next_segment(&mut self, delimiter: u8) -> (r: Option<Vec<u8>>)
        ensures
            r is Some <==> old(self)@.contains(delimiter),
            match r {
                Some(segment) => {
                    &&& segment@ == before_first(old(self)@, delimiter)
                    &&& final(self)@ == after_first(old(self)@, delimiter)
                },
                None => final(self)@ == old(self)@,
            },
    {
        proof {
            lemma_first_index(self.pending@, delimiter);
        }
        let held: usize = self.pending.len();
        match position(&self.pending, delimiter) {
            None => None,
            Some(i) => {
                assert(i < held);
                let mut rest = self.pending.split_off(i + 1);
                self.pending.pop();
                core::mem::swap(&mut self.pending, &mut rest);
                assert(rest@ =~= before_first(old(self)@, delimiter));
                assert(self.pending@ =~= after_first(old(self)@, delimiter));
                Some(rest)
            },
        }
    }

    /// Hands out all that is held and leaves the reader empty: what a stream
    /// that has ended left behind its last delimiter.
    pub fn take_rest(&mut self) -> (r: Vec<u8>)
        ensures
            r@ == old(self)@,
            final(self)@ == Seq::<u8>::empty(),
    {
        let mut rest: Vec<u8> = Vec::new();
        core::mem::swap(&mut self.pending, &mut rest);
        rest
    }
}

} // verus!
