//! A writable in-memory data sink.

use vstd::prelude::*;

verus! {

/// A writable stream endpoint: either a sink that discards everything, or a
/// growable byte vector. File and socket endpoints live outside the verified
/// core and take the serialized bytes as plain values.
#[derive(Debug)]
pub enum Sink {
    /// A writer that moves data into the void.
    Null,
    /// A vector sink that records everything written to it.
    Vector(Vec<u8>),
}

impl Sink {
    /// The bytes the sink has recorded. A discarding sink records nothing.
    pub open spec fn written(&self) -> Seq<u8> {
        match self {
            Sink::Null => Seq::empty(),
            Sink::Vector(v) => v@,
        }
    }

    /// Whether the sink records what is written to it.
    pub open spec fn records(&self) -> bool {
        self is Vector
    }

    /// Writes one byte to the sink.
    pub fn push_byte(&mut self, b: u8)
        ensures
            final(self).records() == old(self).records(),
            final(self).written() == old(self).written() + (
                if old(self).records() {
                    seq![b]
                } else {
                    Seq::<u8>::empty()
                }
            ),
    {
        match self {
            Sink::Null => {},
            Sink::Vector(v) => {
                v.push(b);
            },
        }
        proof {
            if old(self).records() {
                assert(self.written() =~= old(self).written() + seq![b]);
            } else {
                assert(self.written() =~= old(self).written() + Seq::<u8>::empty());
            }
        }
    }

    /// Writes all of `buf` to the sink.
    pub fn write_all(&mut self, buf: &[u8])
        ensures
            final(self).records() == old(self).records(),
            final(self).written() == old(self).written() + (
                if old(self).records() {
                    buf@
                } else {
                    Seq::<u8>::empty()
                }
            ),
    {
        let len = buf.len();
        let mut i: usize = 0;
        while i < len
            invariant
                len == buf@.len(),
                i <= len,
                self.records() == old(self).records(),
                self.written() == old(self).written() + (
                    if old(self).records() {
                        buf@.take(i as int)
                    } else {
                        Seq::<u8>::empty()
                    }
                ),
            decreases len - i,
        {
            self.push_byte(*vstd::slice::slice_index_get(buf, i));
            i = i + 1;
            proof {
                if old(self).records() {
                    assert(self.written() =~= old(self).written() + buf@.take(i as int));
                }
            }
        }
        proof {
            assert(buf@.take(len as int) =~= buf@);
        }
    }

    /// Flushes the sink. In-memory sinks hold nothing back.
    pub fn flush(&mut self)
        ensures
            *final(self) == *old(self),
    {
    }

    /// Takes the recorded bytes out of a vector sink; a discarding sink
    /// yields nothing.
    pub fn into_vec(self) -> (r: Option<Vec<u8>>)
        ensures
            match r {
                Some(v) => self.records() && v@ == self.written(),
                None => !self.records(),
            },
    {
        match self {
            Sink::Null => None,
            Sink::Vector(v) => Some(v),
        }
    }
}

impl Default for Sink {
    /// The default sink discards everything.
    fn default() -> (r: Self)
        ensures
            r is Null,
    {
        Sink::Null
    }
}

impl From<Vec<u8>> for Sink {
    /// A recording sink that appends to the given vector.
    fn from(v: Vec<u8>) -> (r: Self) {
        Sink::Vector(v)
    }
}

impl vstd::std_specs::convert::FromSpecImpl<Vec<u8>> for Sink {
    open spec fn obeys_from_spec() -> bool {
        true
    }

    open spec fn from_spec(v: Vec<u8>) -> Self {
        Sink::Vector(v)
    }
}

} // verus!
