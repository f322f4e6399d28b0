//! A readable in-memory data source.

use vstd::prelude::*;
use crate::bytes::data::Data;

verus! {

/// A readable stream endpoint over in-memory bytes: either nothing, or a
/// cursor over a byte container. File and socket endpoints live outside the
/// verified core and hand their bytes in as plain values.
#[derive(Debug)]
pub enum Source {
    /// An empty source.
    Empty,
    /// A cursor over a byte container.
    Data {
        /// The underlying bytes.
        data: Data,
        /// How many bytes have been consumed so far.
        pos: usize,
    },
}

impl Source {
    /// The source's internal invariant: the cursor never passes the end.
    pub open spec fn wf(&self) -> bool {
        match self {
            Source::Empty => true,
            Source::Data { data, pos } => data.wf() && pos <= data@.len(),
        }
    }

    /// The bytes that remain to be read.
    pub open spec fn remaining(&self) -> Seq<u8> {
        match self {
            Source::Empty => Seq::empty(),
            Source::Data { data, pos } => data@.skip(*pos as int),
        }
    }

    /// Reads the next byte, advancing the cursor; nothing at end of stream.
    pub fn read_byte(&mut self) -> (r: Option<u8>)
        requires
            old(self).wf(),
        ensures
            final(self).wf(),
            match r {
                Some(b) => old(self).remaining().len() > 0 && b == old(self).remaining()[0]
                    && final(self).remaining() == old(self).remaining().skip(1),
                None => old(self).remaining().len() == 0 && *final(self) == *old(self),
            },
    {
        let r = match self {
            Source::Empty => None,
            Source::Data { data, pos } => {
                if *pos < data.len() {
                    let b = data.byte_at(*pos);
                    *pos = *pos + 1;
                    Some(b)
                } else {
                    None
                }
            },
        };
        proof {
            if r is Some {
                assert(self.remaining() =~= old(self).remaining().skip(1));
            }
        }
        r
    }

    /// The number of bytes that remain, for sources whose length is known.
    /// Every in-memory source knows its length; endpoints that do not are
    /// outside the verified core and answer through their own adapters.
    pub fn get_len(&self) -> (r: Result<Option<u64>, crate::error::Error>)
        requires
            self.wf(),
        ensures
            r matches Ok(Some(n)) && n == self.remaining().len(),
    {
        match self {
            Source::Empty => Ok(Some(0)),
            Source::Data { data, pos } => {
                let len = data.len();
                Ok(Some((len - *pos) as u64))
            },
        }
    }

    /// Discards up to `n` bytes, advancing the cursor.
    pub fn skip(&mut self, n: usize)
        requires
            old(self).wf(),
        ensures
            final(self).wf(),
            final(self).remaining() == old(self).remaining().skip(
                vstd::math::min(n as int, old(self).remaining().len() as int),
            ),
    {
        match self {
            Source::Empty => {},
            Source::Data { data, pos } => {
                let len = data.len();
                let rest = len - *pos;
                if n < rest {
                    *pos = *pos + n;
                } else {
                    *pos = len;
                }
            },
        }
        proof {
            assert(self.remaining() =~= old(self).remaining().skip(
                vstd::math::min(n as int, old(self).remaining().len() as int),
            ));
        }
    }

    /// Reads and returns all remaining bytes, leaving the source empty.
    pub fn read_to_vec(&mut self) -> (r: Vec<u8>)
        requires
            old(self).wf(),
        ensures
            final(self).wf(),
            r@ == old(self).remaining(),
            final(self).remaining() == Seq::<u8>::empty(),
    {
        let mut r: Vec<u8> = Vec::new();
        loop
            invariant
                self.wf(),
                r@ + self.remaining() == old(self).remaining(),
            decreases self.remaining().len(),
        {
            let ghost before = self.remaining();
            match self.read_byte() {
                Some(b) => {
                    r.push(b);
                    proof {
                        assert(r@ + self.remaining() =~= old(self).remaining());
                    }
                },
                None => {
                    proof {
                        assert(r@ =~= old(self).remaining());
                        assert(self.remaining() =~= Seq::<u8>::empty());
                    }
                    return r;
                },
            }
        }
    }
}

impl Default for Source {
    /// The default source is empty.
    fn default() -> (r: Self)
        ensures
            r is Empty,
            r.wf(),
            r.remaining() == Seq::<u8>::empty(),
    {
        Source::Empty
    }
}

impl From<Data> for Source {
    /// A source that yields the container's bytes from the start.
    fn from(data: Data) -> (r: Self) {
        Source::Data { data, pos: 0 }
    }
}

impl vstd::std_specs::convert::FromSpecImpl<Data> for Source {
    open spec fn obeys_from_spec() -> bool {
        true
    }

    open spec fn from_spec(data: Data) -> Self {
        Source::Data { data, pos: 0 }
    }
}

} // verus!
