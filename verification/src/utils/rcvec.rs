//! A reference-counted vector for lifetime-independent slices over one set
//! of elements: one owning allocation, many read-only views carrying a
//! shared handle and a range.

use vstd::prelude::*;
use std::rc::Rc;
use std::ops::Range;
use crate::bytes::data::{
    find_pat, is_ws, lemma_find_pat_none, lemma_find_pat_some, lemma_leading_ws_count,
    lemma_trailing_ws_count, matches_at, trim_spec, is_ws_byte,
};

verus! {

/// A reference-counted vector plus the referenced range within it. Cloning
/// or slicing shares the backing; nothing ever mutates through a view.
pub struct RcVec<T> {
    /// The shared data backing.
    backing: Rc<Vec<T>>,
    /// The referenced range within the backing.
    range: Range<usize>,
}

impl<T> RcVec<T> {
    /// The referenced elements.
    pub closed spec fn view(&self) -> Seq<T> {
        self.backing@.subrange(self.range.start as int, self.range.end as int)
    }

    /// The vector's internal invariant: the range never reaches past the
    /// backing.
    pub closed spec fn wf(&self) -> bool {
        self.range.start <= self.range.end <= self.backing@.len()
    }

    /// Creates a new shared vector over the whole of `vec`.
    pub fn new(vec: Vec<T>) -> (r: Self)
        ensures
            r.wf(),
            r@ == vec@,
    {
        let len = vec.len();
        let backing = Rc::new(vec);
        let r = Self { backing, range: 0..len };
        proof {
            assert(r@ =~= vec@);
        }
        r
    }

    /// The number of referenced elements.
    pub fn len(&self) -> (r: usize)
        requires
            self.wf(),
        ensures
            r == self@.len(),
    {
        self.range.end - self.range.start
    }

    /// Creates a view over the `[start, end)` slice of the current view,
    /// sharing the backing. Yields nothing exactly when the requested
    /// range does not fit the view.
    pub fn subvec(&self, start: usize, end: usize) -> (r: Option<Self>)
        requires
            self.wf(),
        ensures
            match r {
                Some(v) => start <= end <= self@.len() && v.wf() && v@ == self@.subrange(
                    start as int,
                    end as int,
                ),
                None => !(start <= end <= self@.len()),
            },
    {
        if start > end || end > self.range.end - self.range.start {
            return None;
        }
        let backing = self.backing.clone();
        assert(backing == self.backing);
        let r = Self {
            backing,
            range: (self.range.start + start)..(self.range.start + end),
        };
        proof {
            assert(r@ =~= self@.subrange(start as int, end as int));
        }
        Some(r)
    }

    /// The underlying backing and the referenced range.
    pub fn inner(&self) -> (r: (&Vec<T>, &Range<usize>))
        requires
            self.wf(),
        ensures
            r.1.start <= r.1.end <= r.0@.len(),
            self@ == r.0@.subrange(r.1.start as int, r.1.end as int),
    {
        ((&*self.backing), &self.range)
    }

    /// Destructures the vector into its backing and range when this view
    /// holds the only reference; hands the view back unchanged otherwise.
    pub fn try_into_inner(self) -> (r: Result<(Vec<T>, Range<usize>), Self>)
        requires
            self.wf(),
        ensures
            match r {
                Ok((v, range)) => range.start <= range.end <= v@.len() && self@ == v@.subrange(
                    range.start as int,
                    range.end as int,
                ),
                Err(same) => same == self,
            },
    {
        match Rc::try_unwrap(self.backing) {
            Ok(backing) => Ok((backing, self.range)),
            Err(backing) => Err(Self { backing, range: self.range }),
        }
    }
}

impl<T> Clone for RcVec<T> {
    /// Clones the view without copying the backing: the clone references
    /// the same elements.
    fn clone(&self) -> (r: Self)
        ensures
            r@ == self@,
            r.wf() == self.wf(),
    {
        let backing = self.backing.clone();
        assert(backing == self.backing);
        Self { backing, range: self.range.start..self.range.end }
    }
}

impl RcVec<u8> {
    /// The referenced byte at offset `i`.
    fn byte_at(&self, i: usize) -> (r: u8)
        requires
            self.wf(),
            i < self@.len(),
        ensures
            r == self@[i as int],
    {
        let backing_vec: &Vec<u8> = &*self.backing;
        backing_vec[self.range.start + i]
    }
}

/// An extension for splitting a shared byte vector on a pattern.
pub trait RcVecExt: Sized {
    /// The referenced bytes.
    spec fn bytes(&self) -> Seq<u8>;

    /// The vector's internal invariant.
    spec fn bytes_wf(&self) -> bool;

    /// Splits on the first occurrence of `pat`: yields the view before the
    /// pattern and leaves the view after it in `self`. Yields nothing and
    /// leaves `self` unchanged exactly when the pattern does not occur.
    fn split_off(&mut self, pat: &[u8]) -> (r: Option<Self>)
        requires
            old(self).bytes_wf(),
            pat@.len() >= 1,
        ensures
            final(self).bytes_wf(),
            match r {
                Some(prefix) => find_pat(old(self).bytes(), pat@, 0) matches Some(k)
                    && prefix.bytes_wf() && prefix.bytes() == old(self).bytes().take(k as int)
                    && final(self).bytes() == old(self).bytes().skip(k + pat@.len() as int),
                None => find_pat(old(self).bytes(), pat@, 0) is None && final(self).bytes()
                    == old(self).bytes(),
            },
    ;
}

/// Extensions for a shared vector of bytes.
pub trait RcVecU8Ext: RcVecExt {
    /// Strips leading and trailing ASCII whitespace; an all-whitespace
    /// input yields an empty view.
    fn trim(&self) -> (r: Self)
        requires
            self.bytes_wf(),
        ensures
            r.bytes_wf(),
            r.bytes() == trim_spec(self.bytes()),
    ;
}

impl RcVecExt for RcVec<u8> {
    open spec fn bytes(&self) -> Seq<u8> {
        self@
    }

    open spec fn bytes_wf(&self) -> bool {
        self.wf()
    }

    fn split_off(&mut self, pat: &[u8]) -> (r: Option<Self>) {
        let len = self.len();
        let patlen = pat.len();
        if patlen > len {
            proof {
                lemma_find_pat_none(old(self)@, pat@, 0);
            }
            return None;
        }
        let mut off: usize = 0;
        while off <= len - patlen
            invariant
                self == old(self),
                self.wf(),
                len == self@.len(),
                patlen == pat@.len(),
                1 <= patlen <= len,
                off <= len - patlen + 1,
                forall|j: int| 0 <= j < off ==> !matches_at(self@, pat@, j),
            decreases len - patlen + 1 - off,
        {
            let mut i: usize = 0;
            let mut is_match = true;
            while i < patlen
                invariant
                    self == old(self),
                    self.wf(),
                    len == self@.len(),
                    patlen == pat@.len(),
                    off + patlen <= len,
                    i <= patlen,
                    is_match == (forall|j: int| 0 <= j < i ==> self@[off + j] == pat@[j]),
                decreases patlen - i,
            {
                if self.byte_at(off + i) != *vstd::slice::slice_index_get(pat, i) {
                    is_match = false;
                    proof {
                        assert(self@[off + i as int] != pat@[i as int]);
                    }
                    i = patlen;
                } else {
                    proof {
                        if forall|j: int| 0 <= j < i ==> self@[off + j] == pat@[j] {
                            assert(forall|j: int|
                                0 <= j < i + 1 ==> self@[off + j] == pat@[j]);
                        }
                    }
                    i = i + 1;
                }
            }
            if is_match {
                proof {
                    assert(self@.subrange(off as int, off + pat@.len() as int) =~= pat@);
                    lemma_find_pat_some(self@, pat@, 0, off as nat);
                }
                let prefix = match self.subvec(0, off) {
                    Some(p) => p,
                    None => vstd::pervasive::unreached(),
                };
                let suffix = match self.subvec(off + patlen, len) {
                    Some(s) => s,
                    None => vstd::pervasive::unreached(),
                };
                proof {
                    assert(prefix@ =~= old(self)@.take(off as int));
                    assert(suffix@ =~= old(self)@.skip(off + pat@.len() as int));
                }
                *self = suffix;
                return Some(prefix);
            }
            off = off + 1;
        }
        proof {
            assert(forall|j: int| 0 <= j ==> !matches_at(old(self)@, pat@, j));
            lemma_find_pat_none(old(self)@, pat@, 0);
        }
        None
    }
}

impl RcVecU8Ext for RcVec<u8> {
    fn trim(&self) -> (r: Self) {
        let len = self.len();
        let mut lead: usize = 0;
        loop
            invariant
                self.wf(),
                len == self@.len(),
                lead <= len,
                forall|j: int| 0 <= j < lead ==> is_ws(#[trigger] self@[j]),
            ensures
                lead <= len,
                forall|j: int| 0 <= j < lead ==> is_ws(#[trigger] self@[j]),
                lead == len || !is_ws(self@[lead as int]),
            decreases len - lead,
        {
            if lead >= len {
                break;
            }
            if !is_ws_byte(self.byte_at(lead)) {
                break;
            }
            lead = lead + 1;
        }
        proof {
            lemma_leading_ws_count(self@, lead as nat);
        }
        let ghost rest = self@.skip(lead as int);
        let rest_len = len - lead;
        let mut trail: usize = 0;
        loop
            invariant
                self.wf(),
                len == self@.len(),
                lead <= len,
                rest == self@.skip(lead as int),
                rest_len == rest.len(),
                trail <= rest_len,
                forall|j: int| 0 <= j < trail ==> is_ws(#[trigger] rest[rest_len - 1 - j]),
            ensures
                trail <= rest_len,
                forall|j: int| 0 <= j < trail ==> is_ws(#[trigger] rest[rest_len - 1 - j]),
                trail == rest_len || !is_ws(rest[rest_len - 1 - trail]),
            decreases rest_len - trail,
        {
            if trail >= rest_len {
                break;
            }
            if !is_ws_byte(self.byte_at(len - 1 - trail)) {
                proof {
                    assert(rest[rest_len - 1 - trail] == self@[len - 1 - trail]);
                }
                break;
            }
            proof {
                assert(rest[rest_len - 1 - trail] == self@[len - 1 - trail]);
            }
            trail = trail + 1;
        }
        proof {
            lemma_trailing_ws_count(rest, trail as nat);
        }
        let d1 = match self.subvec(lead, len) {
            Some(d) => d,
            None => vstd::pervasive::unreached(),
        };
        proof {
            assert(d1@ =~= rest);
        }
        let r = match d1.subvec(0, rest_len - trail) {
            Some(d) => d,
            None => vstd::pervasive::unreached(),
        };
        proof {
            assert(r@ =~= trim_spec(self@));
        }
        r
    }
}

} // verus!
