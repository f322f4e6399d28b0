//! An immutable, cheaply cloneable byte container with several backing
//! strategies, together with the sequence-level specifications of its
//! slicing, splitting and trimming operations.

use vstd::prelude::*;
use std::sync::Arc;
use std::ops::Range;
use vstd::string::StringSliceAdditionalSpecFns;

verus! {

/// True iff `pat` occurs in `s` at offset `i`.
pub open spec fn matches_at(s: Seq<u8>, pat: Seq<u8>, i: int) -> bool {
    &&& 0 <= i
    &&& i + pat.len() <= s.len()
    &&& s.subrange(i, i + pat.len() as int) == pat
}

/// The first offset at or after `from` where `pat` occurs in `s`, if any.
pub open spec fn find_pat(s: Seq<u8>, pat: Seq<u8>, from: nat) -> Option<nat>
    decreases s.len() - from,
{
    if from + pat.len() > s.len() {
        None
    } else if pat.len() == 0 || s.subrange(from as int, from + pat.len() as int) == pat {
        Some(from)
    } else {
        find_pat(s, pat, (from + 1) as nat)
    }
}

/// Splitting `s` on the first occurrence of `pat`: the bytes before the
/// pattern and the bytes after it.
pub open spec fn split_at_pat(s: Seq<u8>, pat: Seq<u8>) -> Option<(Seq<u8>, Seq<u8>)> {
    match find_pat(s, pat, 0) {
        Some(k) => Some((s.take(k as int), s.skip(k + pat.len() as int))),
        None => None,
    }
}

/// True iff `b` is an ASCII whitespace byte: space, tab, line feed, form
/// feed or carriage return.
pub open spec fn is_ws(b: u8) -> bool {
    b == 32 || b == 9 || b == 10 || b == 12 || b == 13
}

/// The number of whitespace bytes at the front of `s`.
pub open spec fn leading_ws(s: Seq<u8>) -> nat
    decreases s.len(),
{
    if s.len() > 0 && is_ws(s[0]) {
        (1 + leading_ws(s.skip(1))) as nat
    } else {
        0
    }
}

/// The number of whitespace bytes at the back of `s`.
pub open spec fn trailing_ws(s: Seq<u8>) -> nat
    decreases s.len(),
{
    if s.len() > 0 && is_ws(s.last()) {
        (1 + trailing_ws(s.drop_last())) as nat
    } else {
        0
    }
}

/// `s` with leading and trailing ASCII whitespace removed.
pub open spec fn trim_spec(s: Seq<u8>) -> Seq<u8> {
    let rest = s.skip(leading_ws(s) as int);
    rest.take(rest.len() - trailing_ws(rest))
}

/// The lower-case image of an ASCII byte.
pub open spec fn to_lower(b: u8) -> u8 {
    if 65 <= b <= 90 {
        (b + 32) as u8
    } else {
        b
    }
}

/// ASCII-case-insensitive equality of two byte sequences.
pub open spec fn eq_ignore_case(a: Seq<u8>, b: Seq<u8>) -> bool {
    a.map_values(|x: u8| to_lower(x)) == b.map_values(|x: u8| to_lower(x))
}

/// A search that found a match at the first offset where one exists finds
/// exactly what `find_pat` names.
pub proof fn lemma_find_pat_some(s: Seq<u8>, pat: Seq<u8>, from: nat, k: nat)
    requires
        pat.len() >= 1,
        from <= k,
        matches_at(s, pat, k as int),
        forall|j: int| from <= j < k ==> !matches_at(s, pat, j),
    ensures
        find_pat(s, pat, from) == Some(k),
    decreases k - from,
{
    if from == k {
        assert(find_pat(s, pat, from) == Some(k));
    } else {
        assert(!matches_at(s, pat, from as int));
        assert(from + pat.len() <= s.len());
        lemma_find_pat_some(s, pat, (from + 1) as nat, k);
    }
}

/// A search that found no match anywhere finds exactly what `find_pat`
/// names: nothing.
pub proof fn lemma_find_pat_none(s: Seq<u8>, pat: Seq<u8>, from: nat)
    requires
        pat.len() >= 1,
        forall|j: int| from <= j ==> !matches_at(s, pat, j),
    ensures
        find_pat(s, pat, from) is None,
    decreases s.len() + pat.len() - from,
{
    if from + pat.len() > s.len() {
    } else {
        assert(!matches_at(s, pat, from as int));
        lemma_find_pat_none(s, pat, (from + 1) as nat);
    }
}

/// Whatever offset `find_pat` names is a match, and the first one at or
/// after `from`.
pub proof fn lemma_find_pat_ensures(s: Seq<u8>, pat: Seq<u8>, from: nat)
    requires
        pat.len() >= 1,
    ensures
        match find_pat(s, pat, from) {
            Some(k) => from <= k && matches_at(s, pat, k as int) && forall|j: int|
                from <= j < k ==> !matches_at(s, pat, j),
            None => forall|j: int| from <= j ==> !matches_at(s, pat, j),
        },
    decreases s.len() + pat.len() - from,
{
    if from + pat.len() > s.len() {
    } else if s.subrange(from as int, from + pat.len() as int) == pat {
    } else {
        lemma_find_pat_ensures(s, pat, (from + 1) as nat);
    }
}

/// How many whitespace bytes stand at the front: the count's basic shape.
pub proof fn lemma_leading_ws_props(s: Seq<u8>)
    ensures
        leading_ws(s) <= s.len(),
        forall|j: int| 0 <= j < leading_ws(s) ==> is_ws(#[trigger] s[j]),
        leading_ws(s) < s.len() ==> !is_ws(s[leading_ws(s) as int]),
    decreases s.len(),
{
    if s.len() > 0 && is_ws(s[0]) {
        lemma_leading_ws_props(s.skip(1));
        assert forall|j: int| 0 <= j < leading_ws(s) implies is_ws(#[trigger] s[j]) by {
            if j > 0 {
                assert(is_ws(s.skip(1)[j - 1]));
            }
        }
    }
}

/// How many whitespace bytes stand at the back: the count's basic shape.
pub proof fn lemma_trailing_ws_props(s: Seq<u8>)
    ensures
        trailing_ws(s) <= s.len(),
        forall|j: int| 0 <= j < trailing_ws(s) ==> is_ws(#[trigger] s[s.len() - 1 - j]),
        trailing_ws(s) < s.len() ==> !is_ws(s[s.len() - 1 - trailing_ws(s)]),
    decreases s.len(),
{
    if s.len() > 0 && is_ws(s.last()) {
        lemma_trailing_ws_props(s.drop_last());
        assert forall|j: int| 0 <= j < trailing_ws(s) implies is_ws(
            #[trigger] s[s.len() - 1 - j],
        ) by {
            if j > 0 {
                assert(is_ws(s.drop_last()[s.drop_last().len() - 1 - (j - 1)]));
            }
        }
    }
}

/// A scan that stopped at the first non-whitespace byte counted exactly
/// `leading_ws`.
pub proof fn lemma_leading_ws_count(s: Seq<u8>, n: nat)
    requires
        n <= s.len(),
        forall|j: int| 0 <= j < n ==> is_ws(#[trigger] s[j]),
        n == s.len() || !is_ws(s[n as int]),
    ensures
        leading_ws(s) == n,
    decreases n,
{
    if n == 0 {
    } else {
        assert(is_ws(s[0]));
        lemma_leading_ws_count(s.skip(1), (n - 1) as nat);
    }
}

/// A scan that stopped at the last non-whitespace byte counted exactly
/// `trailing_ws`.
pub proof fn lemma_trailing_ws_count(s: Seq<u8>, n: nat)
    requires
        n <= s.len(),
        forall|j: int| 0 <= j < n ==> is_ws(#[trigger] s[s.len() - 1 - j]),
        n == s.len() || !is_ws(s[s.len() - 1 - n]),
    ensures
        trailing_ws(s) == n,
    decreases n,
{
    if n == 0 {
    } else {
        assert(is_ws(s[s.len() - 1 - 0]));
        assert(is_ws(s.last()));
        assert forall|j: int|
            0 <= j < n - 1 implies is_ws(#[trigger] s.drop_last()[s.drop_last().len() - 1 - j]) by {
            assert(is_ws(s[s.len() - 1 - (j + 1)]));
        }
        if n < s.len() {
            assert(s.drop_last()[s.drop_last().len() - 1 - (n - 1)] == s[s.len() - 1 - n]);
        }
        lemma_trailing_ws_count(s.drop_last(), (n - 1) as nat);
    }
}

/// Trimming is idempotent: a trimmed value has no whitespace left at either
/// end, so trimming it again changes nothing.
pub proof fn lemma_trimmed_idempotent(s: Seq<u8>)
    ensures
        trim_spec(trim_spec(s)) == trim_spec(s),
{
    lemma_leading_ws_props(s);
    let l = leading_ws(s);
    let rest = s.skip(l as int);
    lemma_trailing_ws_props(rest);
    let t = trim_spec(s);
    if t.len() == 0 {
        lemma_leading_ws_count(t, 0);
        lemma_trailing_ws_count(t.skip(0), 0);
        assert(trim_spec(t) =~= t);
    } else {
        assert(t[0] == rest[0]);
        assert(!is_ws(t[0]));
        assert(t.last() == rest[rest.len() - 1 - trailing_ws(rest)]);
        assert(!is_ws(t.last()));
        lemma_leading_ws_count(t, 0);
        assert(t.skip(0) =~= t);
        lemma_trailing_ws_count(t, 0);
        assert(trim_spec(t) =~= t);
    }
}

/// Trimming an all-whitespace value yields the empty view.
pub proof fn lemma_trimmed_all_ws(s: Seq<u8>)
    requires
        forall|j: int| 0 <= j < s.len() ==> is_ws(#[trigger] s[j]),
    ensures
        trim_spec(s).len() == 0,
{
    lemma_leading_ws_count(s, s.len());
    assert(s.skip(s.len() as int) =~= Seq::<u8>::empty());
    lemma_trailing_ws_count(Seq::<u8>::empty(), 0);
}

/// An extension trait to create lifetime-independent subdata copies of a
/// byte container.
pub trait DataSliceExt: Sized {
    /// The realized bytes of the container.
    spec fn bytes(&self) -> Seq<u8>;

    /// The container's internal invariant.
    spec fn bytes_wf(&self) -> bool;

    /// Creates a container over the `[start, end)` slice of the current
    /// view, sharing the backing where the variant supports it. Yields
    /// nothing exactly when the requested range does not fit the view.
    fn subcopy(&self, start: usize, end: usize) -> (r: Option<Self>)
        requires
            self.bytes_wf(),
        ensures
            match r {
                Some(d) => start <= end <= self.bytes().len() && d.bytes_wf() && d.bytes()
                    == self.bytes().subrange(start as int, end as int),
                None => !(start <= end <= self.bytes().len()),
            },
    ;
}

/// Parsing extensions for a byte container: splitting on a pattern and
/// trimming whitespace.
pub trait DataParseExt: DataSliceExt {
    /// Splits on the first occurrence of `pat`: yields the prefix before the
    /// pattern and leaves the suffix after it in `self`. Yields nothing and
    /// leaves `self` unchanged exactly when the pattern does not occur.
    fn split_off(&mut self, pat: &[u8]) -> (r: Option<Self>)
        requires
            old(self).bytes_wf(),
            pat@.len() >= 1,
        ensures
            final(self).bytes_wf(),
            match r {
                Some(prefix) => find_pat(old(self).bytes(), pat@, 0) matches Some(k)
                    && prefix.bytes_wf() && prefix.bytes() == old(self).bytes().take(k as int)
                    && final(self).bytes() == old(self).bytes().skip(k + pat@.len() as int),
                None => find_pat(old(self).bytes(), pat@, 0) is None && *final(self) == *old(
                    self,
                ),
            },
    ;

    /// Strips leading and trailing ASCII whitespace; an all-whitespace input
    /// yields an empty view.
    fn trimmed(&self) -> (r: Self)
        requires
            self.bytes_wf(),
        ensures
            r.bytes_wf(),
            r.bytes() == trim_spec(self.bytes()),
    ;
}

/// A type-abstract owned byte value.
///
/// The variants trade generality for speed: `Empty` and `Static` allocate
/// nothing, `Vec` owns its buffer exclusively, and `ArcVec` shares one
/// reference-counted buffer between any number of range views, so slicing
/// and cloning it never copy bytes.
#[derive(Debug)]
pub enum Data {
    /// Zero bytes, no allocation.
    Empty,
    /// A heap buffer the container exclusively owns.
    Vec(Vec<u8>),
    /// A reference to memory with process lifetime.
    Static(&'static [u8]),
    /// A reference-counted buffer plus the referenced range within it.
    ArcVec {
        /// The shared backing buffer.
        backing: Arc<Vec<u8>>,
        /// The referenced range within the backing.
        range: Range<usize>,
    },
}

impl Data {
    /// The realized bytes of the container: what a reader of the value sees,
    /// independent of the backing strategy.
    pub open spec fn view(&self) -> Seq<u8> {
        match self {
            Data::Empty => Seq::empty(),
            Data::Vec(v) => v@,
            Data::Static(s) => s@,
            Data::ArcVec { backing, range } => backing@.subrange(
                range.start as int,
                range.end as int,
            ),
        }
    }

    /// The container's internal invariant: a range view never reaches past
    /// its backing buffer.
    pub open spec fn wf(&self) -> bool {
        match self {
            Data::ArcVec { backing, range } => range.start <= range.end <= backing@.len(),
            _ => true,
        }
    }

    /// Creates a new reference-counted container over the whole of `data`.
    pub fn new_arcvec(data: Vec<u8>) -> (r: Data)
        ensures
            r.wf(),
            r@ == data@,
            r is ArcVec,
    {
        let len = data.len();
        let backing = Arc::new(data);
        let r = Data::ArcVec { backing, range: 0..len };
        proof {
            assert(r@ =~= data@);
        }
        r
    }

    /// Creates a container over a static string's bytes.
    pub fn from_str(s: &'static str) -> (r: Data)
        ensures
            r.wf(),
            r@ == s.spec_bytes(),
    {
        Data::Static(s.as_bytes())
    }

    /// The number of realized bytes.
    pub fn len(&self) -> (r: usize)
        requires
            self.wf(),
        ensures
            r == self@.len(),
    {
        match self {
            Data::Empty => 0,
            Data::Vec(v) => v.len(),
            Data::Static(s) => s.len(),
            Data::ArcVec { backing, range } => range.end - range.start,
        }
    }

    /// Whether the container holds no bytes.
    pub fn is_empty(&self) -> (r: bool)
        requires
            self.wf(),
        ensures
            r == (self@.len() == 0),
    {
        self.len() == 0
    }

    /// The realized byte at offset `i`.
    pub fn byte_at(&self, i: usize) -> (r: u8)
        requires
            self.wf(),
            i < self@.len(),
        ensures
            r == self@[i as int],
    {
        match self {
            Data::Empty => 0,
            Data::Vec(v) => v[i],
            Data::Static(s) => *vstd::slice::slice_index_get(s, i),
            Data::ArcVec { backing, range } => {
                let backing_vec: &Vec<u8> = &*backing;
                backing_vec[range.start + i]
            },
        }
    }

    /// The realized bytes as a fresh owned vector.
    pub fn to_vec(&self) -> (r: Vec<u8>)
        requires
            self.wf(),
        ensures
            r@ == self@,
    {
        let len = self.len();
        let mut r: Vec<u8> = Vec::with_capacity(len);
        let mut i: usize = 0;
        while i < len
            invariant
                self.wf(),
                len == self@.len(),
                i <= len,
                r@ == self@.take(i as int),
            decreases len - i,
        {
            r.push(self.byte_at(i));
            proof {
                assert(r@ =~= self@.take(i + 1));
            }
            i = i + 1;
        }
        proof {
            assert(r@ =~= self@);
        }
        r
    }

    /// Byte-exact equality against a plain slice.
    pub fn eq_bytes(&self, other: &[u8]) -> (r: bool)
        requires
            self.wf(),
        ensures
            r == (self@ == other@),
    {
        let len = self.len();
        if len != other.len() {
            proof {
                assert(self@ != other@);
            }
            return false;
        }
        let mut i: usize = 0;
        while i < len
            invariant
                self.wf(),
                len == self@.len() == other@.len(),
                i <= len,
                forall|j: int| 0 <= j < i ==> self@[j] == other@[j],
            decreases len - i,
        {
            if self.byte_at(i) != *vstd::slice::slice_index_get(other, i) {
                return false;
            }
            i = i + 1;
        }
        proof {
            assert(self@ =~= other@);
        }
        true
    }

    /// ASCII-case-insensitive equality against a plain slice.
    pub fn eq_bytes_ignore_case(&self, other: &[u8]) -> (r: bool)
        requires
            self.wf(),
        ensures
            r == eq_ignore_case(self@, other@),
    {
        let len = self.len();
        let ghost a = self@.map_values(|x: u8| to_lower(x));
        let ghost b = other@.map_values(|x: u8| to_lower(x));
        if len != other.len() {
            proof {
                assert(a.len() != b.len());
            }
            return false;
        }
        let mut i: usize = 0;
        while i < len
            invariant
                self.wf(),
                len == self@.len() == other@.len(),
                a == self@.map_values(|x: u8| to_lower(x)),
                b == other@.map_values(|x: u8| to_lower(x)),
                i <= len,
                forall|j: int| 0 <= j < i ==> a[j] == b[j],
            decreases len - i,
        {
            let x = lower_byte(self.byte_at(i));
            let y = lower_byte(*vstd::slice::slice_index_get(other, i));
            if x != y {
                proof {
                    assert(a[i as int] != b[i as int]);
                }
                return false;
            }
            i = i + 1;
        }
        proof {
            assert(a =~= b);
        }
        true
    }
}

/// The lower-case image of an ASCII byte.
pub fn lower_byte(b: u8) -> (r: u8)
    ensures
        r == to_lower(b),
{
    if 65 <= b && b <= 90 {
        b + 32
    } else {
        b
    }
}

impl Clone for Data {
    /// Clones the container without copying shared backings: the clone
    /// realizes the same bytes.
    fn clone(&self) -> (r: Self)
        ensures
            r@ == self@,
            r.wf() == self.wf(),
    {
        match self {
            Data::Empty => Data::Empty,
            Data::Vec(v) => {
                let c = v.clone();
                assert(c@ == v@);
                Data::Vec(c)
            },
            Data::Static(s) => Data::Static(s),
            Data::ArcVec { backing, range } => {
                let b = backing.clone();
                assert(b == backing);
                Data::ArcVec { backing: b, range: range.start..range.end }
            },
        }
    }
}

/// Whether `b` is an ASCII whitespace byte.
pub fn is_ws_byte(b: u8) -> (r: bool)
    ensures
        r == is_ws(b),
{
    b == 32 || b == 9 || b == 10 || b == 12 || b == 13
}

impl Data {
    /// Whether `pat` occurs in the realized bytes at offset `off`.
    fn matches_here(&self, pat: &[u8], off: usize) -> (r: bool)
        requires
            self.wf(),
            off + pat@.len() <= self@.len(),
        ensures
            r == matches_at(self@, pat@, off as int),
    {
        let slen = self.len();
        let patlen = pat.len();
        let mut i: usize = 0;
        while i < patlen
            invariant
                self.wf(),
                slen == self@.len(),
                off + patlen <= slen,
                patlen == pat@.len(),
                i <= patlen,
                forall|j: int| 0 <= j < i ==> self@[off + j] == pat@[j],
            decreases patlen - i,
        {
            if self.byte_at(off + i) != *vstd::slice::slice_index_get(pat, i) {
                proof {
                    let sub = self@.subrange(off as int, off + pat@.len() as int);
                    assert(sub[i as int] != pat@[i as int]);
                }
                return false;
            }
            i = i + 1;
        }
        proof {
            assert(self@.subrange(off as int, off + pat@.len() as int) =~= pat@);
        }
        true
    }
}

impl DataSliceExt for Data {
    open spec fn bytes(&self) -> Seq<u8> {
        self@
    }

    open spec fn bytes_wf(&self) -> bool {
        self.wf()
    }

    fn subcopy(&self, start: usize, end: usize) -> (r: Option<Self>) {
        let len = self.len();
        if start > end || end > len {
            return None;
        }
        let r = match self {
            Data::Empty => Data::Empty,
            Data::Vec(v) => {
                let sub = vstd::slice::slice_subrange(v.as_slice(), start, end);
                Data::Vec(vstd::slice::slice_to_vec(sub))
            },
            Data::Static(s) => Data::Static(vstd::slice::slice_subrange(s, start, end)),
            Data::ArcVec { backing, range } => {
                let b = backing.clone();
                assert(b == backing);
                let r2 = Data::ArcVec { backing: b, range: (range.start + start)..(range.start
                    + end) };
                proof {
                    assert(r2@ =~= self@.subrange(start as int, end as int));
                }
                r2
            },
        };
        proof {
            if self is Empty {
                assert(r@ =~= self@.subrange(start as int, end as int));
            }
        }
        Some(r)
    }
}

impl DataParseExt for Data {
    fn split_off(&mut self, pat: &[u8]) -> (r: Option<Self>) {
        let len = self.len();
        let patlen = pat.len();
        if patlen > len {
            proof {
                lemma_find_pat_none(old(self)@, pat@, 0);
            }
            return None;
        }
        let mut off: usize = 0;
        while off <= len - patlen
            invariant
                self == old(self),
                self.wf(),
                len == self@.len(),
                patlen == pat@.len(),
                1 <= patlen <= len,
                off <= len - patlen + 1,
                forall|j: int| 0 <= j < off ==> !matches_at(self@, pat@, j),
            decreases len - patlen + 1 - off,
        {
            if self.matches_here(pat, off) {
                proof {
                    lemma_find_pat_some(self@, pat@, 0, off as nat);
                }
                let prefix = match self.subcopy(0, off) {
                    Some(p) => p,
                    None => vstd::pervasive::unreached(),
                };
                let suffix = match self.subcopy(off + patlen, len) {
                    Some(s) => s,
                    None => vstd::pervasive::unreached(),
                };
                proof {
                    assert(prefix@ =~= old(self)@.take(off as int));
                    assert(suffix@ =~= old(self)@.skip(off + pat@.len() as int));
                }
                *self = suffix;
                return Some(prefix);
            }
            off = off + 1;
        }
        proof {
            assert(forall|j: int| 0 <= j ==> !matches_at(old(self)@, pat@, j));
            lemma_find_pat_none(old(self)@, pat@, 0);
        }
        None
    }

    fn trimmed(&self) -> (r: Self) {
        let len = self.len();
        let mut lead: usize = 0;
        loop
            invariant
                self.wf(),
                len == self@.len(),
                lead <= len,
                forall|j: int| 0 <= j < lead ==> is_ws(#[trigger] self@[j]),
            ensures
                lead <= len,
                forall|j: int| 0 <= j < lead ==> is_ws(#[trigger] self@[j]),
                lead == len || !is_ws(self@[lead as int]),
            decreases len - lead,
        {
            if lead >= len {
                break;
            }
            if !is_ws_byte(self.byte_at(lead)) {
                break;
            }
            lead = lead + 1;
        }
        proof {
            lemma_leading_ws_count(self@, lead as nat);
        }
        let ghost rest = self@.skip(lead as int);
        let rest_len = len - lead;
        let mut trail: usize = 0;
        loop
            invariant
                self.wf(),
                len == self@.len(),
                lead <= len,
                rest == self@.skip(lead as int),
                rest_len == rest.len(),
                trail <= rest_len,
                forall|j: int| 0 <= j < trail ==> is_ws(#[trigger] rest[rest_len - 1 - j]),
            ensures
                trail <= rest_len,
                forall|j: int| 0 <= j < trail ==> is_ws(#[trigger] rest[rest_len - 1 - j]),
                trail == rest_len || !is_ws(rest[rest_len - 1 - trail]),
            decreases rest_len - trail,
        {
            if trail >= rest_len {
                break;
            }
            if !is_ws_byte(self.byte_at(len - 1 - trail)) {
                proof {
                    assert(rest[rest_len - 1 - trail] == self@[len - 1 - trail]);
                }
                break;
            }
            proof {
                assert(rest[rest_len - 1 - trail] == self@[len - 1 - trail]);
            }
            trail = trail + 1;
        }
        proof {
            lemma_trailing_ws_count(rest, trail as nat);
        }
        let d1 = match self.subcopy(lead, len) {
            Some(d) => d,
            None => vstd::pervasive::unreached(),
        };
        proof {
            assert(d1@ =~= rest);
        }
        let r = match d1.subcopy(0, rest_len - trail) {
            Some(d) => d,
            None => vstd::pervasive::unreached(),
        };
        proof {
            assert(r@ =~= trim_spec(self@));
        }
        r
    }
}

impl Default for Data {
    /// The default container is empty.
    fn default() -> (r: Self)
        ensures
            r is Empty,
            r@ == Seq::<u8>::empty(),
    {
        Data::Empty
    }
}

impl From<Vec<u8>> for Data {
    /// A container that takes exclusive ownership of the vector.
    fn from(value: Vec<u8>) -> (r: Self) {
        Data::Vec(value)
    }
}

impl vstd::std_specs::convert::FromSpecImpl<Vec<u8>> for Data {
    open spec fn obeys_from_spec() -> bool {
        true
    }

    open spec fn from_spec(value: Vec<u8>) -> Self {
        Data::Vec(value)
    }
}

impl From<&'static [u8]> for Data {
    /// A container over memory with process lifetime.
    fn from(value: &'static [u8]) -> (r: Self) {
        Data::Static(value)
    }
}

impl vstd::std_specs::convert::FromSpecImpl<&'static [u8]> for Data {
    open spec fn obeys_from_spec() -> bool {
        true
    }

    open spec fn from_spec(value: &'static [u8]) -> Self {
        Data::Static(value)
    }
}

} // verus!
