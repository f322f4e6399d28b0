//! The HTTP/1.1 request parser: a state machine over a byte stream whose
//! result is pinned, byte for byte, to a sequence-level parse function.

use vstd::prelude::*;
use crate::bytes::data::{
    Data, DataParseExt, eq_ignore_case, find_pat, matches_at, split_at_pat, trim_spec,
    lemma_find_pat_some, lemma_find_pat_ensures,
};
use crate::bytes::source::Source;
use crate::error::{Error, ErrorKind};
use crate::http::{colon, colon_pattern, crlf, crlf2, crlf_pattern, sp, sp_pattern, dec_value, is_digits, parse_dec_u64};
use vstd::string::StringSliceAdditionalSpecFns;

verus! {

/// The parsed pieces of a request header, as plain byte sequences.
pub struct ReqView {
    /// The request method.
    pub method: Seq<u8>,
    /// The request target.
    pub target: Seq<u8>,
    /// The protocol version.
    pub version: Seq<u8>,
    /// The header fields, in wire order, keys and values trimmed.
    pub fields: Seq<(Seq<u8>, Seq<u8>)>,
}

/// What the header-collection loop gathers from the stream's bytes `rem`
/// under the size limit `max`: everything up to and including the first
/// header terminator, the whole stream if it ends early, and nothing — a
/// "too large" failure — when `max` bytes pass without a terminator.
pub open spec fn collected_header(rem: Seq<u8>, max: nat) -> Option<Seq<u8>> {
    match find_pat(rem, crlf2(), 0) {
        Some(k) => if k + 4 <= max {
            Some(rem.take(k + 4 as int))
        } else {
            None
        },
        None => if rem.len() >= max {
            None
        } else {
            Some(rem)
        },
    }
}

/// Splitting one line off `h`: the bytes before the first line terminator
/// and the bytes after it.
pub open spec fn line_split_spec(h: Seq<u8>) -> Option<(Seq<u8>, Seq<u8>)> {
    split_at_pat(h, crlf())
}

/// Parsing the start line of `h`: the method, target and version parts
/// (untrimmed) and the remainder of the header after the line.
pub open spec fn start_line_spec(h: Seq<u8>) -> Result<
    ((Seq<u8>, Seq<u8>, Seq<u8>), Seq<u8>),
    ErrorKind,
> {
    match line_split_spec(h) {
        None => Err(ErrorKind::TruncatedStartLine),
        Some((line, rest)) => match split_at_pat(line, sp()) {
            None => Err(ErrorKind::InvalidStartLine),
            Some((method, line1)) => match split_at_pat(line1, sp()) {
                None => Err(ErrorKind::InvalidStartLine),
                Some((target, version)) => Ok(((method, target, version), rest)),
            },
        },
    }
}

/// Parsing one field line of `h`: the trimmed key and value, and the
/// remainder of the header after the line.
pub open spec fn field_line_spec(h: Seq<u8>) -> Result<
    ((Seq<u8>, Seq<u8>), Seq<u8>),
    ErrorKind,
> {
    match line_split_spec(h) {
        None => Err(ErrorKind::TruncatedField),
        Some((line, rest)) => match split_at_pat(line, colon()) {
            None => Err(ErrorKind::InvalidField),
            Some((key, value)) => Ok(((trim_spec(key), trim_spec(value)), rest)),
        },
    }
}

/// Parsing the field section of `h`: field lines in order until the bare
/// line terminator that ends the header.
pub open spec fn parse_fields_spec(h: Seq<u8>) -> Result<Seq<(Seq<u8>, Seq<u8>)>, ErrorKind>
    decreases h.len(),
    via parse_fields_spec_decreases
{
    if h == crlf() {
        Ok(Seq::empty())
    } else {
        match field_line_spec(h) {
            Err(k) => Err(k),
            Ok((kv, rest)) => match parse_fields_spec(rest) {
                Err(k) => Err(k),
                Ok(tail) => Ok(seq![kv] + tail),
            },
        }
    }
}

#[via_fn]
proof fn parse_fields_spec_decreases(h: Seq<u8>) {
    lemma_find_pat_ensures(h, crlf(), 0);
}

/// Parsing a whole header: the start line, then the fields; method, target
/// and version are trimmed.
pub open spec fn parse_request_spec(h: Seq<u8>) -> Result<ReqView, ErrorKind> {
    match start_line_spec(h) {
        Err(k) => Err(k),
        Ok(((method, target, version), rest)) => match parse_fields_spec(rest) {
            Err(k) => Err(k),
            Ok(fields) => Ok(
                ReqView {
                    method: trim_spec(method),
                    target: trim_spec(target),
                    version: trim_spec(version),
                    fields,
                },
            ),
        },
    }
}

/// The views of an ordered field list.
pub open spec fn fields_view(fs: Seq<(Data, Data)>) -> Seq<(Seq<u8>, Seq<u8>)> {
    fs.map_values(|p: (Data, Data)| (p.0@, p.1@))
}

/// The first field value whose key matches `name` ASCII-case-insensitively.
pub open spec fn lookup_field(fs: Seq<(Seq<u8>, Seq<u8>)>, name: Seq<u8>) -> Option<Seq<u8>>
    decreases fs.len(),
{
    if fs.len() == 0 {
        None
    } else if eq_ignore_case(fs[0].0, name) {
        Some(fs[0].1)
    } else {
        lookup_field(fs.skip(1), name)
    }
}

/// A parsed HTTP request: the raw header bytes stored once, and the method,
/// target, version and field views sliced out of that same backing without
/// copies. The connection's read half stays with the caller, positioned at
/// the first body byte.
#[derive(Debug)]
pub struct Request {
    /// The raw header bytes.
    pub header: Data,
    /// The method part of the request line.
    pub method: Data,
    /// The target part of the request line.
    pub target: Data,
    /// The version part of the request line.
    pub version: Data,
    /// The header fields, in wire order, keys and values trimmed.
    pub fields: Vec<(Data, Data)>,
}

impl Request {
    /// Every part of the request satisfies its container invariant.
    pub open spec fn wf(&self) -> bool {
        &&& self.header.wf()
        &&& self.method.wf()
        &&& self.target.wf()
        &&& self.version.wf()
        &&& forall|i: int|
            0 <= i < self.fields@.len() ==> (#[trigger] self.fields@[i]).0.wf()
                && self.fields@[i].1.wf()
    }

    /// The parsed pieces as plain byte sequences.
    pub open spec fn view(&self) -> ReqView {
        ReqView {
            method: self.method@,
            target: self.target@,
            version: self.version@,
            fields: fields_view(self.fields@),
        }
    }

    /// Reads one request header from the stream: every byte up to and
    /// including the first header terminator, or the whole stream if it
    /// ends first, or a "too large" error once `max` bytes pass without a
    /// terminator.
    fn read_header(stream: &mut Source, max: usize) -> (r: Result<Vec<u8>, Error>)
        requires
            old(stream).wf(),
            max >= 4,
        ensures
            final(stream).wf(),
            match r {
                Ok(h) => collected_header(old(stream).remaining(), max as nat) == Some(h@)
                    && final(stream).remaining() == old(stream).remaining().skip(h@.len() as int),
                Err(e) => e.kind == ErrorKind::HeaderTooLarge && collected_header(
                    old(stream).remaining(),
                    max as nat,
                ) is None && final(stream).remaining() == old(stream).remaining().skip(max as int),
            },
    {
        let ghost rem = old(stream).remaining();
        let mut header: Vec<u8> = Vec::new();
        let mut found = false;
        loop
            invariant_except_break
                !found,
                header@.len() < max,
                forall|j: int| 0 <= j && j + 4 <= header@.len() ==> !matches_at(rem, crlf2(), j),
            invariant
                rem == old(stream).remaining(),
                stream.wf(),
                max >= 4,
                header@.len() <= rem.len(),
                header@ == rem.take(header@.len() as int),
                stream.remaining() == rem.skip(header@.len() as int),
            ensures
                stream.wf(),
                header@.len() <= rem.len(),
                header@ == rem.take(header@.len() as int),
                stream.remaining() == rem.skip(header@.len() as int),
                header@.len() <= max,
                found ==> header@.len() >= 4 && matches_at(rem, crlf2(), header@.len() - 4)
                    && forall|j: int|
                    0 <= j && j + 4 < header@.len() ==> !matches_at(rem, crlf2(), j),
                !found ==> stream.remaining().len() == 0 && header@.len() < max && forall|j: int|
                    0 <= j && j + 4 <= header@.len() ==> !matches_at(rem, crlf2(), j),
            decreases stream.remaining().len(),
        {
            match stream.read_byte() {
                None => {
                    break;
                },
                Some(b) => {
                    header.push(b);
                    proof {
                        assert(header@ =~= rem.take(header@.len() as int));
                    }
                    let len = header.len();
                    if len >= 4 && ends_with_terminator(&header) {
                        proof {
                            let k = len - 4;
                            assert(rem.subrange(k as int, k + 4) =~= header@.subrange(
                                k as int,
                                k + 4,
                            ));
                            assert(matches_at(rem, crlf2(), k as int));
                        }
                        found = true;
                        break;
                    }
                    proof {
                        if len >= 4 {
                            let k = len - 4;
                            assert(header@.subrange(k as int, k + 4) =~= rem.subrange(
                                k as int,
                                k + 4,
                            ));
                            assert(!matches_at(rem, crlf2(), k as int));
                        }
                    }
                    if len == max {
                        proof {
                            assert(header@.len() == len && header@ == rem.take(len as int));
                            assert(header@.len() <= rem.len());
                            assert(stream.remaining() =~= rem.skip(max as int));
                            lemma_find_pat_ensures(rem, crlf2(), 0);
                            match find_pat(rem, crlf2(), 0) {
                                Some(k) => {
                                    if k + 4 <= max {
                                        assert(!matches_at(rem, crlf2(), k as int));
                                    }
                                },
                                None => {},
                            }
                        }
                        return Err(
                            Error::with_kind(ErrorKind::HeaderTooLarge, Data::Empty),
                        );
                    }
                },
            }
        }
        proof {
            let hl = header@.len();
            if found {
                let k = (hl - 4) as nat;
                lemma_find_pat_some(rem, crlf2(), 0, k);
                assert(header@ =~= rem.take(k + 4 as int));
            } else {
                assert(rem.skip(hl as int).len() == 0);
                assert(header@ =~= rem);
                lemma_find_pat_ensures(rem, crlf2(), 0);
                match find_pat(rem, crlf2(), 0) {
                    Some(k) => {
                        assert(!matches_at(rem, crlf2(), k as int));
                    },
                    None => {},
                }
            }
        }
        Ok(header)
    }
}

impl Request {
    /// Splits the start line off the header and cuts it at its two space
    /// separators: method, target and the line's remainder (the version,
    /// untrimmed). The header is left holding the field section.
    fn parse_start_line(header: &mut Data) -> (r: Result<(Data, Data, Data), Error>)
        requires
            old(header).wf(),
        ensures
            final(header).wf(),
            match r {
                Ok((m, t, v)) => m.wf() && t.wf() && v.wf() && start_line_spec(old(header)@)
                    == Ok::<_, ErrorKind>(((m@, t@, v@), final(header)@)),
                Err(e) => start_line_spec(old(header)@) matches Err(k) && e.kind == k,
            },
    {
        let crlf_pat = crlf_pattern();
        proof {
            assert(crlf_pat@ == crlf());
        }
        let mut line = match header.split_off(crlf_pat.as_slice()) {
            Some(l) => l,
            None => {
                return Err(Error::with_kind(ErrorKind::TruncatedStartLine, header.clone()));
            },
        };
        let sp_pat = sp_pattern();
        proof {
            assert(sp_pat@ == sp());
        }
        let method = match line.split_off(sp_pat.as_slice()) {
            Some(m) => m,
            None => {
                return Err(Error::with_kind(ErrorKind::InvalidStartLine, line.clone()));
            },
        };
        let target = match line.split_off(sp_pat.as_slice()) {
            Some(t) => t,
            None => {
                return Err(Error::with_kind(ErrorKind::InvalidStartLine, line.clone()));
            },
        };
        Ok((method, target, line))
    }

    /// Splits one field line off the header and cuts it at its colon: the
    /// trimmed key and value. The header is left holding the remaining
    /// field section.
    fn parse_field(header: &mut Data) -> (r: Result<(Data, Data), Error>)
        requires
            old(header).wf(),
        ensures
            final(header).wf(),
            match r {
                Ok((k, v)) => k.wf() && v.wf() && field_line_spec(old(header)@) == Ok::<
                    _,
                    ErrorKind,
                >(((k@, v@), final(header)@)),
                Err(e) => field_line_spec(old(header)@) matches Err(kk) && e.kind == kk,
            },
    {
        let crlf_pat = crlf_pattern();
        proof {
            assert(crlf_pat@ == crlf());
        }
        let mut line = match header.split_off(crlf_pat.as_slice()) {
            Some(l) => l,
            None => {
                return Err(Error::with_kind(ErrorKind::TruncatedField, header.clone()));
            },
        };
        let colon_pat = colon_pattern();
        proof {
            assert(colon_pat@ == colon());
        }
        let key = match line.split_off(colon_pat.as_slice()) {
            Some(k) => k,
            None => {
                return Err(Error::with_kind(ErrorKind::InvalidField, line.clone()));
            },
        };
        let key = key.trimmed();
        let value = line.trimmed();
        Ok((key, value))
    }

    /// Reads one HTTP request from the stream. A stream that ends before
    /// the first byte yields no request — the expected idle disconnect, not
    /// an error. Otherwise the collected header is parsed in place: the
    /// result's pieces are exactly what the sequence-level parse names, and
    /// the stream is left at the first body byte.
    #[verifier::loop_isolation(false)]
    pub fn from_stream(stream: &mut Source, header_size_max: usize) -> (r: Result<
        Option<Request>,
        Error,
    >)
        requires
            old(stream).wf(),
            header_size_max >= 4,
        ensures
            final(stream).wf(),
            ({
                let rem = old(stream).remaining();
                let max = header_size_max as nat;
                match collected_header(rem, max) {
                    None => r matches Err(e) && e.kind == ErrorKind::HeaderTooLarge
                        && final(stream).remaining() == rem.skip(max as int),
                    Some(h) => {
                        &&& final(stream).remaining() == rem.skip(h.len() as int)
                        &&& if h.len() == 0 {
                            r matches Ok(req) && req is None
                        } else {
                            match parse_request_spec(h) {
                                Ok(v) => r matches Ok(req) && req matches Some(req)
                                    && req.wf() && req.header@ == h && req@ == v,
                                Err(k) => r matches Err(e) && e.kind == k,
                            }
                        }
                    },
                }
            }),
    {
        let hvec = match Self::read_header(stream, header_size_max) {
            Ok(h) => h,
            Err(e) => {
                return Err(e);
            },
        };
        if hvec.len() == 0 {
            proof {
                assert(final(stream).remaining() =~= old(stream).remaining());
            }
            return Ok(None);
        }
        let header = Data::new_arcvec(hvec);
        let ghost h = header@;
        let mut parsing = header.clone();
        let (method, target, version) = match Self::parse_start_line(&mut parsing) {
            Ok(mtv) => mtv,
            Err(e) => {
                return Err(e);
            },
        };
        let method = method.trimmed();
        let target = target.trimmed();
        let version = version.trimmed();
        let ghost rest0 = parsing@;
        let mut fields: Vec<(Data, Data)> = Vec::new();
        let crlf_pat = crlf_pattern();
        proof {
            assert(crlf_pat@ == crlf());
        }
        loop
            invariant
                parsing.wf(),
                forall|i: int|
                    0 <= i < fields@.len() ==> (#[trigger] fields@[i]).0.wf()
                        && fields@[i].1.wf(),
                parse_fields_spec(rest0) == (match parse_fields_spec(parsing@) {
                    Ok(tail) => Ok::<_, ErrorKind>(fields_view(fields@) + tail),
                    Err(k) => Err(k),
                }),
            decreases parsing@.len(),
        {
            if parsing.eq_bytes(crlf_pat.as_slice()) {
                break;
            }
            let ghost cur = parsing@;
            match Self::parse_field(&mut parsing) {
                Err(e) => {
                    proof {
                        assert(parse_fields_spec(cur) matches Err(k) && k == e.kind);
                    }
                    return Err(e);
                },
                Ok((k, v)) => {
                    proof {
                        lemma_find_pat_ensures(cur, crlf(), 0);
                        match parse_fields_spec(parsing@) {
                            Ok(tail2) => {
                                assert(fields_view(fields@.push((k, v))) =~= fields_view(
                                    fields@,
                                ).push((k@, v@)));
                                assert(fields_view(fields@) + (seq![(k@, v@)] + tail2)
                                    =~= fields_view(fields@.push((k, v))) + tail2);
                            },
                            Err(_) => {},
                        }
                    }
                    fields.push((k, v));
                },
            }
        }
        proof {
            assert(fields_view(fields@) + Seq::<(Seq<u8>, Seq<u8>)>::empty() =~= fields_view(
                fields@,
            ));
        }
        Ok(Some(Request { header, method, target, version, fields }))
    }
}

impl Request {
    /// The first field whose key matches `name` ASCII-case-insensitively,
    /// if any.
    pub fn field(&self, name: &[u8]) -> (r: Option<&Data>)
        requires
            self.wf(),
        ensures
            match r {
                Some(v) => v.wf() && lookup_field(fields_view(self.fields@), name@) == Some(
                    v@,
                ),
                None => lookup_field(fields_view(self.fields@), name@) is None,
            },
    {
        let ghost fv = fields_view(self.fields@);
        proof {
            assert(fv.skip(0) =~= fv);
        }
        let len = self.fields.len();
        let mut i: usize = 0;
        while i < len
            invariant
                self.wf(),
                fv == fields_view(self.fields@),
                len == self.fields@.len(),
                i <= len,
                lookup_field(fv, name@) == lookup_field(fv.skip(i as int), name@),
            decreases len - i,
        {
            let pair = &self.fields[i];
            if pair.0.eq_bytes_ignore_case(name) {
                proof {
                    assert(fv.skip(i as int)[0] == fv[i as int]);
                }
                return Some(&pair.1);
            }
            proof {
                assert(fv.skip(i as int).skip(1) =~= fv.skip(i + 1));
                assert(fv.skip(i as int)[0] == fv[i as int]);
            }
            i = i + 1;
        }
        proof {
            assert(fv.skip(len as int).len() == 0);
        }
        None
    }

    /// The request's content length, if the field is set: the decimal value
    /// of the first `Content-Length` field, an error when that field's
    /// bytes are not a number the result type can hold.
    pub fn content_length(&self) -> (r: Result<Option<u64>, Error>)
        requires
            self.wf(),
        ensures
            match lookup_field(fields_view(self.fields@), "Content-Length".spec_bytes()) {
                None => r matches Ok(n) && n is None,
                Some(v) => if is_digits(v) && v.len() >= 1 && dec_value(v) <= u64::MAX {
                    r matches Ok(n) && n matches Some(n) && n == dec_value(v)
                } else {
                    r matches Err(e) && e.kind == ErrorKind::InvalidNumber
                },
            },
    {
        let raw = match self.field("Content-Length".as_bytes()) {
            None => {
                return Ok(None);
            },
            Some(raw) => raw,
        };
        match parse_dec_u64(raw) {
            Some(n) => Ok(Some(n)),
            None => Err(Error::with_kind(ErrorKind::InvalidNumber, raw.clone())),
        }
    }
}

/// Whether the last four bytes of `v` are the header terminator.
fn ends_with_terminator(v: &Vec<u8>) -> (r: bool)
    requires
        v@.len() >= 4,
    ensures
        r == (v@.subrange(v@.len() - 4, v@.len() as int) == crlf2()),
{
    let len = v.len();
    let r = v[len - 4] == 13u8 && v[len - 3] == 10u8 && v[len - 2] == 13u8 && v[len - 1]
        == 10u8;
    proof {
        let sub = v@.subrange(v@.len() - 4, v@.len() as int);
        if r {
            assert(sub =~= crlf2());
        } else {
            assert(sub == crlf2() ==> sub[0] == 13u8 && sub[1] == 10u8 && sub[2] == 13u8
                && sub[3] == 10u8);
        }
    }
    r
}

} // verus!
