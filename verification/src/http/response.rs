//! The HTTP/1.1 response type and serializer: construction helpers for the
//! canonical status lines, last-set field semantics, and a one-pass
//! serializer whose output is pinned, byte for byte, to a sequence-level
//! layout function.

use vstd::prelude::*;
use vstd::string::StringSliceAdditionalSpecFns;
use crate::bytes::data::{Data, eq_ignore_case};
use crate::bytes::sink::Sink;
use crate::bytes::source::Source;
use crate::error::{Error, ErrorKind};
use crate::http::{
    colon_sp, crlf, dec_digits, dec_value, is_digits, parse_dec_u64, sp, u64_to_dec,
};
use crate::http::request::{fields_view, lookup_field};

verus! {

/// The serialized form of a field list: each field as `key`, colon, space,
/// `value` and a line terminator, in order.
pub open spec fn fields_bytes(fs: Seq<(Seq<u8>, Seq<u8>)>) -> Seq<u8>
    decreases fs.len(),
{
    if fs.len() == 0 {
        Seq::empty()
    } else {
        fs[0].0 + colon_sp() + fs[0].1 + crlf() + fields_bytes(fs.skip(1))
    }
}

/// The serialized head of a response: the status line, the fields, and the
/// blank line that ends the header.
pub open spec fn head_bytes(
    version: Seq<u8>,
    status: Seq<u8>,
    reason: Seq<u8>,
    fs: Seq<(Seq<u8>, Seq<u8>)>,
) -> Seq<u8> {
    version + sp() + status + sp() + reason + crlf() + fields_bytes(fs) + crlf()
}

/// A field list with every entry whose key matches `key`
/// ASCII-case-insensitively removed.
pub open spec fn remove_key(fs: Seq<(Seq<u8>, Seq<u8>)>, key: Seq<u8>) -> Seq<
    (Seq<u8>, Seq<u8>),
>
    decreases fs.len(),
{
    if fs.len() == 0 {
        Seq::empty()
    } else if eq_ignore_case(fs[0].0, key) {
        remove_key(fs.skip(1), key)
    } else {
        seq![fs[0]] + remove_key(fs.skip(1), key)
    }
}

/// Whether a field list closes the connection: its first `Connection`
/// field, if any, has the value `Close`, both compared
/// ASCII-case-insensitively.
pub open spec fn has_close_spec(fs: Seq<(Seq<u8>, Seq<u8>)>) -> bool {
    match lookup_field(fs, "Connection".spec_bytes()) {
        Some(v) => eq_ignore_case(v, "Close".spec_bytes()),
        None => false,
    }
}

/// An HTTP response: version, status and reason as byte containers, an
/// ordered field list with last-set semantics, and a body source.
pub struct Response {
    /// The protocol version.
    pub version: Data,
    /// The status code, in decimal digits.
    pub status: Data,
    /// The status reason phrase.
    pub reason: Data,
    /// The header fields, in last-set order.
    pub fields: Vec<(Data, Data)>,
    /// The response body.
    pub body: Source,
}

impl Response {
    /// Every part of the response satisfies its container invariant.
    pub open spec fn wf(&self) -> bool {
        &&& self.version.wf()
        &&& self.status.wf()
        &&& self.reason.wf()
        &&& self.body.wf()
        &&& forall|i: int|
            0 <= i < self.fields@.len() ==> (#[trigger] self.fields@[i]).0.wf()
                && self.fields@[i].1.wf()
    }

    /// The serialized head of this response.
    pub open spec fn head(&self) -> Seq<u8> {
        head_bytes(self.version@, self.status@, self.reason@, fields_view(self.fields@))
    }

    /// Creates a new response with no fields and an empty body.
    pub fn new(version: Data, status: Data, reason: Data) -> (r: Self)
        requires
            version.wf(),
            status.wf(),
            reason.wf(),
        ensures
            r.wf(),
            r.version == version,
            r.status == status,
            r.reason == reason,
            r.fields@ == Seq::<(Data, Data)>::empty(),
            r.body.remaining() == Seq::<u8>::empty(),
    {
        Self { version, status, reason, fields: Vec::new(), body: Source::Empty }
    }

    /// Creates a new response with the given status code and reason, the
    /// version fixed at `HTTP/1.1`.
    pub fn new_status_reason(status: u16, reason: Data) -> (r: Self)
        requires
            reason.wf(),
        ensures
            r.wf(),
            r.version@ == "HTTP/1.1".spec_bytes(),
            r.status@ == dec_digits(status as nat),
            r.reason == reason,
            r.fields@ == Seq::<(Data, Data)>::empty(),
            r.body.remaining() == Seq::<u8>::empty(),
    {
        let version = Data::from_str("HTTP/1.1");
        let status = Data::Vec(u64_to_dec(status as u64));
        Self::new(version, status, reason)
    }

    /// Creates a new `200 OK` response.
    pub fn new_200_ok() -> (r: Self)
        ensures
            r.wf(),
            r.version@ == "HTTP/1.1".spec_bytes(),
            r.status@ == dec_digits(200),
            r.reason@ == "OK".spec_bytes(),
            r.fields@ == Seq::<(Data, Data)>::empty(),
            r.body.remaining() == Seq::<u8>::empty(),
    {
        Self::new_status_reason(200, Data::from_str("OK"))
    }

    /// Creates a new `307 Temporary Redirect` response with the `Location`
    /// field set to the given location.
    pub fn new_307_temporaryredirect(location: Data) -> (r: Self)
        requires
            location.wf(),
        ensures
            r.wf(),
            r.version@ == "HTTP/1.1".spec_bytes(),
            r.status@ == dec_digits(307),
            r.reason@ == "Temporary Redirect".spec_bytes(),
            fields_view(r.fields@) == Seq::<(Seq<u8>, Seq<u8>)>::empty().push(
                ("Location".spec_bytes(), location@),
            ),
            r.body.remaining() == Seq::<u8>::empty(),
    {
        let mut r = Self::new_status_reason(307, Data::from_str("Temporary Redirect"));
        r.set_field(Data::from_str("Location"), location);
        r
    }

    /// Creates a new `401 Unauthorized` response with the
    /// `WWW-Authenticate` field set to the given requirement.
    pub fn new_401_unauthorized(requirement: Data) -> (r: Self)
        requires
            requirement.wf(),
        ensures
            r.wf(),
            r.version@ == "HTTP/1.1".spec_bytes(),
            r.status@ == dec_digits(401),
            r.reason@ == "Unauthorized".spec_bytes(),
            fields_view(r.fields@) == Seq::<(Seq<u8>, Seq<u8>)>::empty().push(
                ("WWW-Authenticate".spec_bytes(), requirement@),
            ),
            r.body.remaining() == Seq::<u8>::empty(),
    {
        let mut r = Self::new_status_reason(401, Data::from_str("Unauthorized"));
        r.set_field(Data::from_str("WWW-Authenticate"), requirement);
        r
    }

    /// Creates a new `403 Forbidden` response.
    pub fn new_403_forbidden() -> (r: Self)
        ensures
            r.wf(),
            r.version@ == "HTTP/1.1".spec_bytes(),
            r.status@ == dec_digits(403),
            r.reason@ == "Forbidden".spec_bytes(),
            r.fields@ == Seq::<(Data, Data)>::empty(),
            r.body.remaining() == Seq::<u8>::empty(),
    {
        Self::new_status_reason(403, Data::from_str("Forbidden"))
    }

    /// Creates a new `404 Not Found` response.
    pub fn new_404_notfound() -> (r: Self)
        ensures
            r.wf(),
            r.version@ == "HTTP/1.1".spec_bytes(),
            r.status@ == dec_digits(404),
            r.reason@ == "Not Found".spec_bytes(),
            r.fields@ == Seq::<(Data, Data)>::empty(),
            r.body.remaining() == Seq::<u8>::empty(),
    {
        Self::new_status_reason(404, Data::from_str("Not Found"))
    }

    /// Creates a new `405 Method Not Allowed` response.
    pub fn new_405_methodnotallowed() -> (r: Self)
        ensures
            r.wf(),
            r.version@ == "HTTP/1.1".spec_bytes(),
            r.status@ == dec_digits(405),
            r.reason@ == "Method Not Allowed".spec_bytes(),
            r.fields@ == Seq::<(Data, Data)>::empty(),
            r.body.remaining() == Seq::<u8>::empty(),
    {
        Self::new_status_reason(405, Data::from_str("Method Not Allowed"))
    }

    /// Creates a new `413 Payload Too Large` response.
    pub fn new_413_payloadtoolarge() -> (r: Self)
        ensures
            r.wf(),
            r.version@ == "HTTP/1.1".spec_bytes(),
            r.status@ == dec_digits(413),
            r.reason@ == "Payload Too Large".spec_bytes(),
            r.fields@ == Seq::<(Data, Data)>::empty(),
            r.body.remaining() == Seq::<u8>::empty(),
    {
        Self::new_status_reason(413, Data::from_str("Payload Too Large"))
    }

    /// Creates a new `416 Range Not Satisfiable` response.
    pub fn new_416_rangenotsatisfiable() -> (r: Self)
        ensures
            r.wf(),
            r.version@ == "HTTP/1.1".spec_bytes(),
            r.status@ == dec_digits(416),
            r.reason@ == "Range Not Satisfiable".spec_bytes(),
            r.fields@ == Seq::<(Data, Data)>::empty(),
            r.body.remaining() == Seq::<u8>::empty(),
    {
        Self::new_status_reason(416, Data::from_str("Range Not Satisfiable"))
    }

    /// Creates a new `500 Internal Server Error` response.
    pub fn new_500_internalservererror() -> (r: Self)
        ensures
            r.wf(),
            r.version@ == "HTTP/1.1".spec_bytes(),
            r.status@ == dec_digits(500),
            r.reason@ == "Internal Server Error".spec_bytes(),
            r.fields@ == Seq::<(Data, Data)>::empty(),
            r.body.remaining() == Seq::<u8>::empty(),
    {
        Self::new_status_reason(500, Data::from_str("Internal Server Error"))
    }

    /// Sets a field: removes every prior field whose key matches
    /// ASCII-case-insensitively and appends the new pair, so field order
    /// reflects last-set position.
    pub fn set_field(&mut self, key: Data, value: Data)
        requires
            old(self).wf(),
            key.wf(),
            value.wf(),
        ensures
            final(self).wf(),
            fields_view(final(self).fields@) == remove_key(
                fields_view(old(self).fields@),
                key@,
            ).push((key@, value@)),
            final(self).version == old(self).version,
            final(self).status == old(self).status,
            final(self).reason == old(self).reason,
            final(self).body == old(self).body,
    {
        let ghost fv = fields_view(self.fields@);
        proof {
            assert(fv.skip(0) =~= fv);
        }
        let key_bytes = key.to_vec();
        let len = self.fields.len();
        let mut kept: Vec<(Data, Data)> = Vec::new();
        let mut i: usize = 0;
        while i < len
            invariant
                old(self).wf(),
                key.wf(),
                value.wf(),
                self == old(self),
                fv == fields_view(self.fields@),
                len == self.fields@.len(),
                key_bytes@ == key@,
                i <= len,
                forall|j: int|
                    0 <= j < kept@.len() ==> (#[trigger] kept@[j]).0.wf() && kept@[j].1.wf(),
                fields_view(kept@) + remove_key(fv.skip(i as int), key@) == remove_key(
                    fv,
                    key@,
                ),
            decreases len - i,
        {
            let pair = &self.fields[i];
            let ghost fvi = fv.skip(i as int);
            proof {
                assert(fvi[0] == fv[i as int]);
                assert(fvi.skip(1) =~= fv.skip(i + 1));
            }
            if !pair.0.eq_bytes_ignore_case(key_bytes.as_slice()) {
                let k2 = pair.0.clone();
                let v2 = pair.1.clone();
                kept.push((k2, v2));
                proof {
                    assert(fields_view(kept@) =~= fields_view(kept@.drop_last()).push(
                        (fv[i as int].0, fv[i as int].1),
                    ));
                    assert(fields_view(kept@.drop_last()) + (seq![fvi[0]] + remove_key(
                        fvi.skip(1),
                        key@,
                    )) =~= fields_view(kept@) + remove_key(fv.skip(i + 1), key@));
                }
            }
            i = i + 1;
        }
        proof {
            assert(remove_key(fv.skip(len as int), key@) =~= Seq::<(Seq<u8>, Seq<u8>)>::empty());
            assert(fields_view(kept@) + Seq::<(Seq<u8>, Seq<u8>)>::empty() =~= fields_view(
                kept@,
            ));
        }
        kept.push((key, value));
        self.fields = kept;
        proof {
            assert(fields_view(self.fields@) =~= remove_key(fv, key@).push((key@, value@)));
        }
    }

    /// Sets the `Content-Length` field to the decimal form of `len`.
    pub fn set_content_length(&mut self, len: u64)
        requires
            old(self).wf(),
        ensures
            final(self).wf(),
            fields_view(final(self).fields@) == remove_key(
                fields_view(old(self).fields@),
                "Content-Length".spec_bytes(),
            ).push(("Content-Length".spec_bytes(), dec_digits(len as nat))),
            final(self).version == old(self).version,
            final(self).status == old(self).status,
            final(self).reason == old(self).reason,
            final(self).body == old(self).body,
    {
        self.set_field(Data::from_str("Content-Length"), Data::Vec(u64_to_dec(len)));
    }

    /// Sets the `Connection` field to `Close`.
    pub fn set_connection_close(&mut self)
        requires
            old(self).wf(),
        ensures
            final(self).wf(),
            fields_view(final(self).fields@) == remove_key(
                fields_view(old(self).fields@),
                "Connection".spec_bytes(),
            ).push(("Connection".spec_bytes(), "Close".spec_bytes())),
            has_close_spec(fields_view(final(self).fields@)),
            final(self).version == old(self).version,
            final(self).status == old(self).status,
            final(self).reason == old(self).reason,
            final(self).body == old(self).body,
    {
        self.set_field(Data::from_str("Connection"), Data::from_str("Close"));
        proof {
            let fvold = fields_view(old(self).fields@);
            lemma_remove_key_all_removed(fvold, "Connection".spec_bytes());
            lemma_lookup_after_remove(
                remove_key(fvold, "Connection".spec_bytes()),
                "Connection".spec_bytes(),
                "Close".spec_bytes(),
            );
        }
    }

    /// Whether the response closes the connection: its first `Connection`
    /// field, if any, holds `Close`.
    pub fn has_connection_close(&self) -> (r: bool)
        requires
            self.wf(),
        ensures
            r == has_close_spec(fields_view(self.fields@)),
    {
        let ghost fv = fields_view(self.fields@);
        proof {
            assert(fv.skip(0) =~= fv);
        }
        let len = self.fields.len();
        let mut i: usize = 0;
        while i < len
            invariant
                self.wf(),
                fv == fields_view(self.fields@),
                len == self.fields@.len(),
                i <= len,
                lookup_field(fv, "Connection".spec_bytes()) == lookup_field(
                    fv.skip(i as int),
                    "Connection".spec_bytes(),
                ),
            decreases len - i,
        {
            let pair = &self.fields[i];
            proof {
                assert(fv.skip(i as int)[0] == fv[i as int]);
                assert(fv.skip(i as int).skip(1) =~= fv.skip(i + 1));
            }
            if pair.0.eq_bytes_ignore_case("Connection".as_bytes()) {
                return pair.1.eq_bytes_ignore_case("Close".as_bytes());
            }
            i = i + 1;
        }
        proof {
            assert(fv.skip(len as int).len() == 0);
        }
        false
    }

    /// The response's content length, if the field is set: the decimal
    /// value of the first `Content-Length` field, an error when that
    /// field's bytes are not a number the result type can hold.
    pub fn content_length(&self) -> (r: Result<Option<u64>, Error>)
        requires
            self.wf(),
        ensures
            match lookup_field(fields_view(self.fields@), "Content-Length".spec_bytes()) {
                None => r matches Ok(n) && n is None,
                Some(v) => if is_digits(v) && v.len() >= 1 && dec_value(v) <= u64::MAX {
                    r matches Ok(n) && n matches Some(n) && n == dec_value(v)
                } else {
                    r matches Err(e) && e.kind == ErrorKind::InvalidNumber
                },
            },
    {
        let ghost fv = fields_view(self.fields@);
        proof {
            assert(fv.skip(0) =~= fv);
        }
        let len = self.fields.len();
        let mut i: usize = 0;
        while i < len
            invariant
                self.wf(),
                fv == fields_view(self.fields@),
                len == self.fields@.len(),
                i <= len,
                lookup_field(fv, "Content-Length".spec_bytes()) == lookup_field(
                    fv.skip(i as int),
                    "Content-Length".spec_bytes(),
                ),
            decreases len - i,
        {
            let pair = &self.fields[i];
            proof {
                assert(fv.skip(i as int)[0] == fv[i as int]);
                assert(fv.skip(i as int).skip(1) =~= fv.skip(i + 1));
            }
            if pair.0.eq_bytes_ignore_case("Content-Length".as_bytes()) {
                return match parse_dec_u64(&pair.1) {
                    Some(n) => Ok(Some(n)),
                    None => Err(Error::with_kind(ErrorKind::InvalidNumber, pair.1.clone())),
                };
            }
            i = i + 1;
        }
        proof {
            assert(fv.skip(len as int).len() == 0);
        }
        Ok(None)
    }

    /// Sets the given source as body content. This does not touch the
    /// `Content-Length` field: the caller owns that decision.
    pub fn set_body(&mut self, body: Source)
        requires
            old(self).wf(),
            body.wf(),
        ensures
            final(self).wf(),
            final(self).body == body,
            final(self).version == old(self).version,
            final(self).status == old(self).status,
            final(self).reason == old(self).reason,
            final(self).fields == old(self).fields,
    {
        self.body = body;
    }

    /// Sets the given bytes as body content and the `Content-Length` field
    /// to their count.
    pub fn set_body_data(&mut self, data: Data)
        requires
            old(self).wf(),
            data.wf(),
        ensures
            final(self).wf(),
            final(self).body.remaining() == data@,
            fields_view(final(self).fields@) == remove_key(
                fields_view(old(self).fields@),
                "Content-Length".spec_bytes(),
            ).push(("Content-Length".spec_bytes(), dec_digits(data@.len()))),
            final(self).version == old(self).version,
            final(self).status == old(self).status,
            final(self).reason == old(self).reason,
    {
        let len = data.len();
        self.set_content_length(len as u64);
        self.set_body(Source::Data { data, pos: 0 });
        proof {
            assert(final(self).body.remaining() =~= data@);
        }
    }

    /// Turns a `GET` response into a `HEAD` response: discards the body
    /// without touching the content length.
    pub fn make_head(&mut self)
        requires
            old(self).wf(),
        ensures
            final(self).wf(),
            final(self).body.remaining() == Seq::<u8>::empty(),
            final(self).version == old(self).version,
            final(self).status == old(self).status,
            final(self).reason == old(self).reason,
            final(self).fields == old(self).fields,
    {
        self.body = Source::Empty;
    }

    /// The serialized head as an owned buffer: the status line, each
    /// field, and the blank line that ends the header.
    #[verifier::loop_isolation(false)]
    pub fn serialize_head(&self) -> (r: Vec<u8>)
        requires
            self.wf(),
        ensures
            r@ == self.head(),
    {
        let mut buf: Vec<u8> = Vec::new();
        append_data(&mut buf, &self.version);
        buf.push(32u8);
        append_data(&mut buf, &self.status);
        buf.push(32u8);
        append_data(&mut buf, &self.reason);
        buf.push(13u8);
        buf.push(10u8);
        let ghost fv = fields_view(self.fields@);
        proof {
            assert(buf@ =~= self.version@ + sp() + self.status@ + sp() + self.reason@
                + crlf());
        }
        let ghost head_start = buf@;
        proof {
            assert(fv.skip(0) =~= fv);
        }
        let len = self.fields.len();
        let mut i: usize = 0;
        while i < len
            invariant
                i <= len,
                buf@ + fields_bytes(fv.skip(i as int)) == head_start + fields_bytes(fv),
            decreases len - i,
        {
            let pair = &self.fields[i];
            let ghost fvi = fv.skip(i as int);
            proof {
                assert(fvi[0] == fv[i as int]);
                assert(fvi.skip(1) =~= fv.skip(i + 1));
            }
            let ghost before = buf@;
            append_data(&mut buf, &pair.0);
            buf.push(58u8);
            buf.push(32u8);
            append_data(&mut buf, &pair.1);
            buf.push(13u8);
            buf.push(10u8);
            proof {
                assert(buf@ =~= before + (fvi[0].0 + colon_sp() + fvi[0].1 + crlf()));
                assert(buf@ + fields_bytes(fv.skip(i + 1)) =~= before + fields_bytes(fvi));
            }
            i = i + 1;
        }
        proof {
            assert(fields_bytes(fv.skip(len as int)) =~= Seq::<u8>::empty());
            assert(buf@ + Seq::<u8>::empty() =~= buf@);
        }
        buf.push(13u8);
        buf.push(10u8);
        proof {
            assert(buf@ =~= self.head());
        }
        buf
    }

    /// Serializes the response into the sink in one pass: the status line,
    /// each field, the blank line, then the body bytes, which are consumed.
    pub fn to_stream(&mut self, stream: &mut Sink) -> (r: Result<(), Error>)
        requires
            old(self).wf(),
        ensures
            final(self).wf(),
            r is Ok,
            final(self).body.remaining() == Seq::<u8>::empty(),
            final(self).version == old(self).version,
            final(self).status == old(self).status,
            final(self).reason == old(self).reason,
            final(self).fields == old(self).fields,
            final(stream).records() == old(stream).records(),
            final(stream).written() == old(stream).written() + (
                if old(stream).records() {
                    old(self).head() + old(self).body.remaining()
                } else {
                    Seq::<u8>::empty()
                }
            ),
    {
        let head = self.serialize_head();
        stream.write_all(head.as_slice());
        let body_bytes = self.body.read_to_vec();
        stream.write_all(body_bytes.as_slice());
        proof {
            if old(stream).records() {
                assert(stream.written() =~= old(stream).written() + (old(self).head() + old(
                    self,
                ).body.remaining()));
            } else {
                assert(stream.written() =~= old(stream).written() + Seq::<u8>::empty());
            }
        }
        Ok(())
    }
}

/// Looking a key up in a list from which it was removed and then appended
/// finds the appended value.
pub proof fn lemma_lookup_after_remove(cleaned: Seq<(Seq<u8>, Seq<u8>)>, key: Seq<u8>, value: Seq<u8>)
    requires
        forall|i: int| 0 <= i < cleaned.len() ==> !eq_ignore_case((#[trigger] cleaned[i]).0, key),
    ensures
        lookup_field(cleaned.push((key, value)), key) == Some(value),
    decreases cleaned.len(),
{
    let whole = cleaned.push((key, value));
    if cleaned.len() == 0 {
        assert(eq_ignore_case(whole[0].0, key));
    } else {
        assert(!eq_ignore_case(whole[0].0, key));
        assert(whole.skip(1) =~= cleaned.skip(1).push((key, value)));
        lemma_lookup_after_remove(cleaned.skip(1), key, value);
    }
}

/// Every entry of a cleaned list misses the removed key.
pub proof fn lemma_remove_key_all_removed(fs: Seq<(Seq<u8>, Seq<u8>)>, key: Seq<u8>)
    ensures
        forall|i: int|
            0 <= i < remove_key(fs, key).len() ==> !eq_ignore_case(
                (#[trigger] remove_key(fs, key)[i]).0,
                key,
            ),
    decreases fs.len(),
{
    if fs.len() > 0 {
        lemma_remove_key_all_removed(fs.skip(1), key);
        let r = remove_key(fs, key);
        if eq_ignore_case(fs[0].0, key) {
            assert forall|i: int| 0 <= i < r.len() implies !eq_ignore_case(
                (#[trigger] r[i]).0,
                key,
            ) by {
                assert(r[i] == remove_key(fs.skip(1), key)[i]);
            }
        } else {
            assert forall|i: int| 0 <= i < r.len() implies !eq_ignore_case(
                (#[trigger] r[i]).0,
                key,
            ) by {
                if i > 0 {
                    assert(r[i] == remove_key(fs.skip(1), key)[i - 1]);
                }
            }
        }
    }
}

/// Appends a container's realized bytes to a buffer.
fn append_data(buf: &mut Vec<u8>, d: &Data)
    requires
        d.wf(),
    ensures
        final(buf)@ == old(buf)@ + d@,
{
    let len = d.len();
    let mut i: usize = 0;
    while i < len
        invariant
            d.wf(),
            len == d@.len(),
            i <= len,
            buf@ == old(buf)@ + d@.take(i as int),
        decreases len - i,
    {
        buf.push(d.byte_at(i));
        i = i + 1;
        proof {
            assert(buf@ =~= old(buf)@ + d@.take(i as int));
        }
    }
    proof {
        assert(old(buf)@ + d@.take(len as int) =~= old(buf)@ + d@);
    }
}

} // verus!
