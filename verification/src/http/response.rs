//! Responses and their wire format.

use crate::http::headers::{from_pairs, lemma_position, position, put, Fields, Headers};
use crate::http::request::is_content_length;
use crate::text::{decimal, same_ignoring_case, to_decimal};
use vstd::prelude::*;
use vstd::string::StringExecFns;
use vstd::utf8::encode_utf8;

verus! {

/// The status codes that a response can carry.
#[derive(Debug, Clone, Copy, PartialEq, Eq, Structural)]
pub enum ResponseCode {
    OK,
    Created,
    Accepted,
    MovedPermanently,
    NotModified,
    BadRequest,
    Unauthorized,
    Forbidden,
    NotFound,
    MethodNotSupported,
    InternalServerError,
}

/// The number of a status code and its reason phrase, as they stand in a
/// status line.
pub open spec fn status_text(code: ResponseCode) -> Seq<char> {
    match code {
        ResponseCode::OK => "200 OK"@,
        ResponseCode::Created => "201 Created"@,
        ResponseCode::Accepted => "202 Accepted"@,
        ResponseCode::MovedPermanently => "301 Moved Permanently"@,
        ResponseCode::NotModified => "304 Not Modified"@,
        ResponseCode::BadRequest => "400 Bad Request"@,
        ResponseCode::Unauthorized => "401 Unauthorized"@,
        ResponseCode::Forbidden => "403 Forbidden"@,
        ResponseCode::NotFound => "404 Not Found"@,
        ResponseCode::MethodNotSupported => "405 Method Not Supported"@,
        ResponseCode::InternalServerError => "500 Internal Server Error"@,
    }
}

impl ResponseCode {
    /// The number of the code and its reason phrase.
    pub fn to_string(&self) -> (text: String)
        ensures
            text@ == status_text(*self),
    {
        let text = match self {
            ResponseCode::OK => "200 OK",
            ResponseCode::Created => "201 Created",
            ResponseCode::Accepted => "202 Accepted",
            ResponseCode::MovedPermanently => "301 Moved Permanently",
            ResponseCode::NotModified => "304 Not Modified",
            ResponseCode::BadRequest => "400 Bad Request",
            ResponseCode::Unauthorized => "401 Unauthorized",
            ResponseCode::Forbidden => "403 Forbidden",
            ResponseCode::NotFound => "404 Not Found",
            ResponseCode::MethodNotSupported => "405 Method Not Supported",
            ResponseCode::InternalServerError => "500 Internal Server Error",
        };
        text.to_owned()
    }
}

/// A response as mathematics.
pub struct ResponseView {
    pub code: ResponseCode,
    pub headers: Fields,
    pub body: Seq<char>,
}

/// No field of `fields` declares the length of the body.
pub open spec fn no_content_length(fields: Fields) -> bool {
    forall|i: int| 0 <= i < fields.len() ==> !is_content_length((#[trigger] fields[i]).0)
}

/// The pairs that a caller can set: those of `pairs` that do not declare the
/// length of the body, in their order.
pub open spec fn settable(pairs: Fields) -> Fields
    decreases pairs.len(),
{
    if pairs.len() == 0 {
        Seq::empty()
    } else if is_content_length(pairs.last().0) {
        settable(pairs.drop_last())
    } else {
        settable(pairs.drop_last()).push(pairs.last())
    }
}

/// Where no pair declares the length of the body, all pairs can be set.
pub proof fn theorem_all_settable(pairs: Fields)
    requires
        no_content_length(pairs),
    ensures
        settable(pairs) == pairs,
    decreases pairs.len(),
{
    if pairs.len() > 0 {
        let shorter = pairs.drop_last();
        assert forall|i: int| 0 <= i < shorter.len() implies !is_content_length(
            (#[trigger] shorter[i]).0,
        ) by {
            assert(shorter[i] == pairs[i]);
        }
        theorem_all_settable(shorter);
        assert(!is_content_length(pairs[pairs.len() - 1].0));
        assert(shorter.push(pairs.last()) =~= pairs);
    }
}

/// The header line of a field: the name, a colon and a space, the value, the
/// line end.
pub open spec fn field_line(field: (Seq<char>, Seq<char>)) -> Seq<char> {
    field.0 + ": "@ + field.1 + "\r\n"@
}

/// The header lines of `fields`, one after another.
pub open spec fn header_lines(fields: Fields) -> Seq<char>
    decreases fields.len(),
{
    if fields.len() == 0 {
        Seq::empty()
    } else {
        header_lines(fields.drop_last()) + field_line(fields.last())
    }
}

/// The header lines of two lists of fields, one after the other, are the
/// header lines of the two lists joined.
pub proof fn theorem_header_lines_of_joined(first: Fields, second: Fields)
    ensures
        header_lines(first + second) == header_lines(first) + header_lines(second),
    decreases second.len(),
{
    if second.len() == 0 {
        assert(first + second =~= first);
        assert(header_lines(first) + header_lines(second) =~= header_lines(first));
    } else {
        theorem_header_lines_of_joined(first, second.drop_last());
        assert((first + second).drop_last() =~= first + second.drop_last());
        assert((first + second).last() == second.last());
        assert(header_lines(first + second) =~= header_lines(first) + header_lines(second));
    }
}

/// Each field has its line among the header lines, once, at its place.
pub proof fn theorem_each_field_has_its_line(fields: Fields, i: int)
    requires
        0 <= i < fields.len(),
    ensures
        header_lines(fields) == header_lines(fields.take(i)) + field_line(fields[i])
            + header_lines(fields.skip(i + 1)),
{
    let upto = fields.take(i + 1);
    assert(fields =~= upto + fields.skip(i + 1));
    theorem_header_lines_of_joined(upto, fields.skip(i + 1));
    assert(upto.drop_last() =~= fields.take(i));
    assert(upto.last() == fields[i]);
}

/// The message that goes over the wire for `response`: the status line, the
/// header lines, the length of the body in bytes, an empty line, the body.
pub open spec fn wire_format(response: ResponseView) -> Seq<char> {
    "HTTP/1.1 "@ + status_text(response.code) + "\r\n"@ + header_lines(response.headers)
        + "Content-Length: "@ + decimal(encode_utf8(response.body).len()) + "\r\n\r\n"@
        + response.body
}

/// The pairs of `pairs` as mathematics.
pub open spec fn pairs_of(pairs: Seq<(String, String)>) -> Fields {
    Seq::new(pairs.len(), |i: int| (pairs[i].0@, pairs[i].1@))
}

/// Storing a field that declares no length adds no length declaration.
proof fn lemma_put_no_content_length(fields: Fields, name: Seq<char>, value: Seq<char>)
    requires
        no_content_length(fields),
        !is_content_length(name),
    ensures
        no_content_length(put(fields, name, value)),
{
    lemma_position(fields, name, 0);
    let after = put(fields, name, value);
    assert forall|i: int| 0 <= i < after.len() implies !is_content_length(
        (#[trigger] after[i]).0,
    ) by {
        if i < fields.len() && i != position(fields, name, 0) {
            assert(after[i] == fields[i]);
        }
    }
}

/// A response under construction: a status code, header fields beside the
/// length of the body, and a body.
#[derive(Debug)]
pub struct Response {
    code: ResponseCode,
    headers: Headers,
    body: String,
}

impl View for Response {
    type V = ResponseView;

    closed spec fn view(&self) -> ResponseView {
        ResponseView { code: self.code, headers: self.headers@, body: self.body@ }
    }
}

impl Response {
    #[verifier::type_invariant]
    closed spec fn length_is_no_field(&self) -> bool {
        no_content_length(self.headers@)
    }

    /// A response with the code 200 and no header fields.
    pub fn ok(body: String) -> (r: Self)
        ensures
            r@ == (ResponseView { code: ResponseCode::OK, headers: Seq::empty(), body: body@ }),
    {
        Self::with_code(ResponseCode::OK, body)
    }

    /// A response with the given code and no header fields.
    pub fn with_code(code: ResponseCode, body: String) -> (r: Self)
        ensures
            r@ == (ResponseView { code, headers: Seq::empty(), body: body@ }),
    {
        Self { code, headers: Headers::new(), body }
    }

    /// Replaces the header fields by `headers`, stored one after another: of
    /// two pairs with one name the later one wins.
    ///
    /// The length of the body is not for the caller to set: `serialize`
    /// writes it, and a pair that declares it is left out here.
    pub fn headers(&mut self, headers: Vec<(String, String)>)
        ensures
            final(self)@ == (ResponseView {
                code: old(self)@.code,
                headers: from_pairs(settable(pairs_of(headers@))),
                body: old(self)@.body,
            }),
    {
        let mut fields = Headers::new();
        let mut i: usize = 0;
        while i < headers.len()
            invariant
                i <= headers.len(),
                fields@ == from_pairs(settable(pairs_of(headers@).take(i as int))),
                no_content_length(fields@),
            decreases headers.len() - i,
        {
            proof {
                let pairs = pairs_of(headers@);
                assert(pairs.take(i + 1).drop_last() == pairs.take(i as int));
                assert(pairs[i as int] == (headers@[i as int].0@, headers@[i as int].1@));
            }
            if !same_ignoring_case(headers[i].0.as_str(), "content-length") {
                proof {
                    lemma_put_no_content_length(
                        fields@,
                        headers@[i as int].0@,
                        headers@[i as int].1@,
                    );
                    let kept = settable(pairs_of(headers@).take(i as int));
                    assert(kept.push(pairs_of(headers@)[i as int]).drop_last() == kept);
                }
                fields.insert(headers[i].0.clone(), headers[i].1.clone());
            }
            i += 1;
        }
        proof {
            assert(pairs_of(headers@).take(i as int) == pairs_of(headers@));
        }
        self.headers = fields;
    }

    /// The status code.
    pub fn code(&self) -> (code: ResponseCode)
        ensures
            code == self@.code,
    {
        self.code
    }

    /// The header fields.
    pub fn header_fields(&self) -> (fields: &Headers)
        ensures
            fields@ == self@.headers,
            no_content_length(fields@),
    {
        proof {
            use_type_invariant(self);
        }
        &self.headers
    }

    /// The body.
    pub fn body(&self) -> (body: &String)
        ensures
            body@ == self@.body,
    {
        &self.body
    }

    /// The length of the body in bytes.
    pub fn length(&self) -> (n: usize)
        ensures
            n == encode_utf8(self@.body).len(),
    {
        self.body.as_str().as_bytes().len()
    }

    /// Writes the response as it goes over the wire. The length of the body
    /// stands in it once: no header field declares it.
    pub fn serialize(&self) -> (wire: String)
        ensures
            wire@ == wire_format(self@),
            no_content_length(self@.headers),
    {
        proof {
            use_type_invariant(self);
        }
        let mut wire = String::from_str("HTTP/1.1 ");
        wire.append(self.code.to_string().as_str());
        wire.append("\r\n");
        let ghost head = wire@;
        let count = self.headers.len();
        let mut i: usize = 0;
        while i < count
            invariant
                i <= count,
                count == self.headers@.len(),
                head == "HTTP/1.1 "@ + status_text(self.code) + "\r\n"@,
                wire@ == head + header_lines(self.headers@.take(i as int)),
            decreases count - i,
        {
            proof {
                let fields = self.headers@;
                assert(fields.take(i + 1).drop_last() == fields.take(i as int));
            }
            let ghost before = wire@;
            wire.append(self.headers.name_at(i).as_str());
            wire.append(": ");
            wire.append(self.headers.value_at(i).as_str());
            wire.append("\r\n");
            proof {
                let fields = self.headers@;
                assert(fields.take(i + 1).last() == fields[i as int]);
                assert(wire@ =~= head + header_lines(fields.take(i + 1)));
            }
            i += 1;
        }
        proof {
            assert(self.headers@.take(i as int) == self.headers@);
        }
        wire.append("Content-Length: ");
        wire.append(to_decimal(self.length()).as_str());
        wire.append("\r\n\r\n");
        wire.append(self.body.as_str());
        proof {
            assert(wire@ =~= wire_format(self@));
        }
        wire
    }
}

} // verus!
