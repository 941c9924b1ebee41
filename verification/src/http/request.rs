//! Requests and the parser that reads them.

use crate::http::headers::{distinct_names, lemma_position, position, put, Fields, Headers};
use crate::http::theorems::theorem_parser_stays_sound;
use crate::text::{
    after_first_word, chars_of, eq_ignore_ascii_case, find, first_word, is_whitespace, lemma_find,
    parse_usize, parse_usize_spec, same_ignoring_case, same_text, scan_for, scan_whitespace,
    scan_word, skip_whitespace, skip_word, trim, trimmed,
};
use vstd::prelude::*;
use vstd::utf8::{decode_utf8, encode_utf8, is_char_boundary};

verus! {

/// The request methods that the parser knows.
#[derive(Debug, Clone, Copy, PartialEq, Eq, Structural)]
pub enum Method {
    GET,
    HEAD,
    POST,
    PUT,
    PATCH,
    DELETE,
}

/// A parsed request.
#[derive(Debug)]
pub struct Request {
    pub method: Method,
    pub path: String,
    pub headers: Headers,
    pub body: String,
}

/// A request as mathematics.
pub struct RequestView {
    pub method: Method,
    pub path: Seq<char>,
    pub headers: Fields,
    pub body: Seq<char>,
}

impl View for Request {
    type V = RequestView;

    open spec fn view(&self) -> RequestView {
        RequestView {
            method: self.method,
            path: self.path@,
            headers: self.headers@,
            body: self.body@,
        }
    }
}

/// Why a request could not be parsed.
#[derive(Debug, Clone, Copy, PartialEq, Eq, Structural)]
pub enum ParseError {
    /// The status line could not be read.
    MalformedStatusLine,
    /// The first word of the status line is not the name of a known method.
    UnsupportedMethod,
    /// The status line has no second word.
    MissingPath,
    /// A header line could not be read, or has no `:` in it.
    HeaderReadFailure,
    /// The source could not give a body of the declared length: it ended
    /// before, or the length ends inside a character.
    TruncatedBody,
}

/// The method that `word` names, by exact comparison.
pub open spec fn method_of(word: Seq<char>) -> Option<Method> {
    if word == "GET"@ {
        Some(Method::GET)
    } else if word == "HEAD"@ {
        Some(Method::HEAD)
    } else if word == "POST"@ {
        Some(Method::POST)
    } else if word == "PUT"@ {
        Some(Method::PUT)
    } else if word == "PATCH"@ {
        Some(Method::PATCH)
    } else if word == "DELETE"@ {
        Some(Method::DELETE)
    } else {
        None
    }
}

/// The name of a method, as it stands in a status line.
pub open spec fn method_name(method: Method) -> Seq<char> {
    match method {
        Method::GET => "GET"@,
        Method::HEAD => "HEAD"@,
        Method::POST => "POST"@,
        Method::PUT => "PUT"@,
        Method::PATCH => "PATCH"@,
        Method::DELETE => "DELETE"@,
    }
}

/// What a status line says: the method named by its first word and the
/// path in its second word. Further words are ignored.
pub open spec fn request_line(line: Seq<char>) -> Result<(Method, Seq<char>), ParseError> {
    match first_word(line) {
        None => Err(ParseError::UnsupportedMethod),
        Some(word) => match method_of(word) {
            None => Err(ParseError::UnsupportedMethod),
            Some(method) => match first_word(after_first_word(line)) {
                None => Err(ParseError::MissingPath),
                Some(path) => Ok((method, path)),
            },
        },
    }
}

/// The method that `word` names.
fn method_named(word: &str) -> (r: Option<Method>)
    ensures
        r == method_of(word@),
{
    if same_text(word, "GET") {
        Some(Method::GET)
    } else if same_text(word, "HEAD") {
        Some(Method::HEAD)
    } else if same_text(word, "POST") {
        Some(Method::POST)
    } else if same_text(word, "PUT") {
        Some(Method::PUT)
    } else if same_text(word, "PATCH") {
        Some(Method::PATCH)
    } else if same_text(word, "DELETE") {
        Some(Method::DELETE)
    } else {
        None
    }
}

/// Reads a status line.
pub fn parse_request_line(line: &str) -> (r: Result<(Method, String), ParseError>)
    ensures
        match r {
            Ok((method, path)) => request_line(line@) == Ok::<_, ParseError>((method, path@)),
            Err(e) => request_line(line@) == Err::<(Method, Seq<char>), _>(e),
        },
{
    let v = chars_of(line);
    let start = scan_whitespace(&v, 0);
    if start >= v.len() {
        return Err(ParseError::UnsupportedMethod);
    }
    let end = scan_word(&v, start);
    let method = match method_named(line.substring_char(start, end)) {
        None => {
            return Err(ParseError::UnsupportedMethod);
        },
        Some(method) => method,
    };
    let path_start = scan_whitespace(&v, end);
    proof {
        lemma_skip_start_of_rest(line@, end as int);
    }
    if path_start >= v.len() {
        return Err(ParseError::MissingPath);
    }
    let path_end = scan_word(&v, path_start);
    proof {
        lemma_skip_word_of_rest(line@, end as int, path_start as int);
        assert(line@.skip(end as int).subrange(path_start - end, path_end - end)
            == line@.subrange(path_start as int, path_end as int));
    }
    Ok((method, line.substring_char(path_start, path_end).to_owned()))
}

/// The scan over whitespace at the start of a suffix, in terms of the
/// whole.
proof fn lemma_skip_start_of_rest(s: Seq<char>, cut: int)
    requires
        0 <= cut <= s.len(),
    ensures
        skip_whitespace(s.skip(cut), 0) == skip_whitespace(s, cut) - cut,
{
    lemma_skip_whitespace_of_rest(s, cut, cut);
}

/// The scan over whitespace in a suffix stops where it stops in the whole.
proof fn lemma_skip_whitespace_of_rest(s: Seq<char>, cut: int, from: int)
    requires
        0 <= cut <= from <= s.len(),
    ensures
        skip_whitespace(s.skip(cut), from - cut) == skip_whitespace(s, from) - cut,
    decreases s.len() - from,
{
    if from < s.len() {
        assert(s.skip(cut)[from - cut] == s[from]);
        if is_whitespace(s[from]) {
            lemma_skip_whitespace_of_rest(s, cut, from + 1);
        }
    }
}

/// A word in a suffix ends where it ends in the whole.
proof fn lemma_skip_word_of_rest(s: Seq<char>, cut: int, from: int)
    requires
        0 <= cut <= from <= s.len(),
    ensures
        skip_word(s.skip(cut), from - cut) == skip_word(s, from) - cut,
    decreases s.len() - from,
{
    if from < s.len() {
        assert(s.skip(cut)[from - cut] == s[from]);
        if !is_whitespace(s[from]) {
            lemma_skip_word_of_rest(s, cut, from + 1);
        }
    }
}

/// A line that ends the header block: one of fewer than three bytes, its
/// line end included.
pub open spec fn ends_headers(line: Seq<char>) -> bool {
    encode_utf8(line).len() < 3
}

/// Tells whether `line` ends the header block.
pub fn is_end_of_headers(line: &str) -> (b: bool)
    ensures
        b == ends_headers(line@),
{
    line.as_bytes().len() < 3
}

/// The name and the value that a header line holds: what stands before its
/// first `:` and what stands after it, each without surrounding whitespace.
pub open spec fn header_field(line: Seq<char>) -> Option<(Seq<char>, Seq<char>)> {
    let colon = find(line, ':', 0);
    if colon < line.len() {
        Some((trimmed(line.take(colon)), trimmed(line.skip(colon + 1))))
    } else {
        None
    }
}

/// Reads a header line.
pub fn parse_header_line(line: &str) -> (r: Option<(String, String)>)
    ensures
        match r {
            Some((name, value)) => header_field(line@) == Some((name@, value@)),
            None => header_field(line@) is None,
        },
{
    let v = chars_of(line);
    let colon = scan_for(&v, ':', 0);
    if colon < v.len() {
        let name = trim(line.substring_char(0, colon));
        let value = trim(line.substring_char(colon + 1, v.len()));
        Some((name, value))
    } else {
        None
    }
}

/// A header name that declares the length of the body, whatever the case of
/// its letters.
pub open spec fn is_content_length(name: Seq<char>) -> bool {
    eq_ignore_ascii_case(name, "content-length"@)
}

/// The first position at or after `from` whose name declares the length of
/// the body, or the length of `names` if there is none.
pub open spec fn content_length_position(names: Seq<Seq<char>>, from: int) -> int
    decreases names.len() - from,
{
    if 0 <= from < names.len() && !is_content_length(names[from]) {
        content_length_position(names, from + 1)
    } else {
        from
    }
}

/// The names of `fields`, in order.
pub open spec fn names_of(fields: Fields) -> Seq<Seq<char>> {
    Seq::new(fields.len(), |i: int| fields[i].0)
}

/// The views of `keys`, in order.
pub open spec fn views_of(keys: Seq<String>) -> Seq<Seq<char>> {
    Seq::new(keys.len(), |i: int| keys[i]@)
}

/// Where the search for a length declaration stops: no such name lies
/// before, and one lies at the stop unless it is the end.
pub proof fn lemma_content_length_position(names: Seq<Seq<char>>, from: int)
    requires
        0 <= from <= names.len(),
    ensures
        from <= content_length_position(names, from) <= names.len(),
        forall|k: int|
            from <= k < content_length_position(names, from) ==> !is_content_length(
                #[trigger] names[k],
            ),
        content_length_position(names, from) < names.len() ==> is_content_length(
            names[content_length_position(names, from)],
        ),
    decreases names.len() - from,
{
    if from < names.len() && !is_content_length(names[from]) {
        lemma_content_length_position(names, from + 1);
    }
}

/// Finds the first of `header_keys` that declares the length of the body.
pub fn find_content_length_header(header_keys: Vec<String>) -> (r: Option<String>)
    ensures
        match r {
            Some(key) => {
                let i = content_length_position(views_of(header_keys@), 0);
                i < header_keys@.len() && key@ == header_keys@[i]@
            },
            None => content_length_position(views_of(header_keys@), 0) == header_keys@.len(),
        },
{
    let ghost names = views_of(header_keys@);
    let mut i: usize = 0;
    while i < header_keys.len()
        invariant
            i <= header_keys.len(),
            names == views_of(header_keys@),
            content_length_position(names, 0) == content_length_position(names, i as int),
        decreases header_keys.len() - i,
    {
        if same_ignoring_case(header_keys[i].as_str(), "content-length") {
            return Some(header_keys[i].clone());
        }
        i += 1;
    }
    None
}

/// The length of the body that `fields` declare: the value of the first
/// field whose name declares it, read as a decimal numeral. `None` if no
/// field declares it or the value is no numeral that fits the machine word.
pub open spec fn content_length(fields: Fields) -> Option<usize> {
    let i = content_length_position(names_of(fields), 0);
    if i < fields.len() {
        parse_usize_spec(fields[i].1)
    } else {
        None
    }
}

/// The number of body bytes to read after the header block: the declared
/// length, or zero where none is declared.
pub open spec fn declared_length(fields: Fields) -> usize {
    match content_length(fields) {
        Some(n) => n,
        None => 0,
    }
}

/// Reads the declared length of the body from `headers`.
pub fn get_content_length(headers: &Headers) -> (r: Option<usize>)
    ensures
        r == content_length(headers@),
{
    let keys = headers.names();
    let ghost names = names_of(headers@);
    proof {
        assert(views_of(keys@) =~= names);
        lemma_content_length_position(names, 0);
    }
    let content_length_header = match find_content_length_header(keys) {
        None => {
            return None;
        },
        Some(key) => key,
    };
    let n = headers.len();
    proof {
        let i = content_length_position(names, 0);
        lemma_position(headers@, names[i], 0);
        let p = position(headers@, names[i], 0);
        assert(headers@[i].0 == names[i]);
        if p < i {
            assert(headers@[p].0 != headers@[i].0);
        }
    }
    match headers.get(content_length_header.as_str()) {
        None => None,
        Some(value) => parse_usize(value.as_str()),
    }
}

/// What a parser needs next from its source.
#[derive(Debug, Clone, Copy, PartialEq, Eq, Structural)]
pub enum Demand {
    /// One line, up to and with its line end, or what is left of the source
    /// if no line end follows.
    Line,
    /// Exactly this many bytes, as text.
    Body(usize),
    /// Nothing: the parser has finished.
    Nothing,
}

/// Where a parser stands, with what it has read so far.
#[derive(Debug)]
enum State {
    /// Before the status line.
    StatusLine,
    /// Inside the header block.
    HeaderLine { method: Method, path: String, headers: Headers },
    /// Before a body of `length` bytes.
    Body { method: Method, path: String, headers: Headers, length: usize },
    /// The request is complete.
    Complete(Request),
    /// The request was rejected.
    Failed(ParseError),
}

/// A parser of one request, fed piece by piece: it says what it needs next,
/// and takes what the source gave.
#[derive(Debug)]
pub struct Parser {
    state: State,
}

/// A parser as mathematics: where it stands, with what it has read so far.
pub enum ParserView {
    /// Before the status line.
    StatusLine,
    /// Inside the header block.
    HeaderLine { method: Method, path: Seq<char>, headers: Fields },
    /// Before a body of `length` bytes.
    Body { method: Method, path: Seq<char>, headers: Fields, length: usize },
    /// The request is complete.
    Complete(RequestView),
    /// The request was rejected.
    Failed(ParseError),
}

impl View for State {
    type V = ParserView;

    closed spec fn view(&self) -> ParserView {
        match self {
            State::StatusLine => ParserView::StatusLine,
            State::HeaderLine { method, path, headers } => ParserView::HeaderLine {
                method: *method,
                path: path@,
                headers: headers@,
            },
            State::Body { method, path, headers, length } => ParserView::Body {
                method: *method,
                path: path@,
                headers: headers@,
                length: *length,
            },
            State::Complete(request) => ParserView::Complete(request@),
            State::Failed(error) => ParserView::Failed(*error),
        }
    }
}

impl View for Parser {
    type V = ParserView;

    closed spec fn view(&self) -> ParserView {
        self.state@
    }
}

/// A request is as its header fields say: no name stands twice among them,
/// and the body has exactly as many bytes as they declare.
pub open spec fn well_formed(request: RequestView) -> bool {
    &&& distinct_names(request.headers)
    &&& encode_utf8(request.body).len() == declared_length(request.headers)
}

/// A parser is on firm ground: the header fields read so far have distinct
/// names, an awaited body has the declared length, which is not zero, and a
/// complete request is well formed.
pub open spec fn sound(state: ParserView) -> bool {
    match state {
        ParserView::StatusLine => true,
        ParserView::HeaderLine { headers, .. } => distinct_names(headers),
        ParserView::Body { headers, length, .. } => {
            &&& distinct_names(headers)
            &&& length == declared_length(headers)
            &&& length > 0
        },
        ParserView::Complete(request) => well_formed(request),
        ParserView::Failed(_) => true,
    }
}

/// What a piece of text handed to the parser holds; `None` stands for a read
/// that failed.
pub open spec fn text_of(piece: Option<String>) -> Option<Seq<char>> {
    match piece {
        Some(text) => Some(text@),
        None => None,
    }
}

/// What a parser in state `state` needs next.
pub open spec fn demand_of(state: ParserView) -> Demand {
    match state {
        ParserView::StatusLine => Demand::Line,
        ParserView::HeaderLine { .. } => Demand::Line,
        ParserView::Body { length, .. } => Demand::Body(length),
        ParserView::Complete(_) => Demand::Nothing,
        ParserView::Failed(_) => Demand::Nothing,
    }
}

/// The state after the header block has ended: the request is complete
/// where no body is declared, else the body is awaited.
pub open spec fn after_headers(method: Method, path: Seq<char>, headers: Fields) -> ParserView {
    let length = declared_length(headers);
    if length > 0 {
        ParserView::Body { method, path, headers, length }
    } else {
        ParserView::Complete(RequestView { method, path, headers, body: Seq::empty() })
    }
}

/// The state that follows `state` when the source gave `line` for a line.
/// A parser that awaits no line stays as it is.
pub open spec fn after_line(state: ParserView, line: Option<Seq<char>>) -> ParserView {
    match state {
        ParserView::StatusLine => match line {
            None => ParserView::Failed(ParseError::MalformedStatusLine),
            Some(text) => match request_line(text) {
                Err(error) => ParserView::Failed(error),
                Ok((method, path)) => ParserView::HeaderLine {
                    method,
                    path,
                    headers: Seq::empty(),
                },
            },
        },
        ParserView::HeaderLine { method, path, headers } => match line {
            None => ParserView::Failed(ParseError::HeaderReadFailure),
            Some(text) => if ends_headers(text) {
                after_headers(method, path, headers)
            } else {
                match header_field(text) {
                    None => ParserView::Failed(ParseError::HeaderReadFailure),
                    Some((name, value)) => ParserView::HeaderLine {
                        method,
                        path,
                        headers: put(headers, name, value),
                    },
                }
            },
        },
        _ => state,
    }
}

/// The state that follows `state` when the source gave `body` for the
/// body, or could not give one. A body of another length than the awaited
/// one counts as cut short. A parser that awaits no body stays as it is.
pub open spec fn after_body(state: ParserView, body: Option<Seq<char>>) -> ParserView {
    match state {
        ParserView::Body { method, path, headers, length } => match body {
            None => ParserView::Failed(ParseError::TruncatedBody),
            Some(text) => if encode_utf8(text).len() == length {
                ParserView::Complete(RequestView { method, path, headers, body: text })
            } else {
                ParserView::Failed(ParseError::TruncatedBody)
            },
        },
        _ => state,
    }
}

/// What a finished parser has to show; `None` while it still needs input.
pub open spec fn outcome_of(state: ParserView) -> Option<Result<RequestView, ParseError>> {
    match state {
        ParserView::Complete(request) => Some(Ok(request)),
        ParserView::Failed(error) => Some(Err(error)),
        _ => None,
    }
}

impl Parser {
    #[verifier::type_invariant]
    closed spec fn on_firm_ground(&self) -> bool {
        sound(self.state@)
    }

    /// A parser that has read nothing yet.
    pub fn new() -> (parser: Parser)
        ensures
            parser@ == ParserView::StatusLine,
    {
        Parser { state: State::StatusLine }
    }

    /// What the parser needs next.
    pub fn demand(&self) -> (demand: Demand)
        ensures
            demand == demand_of(self@),
            sound(self@),
    {
        proof {
            use_type_invariant(self);
        }
        match &self.state {
            State::StatusLine => Demand::Line,
            State::HeaderLine { .. } => Demand::Line,
            State::Body { length, .. } => Demand::Body(*length),
            State::Complete(_) => Demand::Nothing,
            State::Failed(_) => Demand::Nothing,
        }
    }

    /// Takes the line that the source gave, or `None` if reading it failed.
    pub fn feed_line(self, line: Option<String>) -> (next: Parser)
        ensures
            next@ == after_line(self@, text_of(line)),
    {
        proof {
            use_type_invariant(&self);
            theorem_parser_stays_sound(self@, text_of(line), None);
        }
        let state = match self.state {
            State::StatusLine => match line {
                None => State::Failed(ParseError::MalformedStatusLine),
                Some(text) => match parse_request_line(text.as_str()) {
                    Err(error) => State::Failed(error),
                    Ok((method, path)) => State::HeaderLine {
                        method,
                        path,
                        headers: Headers::new(),
                    },
                },
            },
            State::HeaderLine { method, path, headers } => match line {
                None => State::Failed(ParseError::HeaderReadFailure),
                Some(text) => {
                    if is_end_of_headers(text.as_str()) {
                        let length = match get_content_length(&headers) {
                            Some(n) => n,
                            None => 0,
                        };
                        if length > 0 {
                            State::Body { method, path, headers, length }
                        } else {
                            State::Complete(Request { method, path, headers, body: String::new() })
                        }
                    } else {
                        match parse_header_line(text.as_str()) {
                            None => State::Failed(ParseError::HeaderReadFailure),
                            Some((name, value)) => {
                                let mut headers = headers;
                                headers.insert(name, value);
                                State::HeaderLine { method, path, headers }
                            },
                        }
                    }
                },
            },
            other => other,
        };
        Parser { state }
    }

    /// Takes the body that the source gave, or `None` if the source could
    /// not give that many bytes as text.
    pub fn feed_body(self, body: Option<String>) -> (next: Parser)
        ensures
            next@ == after_body(self@, text_of(body)),
    {
        proof {
            use_type_invariant(&self);
            theorem_parser_stays_sound(self@, None, text_of(body));
        }
        let state = match self.state {
            State::Body { method, path, headers, length } => match body {
                None => State::Failed(ParseError::TruncatedBody),
                Some(text) => {
                    if text.as_str().as_bytes().len() == length {
                        State::Complete(Request { method, path, headers, body: text })
                    } else {
                        State::Failed(ParseError::TruncatedBody)
                    }
                },
            },
            other => other,
        };
        Parser { state }
    }

    /// Whether the parser has read a whole request.
    pub fn is_complete(&self) -> (b: bool)
        ensures
            b == (self@ is Complete),
    {
        match &self.state {
            State::Complete(_) => true,
            _ => false,
        }
    }

    /// What the parser has to show once it needs nothing more. A request
    /// that it shows is well formed.
    pub fn outcome(self) -> (r: Option<Result<Request, ParseError>>)
        ensures
            match r {
                Some(Ok(request)) => {
                    &&& outcome_of(self@) == Some(Ok::<RequestView, ParseError>(request@))
                    &&& well_formed(request@)
                },
                Some(Err(error)) => outcome_of(self@) == Some(
                    Err::<RequestView, ParseError>(error),
                ),
                None => outcome_of(self@) is None,
            },
    {
        proof {
            use_type_invariant(&self);
        }
        match self.state {
            State::Complete(request) => Some(Ok(request)),
            State::Failed(error) => Some(Err(error)),
            _ => None,
        }
    }
}

/// The position after the line that starts at `from`: after its line
/// feed, or the end of `text` if no line feed follows.
pub open spec fn line_end(text: Seq<char>, from: int) -> int {
    let newline = find(text, '\n', from);
    if newline < text.len() {
        newline + 1
    } else {
        text.len() as int
    }
}

/// The header block that starts at `from`, stored line by line on top of
/// `fields`: the fields, and the position after the line that ends the block.
/// The end of `text` ends the block too.
pub open spec fn header_block(text: Seq<char>, from: int, fields: Fields) -> Result<
    (Fields, int),
    ParseError,
>
    decreases text.len() - from,
{
    let end = line_end(text, from);
    let line = text.subrange(from, end);
    if !(0 <= from < text.len()) || ends_headers(line) {
        Ok((fields, end))
    } else {
        match header_field(line) {
            None => Err(ParseError::HeaderReadFailure),
            Some((name, value)) => {
                proof {
                    lemma_find(text, '\n', from);
                }
                header_block(text, end, put(fields, name, value))
            },
        }
    }
}

/// The first `length` bytes of `rest` as text; `None` where `rest` has
/// fewer bytes or the length ends inside a character.
pub open spec fn body_of(rest: Seq<char>, length: usize) -> Option<Seq<char>> {
    let bytes = encode_utf8(rest);
    if length <= bytes.len() && is_char_boundary(bytes, length as int) {
        Some(decode_utf8(bytes.take(length as int)))
    } else {
        None
    }
}

/// The request made of a method, a path and what the header block and the
/// text after it give.
pub open spec fn with_body(
    text: Seq<char>,
    method: Method,
    path: Seq<char>,
    block: Result<(Fields, int), ParseError>,
) -> Result<RequestView, ParseError> {
    match block {
        Err(error) => Err(error),
        Ok((headers, pos)) => match body_of(text.skip(pos), declared_length(headers)) {
            None => Err(ParseError::TruncatedBody),
            Some(body) => Ok(RequestView { method, path, headers, body }),
        },
    }
}

/// The request that `text` holds at its start: a status line, a header
/// block, and as many bytes of body as the headers declare. What follows the
/// body is not looked at.
pub open spec fn parse_message(text: Seq<char>) -> Result<RequestView, ParseError> {
    let end = line_end(text, 0);
    match request_line(text.take(end)) {
        Err(error) => Err(error),
        Ok((method, path)) => with_body(text, method, path, header_block(text, end, Seq::empty())),
    }
}

/// What follows the first `length` bytes of `rest`, as text.
pub open spec fn rest_after_body(rest: Seq<char>, length: usize) -> Seq<char> {
    decode_utf8(encode_utf8(rest).skip(length as int))
}

/// What is left of `text` after the request at its start, where there is
/// one.
pub open spec fn unread(text: Seq<char>) -> Seq<char> {
    match header_block(text, line_end(text, 0), Seq::empty()) {
        Ok((headers, pos)) => rest_after_body(text.skip(pos), declared_length(headers)),
        Err(_) => text,
    }
}

/// How far a parser is from its end: the phases that lie before it.
pub open spec fn stage(state: ParserView) -> int {
    match state {
        ParserView::StatusLine => 2,
        ParserView::HeaderLine { .. } => 1,
        _ => 0,
    }
}

/// The state that a parser in state `state` reaches when it is given what
/// it asks for from `text`, from the position `pos` on: line after line, and
/// then the body.
pub open spec fn fed(state: ParserView, text: Seq<char>, pos: int) -> ParserView
    decreases stage(state), text.len() - pos,
{
    match demand_of(state) {
        Demand::Line => {
            let end = line_end(text, pos);
            let line = text.subrange(pos, end);
            if 0 <= pos <= text.len() {
                proof {
                    lemma_find(text, '\n', pos);
                    if pos == text.len() {
                        assert(encode_utf8(line).len() == 0);
                    }
                }
                fed(after_line(state, Some(line)), text, end)
            } else {
                state
            }
        },
        Demand::Body(length) => after_body(state, body_of(text.skip(pos), length)),
        Demand::Nothing => state,
    }
}

/// What a parser that was fed the lines of `text` up to `pos` says about
/// the whole.
spec fn on_course(state: ParserView, text: Seq<char>, pos: int) -> bool {
    let first = line_end(text, 0);
    let block = header_block(text, first, Seq::empty());
    match state {
        ParserView::StatusLine => false,
        ParserView::HeaderLine { method, path, headers } => {
            &&& request_line(text.take(first)) == Ok::<_, ParseError>((method, path))
            &&& block == header_block(text, pos, headers)
        },
        ParserView::Body { method, path, headers, length } => {
            &&& request_line(text.take(first)) == Ok::<_, ParseError>((method, path))
            &&& block == Ok::<_, ParseError>((headers, pos))
            &&& length == declared_length(headers)
        },
        ParserView::Complete(request) => {
            &&& request_line(text.take(first)) == Ok::<_, ParseError>(
                (request.method, request.path),
            )
            &&& block == Ok::<_, ParseError>((request.headers, pos))
            &&& declared_length(request.headers) == 0
            &&& request.body == Seq::<char>::empty()
        },
        ParserView::Failed(error) => parse_message(text) == Err::<RequestView, _>(error),
    }
}

/// The position after the line that starts at `from`.
fn next_line_end(text: &Vec<char>, from: usize) -> (end: usize)
    requires
        from <= text.len(),
    ensures
        end == line_end(text@, from as int),
        from <= end <= text.len(),
        from < text.len() ==> from < end,
{
    let newline = scan_for(text, '\n', from);
    if newline < text.len() {
        newline + 1
    } else {
        newline
    }
}

/// Reads one request from the start of `buf` and leaves in `buf` what
/// follows the request. Where no request can be read, `buf` is left as it
/// was. A request that was read is well formed.
pub fn parse(buf: &mut &str) -> (r: Result<Request, ParseError>)
    ensures
        match r {
            Ok(request) => {
                &&& parse_message(old(buf)@) == Ok::<_, ParseError>(request@)
                &&& final(buf)@ == unread(old(buf)@)
                &&& well_formed(request@)
            },
            Err(error) => {
                &&& parse_message(old(buf)@) == Err::<RequestView, _>(error)
                &&& final(buf)@ == old(buf)@
            },
        },
{
    let input: &str = *buf;
    let text = chars_of(input);
    let mut pos = next_line_end(&text, 0);
    let mut parser = Parser::new().feed_line(Some(input.substring_char(0, pos).to_owned()));
    while parser.demand() == Demand::Line
        invariant
            pos <= text.len(),
            text@ == input@,
            on_course(parser@, input@, pos as int),
        decreases stage(parser@), text.len() - pos,
    {
        let end = next_line_end(&text, pos);
        let line = input.substring_char(pos, end).to_owned();
        proof {
            if pos == text.len() {
                assert(encode_utf8(line@).len() == 0);
            }
            if !ends_headers(line@) {
                assert(line@.len() > 0);
            }
        }
        parser = parser.feed_line(Some(line));
        pos = end;
    }
    let rest = input.substring_char(pos, text.len());
    proof {
        assert(rest@ == input@.skip(pos as int));
        lemma_empty_body(rest@);
    }
    match parser.demand() {
        Demand::Body(length) => {
            if length <= rest.as_bytes().len() && rest.is_char_boundary(length) {
                let (body, unread) = rest.split_at(length);
                proof {
                    assert(encode_utf8(body@) == encode_utf8(rest@).take(length as int));
                    assert(encode_utf8(unread@) == encode_utf8(rest@).skip(length as int));
                    vstd::utf8::encode_utf8_decode_utf8(body@);
                    vstd::utf8::encode_utf8_decode_utf8(unread@);
                }
                parser = parser.feed_body(Some(body.to_owned()));
                *buf = unread;
            } else {
                parser = parser.feed_body(None);
            }
        },
        _ => {
            if parser.is_complete() {
                *buf = rest;
            }
        },
    }
    match parser.outcome() {
        Some(r) => r,
        None => vstd::pervasive::unreached(),
    }
}

/// A body of no bytes is empty, and leaves everything unread.
pub proof fn lemma_empty_body(rest: Seq<char>)
    ensures
        body_of(rest, 0) == Some(Seq::<char>::empty()),
        rest_after_body(rest, 0) == rest,
{
    let bytes = encode_utf8(rest);
    vstd::utf8::encode_utf8_valid_utf8(rest);
    vstd::utf8::encode_utf8_decode_utf8(rest);
    assert(bytes.take(0) =~= Seq::<u8>::empty());
    assert(bytes.skip(0) =~= bytes);
    assert(decode_utf8(Seq::<u8>::empty()) =~= Seq::<char>::empty());
}

} // verus!
