//! What holds of the parser on whole classes of input.

use crate::http::headers::{distinct_names, lemma_put_distinct, put, Fields};
use crate::http::request::{
    after_body, after_headers, after_line, body_of, content_length, content_length_position,
    declared_length, ends_headers, fed, header_block, header_field, is_content_length,
    lemma_content_length_position, lemma_empty_body, line_end, method_name, method_of, names_of,
    outcome_of, parse_message, request_line, rest_after_body, sound, unread, well_formed,
    with_body, Method, ParseError, ParserView, RequestView,
};
use crate::text::{
    after_first_word, decimal, first_word, is_digit, is_whitespace, lemma_decimal_round_trip,
    lemma_find, lemma_find_run, lemma_skip_whitespace_run, lemma_skip_word_run, lemma_trimmed,
    lower_code, parse_usize_spec,
};
use vstd::prelude::*;
use vstd::utf8::{encode_utf8, is_ascii_chars, is_ascii_chars_encode_utf8};

verus! {

/// A word: one or more characters, none of them whitespace.
pub open spec fn is_word(s: Seq<char>) -> bool {
    &&& s.len() > 0
    &&& forall|i: int| 0 <= i < s.len() ==> !is_whitespace(#[trigger] s[i])
}

/// The name of each method is a word, and names that method and no other.
pub proof fn theorem_method_names(method: Method)
    ensures
        is_word(method_name(method)),
        method_of(method_name(method)) == Some(method),
{
    reveal_strlit("GET");
    reveal_strlit("HEAD");
    reveal_strlit("POST");
    reveal_strlit("PUT");
    reveal_strlit("PATCH");
    reveal_strlit("DELETE");
    let name = method_name(method);
    assert forall|i: int| 0 <= i < name.len() implies !is_whitespace(#[trigger] name[i]) by {
        // One case for each position.
        if i == 0 {
        } else if i == 1 {
        } else if i == 2 {
        } else if i == 3 {
        } else if i == 4 {
        } else if i == 5 {
        }
    }
    assert("GET"@[0] == 'G');
    assert("HEAD"@[0] == 'H');
    assert("POST"@[1] == 'O');
    assert("PUT"@[1] == 'U');
    assert("PATCH"@[1] == 'A');
    assert("DELETE"@[0] == 'D');
}

/// The first word of a text that starts with a word, and what follows it.
proof fn lemma_leading_word(word: Seq<char>, tail: Seq<char>)
    requires
        is_word(word),
        tail.len() > 0 ==> is_whitespace(tail[0]),
    ensures
        first_word(word + tail) == Some(word),
        after_first_word(word + tail) == tail,
{
    let s = word + tail;
    assert(s[0] == word[0]);
    lemma_skip_whitespace_run(s, 0, 0);
    assert forall|k: int| 0 <= k < word.len() implies !is_whitespace(#[trigger] s[k]) by {
        assert(s[k] == word[k]);
    }
    if tail.len() > 0 {
        assert(s[word.len() as int] == tail[0]);
    }
    lemma_skip_word_run(s, 0, word.len() as int);
    assert(s.subrange(0, word.len() as int) =~= word);
    assert(s.skip(word.len() as int) =~= tail);
}

/// The first word of a text that starts with one space and a word, and what
/// follows it.
proof fn lemma_spaced_word(word: Seq<char>, tail: Seq<char>)
    requires
        is_word(word),
        tail.len() > 0 ==> is_whitespace(tail[0]),
    ensures
        first_word(" "@ + word + tail) == Some(word),
{
    reveal_strlit(" ");
    let s = " "@ + word + tail;
    let end = 1 + word.len() as int;
    assert(s[0] == ' ');
    assert(s[1] == word[0]);
    lemma_skip_whitespace_run(s, 0, 1);
    assert forall|k: int| 1 <= k < end implies !is_whitespace(#[trigger] s[k]) by {
        assert(s[k] == word[k - 1]);
    }
    if tail.len() > 0 {
        assert(s[end] == tail[0]);
    }
    lemma_skip_word_run(s, 1, end);
    assert(s.subrange(1, end) =~= word);
}

/// A status line made of a method's name, one space and a path gives back
/// that method and that path, whatever follows the path after whitespace
/// (the version marker, the line end).
pub proof fn theorem_status_line(method: Method, path: Seq<char>, tail: Seq<char>)
    requires
        is_word(path),
        tail.len() > 0 ==> is_whitespace(tail[0]),
    ensures
        request_line(method_name(method) + " "@ + path + tail) == Ok::<_, ParseError>(
            (method, path),
        ),
{
    reveal_strlit(" ");
    theorem_method_names(method);
    let name = method_name(method);
    let rest = " "@ + path + tail;
    assert(rest[0] == ' ');
    assert(name + " "@ + path + tail =~= name + rest);
    lemma_leading_word(name, rest);
    lemma_spaced_word(path, tail);
}

/// A line: text without a line feed, and then one line feed.
pub open spec fn is_line(line: Seq<char>) -> bool {
    &&& line.len() > 0
    &&& line.last() == '\n'
    &&& forall|i: int| 0 <= i < line.len() - 1 ==> #[trigger] line[i] != '\n'
}

/// `text` holds `line` at `from`.
pub open spec fn has_line_at(text: Seq<char>, from: int, line: Seq<char>) -> bool {
    &&& 0 <= from
    &&& from + line.len() <= text.len()
    &&& text.subrange(from, from + line.len()) == line
}

/// A line that stands in a text ends where its line feed does.
pub proof fn lemma_line_end(text: Seq<char>, from: int, line: Seq<char>)
    requires
        is_line(line),
        has_line_at(text, from, line),
    ensures
        line_end(text, from) == from + line.len(),
{
    let at = from + line.len() - 1;
    assert forall|k: int| from <= k < at implies #[trigger] text[k] != '\n' by {
        assert(text[k] == text.subrange(from, from + line.len())[k - from]);
    }
    assert(text[at] == text.subrange(from, from + line.len())[at - from]);
    lemma_find_run(text, '\n', from, at);
}

/// The encoding of a text has at least one byte for each character.
pub proof fn lemma_encoding_length(s: Seq<char>)
    ensures
        encode_utf8(s).len() >= s.len(),
    decreases s.len(),
{
    if s.len() > 0 {
        lemma_encoding_length(s.drop_first());
    }
}

/// A header line in the block is stored, and the block goes on after it.
pub proof fn lemma_header_line(
    text: Seq<char>,
    from: int,
    line: Seq<char>,
    fields: Fields,
    name: Seq<char>,
    value: Seq<char>,
)
    requires
        is_line(line),
        has_line_at(text, from, line),
        !ends_headers(line),
        header_field(line) == Some((name, value)),
    ensures
        header_block(text, from, fields) == header_block(
            text,
            from + line.len(),
            put(fields, name, value),
        ),
{
    lemma_line_end(text, from, line);
}

/// A line of fewer than three bytes ends the block.
pub proof fn lemma_last_header_line(text: Seq<char>, from: int, line: Seq<char>, fields: Fields)
    requires
        is_line(line),
        has_line_at(text, from, line),
        ends_headers(line),
    ensures
        header_block(text, from, fields) == Ok::<_, ParseError>((fields, from + line.len())),
{
    lemma_line_end(text, from, line);
}

/// A status line, then anything: the request has the method and the path of
/// the status line, and the rest is read as header block and body.
pub proof fn theorem_method_and_path(
    method: Method,
    path: Seq<char>,
    tail: Seq<char>,
    rest: Seq<char>,
)
    requires
        is_word(path),
        tail.len() > 0 ==> is_whitespace(tail[0]),
        is_line(tail + "\n"@),
    ensures
        ({
            let line = method_name(method) + " "@ + path + tail + "\n"@;
            let text = line + rest;
            &&& parse_message(text) == with_body(
                text,
                method,
                path,
                header_block(text, line.len() as int, Seq::empty()),
            )
            &&& parse_message(text) matches Ok(request) ==> request.method == method
                && request.path == path
            &&& parse_message(text) matches Err(error) ==> error == ParseError::HeaderReadFailure
                || error == ParseError::TruncatedBody
        }),
{
    reveal_strlit(" ");
    reveal_strlit("\n");
    theorem_method_names(method);
    let name = method_name(method);
    let ended = tail + "\n"@;
    let line = name + " "@ + path + tail + "\n"@;
    let text = line + rest;
    assert(line =~= name + " "@ + path + ended);
    assert(ended[0] == if tail.len() > 0 {
        tail[0]
    } else {
        '\n'
    });
    theorem_status_line(method, path, ended);
    let start = line.len() - ended.len();
    assert forall|i: int| 0 <= i < line.len() - 1 implies #[trigger] line[i] != '\n' by {
        if i < name.len() {
            assert(line[i] == name[i]);
        } else if i == name.len() {
            assert(line[i] == ' ');
        } else if i < start {
            assert(line[i] == path[i - name.len() - 1]);
        } else {
            assert(line[i] == ended[i - start]);
        }
    }
    assert(line.last() == ended.last());
    assert(text.subrange(0, line.len() as int) =~= line);
    lemma_line_end(text, 0, line);
    assert(text.take(line.len() as int) =~= line);
    lemma_header_block_errors(text, line.len() as int, Seq::empty());
}

/// The only error of a header block is a header line that cannot be read.
pub proof fn lemma_header_block_errors(text: Seq<char>, from: int, fields: Fields)
    ensures
        header_block(text, from, fields) matches Err(error) ==> error
            == ParseError::HeaderReadFailure,
    decreases text.len() - from,
{
    let end = line_end(text, from);
    let line = text.subrange(from, end);
    if !(0 <= from < text.len()) || ends_headers(line) {
    } else {
        match header_field(line) {
            None => {},
            Some((name, value)) => {
                lemma_find(text, '\n', from);
                lemma_header_block_errors(text, end, put(fields, name, value));
            },
        }
    }
}

/// A name that declares the length of the body has fourteen characters,
/// none of them whitespace, a colon or a line feed.
pub proof fn lemma_content_length_names(name: Seq<char>)
    requires
        is_content_length(name),
    ensures
        name.len() == 14,
        is_word(name),
        forall|i: int| 0 <= i < name.len() ==> #[trigger] name[i] != ':' && name[i] != '\n',
{
    reveal_strlit("content-length");
    let small = "content-length"@;
    assert forall|i: int| 0 <= i < name.len() implies !is_whitespace(#[trigger] name[i])
        && name[i] != ':' && name[i] != '\n' by {
        assert(lower_code(name[i]) == lower_code(small[i]));
        // One case for each position.
        if i == 0 {
        } else if i == 1 {
        } else if i == 2 {
        } else if i == 3 {
        } else if i == 4 {
        } else if i == 5 {
        } else if i == 6 {
        } else if i == 7 {
        } else if i == 8 {
        } else if i == 9 {
        } else if i == 10 {
        } else if i == 11 {
        } else if i == 12 {
        } else if i == 13 {
        }
    }
}

/// `Content-Length`, written with two capitals, declares the length of the
/// body.
pub proof fn theorem_content_length_spelling()
    ensures
        is_content_length("Content-Length"@),
{
    reveal_strlit("content-length");
    reveal_strlit("Content-Length");
    let small = "content-length"@;
    let name = "Content-Length"@;
    assert forall|i: int| 0 <= i < name.len() implies lower_code(#[trigger] name[i])
        == lower_code(small[i]) by {
        // One case for each position.
        if i == 0 {
        } else if i == 1 {
        } else if i == 2 {
        } else if i == 3 {
        } else if i == 4 {
        } else if i == 5 {
        } else if i == 6 {
        } else if i == 7 {
        } else if i == 8 {
        } else if i == 9 {
        } else if i == 10 {
        } else if i == 11 {
        } else if i == 12 {
        } else if i == 13 {
        }
    }
}

/// A header line that declares a length, as a line and as a field: the
/// name, a colon and a space, the numeral, the line end.
proof fn lemma_length_line(name: Seq<char>, length: usize)
    requires
        is_content_length(name),
    ensures
        ({
            let line = name + ": "@ + decimal(length as nat) + "\r\n"@;
            &&& is_line(line)
            &&& !ends_headers(line)
            &&& header_field(line) == Some((name, decimal(length as nat)))
        }),
{
    reveal_strlit(": ");
    reveal_strlit("\r\n");
    reveal_strlit(" ");
    lemma_content_length_names(name);
    lemma_decimal_round_trip(length as nat);
    let numeral = decimal(length as nat);
    let line = name + ": "@ + numeral + "\r\n"@;
    let colon = name.len() as int;
    assert(line.len() == colon + 2 + numeral.len() + 2);
    assert forall|i: int| 0 <= i < line.len() - 1 implies #[trigger] line[i] != '\n' by {
        if i < colon {
            assert(line[i] == name[i]);
        } else if i < colon + 2 {
            assert(line[i] == ": "@[i - colon]);
        } else if i < colon + 2 + numeral.len() {
            assert(line[i] == numeral[i - colon - 2]);
            assert(is_digit(numeral[i - colon - 2]));
        } else {
            assert(line[i] == "\r\n"@[i - colon - 2 - numeral.len()]);
        }
    }
    assert(line.last() == "\r\n"@[1]);
    lemma_encoding_length(line);
    assert forall|k: int| 0 <= k < colon implies #[trigger] line[k] != ':' by {
        assert(line[k] == name[k]);
    }
    assert(line[colon] == ": "@[0]);
    lemma_find_run(line, ':', 0, colon);
    assert(line.take(colon) =~= name);
    assert(line.skip(colon + 1) =~= " "@ + numeral + "\r\n"@);
    assert(name.first() == name[0] && name.last() == name[colon - 1]);
    lemma_trimmed(Seq::empty(), name, Seq::empty());
    assert(Seq::<char>::empty() + name + Seq::<char>::empty() =~= name);
    assert(is_digit(numeral.first()) && is_digit(numeral.last()));
    assert(is_whitespace("\r\n"@[0]) && is_whitespace("\r\n"@[1]));
    lemma_trimmed(" "@, numeral, "\r\n"@);
}

/// The line that ends a header block, as a line.
proof fn lemma_blank_line()
    ensures
        is_line("\r\n"@),
        ends_headers("\r\n"@),
{
    reveal_strlit("\r\n");
    let line = "\r\n"@;
    assert(line[0] == '\r' && line[1] == '\n');
    assert(is_ascii_chars(line));
    is_ascii_chars_encode_utf8(line);
}

/// A text of exactly `length` bytes is a body of that length.
proof fn lemma_whole_body(body: Seq<char>, length: usize)
    requires
        encode_utf8(body).len() == length,
    ensures
        body_of(body, length) == Some(body),
{
    let bytes = encode_utf8(body);
    vstd::utf8::encode_utf8_valid_utf8(body);
    vstd::utf8::is_char_boundary_start_end_of_seq(bytes);
    vstd::utf8::encode_utf8_decode_utf8(body);
    assert(bytes.take(length as int) == bytes);
}

/// A header block with one field, which declares a length, and the body
/// after it: the block holds that field and declares that length, and the
/// body is as long as it is.
proof fn lemma_length_block(
    text: Seq<char>,
    from: int,
    name: Seq<char>,
    length: usize,
    body: Seq<char>,
)
    requires
        is_content_length(name),
        0 <= from <= text.len(),
        text.skip(from) == (name + ": "@ + decimal(length as nat) + "\r\n"@) + "\r\n"@ + body,
    ensures
        ({
            let fields = seq![(name, decimal(length as nat))];
            let end = text.len() - body.len();
            &&& header_block(text, from, Seq::empty()) == Ok::<_, ParseError>((fields, end))
            &&& declared_length(fields) == length
            &&& text.skip(end) == body
            &&& encode_utf8(body).len() == length ==> body_of(body, length) == Some(body)
        }),
{
    let numeral = decimal(length as nat);
    let field = name + ": "@ + numeral + "\r\n"@;
    let blank = "\r\n"@;
    let tail = text.skip(from);
    lemma_length_line(name, length);
    lemma_blank_line();
    let second = from + field.len();
    let third = second + blank.len();
    assert(tail.len() == field.len() + blank.len() + body.len());
    assert(text.subrange(from, second) =~= tail.subrange(0, field.len() as int));
    assert(tail.subrange(0, field.len() as int) =~= field);
    assert(text.subrange(second, third) =~= tail.subrange(field.len() as int, third - from));
    assert(tail.subrange(field.len() as int, third - from) =~= blank);
    let fields = put(Seq::empty(), name, numeral);
    lemma_header_line(text, from, field, Seq::empty(), name, numeral);
    lemma_last_header_line(text, second, blank, fields);
    assert(fields =~= seq![(name, numeral)]);
    assert(names_of(fields)[0] == name);
    assert(content_length_position(names_of(fields), 0) == 0);
    lemma_decimal_round_trip(length as nat);
    assert(text.skip(third) =~= tail.skip(third - from));
    assert(tail.skip(third - from) =~= body);
    if encode_utf8(body).len() == length {
        lemma_whole_body(body, length);
    }
}

/// A request whose only header field declares a length, followed by a body
/// of exactly that many bytes, is parsed with that body; followed by fewer
/// bytes, it is rejected as truncated.
pub proof fn theorem_declared_body(
    method: Method,
    path: Seq<char>,
    tail: Seq<char>,
    name: Seq<char>,
    length: usize,
    body: Seq<char>,
)
    requires
        is_word(path),
        tail.len() > 0 ==> is_whitespace(tail[0]),
        is_line(tail + "\n"@),
        is_content_length(name),
    ensures
        ({
            let text = method_name(method) + " "@ + path + tail + "\n"@ + (name + ": "@ + decimal(
                length as nat,
            ) + "\r\n"@) + "\r\n"@ + body;
            &&& encode_utf8(body).len() == length ==> parse_message(text) == Ok::<_, ParseError>(
                RequestView {
                    method,
                    path,
                    headers: seq![(name, decimal(length as nat))],
                    body,
                },
            )
            &&& encode_utf8(body).len() < length ==> parse_message(text) == Err::<RequestView, _>(
                ParseError::TruncatedBody,
            )
        }),
{
    let status = method_name(method) + " "@ + path + tail + "\n"@;
    let field = name + ": "@ + decimal(length as nat) + "\r\n"@;
    let rest = field + "\r\n"@ + body;
    let text = status + field + "\r\n"@ + body;
    assert(text =~= status + rest);
    theorem_method_and_path(method, path, tail, rest);
    assert(text.skip(status.len() as int) =~= rest);
    lemma_length_block(text, status.len() as int, name, length, body);
}

/// What does not read as a length: the empty value, a value with a minus
/// sign, and a value with a character that is neither a digit nor a plus
/// sign in front.
pub proof fn theorem_not_a_length(value: Seq<char>)
    ensures
        value.len() == 0 ==> parse_usize_spec(value) is None,
        value.len() > 0 && value[0] == '-' ==> parse_usize_spec(value) is None,
        (exists|i: int|
            0 <= i < value.len() && !is_digit(#[trigger] value[i]) && !(i == 0 && value[i] == '+'))
            ==> parse_usize_spec(value) is None,
{
    let digits = if value.len() > 0 && value[0] == '+' {
        value.drop_first()
    } else {
        value
    };
    if value.len() > 0 && value[0] == '-' {
        assert(!is_digit(digits[0]));
    }
    if exists|i: int|
        0 <= i < value.len() && !is_digit(#[trigger] value[i]) && !(i == 0 && value[i] == '+') {
        let i = choose|i: int|
            0 <= i < value.len() && !is_digit(#[trigger] value[i]) && !(i == 0 && value[i]
                == '+');
        if value[0] == '+' {
            assert(digits[i - 1] == value[i]);
        } else {
            assert(digits[i] == value[i]);
        }
    }
}

/// Header fields declare no length where no name is that of a length, and
/// where the value under the first such name does not read as one.
pub proof fn theorem_no_declared_length(fields: Fields)
    ensures
        (forall|i: int| 0 <= i < fields.len() ==> !is_content_length((#[trigger] fields[i]).0))
            ==> content_length(fields) is None && declared_length(fields) == 0,
        ({
            let first = content_length_position(names_of(fields), 0);
            first < fields.len() && parse_usize_spec(fields[first].1) is None ==> content_length(
                fields,
            ) is None && declared_length(fields) == 0
        }),
{
    let names = names_of(fields);
    lemma_content_length_position(names, 0);
    let first = content_length_position(names, 0);
    if first < fields.len() {
        assert(names[first] == fields[first].0);
    }
}

/// A request whose header block declares no length, or the length zero, is
/// parsed with an empty body: it is not rejected for that.
pub proof fn theorem_no_length_no_body(
    method: Method,
    path: Seq<char>,
    tail: Seq<char>,
    rest: Seq<char>,
)
    requires
        is_word(path),
        tail.len() > 0 ==> is_whitespace(tail[0]),
        is_line(tail + "\n"@),
    ensures
        ({
            let line = method_name(method) + " "@ + path + tail + "\n"@;
            let text = line + rest;
            header_block(text, line.len() as int, Seq::empty()) matches Ok((fields, pos)) ==> (
            declared_length(fields) == 0 ==> parse_message(text) == Ok::<_, ParseError>(
                RequestView { method, path, headers: fields, body: Seq::empty() },
            ))
        }),
{
    theorem_method_and_path(method, path, tail, rest);
    let line = method_name(method) + " "@ + path + tail + "\n"@;
    let text = line + rest;
    match header_block(text, line.len() as int, Seq::empty()) {
        Ok((fields, pos)) => {
            lemma_empty_body(text.skip(pos));
        },
        Err(_) => {},
    }
}

/// The status line of the usual shape, with the version marker after the
/// path and any line end, gives back its method and its path.
pub proof fn theorem_status_line_with_version(method: Method, path: Seq<char>, end: Seq<char>)
    requires
        is_word(path),
    ensures
        request_line(method_name(method) + " "@ + path + " HTTP/1.1"@ + end) == Ok::<
            _,
            ParseError,
        >((method, path)),
{
    reveal_strlit(" HTTP/1.1");
    let tail = " HTTP/1.1"@ + end;
    assert(tail[0] == ' ');
    assert(method_name(method) + " "@ + path + " HTTP/1.1"@ + end =~= method_name(method) + " "@
        + path + tail);
    theorem_status_line(method, path, tail);
}

/// What the body of a request was cut to fit.
proof fn lemma_body_length(rest: Seq<char>, length: usize)
    ensures
        body_of(rest, length) matches Some(body) ==> encode_utf8(body).len() == length,
{
    let bytes = encode_utf8(rest);
    if body_of(rest, length) is Some {
        assert(bytes.take(length as int) == bytes.subrange(0, length as int));
        vstd::utf8::encode_utf8_valid_utf8(rest);
        vstd::utf8::valid_utf8_split(bytes, length as int);
        vstd::utf8::decode_utf8_encode_utf8(bytes.take(length as int));
    }
}

/// A header block keeps the names distinct.
proof fn lemma_header_block_distinct(text: Seq<char>, from: int, fields: Fields)
    requires
        distinct_names(fields),
    ensures
        header_block(text, from, fields) matches Ok((stored, pos)) ==> distinct_names(stored),
    decreases text.len() - from,
{
    let end = line_end(text, from);
    let line = text.subrange(from, end);
    if !(0 <= from < text.len()) || ends_headers(line) {
    } else {
        match header_field(line) {
            None => {},
            Some((name, value)) => {
                lemma_find(text, '\n', from);
                lemma_put_distinct(fields, name, value);
                lemma_header_block_distinct(text, end, put(fields, name, value));
            },
        }
    }
}

/// Every request that is parsed from a text is well formed.
pub proof fn theorem_parsed_request(text: Seq<char>)
    ensures
        parse_message(text) matches Ok(request) ==> well_formed(request),
{
    let end = line_end(text, 0);
    match request_line(text.take(end)) {
        Err(_) => {},
        Ok((method, path)) => {
            lemma_header_block_distinct(text, end, Seq::empty());
            match header_block(text, end, Seq::empty()) {
                Err(_) => {},
                Ok((headers, pos)) => {
                    lemma_body_length(text.skip(pos), declared_length(headers));
                },
            }
        },
    }
}

/// A parser starts on firm ground and stays there, whatever it is fed.
pub proof fn theorem_parser_stays_sound(
    state: ParserView,
    line: Option<Seq<char>>,
    body: Option<Seq<char>>,
)
    requires
        sound(state),
    ensures
        sound(ParserView::StatusLine),
        sound(after_line(state, line)),
        sound(after_body(state, body)),
{
    match state {
        ParserView::HeaderLine { method, path, headers } => {
            match line {
                Some(text) => {
                    if ends_headers(text) {
                        assert(encode_utf8(Seq::<char>::empty()).len() == 0);
                    } else {
                        match header_field(text) {
                            Some((name, value)) => {
                                lemma_put_distinct(headers, name, value);
                            },
                            None => {},
                        }
                    }
                },
                None => {},
            }
        },
        _ => {},
    }
}

/// A body and what follows it make up the text they were cut from.
pub proof fn theorem_body_and_rest(rest: Seq<char>, length: usize)
    ensures
        body_of(rest, length) matches Some(body) ==> body + rest_after_body(rest, length) == rest,
{
    let bytes = encode_utf8(rest);
    if body_of(rest, length) is Some {
        assert(bytes.take(length as int) == bytes.subrange(0, length as int));
        assert(bytes.skip(length as int) == bytes.subrange(length as int, bytes.len() as int));
        vstd::utf8::encode_utf8_valid_utf8(rest);
        vstd::utf8::decode_utf8_split(bytes, length as int);
        vstd::utf8::encode_utf8_decode_utf8(rest);
    }
}

/// Nothing is lost: what follows the header block of a request that was
/// parsed is the body of the request and then what is left unread.
pub proof fn theorem_request_and_rest(text: Seq<char>)
    ensures
        parse_message(text) matches Ok(request) ==> (header_block(
            text,
            line_end(text, 0),
            Seq::empty(),
        ) matches Ok((headers, pos)) && text.skip(pos) == request.body + unread(text)),
{
    match header_block(text, line_end(text, 0), Seq::empty()) {
        Ok((headers, pos)) => {
            theorem_body_and_rest(text.skip(pos), declared_length(headers));
        },
        Err(_) => {},
    }
}

/// The version marker with its line end, as the tail of a status line.
proof fn lemma_version_marker()
    ensures
        is_whitespace(" HTTP/1.1\r"@[0]),
        is_line(" HTTP/1.1\r"@ + "\n"@),
        " HTTP/1.1\r"@ + "\n"@ == " HTTP/1.1\r\n"@,
{
    reveal_strlit(" HTTP/1.1\r\n");
    reveal_strlit(" HTTP/1.1\r");
    reveal_strlit("\n");
    let ended = " HTTP/1.1\r"@ + "\n"@;
    assert forall|i: int| 0 <= i < ended.len() implies ended[i] == " HTTP/1.1\r\n"@[i]
        && (i < ended.len() - 1 ==> #[trigger] ended[i] != '\n') by {
        // One case for each position.
        if i == 0 {
        } else if i == 1 {
        } else if i == 2 {
        } else if i == 3 {
        } else if i == 4 {
        } else if i == 5 {
        } else if i == 6 {
        } else if i == 7 {
        } else if i == 8 {
        } else if i == 9 {
        } else if i == 10 {
        }
    }
    assert(ended =~= " HTTP/1.1\r\n"@);
}

/// A request of the usual shape, whatever follows its status line: if it is
/// parsed, then with the method and the path of the status line; if it is
/// rejected, then not for its status line.
pub proof fn theorem_usual_request(method: Method, path: Seq<char>, rest: Seq<char>)
    requires
        is_word(path),
    ensures
        ({
            let text = method_name(method) + " "@ + path + " HTTP/1.1\r\n"@ + rest;
            &&& parse_message(text) matches Ok(request) ==> request.method == method
                && request.path == path
            &&& parse_message(text) matches Err(error) ==> error == ParseError::HeaderReadFailure
                || error == ParseError::TruncatedBody
        }),
{
    lemma_version_marker();
    theorem_method_and_path(method, path, " HTTP/1.1\r"@, rest);
    let start = method_name(method) + " "@ + path;
    assert(start + " HTTP/1.1\r"@ + "\n"@ + rest =~= start + " HTTP/1.1\r\n"@ + rest);
}

/// The request of the usual shape with a body declared as five bytes long:
/// with a body of exactly five bytes it is parsed with that body, with
/// fewer bytes it is rejected as truncated.
pub proof fn theorem_five_byte_body(method: Method, path: Seq<char>, body: Seq<char>)
    requires
        is_word(path),
    ensures
        ({
            let text = method_name(method) + " "@ + path + " HTTP/1.1\r\n"@
                + "Content-Length: 5\r\n\r\n"@ + body;
            &&& encode_utf8(body).len() == 5 ==> parse_message(text) == Ok::<_, ParseError>(
                RequestView { method, path, headers: seq![("Content-Length"@, "5"@)], body },
            )
            &&& encode_utf8(body).len() < 5 ==> parse_message(text) == Err::<RequestView, _>(
                ParseError::TruncatedBody,
            )
        }),
{
    reveal_strlit("Content-Length: 5\r\n\r\n");
    reveal_strlit("Content-Length");
    reveal_strlit(": ");
    reveal_strlit("5");
    reveal_strlit("\r\n");
    lemma_version_marker();
    let tail = " HTTP/1.1\r"@;
    let name = "Content-Length"@;
    let numeral = decimal(5);
    assert(numeral =~= "5"@);
    let block = (name + ": "@ + numeral + "\r\n"@) + "\r\n"@;
    assert forall|i: int| 0 <= i < block.len() implies #[trigger] block[i]
        == "Content-Length: 5\r\n\r\n"@[i] by {
        // One case for each position.
        if i == 0 {
        } else if i == 1 {
        } else if i == 2 {
        } else if i == 3 {
        } else if i == 4 {
        } else if i == 5 {
        } else if i == 6 {
        } else if i == 7 {
        } else if i == 8 {
        } else if i == 9 {
        } else if i == 10 {
        } else if i == 11 {
        } else if i == 12 {
        } else if i == 13 {
        } else if i == 14 {
        } else if i == 15 {
        } else if i == 16 {
        } else if i == 17 {
        } else if i == 18 {
        } else if i == 19 {
        } else if i == 20 {
        }
    }
    assert(block =~= "Content-Length: 5\r\n\r\n"@);
    theorem_content_length_spelling();
    theorem_declared_body(method, path, tail, name, 5, body);
    let start = method_name(method) + " "@ + path;
    assert(start + tail + "\n"@ + (name + ": "@ + numeral + "\r\n"@) + "\r\n"@ + body =~= start
        + " HTTP/1.1\r\n"@ + "Content-Length: 5\r\n\r\n"@ + body);
}

/// A parser at the end of the header block, given the body from `text`,
/// ends with the request that the block and the body make.
proof fn lemma_fed_after_headers(
    text: Seq<char>,
    pos: int,
    method: Method,
    path: Seq<char>,
    headers: Fields,
)
    ensures
        outcome_of(fed(after_headers(method, path, headers), text, pos)) == Some(
            with_body(text, method, path, Ok((headers, pos))),
        ),
{
    reveal_with_fuel(fed, 2);
    let length = declared_length(headers);
    if length > 0 {
        lemma_body_length(text.skip(pos), length);
    } else {
        lemma_empty_body(text.skip(pos));
    }
}

/// A parser inside the header block, given the rest of `text`, ends with
/// the request that the rest of the block and the body make.
proof fn lemma_fed_through_headers(
    text: Seq<char>,
    pos: int,
    method: Method,
    path: Seq<char>,
    headers: Fields,
)
    requires
        0 <= pos <= text.len(),
    ensures
        outcome_of(fed(ParserView::HeaderLine { method, path, headers }, text, pos)) == Some(
            with_body(text, method, path, header_block(text, pos, headers)),
        ),
    decreases text.len() - pos,
{
    reveal_with_fuel(fed, 2);
    let end = line_end(text, pos);
    let line = text.subrange(pos, end);
    lemma_find(text, '\n', pos);
    if pos == text.len() {
        assert(encode_utf8(line).len() == 0);
    }
    if ends_headers(line) {
        lemma_fed_after_headers(text, end, method, path, headers);
    } else {
        match header_field(line) {
            None => {},
            Some((name, value)) => {
                lemma_fed_through_headers(text, end, method, path, put(headers, name, value));
            },
        }
    }
}

/// A parser that is given what it asks for from a text ends with what the
/// text holds as a whole: the request at its start, or the error.
pub proof fn theorem_fed_is_parsed(text: Seq<char>)
    ensures
        outcome_of(fed(ParserView::StatusLine, text, 0)) == Some(parse_message(text)),
{
    reveal_with_fuel(fed, 2);
    let end = line_end(text, 0);
    lemma_find(text, '\n', 0);
    assert(text.subrange(0, end) == text.take(end));
    match request_line(text.take(end)) {
        Err(_) => {},
        Ok((method, path)) => {
            lemma_fed_through_headers(text, end, method, path, Seq::empty());
        },
    }
}

/// A text is always there to be read: it is never rejected for a status
/// line that could not be read.
pub proof fn theorem_text_is_read(text: Seq<char>)
    ensures
        parse_message(text) != Err::<RequestView, _>(ParseError::MalformedStatusLine),
{
    lemma_header_block_errors(text, line_end(text, 0), Seq::empty());
}

} // verus!
