//! What the parser makes of a well-formed request: it reads back exactly
//! what was written.

use crate::ascii::{
    decimal, lemma_decimal_round_trip, lemma_find_byte_at, lower, COLON, LF, SPACE,
};
use crate::assoc::{as_map, has_key, lemma_with_last_at, lookup, with_last};
use crate::error::ParseFailure;
use crate::headers::Fields;
use crate::method::{lemma_token_names_method, Method};
use crate::request::{
    body_length, find_separator, head_from, header_field, line_at, parse_stream, request_line,
    Head, RequestData,
};
use crate::response::{crlf, header_lines, lemma_wire_constants, length_name, separator};
use vstd::prelude::*;

verus! {

/// The byte `b` does not occur in `s`.
pub open spec fn free_of(s: Seq<u8>, b: u8) -> bool {
    forall|i: int| 0 <= i < s.len() ==> #[trigger] s[i] != b
}

/// `": "` does not occur in `s`.
pub open spec fn free_of_separator(s: Seq<u8>) -> bool {
    forall|i: int| 0 <= i && i + 1 < s.len() ==> !(#[trigger] s[i] == COLON && s[i + 1] == SPACE)
}

/// A header field that a line can carry: no line feed in it, and no
/// `": "` in its name.
pub open spec fn well_formed_field(field: (Seq<u8>, Seq<u8>)) -> bool {
    free_of(field.0, LF) && free_of_separator(field.0) && free_of(field.1, LF)
}

/// Every field of the list can be carried by a line.
pub open spec fn well_formed_fields(fields: Fields) -> bool {
    forall|i: int| 0 <= i < fields.len() ==> well_formed_field(#[trigger] fields[i])
}

/// A target and a version that a request line can carry: neither holds a
/// space or a line feed.
pub open spec fn well_formed_tokens(target: Seq<u8>, version: Seq<u8>) -> bool {
    free_of(target, SPACE) && free_of(target, LF) && free_of(version, SPACE) && free_of(
        version,
        LF,
    )
}

/// The wire bytes of a request: the request line, one line for each
/// header field, a blank line and the body.
pub open spec fn request_bytes(
    method: Method,
    target: Seq<u8>,
    version: Seq<u8>,
    fields: Fields,
    body: Seq<u8>,
) -> Seq<u8> {
    method.token() + seq![SPACE] + target + seq![SPACE] + version + crlf() + header_lines(fields)
        + crlf() + body
}

/// The header list after the fields were read in order into `sofar`, each
/// under its lower-case name.
pub open spec fn absorbed(sofar: Fields, fields: Fields) -> Fields
    decreases fields.len(),
{
    if fields.len() == 0 {
        sofar
    } else {
        absorbed(with_last(sofar, lower(fields[0].0), fields[0].1), fields.skip(1))
    }
}

/// The bytes of `piece` stand in `input` from position `at` on.
pub open spec fn occurs_at(input: Seq<u8>, at: int, piece: Seq<u8>) -> bool {
    0 <= at && at + piece.len() <= input.len() && input.subrange(at, at + piece.len()) == piece
}

proof fn lemma_occurs_split(input: Seq<u8>, at: int, a: Seq<u8>, b: Seq<u8>)
    ensures
        occurs_at(input, at, a + b) == (occurs_at(input, at, a) && occurs_at(
            input,
            at + a.len(),
            b,
        )),
{
    let whole = a + b;
    if occurs_at(input, at, whole) {
        let found = input.subrange(at, at + whole.len());
        assert forall|k: int| 0 <= k < a.len() implies input[at + k] == a[k] by {
            assert(found[k] == whole[k]);
        }
        assert forall|k: int| 0 <= k < b.len() implies input[at + a.len() + k] == b[k] by {
            assert(found[a.len() + k] == whole[a.len() + k]);
        }
        assert(input.subrange(at, at + a.len()) =~= a);
        assert(input.subrange(at + a.len(), at + a.len() + b.len()) =~= b);
    }
    if occurs_at(input, at, a) && occurs_at(input, at + a.len(), b) {
        let left = input.subrange(at, at + a.len());
        let right = input.subrange(at + a.len(), at + a.len() + b.len());
        assert forall|k: int| 0 <= k < whole.len() implies input[at + k] == whole[k] by {
            if k < a.len() {
                assert(left[k] == a[k]);
            } else {
                assert(right[k - a.len()] == b[k - a.len()]);
            }
        }
        assert(input.subrange(at, at + whole.len()) =~= whole);
    }
}

proof fn lemma_occurs_bytes(input: Seq<u8>, at: int, piece: Seq<u8>)
    requires
        occurs_at(input, at, piece),
    ensures
        forall|k: int| 0 <= k < piece.len() ==> #[trigger] input[at + k] == piece[k],
{
    let found = input.subrange(at, at + piece.len());
    assert forall|k: int| 0 <= k < piece.len() implies #[trigger] input[at + k] == piece[k] by {
        assert(found[k] == piece[k]);
    }
}

/// In a line made of a name free of `": "`, the separator and a value,
/// the first `": "` stands right behind the name.
proof fn lemma_separator_follows_name(name: Seq<u8>, value: Seq<u8>, from: int)
    requires
        free_of_separator(name),
        0 <= from <= name.len(),
    ensures
        find_separator(name + separator() + value, from) == name.len(),
    decreases name.len() - from,
{
    lemma_wire_constants();
    let line = name + separator() + value;
    assert(line[name.len() as int] == COLON);
    assert(line[name.len() as int + 1] == SPACE);
    if from < name.len() {
        assert(line[from] == name[from]);
        if from + 1 < name.len() {
            assert(line[from + 1] == name[from + 1]);
        } else {
            assert(line[from + 1] == COLON);
        }
        lemma_separator_follows_name(name, value, from + 1);
    }
}

/// A header line is read as its field.
proof fn lemma_field_line(name: Seq<u8>, value: Seq<u8>)
    requires
        free_of_separator(name),
    ensures
        header_field(name + separator() + value) == Some((lower(name), value)),
{
    lemma_wire_constants();
    lemma_separator_follows_name(name, value, 0);
    let line = name + separator() + value;
    assert(line.subrange(0, name.len() as int) =~= name);
    assert(line.subrange(name.len() as int + 2, line.len() as int) =~= value);
}

/// A line that is free of line feeds and is followed by a line terminator
/// is read as that line, and the next line starts behind the terminator.
proof fn lemma_line_is_read(input: Seq<u8>, at: int, text: Seq<u8>)
    requires
        occurs_at(input, at, text + crlf()),
        free_of(text, LF),
    ensures
        line_at(input, at).text == text,
        line_at(input, at).next == at + text.len() + 2,
        line_at(input, at).terminated,
{
    lemma_wire_constants();
    lemma_occurs_bytes(input, at, text + crlf());
    let whole = text + crlf();
    let stop = at + text.len() + 1;
    assert forall|j: int| at <= j < stop implies input[j] != LF by {
        assert(input[at + (j - at)] == whole[j - at]);
        if j - at < text.len() {
            assert(whole[j - at] == text[j - at]);
        }
    }
    assert(input[at + (text.len() + 1)] == whole[text.len() as int + 1]);
    lemma_find_byte_at(input, LF, at, stop);
    let raw = input.subrange(at, stop);
    assert(raw.last() == 13u8) by {
        assert(input[at + text.len()] == whole[text.len() as int]);
    }
    assert(raw.drop_last() =~= text) by {
        assert forall|k: int| 0 <= k < text.len() implies raw.drop_last()[k] == text[k] by {
            assert(input[at + k] == whole[k]);
        }
    }
}

/// The header lines of a list are the line of its first field followed
/// by the header lines of the others.
proof fn lemma_header_lines_front(fields: Fields)
    requires
        fields.len() > 0,
    ensures
        header_lines(fields) == fields[0].0 + separator() + fields[0].1 + crlf() + header_lines(
            fields.skip(1),
        ),
    decreases fields.len(),
{
    let line = fields[0].0 + separator() + fields[0].1 + crlf();
    if fields.len() == 1 {
        assert(fields.drop_last() =~= Fields::empty());
        assert(fields.skip(1) =~= Fields::empty());
        assert(header_lines(fields) =~= line + header_lines(fields.skip(1)));
    } else {
        let front = fields.drop_last();
        lemma_header_lines_front(front);
        assert(front.skip(1) =~= fields.skip(1).drop_last());
        assert(fields.skip(1).last() == fields.last());
        assert(front[0] == fields[0]);
        assert(header_lines(fields) =~= line + header_lines(fields.skip(1)));
    }
}

/// A block of well-formed header lines followed by a blank line is read
/// as its fields in order, and the body starts behind the blank line.
proof fn lemma_block_is_read(input: Seq<u8>, at: int, fields: Fields, sofar: Fields, closed: bool)
    requires
        occurs_at(input, at, header_lines(fields) + crlf()),
        well_formed_fields(fields),
    ensures
        head_from(input, at, sofar, closed) == Head::Complete(
            absorbed(sofar, fields),
            at + header_lines(fields).len() + 2,
        ),
    decreases fields.len(),
{
    lemma_wire_constants();
    if fields.len() == 0 {
        assert(header_lines(fields) + crlf() =~= Seq::<u8>::empty() + crlf());
        lemma_line_is_read(input, at, Seq::<u8>::empty());
    } else {
        let name = fields[0].0;
        let value = fields[0].1;
        let rest = fields.skip(1);
        let text = name + separator() + value;
        lemma_header_lines_front(fields);
        assert(well_formed_field(fields[0]));
        assert(header_lines(fields) + crlf() =~= (text + crlf()) + (header_lines(rest) + crlf()));
        lemma_occurs_split(input, at, text + crlf(), header_lines(rest) + crlf());
        assert(free_of(text, LF)) by {
            assert forall|i: int| 0 <= i < text.len() implies #[trigger] text[i] != LF by {
                if i < name.len() {
                    assert(text[i] == name[i]);
                } else if i >= name.len() + 2 {
                    assert(text[i] == value[i - name.len() - 2]);
                }
            }
        }
        lemma_line_is_read(input, at, text);
        lemma_field_line(name, value);
        assert forall|i: int| 0 <= i < rest.len() implies well_formed_field(#[trigger] rest[i]) by {
            assert(rest[i] == fields[i + 1]);
        }
        lemma_block_is_read(
            input,
            at + text.len() + 2,
            rest,
            with_last(sofar, lower(name), value),
            closed,
        );
        assert(header_lines(fields).len() == text.len() + 2 + header_lines(rest).len());
    }
}

/// A request line made of a method's token, a target and a version is
/// read as these three.
proof fn lemma_request_line_is_read(method: Method, target: Seq<u8>, version: Seq<u8>)
    requires
        well_formed_tokens(target, version),
    ensures
        request_line(method.token() + seq![SPACE] + target + seq![SPACE] + version) == Ok::<
            (Method, Seq<u8>, Seq<u8>),
            ParseFailure,
        >((method, target, version)),
        free_of(method.token() + seq![SPACE] + target + seq![SPACE] + version, LF),
{
    lemma_token_names_method(method);
    let token = method.token();
    let line = token + seq![SPACE] + target + seq![SPACE] + version;
    let first = token.len() as int;
    let second = first + 1 + target.len();
    assert forall|i: int| 0 <= i < line.len() implies #[trigger] line[i] == (if i < first {
        token[i]
    } else if i == first {
        SPACE
    } else if i < second {
        target[i - first - 1]
    } else if i == second {
        SPACE
    } else {
        version[i - second - 1]
    }) by {}
    assert forall|j: int| 0 <= j < first implies line[j] != SPACE by {
        assert(65 <= token[j] <= 90);
    }
    lemma_find_byte_at(line, SPACE, 0, first);
    assert forall|j: int| first + 1 <= j < second implies line[j] != SPACE by {
        assert(target[j - first - 1] != SPACE);
    }
    lemma_find_byte_at(line, SPACE, first + 1, second);
    assert forall|j: int| second + 1 <= j < line.len() implies line[j] != SPACE by {
        assert(version[j - second - 1] != SPACE);
    }
    lemma_find_byte_at(line, SPACE, second + 1, line.len() as int);
    assert(line.subrange(0, first) =~= token);
    assert(line.subrange(first + 1, second) =~= target);
    assert(line.subrange(second + 1, line.len() as int) =~= version);
    assert forall|i: int| 0 <= i < line.len() implies #[trigger] line[i] != LF by {
        if i < first {
            assert(65 <= token[i] <= 90);
        } else if first < i < second {
            assert(target[i - first - 1] != LF);
        } else if i > second {
            assert(version[i - second - 1] != LF);
        }
    }
}

/// A well-formed request is read back as it was written: the method, the
/// target and the version of its request line, its header fields in
/// order under their lower-case names, and as its body exactly the bytes
/// that follow the header block, as many as the headers announce. Bytes
/// behind the body do not matter, nor whether the stream is closed.
pub proof fn lemma_well_formed_request_is_read(
    method: Method,
    target: Seq<u8>,
    version: Seq<u8>,
    fields: Fields,
    body: Seq<u8>,
    extra: Seq<u8>,
    closed: bool,
)
    requires
        well_formed_tokens(target, version),
        well_formed_fields(fields),
        body_length(absorbed(Fields::empty(), fields)) == Ok::<nat, ParseFailure>(body.len()),
    ensures
        parse_stream(request_bytes(method, target, version, fields, body) + extra, closed) == Some(
            Ok::<RequestData, ParseFailure>(
                RequestData {
                    method,
                    target,
                    version,
                    headers: absorbed(Fields::empty(), fields),
                    body,
                },
            ),
        ),
{
    lemma_wire_constants();
    let line = method.token() + seq![SPACE] + target + seq![SPACE] + version;
    let block = header_lines(fields) + crlf();
    let input = request_bytes(method, target, version, fields, body) + extra;
    let empty = Fields::empty();
    assert(input =~= (line + crlf()) + (block + (body + extra)));
    assert(occurs_at(input, 0, input)) by {
        assert(input.subrange(0, input.len() as int) =~= input);
    }
    lemma_occurs_split(input, 0, line + crlf(), block + (body + extra));
    lemma_occurs_split(input, line.len() as int + 2, block, body + extra);
    lemma_occurs_split(input, line.len() as int + 2 + block.len(), body, extra);
    lemma_request_line_is_read(method, target, version);
    lemma_line_is_read(input, 0, line);
    lemma_block_is_read(input, line.len() as int + 2, fields, empty, closed);
}

/// Of the fields with one name, whatever the case of its letters, the one
/// read last gives the value: the header list holds it under the
/// lower-case name.
pub proof fn lemma_last_field_wins(sofar: Fields, fields: Fields, i: int)
    requires
        0 <= i < fields.len(),
        forall|j: int| i < j < fields.len() ==> lower(#[trigger] fields[j].0) != lower(fields[i].0),
    ensures
        lookup(absorbed(sofar, fields), lower(fields[i].0)) == Some(fields[i].1),
        as_map(absorbed(sofar, fields)).contains_key(lower(fields[i].0)),
        as_map(absorbed(sofar, fields))[lower(fields[i].0)] == fields[i].1,
    decreases fields.len(),
{
    let name = lower(fields[i].0);
    let rest = fields.skip(1);
    let next = with_last(sofar, lower(fields[0].0), fields[0].1);
    if i == 0 {
        lemma_with_last_at(sofar, name, fields[0].1, name);
        assert forall|j: int| 0 <= j < rest.len() implies lower(#[trigger] rest[j].0) != name by {
            assert(rest[j] == fields[j + 1]);
        }
        lemma_other_fields_keep(next, rest, name);
    } else {
        assert(rest[i - 1] == fields[i]);
        assert forall|j: int| i - 1 < j < rest.len() implies lower(#[trigger] rest[j].0) != lower(
            rest[i - 1].0,
        ) by {
            assert(rest[j] == fields[j + 1]);
        }
        lemma_last_field_wins(next, rest, i - 1);
    }
}

/// Reading fields leaves every name alone that none of them bears.
pub proof fn lemma_other_fields_keep(sofar: Fields, fields: Fields, name: Seq<u8>)
    requires
        forall|j: int| 0 <= j < fields.len() ==> lower(#[trigger] fields[j].0) != name,
    ensures
        lookup(absorbed(sofar, fields), name) == lookup(sofar, name),
        has_key(absorbed(sofar, fields), name) == has_key(sofar, name),
    decreases fields.len(),
{
    if fields.len() > 0 {
        let rest = fields.skip(1);
        let next = with_last(sofar, lower(fields[0].0), fields[0].1);
        lemma_with_last_at(sofar, lower(fields[0].0), fields[0].1, name);
        assert forall|j: int| 0 <= j < rest.len() implies lower(#[trigger] rest[j].0) != name by {
            assert(rest[j] == fields[j + 1]);
        }
        lemma_other_fields_keep(next, rest, name);
    }
}

/// A request whose last `content-length` field, in any letter case, holds
/// the decimal rendering of a length announces that length.
pub proof fn lemma_announced_length(fields: Fields, i: int, length: nat)
    requires
        0 <= i < fields.len(),
        lower(fields[i].0) == length_name(),
        fields[i].1 == decimal(length),
        length <= usize::MAX,
        forall|j: int| i < j < fields.len() ==> lower(#[trigger] fields[j].0) != length_name(),
    ensures
        body_length(absorbed(Fields::empty(), fields)) == Ok::<nat, ParseFailure>(length),
{
    lemma_last_field_wins(Fields::empty(), fields, i);
    lemma_decimal_round_trip(length);
}

} // verus!
