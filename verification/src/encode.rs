//! Encodings of the export formats: base64, CSV records and JSON strings.

use base64::Engine;
use vstd::prelude::*;
use crate::text;

verus! {

/// The base64 digit for the six-bit number `v`.
pub open spec fn base64_digit(v: int) -> char {
    if v < 26 {
        (65 + v) as char
    } else if v < 52 {
        (97 + v - 26) as char
    } else if v < 62 {
        (48 + v - 52) as char
    } else if v == 62 {
        '+'
    } else {
        '/'
    }
}

/// The padded base64 encoding of `b` in the standard alphabet: every three bytes
/// become four digits, and `=` fills up the last group.
pub open spec fn base64_of(b: Seq<u8>) -> Seq<char>
    decreases b.len(),
{
    if b.len() == 0 {
        Seq::empty()
    } else if b.len() == 1 {
        seq![base64_digit(b[0] as int / 4), base64_digit(b[0] as int % 4 * 16), '=', '=']
    } else if b.len() == 2 {
        seq![
            base64_digit(b[0] as int / 4),
            base64_digit(b[0] as int % 4 * 16 + b[1] as int / 16),
            base64_digit(b[1] as int % 16 * 4),
            '=',
        ]
    } else {
        seq![
            base64_digit(b[0] as int / 4),
            base64_digit(b[0] as int % 4 * 16 + b[1] as int / 16),
            base64_digit(b[1] as int % 16 * 4 + b[2] as int / 64),
            base64_digit(b[2] as int % 64),
        ] + base64_of(b.skip(3))
    }
}

/// `Engine::encode` of the `STANDARD` base64 engine: the padded encoding in the
/// standard alphabet.
#[verifier::external_body]
pub(crate) fn base64_text(data: &Vec<u8>) -> (r: String)
    ensures
        r@ == base64_of(data@),
{
    base64::engine::general_purpose::STANDARD.encode(data)
}

/// A character that makes a CSV field need quotes.
pub open spec fn csv_special(c: char) -> bool {
    c == ',' || c == '"' || c == '\r' || c == '\n'
}

/// `s` with every quote doubled.
pub open spec fn quotes_doubled(s: Seq<char>) -> Seq<char> {
    s.flat_map(
        |c: char|
            if c == '"' {
                seq!['"', '"']
            } else {
                seq![c]
            },
    )
}

/// A field as a CSV record holds it: in quotes, with its own quotes doubled, if
/// it holds a special character, and as it is otherwise.
pub open spec fn csv_field(s: Seq<char>) -> Seq<char> {
    if exists|i: int| 0 <= i < s.len() && csv_special(#[trigger] s[i]) {
        seq!['"'] + quotes_doubled(s) + seq!['"']
    } else {
        s
    }
}

/// The fields of a CSV record, separated by commas.
pub open spec fn csv_fields(fields: Seq<Seq<char>>) -> Seq<char>
    decreases fields.len(),
{
    if fields.len() == 0 {
        Seq::empty()
    } else if fields.len() == 1 {
        csv_field(fields[0])
    } else {
        csv_fields(fields.drop_last()) + seq![','] + csv_field(fields.last())
    }
}

/// A CSV record: its fields and the line end.
pub open spec fn csv_record(fields: Seq<Seq<char>>) -> Seq<char> {
    csv_fields(fields) + seq!['\n']
}

/// The error of the `csv` crate.
#[verifier::external_type_specification]
#[verifier::external_body]
pub struct ExCsvError(csv::Error);

/// `csv::Writer::write_record` on a fresh default writer over memory: one record
/// of the given fields, separated by commas and ended by a line feed, with quotes
/// where a field needs them. A fresh writer has no earlier record to disagree
/// with in length and memory takes every byte, so the call succeeds. A record of
/// fewer than two fields is left out: the writer quotes a lone empty field.
#[verifier::external_body]
pub(crate) fn csv_record_text(fields: &Vec<String>) -> (r: Result<String, csv::Error>)
    requires
        fields@.len() >= 2,
    ensures
        r is Ok,
        r->Ok_0@ == csv_record(text::strings(fields@)),
{
    let mut writer = csv::Writer::from_writer(Vec::new());
    writer.write_record(fields)?;
    let bytes = writer.into_inner().map_err(|e| e.into_error())?;
    Ok(String::from_utf8_lossy(&bytes).into_owned())
}

/// The lower-case hexadecimal digit `d`, for `d < 16`.
pub open spec fn hex_digit(d: int) -> char {
    if d < 10 {
        (48 + d) as char
    } else {
        (87 + d) as char
    }
}

/// A character as a JSON string holds it.
pub open spec fn json_char(c: char) -> Seq<char> {
    if c == '"' || c == '\\' {
        seq!['\\', c]
    } else if c == '\u{8}' {
        seq!['\\', 'b']
    } else if c == '\t' {
        seq!['\\', 't']
    } else if c == '\n' {
        seq!['\\', 'n']
    } else if c == '\u{c}' {
        seq!['\\', 'f']
    } else if c == '\r' {
        seq!['\\', 'r']
    } else if (c as int) < 32 {
        seq!['\\', 'u', '0', '0', hex_digit(c as int / 16), hex_digit(c as int % 16)]
    } else {
        seq![c]
    }
}

/// `s` as a JSON string, with its quotes.
pub open spec fn json_string(s: Seq<char>) -> Seq<char> {
    seq!['"'] + s.flat_map(|c: char| json_char(c)) + seq!['"']
}

/// The error of the `serde_json` crate.
#[verifier::external_type_specification]
#[verifier::external_body]
pub struct ExJsonError(serde_json::Error);

/// `serde_json::to_string` of a string: the text in quotes, with quotes,
/// backslashes and control characters escaped. Serialising a string into memory
/// does not fail.
#[verifier::external_body]
pub(crate) fn json_string_text(s: &str) -> (r: Result<String, serde_json::Error>)
    ensures
        r is Ok,
        r->Ok_0@ == json_string(s@),
{
    serde_json::to_string(s)
}

/// The six-bit number that a base64 digit stands for.
pub open spec fn base64_value(c: char) -> int {
    let n = c as int;
    if 65 <= n <= 90 {
        n - 65
    } else if 97 <= n <= 122 {
        n - 97 + 26
    } else if 48 <= n <= 57 {
        n - 48 + 52
    } else if c == '+' {
        62
    } else {
        63
    }
}

/// The bytes that padded base64 text stands for.
pub open spec fn base64_read(s: Seq<char>) -> Seq<u8>
    decreases s.len(),
{
    if s.len() < 4 {
        Seq::empty()
    } else {
        let first = (base64_value(s[0]) * 4 + base64_value(s[1]) / 16) as u8;
        let second = (base64_value(s[1]) % 16 * 16 + base64_value(s[2]) / 4) as u8;
        let third = (base64_value(s[2]) % 4 * 64 + base64_value(s[3])) as u8;
        if s[2] == '=' {
            seq![first]
        } else if s[3] == '=' {
            seq![first, second]
        } else {
            seq![first, second, third] + base64_read(s.skip(4))
        }
    }
}

proof fn lemma_base64_digit(v: int)
    requires
        0 <= v < 64,
    ensures
        base64_value(base64_digit(v)) == v,
        base64_digit(v) != '=',
{
}

/// Bytes read back from base64 as they were: binary keys can be told apart in every
/// export.
pub proof fn law_base64_reads_back(b: Seq<u8>)
    ensures
        base64_read(base64_of(b)) == b,
    decreases b.len(),
{
    let s = base64_of(b);
    if b.len() == 0 {
        assert(base64_read(s) =~= b);
    } else {
        let x = b[0] as int;
        lemma_base64_digit(x / 4);
        if b.len() == 1 {
            lemma_base64_digit(x % 4 * 16);
            assert(base64_read(s) =~= b);
        } else {
            let y = b[1] as int;
            lemma_base64_digit(x % 4 * 16 + y / 16);
            if b.len() == 2 {
                lemma_base64_digit(y % 16 * 4);
                assert(base64_read(s) =~= b);
            } else {
                let z = b[2] as int;
                lemma_base64_digit(y % 16 * 4 + z / 64);
                lemma_base64_digit(z % 64);
                law_base64_reads_back(b.skip(3));
                assert(s.skip(4) =~= base64_of(b.skip(3)));
                assert(base64_read(s) =~= b);
            }
        }
    }
}

} // verus!
