//! The three ways to apply a position list: to the characters of a line, to
//! its bytes, and to the fields of a record.

use crate::record::fields_of;
use crate::select::{
    clamp_to, lemma_select_all, lemma_select_keeps, lemma_select_map, pick, ranges_ok, select,
};
use csv::StringRecord;
use std::ops::Range;
use vstd::prelude::*;
use vstd::utf8::{encode_utf8, is_ascii_chars, is_ascii_chars_encode_utf8};

verus! {

/// The text that a lossy decoding gives for `bytes`: the bytes read as UTF-8,
/// with U+FFFD in place of whatever is no valid sequence.
pub uninterp spec fn lossy_text(bytes: Seq<u8>) -> Seq<char>;

/// Whether `text` is a faithful reading of `bytes`: where the bytes are the
/// encoding of a text, it is that text.
pub open spec fn reads_encoded(bytes: Seq<u8>, text: Seq<char>) -> bool {
    forall|encoded: Seq<char>| #[trigger] encode_utf8(encoded) == bytes ==> text == encoded
}

/// `String::from_utf8_lossy`: decodes `bytes` as UTF-8 and never fails. Bytes
/// that are the encoding of a text give that text. Any others give a text
/// with replacement characters, which is known only by its name.
#[verifier::external_body]
fn decode_lossy(bytes: &[u8]) -> (text: String)
    ensures
        text@ == lossy_text(bytes@),
        reads_encoded(bytes@, text@),
{
    String::from_utf8_lossy(bytes).into_owned()
}

/// One more range adds what it picks.
proof fn lemma_select_next<T>(s: Seq<T>, ranges: Seq<Range<usize>>, k: int)
    requires
        0 <= k < ranges.len(),
    ensures
        select(s, ranges.take(k + 1)) == select(s, ranges.take(k)) + pick(s, ranges[k]),
{
    assert(ranges.take(k + 1).drop_last() =~= ranges.take(k));
}

/// Of a line of ASCII, the bytes selected are the characters selected: each
/// character is one byte, so no range can cut one in two.
pub proof fn lemma_bytes_of_ascii(line: Seq<char>, ranges: Seq<Range<usize>>)
    requires
        is_ascii_chars(line),
        ranges_ok(ranges),
    ensures
        select(encode_utf8(line), ranges) == encode_utf8(select(line, ranges)),
{
    let as_byte = |c: char| c as u8;
    let selected = select(line, ranges);
    is_ascii_chars_encode_utf8(line);
    assert(encode_utf8(line) =~= line.map_values(as_byte));
    lemma_select_map(line, ranges, as_byte);
    lemma_select_keeps(line, ranges, |c: char| '\0' <= c <= '\u{7f}');
    assert(is_ascii_chars(selected));
    is_ascii_chars_encode_utf8(selected);
    assert(encode_utf8(selected) =~= selected.map_values(as_byte));
}

/// One range over all the bytes of a line selects its whole encoding.
pub proof fn lemma_bytes_of_whole_line(line: Seq<char>, all: Range<usize>)
    requires
        all.start == 0,
        all.end >= encode_utf8(line).len(),
    ensures
        select(encode_utf8(line), seq![all]) == encode_utf8(line),
{
    lemma_select_all(encode_utf8(line), all);
}

/// Selects characters of `line`.
///
/// For each range in turn, the characters at its positions are appended to
/// the result, as far as the line has them. A range that starts beyond the
/// line adds nothing.
pub fn extract_chars(line: &str, char_pos: &[Range<usize>]) -> (res: String)
    requires
        ranges_ok(char_pos@),
    ensures
        res@ == select(line@, char_pos@),
{
    let len: usize = line.unicode_len();
    let mut out = String::new();
    for k in 0..char_pos.len()
        invariant
            len == line@.len(),
            out@ == select(line@, char_pos@.take(k as int)),
            ranges_ok(char_pos@),
    {
        let from: usize = clamp_to(char_pos[k].start, len);
        let to: usize = clamp_to(char_pos[k].end, len);
        proof {
            lemma_select_next(line@, char_pos@, k as int);
        }
        out.append(line.substring_char(from, to));
    }
    assert(char_pos@.take(char_pos@.len() as int) =~= char_pos@);
    out
}

/// Selects bytes: for each range in turn, the bytes at its positions, as far
/// as `bytes` has them.
pub fn select_bytes(bytes: &[u8], byte_pos: &[Range<usize>]) -> (res: Vec<u8>)
    requires
        ranges_ok(byte_pos@),
    ensures
        res@ == select(bytes@, byte_pos@),
{
    let len: usize = bytes.len();
    let mut out: Vec<u8> = Vec::new();
    for k in 0..byte_pos.len()
        invariant
            len == bytes@.len(),
            out@ == select(bytes@, byte_pos@.take(k as int)),
            ranges_ok(byte_pos@),
    {
        let from: usize = clamp_to(byte_pos[k].start, len);
        let to: usize = clamp_to(byte_pos[k].end, len);
        proof {
            lemma_select_next(bytes@, byte_pos@, k as int);
        }
        let ghost before = out@;
        for i in from..to
            invariant
                from <= to <= len,
                len == bytes@.len(),
                out@ == before + bytes@.subrange(from as int, i as int),
        {
            out.push(bytes[i]);
        }
    }
    assert(byte_pos@.take(byte_pos@.len() as int) =~= byte_pos@);
    out
}

/// Selects bytes of `line`, taken as its UTF-8 encoding, and reads the
/// selection back as text.
///
/// A range may cut a character of several bytes in two. The selection is
/// therefore decoded leniently: where it is the encoding of a text, the
/// result is that text, and where it is not, the result has replacement
/// characters in place of the damage. The function never fails.
pub fn extract_bytes(line: &str, byte_pos: &[Range<usize>]) -> (res: String)
    requires
        ranges_ok(byte_pos@),
    ensures
        res@ == lossy_text(select(encode_utf8(line@), byte_pos@)),
        reads_encoded(select(encode_utf8(line@), byte_pos@), res@),
{
    let picked = select_bytes(line.as_bytes(), byte_pos);
    decode_lossy(picked.as_slice())
}

/// Selects fields of `record`.
///
/// For each range in turn, the fields at its positions are appended to the
/// result, each as it stands, as far as the record has them. A range that
/// starts beyond the last field adds nothing.
pub fn extract_fields(record: &StringRecord, field_pos: &[Range<usize>]) -> (res: Vec<String>)
    requires
        ranges_ok(field_pos@),
    ensures
        res.deep_view() == select(fields_of(*record), field_pos@),
{
    let ghost fields = fields_of(*record);
    let len: usize = record.len();
    let mut out: Vec<String> = Vec::new();
    for k in 0..field_pos.len()
        invariant
            fields == fields_of(*record),
            len == fields.len(),
            out.deep_view() == select(fields, field_pos@.take(k as int)),
            ranges_ok(field_pos@),
    {
        let from: usize = clamp_to(field_pos[k].start, len);
        let to: usize = clamp_to(field_pos[k].end, len);
        proof {
            lemma_select_next(fields, field_pos@, k as int);
        }
        let ghost before = out.deep_view();
        for i in from..to
            invariant
                from <= to <= len,
                fields == fields_of(*record),
                len == fields.len(),
                out.deep_view() == before + fields.subrange(from as int, i as int),
        {
            let ghost so_far = out.deep_view();
            if let Some(field) = record.get(i) {
                out.push(String::from_str(field));
                assert(out.deep_view() =~= so_far.push(fields[i as int]));
            }
        }
    }
    assert(field_pos@.take(field_pos@.len() as int) =~= field_pos@);
    out
}

} // verus!
