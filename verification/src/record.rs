//! One record: the fields of a line, and the mapping entry that it contributes.
//!
//! A line is trimmed and split on commas, and its empty fields are dropped.
//! With at least five fields left it names an image file after its third field
//! and carries all its fields, joined by one delimiter, as the payload.

use crate::text::{join, join_fields, non_empty, split, split_fields, split_non_empty, trim, trimmed, views};
use vstd::prelude::*;
use vstd::string::StringExecFns;

verus! {

/// The character that separates the fields of a line.
pub const FIELD_SEPARATOR: char = ',';

/// The least number of fields of a line that contributes an entry.
pub const MIN_FIELDS: usize = 5;

/// The position of the field after which the image file is named.
pub const KEY_FIELD: usize = 2;

/// The fields of a line: what stands between the commas of the trimmed line,
/// without the empty pieces.
pub open spec fn fields_of(line: Seq<char>) -> Seq<Seq<char>> {
    split_non_empty(trimmed(line), FIELD_SEPARATOR)
}

/// What is put between the fields of a payload: a tab, or else one space.
pub open spec fn delimiter(tab: bool) -> Seq<char> {
    if tab {
        "\t"@
    } else {
        " "@
    }
}

/// The name of the image file of a record.
pub open spec fn key_of(fields: Seq<Seq<char>>) -> Seq<char> {
    fields[KEY_FIELD as int] + ".png"@
}

/// The payload of a record: all its fields, joined by the delimiter.
pub open spec fn payload_of(fields: Seq<Seq<char>>, tab: bool) -> Seq<char> {
    join(fields, delimiter(tab))
}

/// The entry that a record contributes: none with fewer than five fields.
pub open spec fn entry_of(fields: Seq<Seq<char>>, tab: bool) -> Option<(Seq<char>, Seq<char>)> {
    if fields.len() < MIN_FIELDS {
        None
    } else {
        Some((key_of(fields), payload_of(fields, tab)))
    }
}

/// The entry that a line contributes.
pub open spec fn line_entry(line: Seq<char>, tab: bool) -> Option<(Seq<char>, Seq<char>)> {
    entry_of(fields_of(line), tab)
}

/// The view of an optional entry.
pub open spec fn entry_view(entry: Option<(String, String)>) -> Option<(Seq<char>, Seq<char>)> {
    match entry {
        Some((key, payload)) => Some((key@, payload@)),
        None => None,
    }
}

/// The fields of `line`.
pub fn parse_record(line: &str) -> (fields: Vec<String>)
    ensures
        views(fields@) == fields_of(line@),
{
    let body = trim(line);
    split_fields(body.as_str(), FIELD_SEPARATOR)
}

/// The entry that a record with the given fields contributes, as file name
/// and payload.
pub fn record_entry(fields: &Vec<String>, tab: bool) -> (entry: Option<(String, String)>)
    ensures
        entry_view(entry) == entry_of(views(fields@), tab),
{
    if fields.len() < MIN_FIELDS {
        return None;
    }
    let sep = if tab {
        "\t"
    } else {
        " "
    };
    let key = fields[KEY_FIELD].clone().concat(".png");
    let payload = join_fields(fields, sep);
    Some((key, payload))
}

/// The entry that `line` contributes, as file name and payload.
pub fn parse_line(line: &str, tab: bool) -> (entry: Option<(String, String)>)
    ensures
        entry_view(entry) == line_entry(line@, tab),
{
    let fields = parse_record(line);
    record_entry(&fields, tab)
}

/// No field of a line is empty.
pub proof fn lemma_fields_non_empty(line: Seq<char>, i: int)
    requires
        0 <= i < fields_of(line).len(),
    ensures
        fields_of(line)[i].len() > 0,
{
    split(trimmed(line), FIELD_SEPARATOR).lemma_filter_pred(non_empty(), i);
}

/// Joining parts of which the last is not empty gives a sequence that is not
/// empty.
proof fn lemma_join_non_empty(parts: Seq<Seq<char>>, sep: Seq<char>)
    requires
        parts.len() > 0,
        parts.last().len() > 0,
    ensures
        join(parts, sep).len() > 0,
{
}

/// The file name of an entry is the third field followed by `.png`, so it ends
/// in `.png` and is longer than that; the payload is not empty.
pub proof fn law_entry_well_formed(line: Seq<char>, tab: bool)
    ensures
        line_entry(line, tab) matches Some((key, payload)) ==> {
            &&& ".png"@.is_suffix_of(key)
            &&& key.len() > ".png"@.len()
            &&& ".png"@.len() == 4
            &&& payload.len() > 0
        },
{
    reveal_strlit(".png");
    let fields = fields_of(line);
    if fields.len() >= MIN_FIELDS {
        lemma_fields_non_empty(line, KEY_FIELD as int);
        lemma_fields_non_empty(line, fields.len() - 1);
        lemma_join_non_empty(fields, delimiter(tab));
        let key = key_of(fields);
        assert(key.subrange(key.len() - 4, key.len() as int) == ".png"@);
    }
}

} // verus!
