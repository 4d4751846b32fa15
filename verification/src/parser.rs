//! The record parser: from the lines of a data file to the output mapping.
//!
//! Lines are taken in order. A line with at least five fields inserts its entry
//! and replaces what an earlier line stored under the same file name; any
//! other line is passed over.

use crate::mapping::OutputMapping;
use crate::record::{
    fields_of, key_of, law_entry_well_formed, line_entry, parse_line, payload_of, KEY_FIELD, MIN_FIELDS,
};
use crate::text::views;
use vstd::prelude::*;

verus! {

/// `map` after the entries of `lines` have been inserted into it in order.
pub open spec fn parse_onto(
    map: Map<Seq<char>, Seq<char>>,
    lines: Seq<Seq<char>>,
    tab: bool,
) -> Map<Seq<char>, Seq<char>>
    decreases lines.len(),
{
    if lines.len() == 0 {
        map
    } else {
        let before = parse_onto(map, lines.drop_last(), tab);
        match line_entry(lines.last(), tab) {
            Some((key, payload)) => before.insert(key, payload),
            None => before,
        }
    }
}

/// The mapping that `lines` describe.
pub open spec fn parse_lines(lines: Seq<Seq<char>>, tab: bool) -> Map<Seq<char>, Seq<char>> {
    parse_onto(Map::empty(), lines, tab)
}

/// Every file name ends in `.png` after at least one other character, and no
/// payload is empty.
pub open spec fn well_formed(map: Map<Seq<char>, Seq<char>>) -> bool {
    forall|key: Seq<char>| #[trigger]
        map.contains_key(key) ==> {
            &&& ".png"@.is_suffix_of(key)
            &&& key.len() > ".png"@.len()
            &&& map[key].len() > 0
        }
}

/// Builds the mapping from image file name to payload that `lines` describe.
/// With `tab` the fields of a payload are joined by a tab, else by a space.
pub fn parse_data_from_line(lines: Vec<String>, tab: bool) -> (mapping: OutputMapping)
    ensures
        mapping@ == parse_lines(views(lines@), tab),
        well_formed(mapping@),
        mapping@.dom().finite(),
        mapping@.len() <= lines@.len(),
{
    let mut mapping = OutputMapping::new();
    let mut i: usize = 0;
    while i < lines.len()
        invariant
            i <= lines.len(),
            mapping@ == parse_lines(views(lines@).take(i as int), tab),
        decreases lines.len() - i,
    {
        proof {
            let upto = views(lines@).take(i + 1);
            assert(upto.drop_last() == views(lines@).take(i as int));
            assert(upto.last() == lines@[i as int]@);
        }
        match parse_line(lines[i].as_str(), tab) {
            Some((key, payload)) => {
                mapping.insert(key, payload);
            },
            None => {},
        }
        i += 1;
    }
    proof {
        assert(views(lines@).take(i as int) == views(lines@));
        law_mapping_well_formed(views(lines@), tab);
        law_mapping_size(views(lines@), tab);
    }
    mapping
}

/// Parsing a list of lines is parsing its front part and then the rest onto
/// the result.
pub proof fn lemma_parse_onto_concat(
    map: Map<Seq<char>, Seq<char>>,
    front: Seq<Seq<char>>,
    rest: Seq<Seq<char>>,
    tab: bool,
)
    ensures
        parse_onto(map, front + rest, tab) == parse_onto(parse_onto(map, front, tab), rest, tab),
    decreases rest.len(),
{
    if rest.len() == 0 {
        assert(front + rest == front);
    } else {
        assert((front + rest).drop_last() == front + rest.drop_last());
        lemma_parse_onto_concat(map, front, rest.drop_last(), tab);
    }
}

/// A line with fewer than five fields adds no entry: the mapping is the same
/// as without that line, wherever the line stands.
pub proof fn law_short_line_adds_nothing(
    before: Seq<Seq<char>>,
    line: Seq<char>,
    after: Seq<Seq<char>>,
    tab: bool,
)
    requires
        fields_of(line).len() < MIN_FIELDS,
    ensures
        line_entry(line, tab) is None,
        parse_lines(before.push(line) + after, tab) == parse_lines(before + after, tab),
{
    assert(before.push(line).drop_last() == before);
    lemma_parse_onto_concat(Map::empty(), before.push(line), after, tab);
    lemma_parse_onto_concat(Map::empty(), before, after, tab);
}

/// A line with at least five fields yields the entry whose file name is the
/// third field followed by `.png` and whose payload is all the fields joined
/// by the delimiter; alone, it gives the mapping that holds just that entry.
pub proof fn law_qualifying_line_entry(line: Seq<char>, tab: bool)
    requires
        fields_of(line).len() >= MIN_FIELDS,
    ensures
        line_entry(line, tab) == Some((key_of(fields_of(line)), payload_of(fields_of(line), tab))),
        parse_lines(seq![line], tab) == Map::<Seq<char>, Seq<char>>::empty().insert(
            key_of(fields_of(line)),
            payload_of(fields_of(line), tab),
        ),
{
    assert(seq![line].drop_last() == Seq::<Seq<char>>::empty());
    assert(parse_lines(Seq::empty(), tab) == Map::<Seq<char>, Seq<char>>::empty());
}

/// Whether `line` contributes an entry under the file name `key`.
pub open spec fn writes_key(line: Seq<char>, tab: bool, key: Seq<char>) -> bool {
    line_entry(line, tab) matches Some((name, _)) && name == key
}

/// The file names of the mapping are those of the lines that contribute an
/// entry.
pub proof fn law_keys_come_from_lines(lines: Seq<Seq<char>>, tab: bool, key: Seq<char>)
    ensures
        parse_lines(lines, tab).contains_key(key) <==> exists|i: int|
            0 <= i < lines.len() && writes_key(#[trigger] lines[i], tab, key),
    decreases lines.len(),
{
    if lines.len() > 0 {
        let front = lines.drop_last();
        law_keys_come_from_lines(front, tab, key);
        if parse_lines(lines, tab).contains_key(key) {
            if writes_key(lines.last(), tab, key) {
                assert(writes_key(lines[lines.len() - 1], tab, key));
            } else {
                let i = choose|i: int| 0 <= i < front.len() && writes_key(#[trigger] front[i], tab, key);
                assert(writes_key(lines[i], tab, key));
            }
        }
        if exists|i: int| 0 <= i < lines.len() && writes_key(#[trigger] lines[i], tab, key) {
            let i = choose|i: int| 0 <= i < lines.len() && writes_key(#[trigger] lines[i], tab, key);
            if i < front.len() {
                assert(writes_key(front[i], tab, key));
            }
        }
    }
}

/// Last write wins: the payload stored under a file name is that of the last
/// line that contributes an entry under it.
pub proof fn law_last_write_wins(
    lines: Seq<Seq<char>>,
    tab: bool,
    last: int,
    key: Seq<char>,
    payload: Seq<char>,
)
    requires
        0 <= last < lines.len(),
        line_entry(lines[last], tab) == Some((key, payload)),
        forall|i: int| last < i < lines.len() ==> !writes_key(#[trigger] lines[i], tab, key),
    ensures
        parse_lines(lines, tab).contains_pair(key, payload),
    decreases lines.len(),
{
    if last < lines.len() - 1 {
        let front = lines.drop_last();
        assert(front[last] == lines[last]);
        assert forall|i: int| last < i < front.len() implies !writes_key(
            #[trigger] front[i],
            tab,
            key,
        ) by {
            assert(front[i] == lines[i]);
        }
        law_last_write_wins(front, tab, last, key, payload);
        assert(!writes_key(lines[lines.len() - 1], tab, key));
    }
}

/// Two lines that name the same file: of two qualifying lines with the same
/// third field, the mapping keeps the payload of the later one only.
pub proof fn law_overwrite(first: Seq<char>, second: Seq<char>, tab: bool)
    requires
        fields_of(first).len() >= MIN_FIELDS,
        fields_of(second).len() >= MIN_FIELDS,
        fields_of(first)[KEY_FIELD as int] == fields_of(second)[KEY_FIELD as int],
    ensures
        parse_lines(seq![first, second], tab) == Map::<Seq<char>, Seq<char>>::empty().insert(
            key_of(fields_of(second)),
            payload_of(fields_of(second), tab),
        ),
{
    let both = seq![first, second];
    assert(both.drop_last() == seq![first]);
    law_qualifying_line_entry(first, tab);
    assert(parse_lines(both, tab) == parse_lines(seq![first], tab).insert(
        key_of(fields_of(second)),
        payload_of(fields_of(second), tab),
    ));
}

/// Every file name of the mapping ends in `.png` after at least one other
/// character, and no payload is empty.
pub proof fn law_mapping_well_formed(lines: Seq<Seq<char>>, tab: bool)
    ensures
        well_formed(parse_lines(lines, tab)),
    decreases lines.len(),
{
    if lines.len() > 0 {
        law_entry_well_formed(lines.last(), tab);
        law_mapping_well_formed(lines.drop_last(), tab);
    }
}

/// The mapping is finite and has at most one entry for each line.
pub proof fn law_mapping_size(lines: Seq<Seq<char>>, tab: bool)
    ensures
        parse_lines(lines, tab).dom().finite(),
        parse_lines(lines, tab).len() <= lines.len(),
    decreases lines.len(),
{
    if lines.len() > 0 {
        law_mapping_size(lines.drop_last(), tab);
    }
}

/// The mapping depends on nothing but what the lines hold and the flag: two
/// runs over lines with the same characters give the same mapping.
pub proof fn law_same_input_same_mapping(
    first_lines: Seq<String>,
    second_lines: Seq<String>,
    tab: bool,
    first: OutputMapping,
    second: OutputMapping,
)
    requires
        views(first_lines) == views(second_lines),
        first@ == parse_lines(views(first_lines), tab),
        second@ == parse_lines(views(second_lines), tab),
    ensures
        first@ == second@,
{
}

} // verus!
