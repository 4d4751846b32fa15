//! Sequences of characters: whitespace trimming, splitting and joining.
//!
//! The models work on `Seq<char>`, the view of `str` and `String`. The
//! executable functions take a string apart into its characters and scan
//! them from left to right.

use vstd::prelude::*;
use vstd::string::StringExecFns;

verus! {

/// Whether `c` carries the Unicode `White_Space` property, the notion of
/// whitespace that `char::is_whitespace` implements.
pub uninterp spec fn white_space(c: char) -> bool;

/// `char::is_whitespace` reports whether the character has the `White_Space`
/// property. Nothing is claimed about which characters those are.
pub assume_specification[ char::is_whitespace ](c: char) -> (b: bool)
    ensures
        b == white_space(c),
;

/// `String::push` appends the character to the end of the string and leaves
/// the rest of it as it was.
pub assume_specification[ String::push ](s: &mut String, c: char)
    ensures
        final(s)@ == old(s)@.push(c),
;

/// `s` without its leading whitespace.
pub open spec fn trim_start(s: Seq<char>) -> Seq<char>
    decreases s.len(),
{
    if s.len() > 0 && white_space(s.first()) {
        trim_start(s.drop_first())
    } else {
        s
    }
}

/// `s` without its trailing whitespace.
pub open spec fn trim_end(s: Seq<char>) -> Seq<char>
    decreases s.len(),
{
    if s.len() > 0 && white_space(s.last()) {
        trim_end(s.drop_last())
    } else {
        s
    }
}

/// `s` without leading and trailing whitespace.
pub open spec fn trimmed(s: Seq<char>) -> Seq<char> {
    trim_end(trim_start(s))
}

/// The pieces of `s` that lie between occurrences of `sep`. There is always
/// one piece more than there are separators, so pieces may be empty.
pub open spec fn split(s: Seq<char>, sep: char) -> Seq<Seq<char>>
    decreases s.len(),
{
    if s.len() == 0 {
        seq![Seq::empty()]
    } else {
        let before = split(s.drop_last(), sep);
        if s.last() == sep {
            before.push(Seq::empty())
        } else {
            before.drop_last().push(before.last().push(s.last()))
        }
    }
}

/// The test that keeps the pieces with at least one character.
pub open spec fn non_empty() -> spec_fn(Seq<char>) -> bool {
    |piece: Seq<char>| piece.len() > 0
}

/// The pieces of `s` between occurrences of `sep` that are not empty, in order.
pub open spec fn split_non_empty(s: Seq<char>, sep: char) -> Seq<Seq<char>> {
    split(s, sep).filter(non_empty())
}

/// `parts` written one after another with `sep` between neighbours.
pub open spec fn join(parts: Seq<Seq<char>>, sep: Seq<char>) -> Seq<char>
    decreases parts.len(),
{
    if parts.len() == 0 {
        Seq::empty()
    } else if parts.len() == 1 {
        parts[0]
    } else {
        join(parts.drop_last(), sep) + sep + parts.last()
    }
}

/// Where the part of `s` that trimming keeps begins: behind the leading
/// whitespace.
pub open spec fn trim_from(s: Seq<char>) -> int {
    s.len() - trim_start(s).len()
}

/// Where the part of `s` that trimming keeps ends: before the trailing
/// whitespace of what follows the leading whitespace.
pub open spec fn trim_to(s: Seq<char>) -> int {
    trim_from(s) + trimmed(s).len()
}

/// What trimming leaves at the front is a tail of `s`, and all that it takes
/// away is whitespace.
proof fn lemma_trim_start(s: Seq<char>)
    ensures
        trim_start(s).len() <= s.len(),
        trim_start(s) == s.skip(s.len() - trim_start(s).len()),
        forall|i: int| 0 <= i < s.len() - trim_start(s).len() ==> white_space(#[trigger] s[i]),
        trim_start(s).len() > 0 ==> !white_space(trim_start(s).first()),
    decreases s.len(),
{
    if s.len() > 0 && white_space(s.first()) {
        let rest = s.drop_first();
        lemma_trim_start(rest);
        let cut = rest.len() - trim_start(rest).len();
        assert(rest.skip(cut) == s.skip(cut + 1));
        assert forall|i: int| 0 <= i < s.len() - trim_start(s).len() implies white_space(
            #[trigger] s[i],
        ) by {
            if i > 0 {
                assert(s[i] == rest[i - 1]);
            }
        }
    } else {
        assert(s == s.skip(0));
    }
}

/// What trimming leaves at the back is a head of `s`, and all that it takes
/// away is whitespace.
proof fn lemma_trim_end(s: Seq<char>)
    ensures
        trim_end(s).len() <= s.len(),
        trim_end(s) == s.take(trim_end(s).len() as int),
        forall|i: int| trim_end(s).len() <= i < s.len() ==> white_space(#[trigger] s[i]),
        trim_end(s).len() > 0 ==> !white_space(trim_end(s).last()),
    decreases s.len(),
{
    if s.len() > 0 && white_space(s.last()) {
        let rest = s.drop_last();
        lemma_trim_end(rest);
        let kept = trim_end(rest).len() as int;
        assert(rest.take(kept) == s.take(kept));
        assert forall|i: int| trim_end(s).len() <= i < s.len() implies white_space(
            #[trigger] s[i],
        ) by {
            if i < rest.len() {
                assert(s[i] == rest[i]);
            }
        }
    } else {
        assert(s == s.take(s.len() as int));
    }
}

/// Trimming keeps one stretch of the sequence. All that stands before it and
/// behind it is whitespace, and it neither begins nor ends with whitespace.
pub proof fn law_trimmed_is_the_core(s: Seq<char>)
    ensures
        0 <= trim_from(s) <= trim_to(s) <= s.len(),
        trimmed(s) == s.subrange(trim_from(s), trim_to(s)),
        forall|i: int| 0 <= i < trim_from(s) ==> white_space(#[trigger] s[i]),
        forall|i: int| trim_to(s) <= i < s.len() ==> white_space(#[trigger] s[i]),
        trimmed(s).len() > 0 ==> !white_space(trimmed(s).first()) && !white_space(
            trimmed(s).last(),
        ),
{
    lemma_trim_start(s);
    let tail = trim_start(s);
    lemma_trim_end(tail);
    let from = trim_from(s);
    assert(trimmed(s) == s.subrange(from, trim_to(s)));
    assert forall|i: int| trim_to(s) <= i < s.len() implies white_space(#[trigger] s[i]) by {
        assert(s[i] == tail[i - from]);
    }
    if trimmed(s).len() > 0 {
        assert(trimmed(s).first() == tail.first());
    }
}

/// Trimming what is trimmed changes nothing.
pub proof fn law_trimmed_twice(s: Seq<char>)
    ensures
        trimmed(trimmed(s)) == trimmed(s),
{
    law_trimmed_is_the_core(s);
}

/// Splitting undoes joining: the pieces of `s`, joined by the separator, are
/// `s` again, there is at least one piece, and no piece holds the separator.
pub proof fn law_split_then_join(s: Seq<char>, sep: char)
    ensures
        split(s, sep).len() >= 1,
        join(split(s, sep), seq![sep]) == s,
        forall|i: int|
            0 <= i < split(s, sep).len() ==> !(#[trigger] split(s, sep)[i]).contains(sep),
    decreases s.len(),
{
    if s.len() > 0 {
        let front = s.drop_last();
        let before = split(front, sep);
        law_split_then_join(front, sep);
        let pieces = split(s, sep);
        if s.last() == sep {
            assert(pieces.drop_last() == before);
            assert(join(pieces, seq![sep]) == front + seq![sep] + Seq::<char>::empty());
            assert(front + seq![sep] + Seq::<char>::empty() == s);
            assert forall|i: int| 0 <= i < pieces.len() implies !(#[trigger] pieces[i]).contains(
                sep,
            ) by {
                if i < before.len() {
                    assert(pieces[i] == before[i]);
                }
            }
        } else {
            let grown = before.last().push(s.last());
            assert(pieces.drop_last() == before.drop_last());
            if before.len() == 1 {
                assert(join(before, seq![sep]) == before.last());
                assert(join(pieces, seq![sep]) == grown);
            } else {
                assert(join(pieces, seq![sep]) == join(before.drop_last(), seq![sep]) + seq![sep]
                    + grown);
                assert(join(before.drop_last(), seq![sep]) + seq![sep] + grown == (join(
                    before.drop_last(),
                    seq![sep],
                ) + seq![sep] + before.last()).push(s.last()));
            }
            assert(front.push(s.last()) == s);
            assert forall|i: int| 0 <= i < pieces.len() implies !(#[trigger] pieces[i]).contains(
                sep,
            ) by {
                if i < before.len() - 1 {
                    assert(pieces[i] == before[i]);
                } else {
                    assert(!before[before.len() - 1].contains(sep));
                    if grown.contains(sep) {
                        let k = choose|k: int| 0 <= k < grown.len() && grown[k] == sep;
                        assert(k < before.last().len());
                        assert(before.last()[k] == sep);
                    }
                }
            }
        }
    } else {
        assert(!Seq::<char>::empty().contains(sep));
    }
}

/// The views of a sequence of strings.
pub open spec fn views(strings: Seq<String>) -> Seq<Seq<char>> {
    strings.map_values(|s: String| s@)
}

/// The characters of `s`, in order.
fn chars_of(s: &str) -> (chars: Vec<char>)
    ensures
        chars@ == s@,
{
    let mut chars: Vec<char> = Vec::new();
    for c in it: s.chars()
        invariant
            chars@ == it.seq().take(it.index()),
    {
        chars.push(c);
    }
    chars
}

/// The characters `chars[from..to]` as a string.
fn string_of(chars: &Vec<char>, from: usize, to: usize) -> (s: String)
    requires
        from <= to <= chars.len(),
    ensures
        s@ == chars@.subrange(from as int, to as int),
{
    let mut s = String::new();
    let mut i: usize = from;
    while i < to
        invariant
            from <= i <= to <= chars.len(),
            s@ == chars@.subrange(from as int, i as int),
        decreases to - i,
    {
        s.push(chars[i]);
        i += 1;
    }
    s
}

/// Where the trimmed part of `chars` begins and ends.
fn trim_bounds(chars: &Vec<char>) -> (bounds: (usize, usize))
    ensures
        bounds.0 <= bounds.1 <= chars.len(),
        chars@.subrange(bounds.0 as int, bounds.1 as int) == trimmed(chars@),
{
    let mut start: usize = 0;
    assert(chars@.skip(0) == chars@);
    while start < chars.len() && chars[start].is_whitespace()
        invariant
            start <= chars.len(),
            trim_start(chars@) == trim_start(chars@.skip(start as int)),
        decreases chars.len() - start,
    {
        assert(chars@.skip(start as int).drop_first() == chars@.skip(start + 1));
        start += 1;
    }
    let ghost tail = chars@.skip(start as int);
    assert(trim_start(chars@) == tail);
    let mut end: usize = chars.len();
    assert(tail == chars@.subrange(start as int, end as int));
    while end > start && chars[end - 1].is_whitespace()
        invariant
            start <= end <= chars.len(),
            tail == chars@.skip(start as int),
            trim_end(tail) == trim_end(chars@.subrange(start as int, end as int)),
        decreases end - start,
    {
        assert(chars@.subrange(start as int, end as int).drop_last() == chars@.subrange(
            start as int,
            end - 1,
        ));
        end -= 1;
    }
    (start, end)
}

/// Removes leading and trailing whitespace from `s`.
pub fn trim(s: &str) -> (t: String)
    ensures
        t@ == trimmed(s@),
{
    let chars = chars_of(s);
    let (start, end) = trim_bounds(&chars);
    string_of(&chars, start, end)
}

/// Splits `text` on `sep` and keeps the pieces that are not empty.
pub fn split_fields(text: &str, sep: char) -> (fields: Vec<String>)
    ensures
        views(fields@) == split_non_empty(text@, sep),
{
    let chars = chars_of(text);
    let mut fields: Vec<String> = Vec::new();
    let mut piece_start: usize = 0;
    let mut i: usize = 0;
    let ghost mut done: Seq<Seq<char>> = Seq::empty();
    proof {
        assert(chars@.take(0) == Seq::<char>::empty());
        assert(split(chars@.take(0), sep) == done.push(chars@.subrange(0, 0)));
        assert(done.filter(non_empty()) == Seq::<Seq<char>>::empty()) by {
            reveal(Seq::filter);
        }
    }
    while i < chars.len()
        invariant
            piece_start <= i <= chars.len(),
            split(chars@.take(i as int), sep) == done.push(
                chars@.subrange(piece_start as int, i as int),
            ),
            views(fields@) == done.filter(non_empty()),
        decreases chars.len() - i,
    {
        let ghost piece = chars@.subrange(piece_start as int, i as int);
        proof {
            assert(chars@.take(i + 1).drop_last() == chars@.take(i as int));
            assert(done.push(piece).drop_last() == done);
        }
        if chars[i] == sep {
            if i > piece_start {
                let field = string_of(&chars, piece_start, i);
                proof {
                    assert(views(fields@.push(field)) == views(fields@).push(piece));
                }
                fields.push(field);
            }
            proof {
                done.lemma_filter_push(piece, non_empty());
                done = done.push(piece);
                assert(chars@.subrange(i + 1, i + 1) == Seq::<char>::empty());
            }
            piece_start = i + 1;
        } else {
            assert(piece.push(chars@[i as int]) == chars@.subrange(piece_start as int, i + 1));
        }
        i += 1;
    }
    let ghost piece = chars@.subrange(piece_start as int, i as int);
    proof {
        assert(chars@.take(i as int) == chars@);
        done.lemma_filter_push(piece, non_empty());
    }
    if i > piece_start {
        let field = string_of(&chars, piece_start, i);
        proof {
            assert(views(fields@.push(field)) == views(fields@).push(piece));
        }
        fields.push(field);
    }
    fields
}

/// Writes `parts` one after another with `sep` between neighbours.
pub fn join_fields(parts: &Vec<String>, sep: &str) -> (joined: String)
    ensures
        joined@ == join(views(parts@), sep@),
{
    let mut joined = String::new();
    let mut i: usize = 0;
    while i < parts.len()
        invariant
            i <= parts.len(),
            joined@ == join(views(parts@).take(i as int), sep@),
        decreases parts.len() - i,
    {
        proof {
            let upto = views(parts@).take(i + 1);
            assert(upto.drop_last() == views(parts@).take(i as int));
            assert(upto.last() == parts@[i as int]@);
            if i == 0 {
                assert(joined@ + parts@[i as int]@ == parts@[i as int]@);
            }
        }
        if i > 0 {
            joined.append(sep);
        }
        joined.append(parts[i].as_str());
        i += 1;
    }
    assert(views(parts@).take(i as int) == views(parts@));
    joined
}

} // verus!
