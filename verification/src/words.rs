//! Taking texts apart: lines, fields, words, prefixes and suffixes.
use vstd::prelude::*;
use crate::strings::{chars_of, same_chars};

verus! {

/// The characters that Unicode counts as white space.
pub open spec fn is_white_space(c: char) -> bool {
    let v = c as u32;
    ||| 0x09 <= v <= 0x0D
    ||| v == 0x20
    ||| v == 0x85
    ||| v == 0xA0
    ||| v == 0x1680
    ||| 0x2000 <= v <= 0x200A
    ||| v == 0x2028
    ||| v == 0x2029
    ||| v == 0x202F
    ||| v == 0x205F
    ||| v == 0x3000
}

pub fn white_space(c: char) -> (white: bool)
    ensures
        white == is_white_space(c),
{
    let v: u32 = c as u32;
    (0x09 <= v && v <= 0x0D) || v == 0x20 || v == 0x85 || v == 0xA0 || v == 0x1680 || (0x2000 <= v
        && v <= 0x200A) || v == 0x2028 || v == 0x2029 || v == 0x202F || v == 0x205F || v == 0x3000
}

/// The pieces of a list, as sequences.
pub open spec fn pieces(list: Seq<Vec<char>>) -> Seq<Seq<char>> {
    list.map_values(|piece: Vec<char>| piece@)
}

/// A piece that is under way, where there is one.
pub open spec fn if_any(piece: Seq<char>) -> Seq<Seq<char>> {
    if piece.len() > 0 {
        seq![piece]
    } else {
        seq![]
    }
}

/// The words of a text, with the characters of `word` in front of it.
pub open spec fn words_after(word: Seq<char>, text: Seq<char>) -> Seq<Seq<char>>
    decreases text.len(),
{
    if text.len() == 0 {
        if_any(word)
    } else if is_white_space(text[0]) {
        if_any(word) + words_after(seq![], text.skip(1))
    } else {
        words_after(word.push(text[0]), text.skip(1))
    }
}

/// The words of a text: what white space separates.
pub open spec fn words(text: Seq<char>) -> Seq<Seq<char>> {
    words_after(seq![], text)
}

/// The fields of a text, with the characters of `field` in front of it.
pub open spec fn fields_after(field: Seq<char>, text: Seq<char>, separator: char) -> Seq<Seq<char>>
    decreases text.len(),
{
    if text.len() == 0 {
        seq![field]
    } else if text[0] == separator {
        seq![field] + fields_after(seq![], text.skip(1), separator)
    } else {
        fields_after(field.push(text[0]), text.skip(1), separator)
    }
}

/// The fields of a text: what the separator separates. There is always one more
/// field than there are separators.
pub open spec fn fields(text: Seq<char>, separator: char) -> Seq<Seq<char>> {
    fields_after(seq![], text, separator)
}

fn copy_chars(chars: &Vec<char>) -> (copy: Vec<char>)
    ensures
        copy@ == chars@,
{
    vstd::slice::slice_to_vec(chars.as_slice())
}

/// Takes a text apart at white space.
pub fn split_words(text: &[char]) -> (list: Vec<Vec<char>>)
    ensures
        pieces(list@) == words(text@),
{
    let mut list: Vec<Vec<char>> = Vec::new();
    let mut word: Vec<char> = Vec::new();
    let mut i: usize = 0;
    assert(text@.skip(0) =~= text@);
    assert(pieces(list@) + words(text@) =~= words(text@));
    while i < text.len()
        invariant
            i <= text@.len(),
            pieces(list@) + words_after(word@, text@.skip(i as int)) == words(text@),
        decreases text@.len() - i,
    {
        let ghost rest = text@.skip(i as int);
        assert(rest.skip(1) =~= text@.skip(i + 1));
        if white_space(text[i]) {
            if word.len() > 0 {
                let ghost before = list@;
                list.push(copy_chars(&word));
                assert(pieces(list@) =~= pieces(before).push(word@));
                assert(pieces(before) + (seq![word@] + words_after(seq![], rest.skip(1)))
                    =~= pieces(list@) + words_after(seq![], rest.skip(1)));
            } else {
                assert(seq![] + words_after(seq![], rest.skip(1)) =~= words_after(
                    seq![],
                    rest.skip(1),
                ));
            }
            word.clear();
        } else {
            word.push(text[i]);
        }
        i += 1;
    }
    let ghost before = list@;
    if word.len() > 0 {
        list.push(copy_chars(&word));
        assert(pieces(list@) =~= pieces(before).push(word@));
        assert(pieces(list@) =~= pieces(before) + seq![word@]);
    } else {
        assert(pieces(list@) =~= pieces(before) + seq![]);
    }
    list
}

/// Takes a text apart at a separator.
pub fn split_fields(text: &[char], separator: char) -> (list: Vec<Vec<char>>)
    ensures
        pieces(list@) == fields(text@, separator),
{
    let mut list: Vec<Vec<char>> = Vec::new();
    let mut field: Vec<char> = Vec::new();
    let mut i: usize = 0;
    assert(text@.skip(0) =~= text@);
    assert(pieces(list@) + fields(text@, separator) =~= fields(text@, separator));
    while i < text.len()
        invariant
            i <= text@.len(),
            pieces(list@) + fields_after(field@, text@.skip(i as int), separator) == fields(
                text@,
                separator,
            ),
        decreases text@.len() - i,
    {
        let ghost rest = text@.skip(i as int);
        assert(rest.skip(1) =~= text@.skip(i + 1));
        if text[i] == separator {
            let ghost before = list@;
            let ghost done = field@;
            list.push(copy_chars(&field));
            field.clear();
            assert(pieces(list@) =~= pieces(before).push(done));
            assert(pieces(before) + (seq![done] + fields_after(seq![], rest.skip(1), separator))
                =~= pieces(list@) + fields_after(seq![], rest.skip(1), separator));
        } else {
            field.push(text[i]);
        }
        i += 1;
    }
    let ghost before = list@;
    let ghost done = field@;
    list.push(field);
    assert(pieces(list@) =~= pieces(before) + seq![done]);
    list
}

/// Whether `part` stands at `at` in a text.
pub open spec fn occurs_at(text: Seq<char>, part: Seq<char>, at: int) -> bool {
    0 <= at && at + part.len() <= text.len() && text.subrange(at, at + part.len()) == part
}

/// Whether `part` stands anywhere in a text.
pub open spec fn occurs(text: Seq<char>, part: Seq<char>) -> bool {
    exists|at: int| occurs_at(text, part, at)
}

/// A part stands in a text where the text is something, the part, and something.
pub proof fn lemma_occurs_is_a_split(text: Seq<char>, part: Seq<char>)
    ensures
        occurs(text, part) <==> exists|before: Seq<char>, after: Seq<char>|
            text == #[trigger] (before + part + after),
{
    if occurs(text, part) {
        let at = choose|at: int| occurs_at(text, part, at);
        let before = text.take(at);
        let after = text.skip(at + part.len());
        assert(text =~= before + part + after);
    }
    if exists|before: Seq<char>, after: Seq<char>| text == #[trigger] (before + part + after) {
        let (before, after) = choose|before: Seq<char>, after: Seq<char>|
            text == #[trigger] (before + part + after);
        let at = before.len() as int;
        assert(text.subrange(at, at + part.len()) =~= part);
        assert(occurs_at(text, part, at));
    }
}

/// Whether `part` stands at `at` in a text.
pub fn stands_at(text: &[char], part: &[char], at: usize) -> (found: bool)
    ensures
        found == occurs_at(text@, part@, at as int),
{
    let total: usize = text.len();
    if at > total || part.len() > total - at {
        return false;
    }
    let mut i: usize = 0;
    while i < part.len()
        invariant
            total == text@.len(),
            at + part@.len() <= total,
            i <= part@.len(),
            forall|k: int| 0 <= k < i ==> text@[at + k] == #[trigger] part@[k],
        decreases part@.len() - i,
    {
        if text[at + i] != part[i] {
            assert(text@.subrange(at as int, at + part@.len())[i as int] != part@[i as int]);
            return false;
        }
        i += 1;
    }
    assert(text@.subrange(at as int, at + part@.len()) =~= part@);
    true
}

/// Whether `part` stands anywhere in a text.
pub fn contains_part(text: &[char], part: &[char]) -> (found: bool)
    ensures
        found == occurs(text@, part@),
{
    let total: usize = text.len();
    let mut at: usize = 0;
    while at < total
        invariant
            at <= total == text@.len(),
            forall|k: int| 0 <= k < at ==> !#[trigger] occurs_at(text@, part@, k),
        decreases total - at,
    {
        if stands_at(text, part, at) {
            return true;
        }
        at += 1;
    }
    if stands_at(text, part, total) {
        return true;
    }
    false
}

/// What stands behind the last separator; the whole text where there is none.
pub open spec fn after_last(text: Seq<char>, separator: char) -> Seq<char>
    decreases text.len(),
{
    if text.len() == 0 || text.last() == separator {
        seq![]
    } else {
        after_last(text.drop_last(), separator).push(text.last())
    }
}

/// What stands behind the last separator.
pub fn suffix_after(text: &[char], separator: char) -> (suffix: Vec<char>)
    ensures
        suffix@ == after_last(text@, separator),
{
    let total: usize = text.len();
    let mut start: usize = total;
    assert(text@.take(total as int) =~= text@);
    assert(after_last(text@, separator) + text@.skip(total as int) =~= after_last(text@, separator));
    while start > 0 && text[start - 1] != separator
        invariant
            start <= total == text@.len(),
            after_last(text@.take(start as int), separator) + text@.skip(start as int)
                == after_last(text@, separator),
        decreases start,
    {
        let ghost shorter = text@.take(start - 1);
        assert(text@.take(start as int).drop_last() =~= shorter);
        assert(text@.take(start as int).last() == text@[start - 1]);
        assert(after_last(shorter, separator).push(text@[start - 1]) + text@.skip(start as int)
            =~= after_last(shorter, separator) + text@.skip(start - 1));
        start -= 1;
    }
    proof {
        if start > 0 {
            assert(text@.take(start as int).last() == separator);
        }
        assert(after_last(text@.take(start as int), separator) =~= seq![]);
        assert(seq![] + text@.skip(start as int) =~= text@.skip(start as int));
    }
    let mut suffix: Vec<char> = Vec::new();
    let mut i: usize = start;
    while i < total
        invariant
            start <= i <= total == text@.len(),
            suffix@ == text@.subrange(start as int, i as int),
        decreases total - i,
    {
        suffix.push(text[i]);
        i += 1;
        assert(suffix@ =~= text@.subrange(start as int, i as int));
    }
    assert(suffix@ =~= text@.skip(start as int));
    suffix
}

/// The text without white space at its end.
pub open spec fn trim_end(text: Seq<char>) -> Seq<char>
    decreases text.len(),
{
    if text.len() > 0 && is_white_space(text.last()) {
        trim_end(text.drop_last())
    } else {
        text
    }
}

/// The text without white space at its beginning.
pub open spec fn trim_start(text: Seq<char>) -> Seq<char>
    decreases text.len(),
{
    if text.len() > 0 && is_white_space(text[0]) {
        trim_start(text.skip(1))
    } else {
        text
    }
}

/// The text without white space at either end.
pub open spec fn trimmed(text: Seq<char>) -> Seq<char> {
    trim_start(trim_end(text))
}

/// Takes white space off both ends.
pub fn trim(text: &str) -> (chars: Vec<char>)
    ensures
        chars@ == trimmed(text@),
{
    let mut chars: Vec<char> = chars_of(text);
    while chars.len() > 0 && white_space(chars[chars.len() - 1])
        invariant
            trim_end(chars@) == trim_end(text@),
        decreases chars@.len(),
    {
        let ghost before = chars@;
        chars.pop();
        assert(chars@ =~= before.drop_last());
    }
    let ghost rest = chars@;
    let mut start: usize = 0;
    assert(rest.skip(0) =~= rest);
    while start < chars.len() && white_space(chars[start])
        invariant
            rest == chars@,
            start <= chars@.len(),
            trim_start(rest.skip(start as int)) == trim_start(rest),
        decreases chars@.len() - start,
    {
        assert(rest.skip(start as int).skip(1) =~= rest.skip(start + 1));
        start += 1;
    }
    let mut kept: Vec<char> = Vec::new();
    let mut i: usize = start;
    while i < chars.len()
        invariant
            rest == chars@,
            start <= i <= chars@.len(),
            kept@ == rest.subrange(start as int, i as int),
        decreases chars@.len() - i,
    {
        kept.push(chars[i]);
        i += 1;
        assert(kept@ =~= rest.subrange(start as int, i as int));
    }
    assert(kept@ =~= rest.skip(start as int));
    kept
}

/// Whether a text holds another one.
pub fn text_contains(text: &str, part: &str) -> (found: bool)
    ensures
        found == occurs(text@, part@),
{
    let chars: Vec<char> = chars_of(text);
    let wanted: Vec<char> = chars_of(part);
    contains_part(chars.as_slice(), wanted.as_slice())
}

/// Within ASCII, white space is the space, the tab, and what ends lines and pages.
pub proof fn lemma_white_space_of_ascii(c: char)
    requires
        c as u32 <= 127,
    ensures
        is_white_space(c) <==> c == ' ' || c == '\t' || c == '\n' || c == '\r' || c as u32 == 11 || c as u32
            == 12,
{
}

/// A part at the beginning, in the middle or at the end of a text stands in it.
pub proof fn lemma_parts_occur(before: Seq<char>, part: Seq<char>, after: Seq<char>)
    ensures
        occurs(before + part + after, part),
{
    lemma_occurs_is_a_split(before + part + after, part);
}

/// What stands in a part of a text stands in the text.
pub proof fn lemma_occurs_in_a_part(text: Seq<char>, part: Seq<char>, inner: Seq<char>)
    requires
        occurs(text, part),
        occurs(part, inner),
    ensures
        occurs(text, inner),
{
    let at = choose|at: int| occurs_at(text, part, at);
    let within = choose|at: int| occurs_at(part, inner, at);
    assert(text.subrange(at + within, at + within + inner.len()) =~= inner) by {
        assert(text.subrange(at, at + part.len()).subrange(within, within + inner.len())
            =~= text.subrange(at + within, at + within + inner.len()));
    }
    assert(occurs_at(text, inner, at + within));
}

proof fn lemma_words_of_plain(word: Seq<char>, text: Seq<char>)
    requires
        forall|i: int| 0 <= i < text.len() ==> !is_white_space(#[trigger] text[i]),
    ensures
        words_after(word, text) == if_any(word + text),
    decreases text.len(),
{
    if text.len() == 0 {
        assert(word + text =~= word);
    } else {
        assert(!is_white_space(text[0]));
        let rest = text.skip(1);
        assert forall|i: int| 0 <= i < rest.len() implies !is_white_space(#[trigger] rest[i]) by {
            assert(rest[i] == text[i + 1]);
        }
        lemma_words_of_plain(word.push(text[0]), rest);
        assert(word.push(text[0]) + rest =~= word + text);
    }
}

proof fn lemma_words_across(word: Seq<char>, before: Seq<char>, gap: char, after: Seq<char>)
    requires
        is_white_space(gap),
    ensures
        words_after(word, before.push(gap) + after) == words_after(word, before) + words(after),
    decreases before.len(),
{
    let whole = before.push(gap) + after;
    if before.len() == 0 {
        assert(whole.skip(1) =~= after);
        assert(whole[0] == gap);
    } else {
        let rest = before.skip(1);
        assert(whole.skip(1) =~= rest.push(gap) + after);
        assert(whole[0] == before[0]);
        if is_white_space(before[0]) {
            lemma_words_across(seq![], rest, gap, after);
            assert(if_any(word) + (words_after(seq![], rest) + words(after)) =~= if_any(word)
                + words_after(seq![], rest) + words(after));
        } else {
            lemma_words_across(word.push(before[0]), rest, gap, after);
        }
    }
}

/// White space separates words: what is without any is one word, and the words on both
/// sides of a gap are the words of the whole.
pub proof fn lemma_words_are_separated(before: Seq<char>, gap: char, after: Seq<char>)
    requires
        is_white_space(gap),
    ensures
        words(before.push(gap) + after) == words(before) + words(after),
        (forall|i: int| 0 <= i < before.len() ==> !is_white_space(#[trigger] before[i]))
            && before.len() > 0 ==> words(before) == seq![before],
        words(Seq::<char>::empty()) == Seq::<Seq<char>>::empty(),
{
    lemma_words_across(seq![], before, gap, after);
    if forall|i: int| 0 <= i < before.len() ==> !is_white_space(#[trigger] before[i]) {
        lemma_words_of_plain(seq![], before);
        assert(Seq::<char>::empty() + before =~= before);
    }
}

proof fn lemma_fields_behind(field: Seq<char>, text: Seq<char>, separator: char, after: Seq<char>)
    requires
        !text.contains(separator),
    ensures
        fields_after(field, text, separator) == seq![field + text],
        fields_after(field, text.push(separator) + after, separator) == seq![field + text] + fields(
            after,
            separator,
        ),
    decreases text.len(),
{
    let whole = text.push(separator) + after;
    if text.len() == 0 {
        assert(field + text =~= field);
        assert(whole.skip(1) =~= after);
        assert(whole[0] == separator);
    } else {
        let rest = text.skip(1);
        assert(text[0] != separator) by {
            assert(text.contains(text[0]));
        }
        assert(!rest.contains(separator)) by {
            if rest.contains(separator) {
                let i = choose|i: int| 0 <= i < rest.len() && rest[i] == separator;
                assert(text[i + 1] == separator);
            }
        }
        assert(whole.skip(1) =~= rest.push(separator) + after);
        assert(whole[0] == text[0]);
        lemma_fields_behind(field.push(text[0]), rest, separator, after);
        assert(field.push(text[0]) + rest =~= field + text);
    }
}

/// A separator ends a field: what is in front of the first one is the first field, what
/// is behind it has the other fields, and a text without any is one field.
pub proof fn lemma_fields_are_separated(first: Seq<char>, separator: char, after: Seq<char>)
    requires
        !first.contains(separator),
    ensures
        fields(first, separator) == seq![first],
        fields(first.push(separator) + after, separator) == seq![first] + fields(after, separator),
{
    lemma_fields_behind(seq![], first, separator, after);
    assert(Seq::<char>::empty() + first =~= first);
}

/// What stands behind the last separator is all that follows it.
pub proof fn lemma_suffix_follows_the_last_separator(
    before: Seq<char>,
    separator: char,
    suffix: Seq<char>,
)
    requires
        !suffix.contains(separator),
    ensures
        after_last(before.push(separator) + suffix, separator) == suffix,
        after_last(suffix, separator) == suffix,
    decreases suffix.len(),
{
    let whole = before.push(separator) + suffix;
    if suffix.len() == 0 {
        assert(whole.last() == separator);
        assert(suffix =~= seq![]);
    } else {
        let shorter = suffix.drop_last();
        assert(suffix.last() != separator) by {
            assert(suffix[suffix.len() - 1] == suffix.last());
        }
        assert(!shorter.contains(separator)) by {
            if shorter.contains(separator) {
                let i = choose|i: int| 0 <= i < shorter.len() && shorter[i] == separator;
                assert(suffix[i] == separator);
            }
        }
        assert(whole.drop_last() =~= before.push(separator) + shorter);
        lemma_suffix_follows_the_last_separator(before, separator, shorter);
        assert(shorter.push(suffix.last()) =~= suffix);
    }
}

proof fn lemma_trim_end_of(text: Seq<char>, white: Seq<char>)
    requires
        forall|i: int| 0 <= i < white.len() ==> is_white_space(#[trigger] white[i]),
        text.len() == 0 || !is_white_space(text.last()),
    ensures
        trim_end(text + white) == text,
    decreases white.len(),
{
    let whole = text + white;
    if white.len() == 0 {
        assert(whole =~= text);
    } else {
        assert(is_white_space(white[white.len() - 1]));
        assert(whole.drop_last() =~= text + white.drop_last());
        lemma_trim_end_of(text, white.drop_last());
    }
}

proof fn lemma_trim_start_of(white: Seq<char>, text: Seq<char>)
    requires
        forall|i: int| 0 <= i < white.len() ==> is_white_space(#[trigger] white[i]),
        text.len() == 0 || !is_white_space(text[0]),
    ensures
        trim_start(white + text) == text,
    decreases white.len(),
{
    let whole = white + text;
    if white.len() == 0 {
        assert(whole =~= text);
    } else {
        let rest = white.skip(1);
        assert forall|i: int| 0 <= i < rest.len() implies is_white_space(#[trigger] rest[i]) by {
            assert(rest[i] == white[i + 1]);
        }
        assert(is_white_space(white[0]));
        assert(whole.skip(1) =~= rest + text);
        lemma_trim_start_of(rest, text);
    }
}

/// Trimming takes exactly the white space off both ends.
pub proof fn lemma_trimmed_is_the_middle(before: Seq<char>, middle: Seq<char>, after: Seq<char>)
    requires
        forall|i: int| 0 <= i < before.len() ==> is_white_space(#[trigger] before[i]),
        forall|i: int| 0 <= i < after.len() ==> is_white_space(#[trigger] after[i]),
        middle.len() == 0 || (!is_white_space(middle[0]) && !is_white_space(middle.last())),
    ensures
        trimmed(before + middle + after) == middle,
{
    if middle.len() == 0 {
        let white = before + after;
        assert(before + middle + after =~= Seq::<char>::empty() + white);
        assert forall|i: int| 0 <= i < white.len() implies is_white_space(#[trigger] white[i]) by {
            if i < before.len() {
                assert(white[i] == before[i]);
            } else {
                assert(white[i] == after[i - before.len()]);
            }
        }
        lemma_trim_end_of(seq![], white);
        assert(middle =~= seq![]);
    } else {
        lemma_trim_end_of(before + middle, after);
        lemma_trim_start_of(before, middle);
    }
}

} // verus!
