//! The append-only record of one asset: one observation per line.

use vstd::prelude::*;

verus! {

/// The line terminator of a record.
pub open spec fn terminator() -> char {
    '\n'
}

/// The line that records an observation whose decimal text is `text`.
pub open spec fn line_of(text: Seq<char>) -> Seq<char> {
    text.push(terminator())
}

/// What a record holds after the observation `text` was appended to `content`.
pub open spec fn appended(content: Seq<char>, text: Seq<char>) -> Seq<char> {
    content + line_of(text)
}

/// The number of line terminators among the first `upto` characters.
pub open spec fn terminators_in(content: Seq<char>, upto: int) -> nat
    decreases upto,
{
    if upto <= 0 || upto > content.len() {
        0
    } else if content[upto - 1] == terminator() {
        terminators_in(content, upto - 1) + 1
    } else {
        terminators_in(content, upto - 1)
    }
}

/// The number of lines in a record: each line ends with a terminator.
pub open spec fn line_count(content: Seq<char>) -> nat {
    terminators_in(content, content.len() as int)
}

/// Whether `text` fits on one line.
pub open spec fn single_line(text: Seq<char>) -> bool {
    forall|i: int| 0 <= i < text.len() ==> text[i] != terminator()
}

/// Frames the decimal text of an observation as one line of a record.
pub fn record_line(text: &str) -> (line: String)
    ensures
        line@ == line_of(text@),
{
    let line = String::from_str(text).concat("\n");
    proof {
        reveal_strlit("\n");
        assert("\n"@ =~= seq![terminator()]);
        assert(line@ =~= line_of(text@));
    }
    line
}

/// Appends one observation to a record held in memory.
pub fn append_observation(record: &mut String, text: &str)
    ensures
        final(record)@ == appended(old(record)@, text@),
{
    let line = record_line(text);
    record.append(line.as_str());
}

/// Counting terminators in a concatenation: those of the first part, then
/// those of the second up to the place reached.
proof fn lemma_terminators_split(head: Seq<char>, tail: Seq<char>, upto: int)
    requires
        0 <= upto <= tail.len(),
    ensures
        terminators_in(head + tail, head.len() + upto) == line_count(head) + terminators_in(
            tail,
            upto,
        ),
    decreases upto,
{
    if upto == 0 {
        lemma_terminators_prefix(head, head + tail, head.len() as int);
    } else {
        lemma_terminators_split(head, tail, upto - 1);
        assert((head + tail)[head.len() + upto - 1] == tail[upto - 1]);
    }
}

/// Two records that agree on their first `upto` characters hold the same
/// number of terminators there.
proof fn lemma_terminators_prefix(first: Seq<char>, second: Seq<char>, upto: int)
    requires
        0 <= upto <= first.len(),
        upto <= second.len(),
        forall|i: int| 0 <= i < upto ==> first[i] == second[i],
    ensures
        terminators_in(first, upto) == terminators_in(second, upto),
    decreases upto,
{
    if upto > 0 {
        lemma_terminators_prefix(first, second, upto - 1);
    }
}

/// A text that fits on one line holds no terminator.
proof fn lemma_single_line_has_none(line: Seq<char>, upto: int)
    requires
        0 <= upto <= line.len(),
        forall|i: int| 0 <= i < upto ==> line[i] != terminator(),
    ensures
        terminators_in(line, upto) == 0,
    decreases upto,
{
    if upto > 0 {
        lemma_single_line_has_none(line, upto - 1);
    }
}

/// Appending is append-only: the record's earlier contents stay in place as
/// its prefix, the new line is its suffix, and where the observation's text
/// fits on one line the record grows by exactly one line.
pub proof fn lemma_append_adds_one_line(content: Seq<char>, text: Seq<char>)
    ensures
        appended(content, text).len() == content.len() + text.len() + 1,
        appended(content, text).subrange(0, content.len() as int) == content,
        appended(content, text).subrange(
            content.len() as int,
            appended(content, text).len() as int,
        ) == line_of(text),
        single_line(text) ==> line_count(appended(content, text)) == line_count(content) + 1,
{
    let after = appended(content, text);
    let line = line_of(text);
    assert(after.subrange(0, content.len() as int) =~= content);
    assert(after.subrange(content.len() as int, after.len() as int) =~= line);
    if single_line(text) {
        lemma_single_line_has_none(line, text.len() as int);
        assert(line[text.len() as int] == terminator());
        assert(terminators_in(line, line.len() as int) == 1);
        lemma_terminators_split(content, line, line.len() as int);
    }
}

/// A record that was never written to holds no line, so its first append
/// leaves exactly one.
pub proof fn lemma_first_append_is_one_line(text: Seq<char>)
    requires
        single_line(text),
    ensures
        line_count(Seq::<char>::empty()) == 0,
        appended(Seq::<char>::empty(), text) == line_of(text),
        line_count(appended(Seq::<char>::empty(), text)) == 1,
{
    lemma_append_adds_one_line(Seq::<char>::empty(), text);
    assert(appended(Seq::<char>::empty(), text) =~= line_of(text));
}

} // verus!
