//! Finds the topics that a script adds.

use vstd::prelude::*;

use crate::text::{fold_char, lower, same};
use crate::topic_reasons::{
    add_topic_reason, lemma_with_reason_insert, lemma_with_reason_none, reasons_of, with_reason,
    DialogueTopicReason, DialogueTopicReasons,
};

verus! {

/// The characters that Unicode counts as white space.
pub open spec fn is_white(c: char) -> bool {
    let code = c as u32;
    ||| 0x09 <= code <= 0x0d
    ||| code == 0x20
    ||| code == 0x85
    ||| code == 0xa0
    ||| code == 0x1680
    ||| 0x2000 <= code <= 0x200a
    ||| code == 0x2028
    ||| code == 0x2029
    ||| code == 0x202f
    ||| code == 0x205f
    ||| code == 0x3000
}

/// Whether Unicode counts a character as white space.
pub fn is_whitespace(c: char) -> (res: bool)
    ensures
        res == is_white(c),
{
    let code: u32 = c as u32;
    (0x09 <= code && code <= 0x0d) || code == 0x20 || code == 0x85 || code == 0xa0 || code == 0x1680
        || (0x2000 <= code && code <= 0x200a) || code == 0x2028 || code == 0x2029 || code == 0x202f
        || code == 0x205f || code == 0x3000
}

/// The number of characters before the first line feed.
pub open spec fn line_end(text: Seq<char>) -> nat
    decreases text.len(),
{
    if text.len() == 0 || text[0] == '\n' {
        0
    } else {
        1 + line_end(text.skip(1))
    }
}

/// A line without the carriage return that stood before its line feed.
pub open spec fn without_return(line: Seq<char>) -> Seq<char> {
    if line.len() > 0 && line.last() == '\r' {
        line.drop_last()
    } else {
        line
    }
}

proof fn lemma_line_end(text: Seq<char>)
    ensures
        line_end(text) <= text.len(),
        line_end(text) < text.len() ==> text[line_end(text) as int] == '\n',
        forall|k: int| 0 <= k < line_end(text) ==> #[trigger] text[k] != '\n',
    decreases text.len(),
{
    if text.len() > 0 && text[0] != '\n' {
        let rest = text.skip(1);
        lemma_line_end(rest);
        assert forall|k: int| 0 <= k < line_end(text) implies #[trigger] text[k] != '\n' by {
            if k > 0 {
                assert(rest[k - 1] == text[k]);
            }
        }
    }
}

/// The lines of a text. Each ends with a line feed, before which a carriage return is dropped; the
/// last may lack it.
pub open spec fn lines(text: Seq<char>) -> Seq<Seq<char>>
    decreases text.len(),
{
    let n = line_end(text) as int;
    if text.len() == 0 {
        Seq::empty()
    } else if n < text.len() {
        seq![without_return(text.take(n))] + lines(text.skip(n + 1))
    } else {
        seq![text]
    }
}

/// The text without the white space at its front.
pub open spec fn trimmed(text: Seq<char>) -> Seq<char>
    decreases text.len(),
{
    if text.len() > 0 && is_white(text[0]) {
        trimmed(text.skip(1))
    } else {
        text
    }
}

/// The text up to the first double quote.
pub open spec fn before_quote(text: Seq<char>) -> Seq<char>
    decreases text.len(),
{
    if text.len() == 0 || text[0] == '"' {
        Seq::empty()
    } else {
        seq![text[0]] + before_quote(text.skip(1))
    }
}

/// The text up to the first white space.
pub open spec fn before_white(text: Seq<char>) -> Seq<char>
    decreases text.len(),
{
    if text.len() == 0 || is_white(text[0]) {
        Seq::empty()
    } else {
        seq![text[0]] + before_white(text.skip(1))
    }
}

/// The topic that a line of a script adds, as it is written there: the command `AddTopic`, in any
/// case, then white space, then the topic in quotes or as one word.
pub open spec fn operand(line: Seq<char>) -> Option<Seq<char>> {
    let command = trimmed(line);
    if command.len() > 8 && same(command.take(8), "AddTopic"@) && is_white(command[8]) {
        let rest = trimmed(command.skip(8));
        if rest.len() > 0 && rest[0] == '"' {
            Some(before_quote(rest.skip(1)))
        } else {
            Some(before_white(rest))
        }
    } else {
        None
    }
}

/// The first of the topics that is `id`.
pub open spec fn first_same(topics: Seq<Seq<char>>, id: Seq<char>) -> Option<Seq<char>>
    decreases topics.len(),
{
    if topics.len() == 0 {
        None
    } else if same(topics[0], id) {
        Some(topics[0])
    } else {
        first_same(topics.skip(1), id)
    }
}

/// The topic that a line adds, as `topics` has it.
pub open spec fn mentioned(line: Seq<char>, topics: Seq<Seq<char>>) -> Option<Seq<char>> {
    match operand(line) {
        Some(id) => first_same(topics, id),
        None => None,
    }
}

/// One of the lines adds `topic`.
pub open spec fn is_mentioned(
    script: Seq<Seq<char>>,
    topics: Seq<Seq<char>>,
    topic: Seq<char>,
) -> bool {
    exists|i: int| 0 <= i < script.len() && mentioned(#[trigger] script[i], topics) == Some(topic)
}

/// The topics that a script adds.
pub open spec fn script_topics(text: Seq<char>, topics: Seq<Seq<char>>) -> Set<Seq<char>> {
    Set::new(|t: Seq<char>| is_mentioned(lines(text), topics, t))
}

/// The number of bytes that a character takes in UTF-8.
pub open spec fn width(c: char) -> nat {
    let code = c as u32;
    if code < 0x80 {
        1
    } else if code < 0x800 {
        2
    } else if code < 0x10000 {
        3
    } else {
        4
    }
}

/// No character of the text straddles the byte position `at`: the text ends before it, or a
/// character ends there.
pub open spec fn splits(text: Seq<char>, at: nat) -> bool
    decreases text.len(),
{
    ||| at == 0
    ||| text.len() == 0
    ||| width(text[0]) <= at && splits(text.skip(1), (at - width(text[0])) as nat)
}

/// The line is a comment, or the eight bytes of a command can be split off it.
pub open spec fn is_splittable_line(line: Seq<char>) -> bool {
    let command = trimmed(line);
    (command.len() > 0 && command[0] == ';') || splits(command, 8)
}

/// Each line is a comment, or the eight bytes of a command can be split off it.
pub open spec fn are_splittable(script: Seq<Seq<char>>) -> bool {
    forall|i: int| 0 <= i < script.len() ==> is_splittable_line(#[trigger] script[i])
}

/// No line of the script has a character across the end of its first eight bytes, white space at
/// the front not counted, but for comments.
pub open spec fn is_splittable(text: Seq<char>) -> bool {
    are_splittable(lines(text))
}

/// The number of bytes that a character takes in UTF-8.
pub fn char_width(c: char) -> (res: usize)
    ensures
        res == width(c),
{
    let code: u32 = c as u32;
    if code < 0x80 {
        1
    } else if code < 0x800 {
        2
    } else if code < 0x10000 {
        3
    } else {
        4
    }
}

/// The characters of a text.
pub fn characters(text: &str) -> (res: Vec<char>)
    ensures
        res@ == text@,
{
    let mut res: Vec<char> = Vec::new();
    for c in chars: text.chars()
        invariant
            chars.seq() == text@,
            res@ == text@.take(chars.index()),
    {
        assert(text@.take(chars.index() + 1) =~= text@.take(chars.index()).push(c));
        res.push(c);
    }
    assert(text@.take(text@.len() as int) =~= text@);
    res
}

/// Whether the characters from `from` to `to` are `word`, but for the case of ASCII letters.
fn is_word(chars: &Vec<char>, from: usize, to: usize, word: &str) -> (res: bool)
    requires
        from <= to <= chars@.len(),
    ensures
        res == same(chars@.subrange(from as int, to as int), word@),
{
    let ghost span = chars@.subrange(from as int, to as int);
    let letters = characters(word);
    assert(lower(span).len() == span.len());
    assert(lower(word@).len() == word@.len());
    if letters.len() != to - from {
        return false;
    }
    let mut i: usize = 0;
    while i < letters.len()
        invariant
            i <= letters.len(),
            letters@ == word@,
            from <= to <= chars@.len(),
            letters.len() == to - from,
            span == chars@.subrange(from as int, to as int),
            forall|k: int| 0 <= k < i ==> lower(span)[k] == #[trigger] lower(word@)[k],
        decreases letters.len() - i,
    {
        assert(span[i as int] == chars@[from + i]);
        if fold_char(chars[from + i]) != fold_char(letters[i]) {
            assert(lower(span)[i as int] != lower(word@)[i as int]);
            return false;
        }
        assert(lower(span)[i as int] == lower(word@)[i as int]);
        i += 1;
    }
    assert(lower(span) =~= lower(word@));
    true
}

/// The place of the first character that is no white space.
fn skip_white(chars: &Vec<char>, from: usize, to: usize) -> (res: usize)
    requires
        from <= to <= chars@.len(),
    ensures
        from <= res <= to,
        chars@.subrange(res as int, to as int) == trimmed(chars@.subrange(from as int, to as int)),
{
    let mut i: usize = from;
    while i < to && is_whitespace(chars[i])
        invariant
            from <= i <= to <= chars@.len(),
            trimmed(chars@.subrange(i as int, to as int)) == trimmed(
                chars@.subrange(from as int, to as int),
            ),
        decreases to - i,
    {
        assert(chars@.subrange(i as int, to as int).skip(1) =~= chars@.subrange(
            i + 1,
            to as int,
        ));
        i += 1;
    }
    i
}

/// The place of the first double quote, or the end.
fn find_quote(chars: &Vec<char>, from: usize, to: usize) -> (res: usize)
    requires
        from <= to <= chars@.len(),
    ensures
        from <= res <= to,
        chars@.subrange(from as int, res as int) == before_quote(
            chars@.subrange(from as int, to as int),
        ),
{
    let ghost span = chars@.subrange(from as int, to as int);
    let mut i: usize = from;
    assert(chars@.subrange(from as int, i as int) + before_quote(span) =~= before_quote(span));
    while i < to && chars[i] != '"'
        invariant
            from <= i <= to <= chars@.len(),
            before_quote(span) == chars@.subrange(from as int, i as int) + before_quote(
                chars@.subrange(i as int, to as int),
            ),
        decreases to - i,
    {
        let ghost rest = chars@.subrange(i as int, to as int);
        assert(rest.skip(1) =~= chars@.subrange(i + 1, to as int));
        assert(chars@.subrange(from as int, i + 1) =~= chars@.subrange(from as int, i as int)
            + seq![chars@[i as int]]);
        assert(chars@.subrange(from as int, i as int) + (seq![chars@[i as int]] + before_quote(
            rest.skip(1),
        )) =~= chars@.subrange(from as int, i + 1) + before_quote(rest.skip(1)));
        i += 1;
    }
    assert(chars@.subrange(from as int, i as int) + Seq::<char>::empty() =~= chars@.subrange(
        from as int,
        i as int,
    ));
    i
}

/// The place of the first white space, or the end.
fn find_white(chars: &Vec<char>, from: usize, to: usize) -> (res: usize)
    requires
        from <= to <= chars@.len(),
    ensures
        from <= res <= to,
        chars@.subrange(from as int, res as int) == before_white(
            chars@.subrange(from as int, to as int),
        ),
{
    let ghost span = chars@.subrange(from as int, to as int);
    let mut i: usize = from;
    assert(chars@.subrange(from as int, i as int) + before_white(span) =~= before_white(span));
    while i < to && !is_whitespace(chars[i])
        invariant
            from <= i <= to <= chars@.len(),
            before_white(span) == chars@.subrange(from as int, i as int) + before_white(
                chars@.subrange(i as int, to as int),
            ),
        decreases to - i,
    {
        let ghost rest = chars@.subrange(i as int, to as int);
        assert(rest.skip(1) =~= chars@.subrange(i + 1, to as int));
        assert(chars@.subrange(from as int, i + 1) =~= chars@.subrange(from as int, i as int)
            + seq![chars@[i as int]]);
        assert(chars@.subrange(from as int, i as int) + (seq![chars@[i as int]] + before_white(
            rest.skip(1),
        )) =~= chars@.subrange(from as int, i + 1) + before_white(rest.skip(1)));
        i += 1;
    }
    assert(chars@.subrange(from as int, i as int) + Seq::<char>::empty() =~= chars@.subrange(
        from as int,
        i as int,
    ));
    i
}

/// Where the topic stands that a line adds, if it adds one.
fn find_operand(chars: &Vec<char>, from: usize, to: usize) -> (res: Option<(usize, usize)>)
    requires
        from <= to <= chars@.len(),
    ensures
        match res {
            Some((a, b)) => a <= b <= chars@.len() && operand(
                chars@.subrange(from as int, to as int),
            ) == Some(chars@.subrange(a as int, b as int)),
            None => operand(chars@.subrange(from as int, to as int)) is None,
        },
{
    let start = skip_white(chars, from, to);
    let ghost command = chars@.subrange(start as int, to as int);
    if to - start <= 8 {
        return None;
    }
    assert(command.take(8) =~= chars@.subrange(start as int, start + 8));
    assert(command[8] == chars@[start + 8]);
    if !is_word(chars, start, start + 8, "AddTopic") || !is_whitespace(chars[start + 8]) {
        return None;
    }
    assert(command.skip(8) =~= chars@.subrange(start + 8, to as int));
    let first = skip_white(chars, start + 8, to);
    let ghost rest = chars@.subrange(first as int, to as int);
    if first < to && chars[first] == '"' {
        assert(rest.skip(1) =~= chars@.subrange(first + 1, to as int));
        Some((first + 1, find_quote(chars, first + 1, to)))
    } else {
        Some((first, find_white(chars, first, to)))
    }
}

/// The first of the topics that stands between `from` and `to`.
fn find_topic<'a>(chars: &Vec<char>, from: usize, to: usize, topics: &'a [String]) -> (res: Option<
    &'a String,
>)
    requires
        from <= to <= chars@.len(),
    ensures
        first_same(topics.deep_view(), chars@.subrange(from as int, to as int)) == match res {
            Some(topic) => Some(topic@),
            None => None,
        },
{
    let ghost id = chars@.subrange(from as int, to as int);
    let ghost all = topics.deep_view();
    let mut i: usize = 0;
    assert(all.skip(0) =~= all);
    while i < topics.len()
        invariant
            i <= topics.len(),
            from <= to <= chars@.len(),
            id == chars@.subrange(from as int, to as int),
            all == topics.deep_view(),
            first_same(all, id) == first_same(all.skip(i as int), id),
        decreases topics.len() - i,
    {
        assert(all.skip(i as int)[0] == topics@[i as int]@);
        if is_word(chars, from, to, topics[i].as_str()) {
            return Some(&topics[i]);
        }
        assert(all.skip(i as int).skip(1) =~= all.skip(i + 1));
        i += 1;
    }
    None
}

/// The place of the first line feed, or the end.
fn find_line_end(chars: &Vec<char>, from: usize) -> (res: usize)
    requires
        from <= chars@.len(),
    ensures
        from <= res <= chars@.len(),
        res - from == line_end(chars@.skip(from as int)),
{
    let mut i: usize = from;
    while i < chars.len() && chars[i] != '\n'
        invariant
            from <= i <= chars@.len(),
            line_end(chars@.skip(from as int)) == (i - from) + line_end(chars@.skip(i as int)),
        decreases chars@.len() - i,
    {
        assert(chars@.skip(i as int).skip(1) =~= chars@.skip(i + 1));
        i += 1;
    }
    i
}

/// The end of the line that starts at `from`, without its line feed and the carriage return before
/// that, and the start of the next line.
fn find_line(chars: &Vec<char>, from: usize) -> (res: (usize, usize))
    requires
        from < chars@.len(),
    ensures
        from <= res.0 <= res.1 <= chars@.len(),
        from < res.1,
        lines(chars@.skip(from as int)) == seq![chars@.subrange(from as int, res.0 as int)] + lines(
            chars@.skip(res.1 as int),
        ),
{
    let ghost rest = chars@.skip(from as int);
    let end = find_line_end(chars, from);
    proof {
        lemma_line_end(rest);
        assert(rest.take(end - from) =~= chars@.subrange(from as int, end as int));
    }
    if end < chars.len() {
        assert(rest.skip(end - from + 1) =~= chars@.skip(end + 1));
        if from < end && chars[end - 1] == '\r' {
            assert(rest.take(end - from).drop_last() =~= chars@.subrange(from as int, end - 1));
            (end - 1, end + 1)
        } else {
            (end, end + 1)
        }
    } else {
        assert(rest.take(end - from) =~= rest);
        assert(lines(chars@.skip(end as int)) =~= Seq::empty());
        assert(seq![rest] + Seq::<Seq<char>>::empty() =~= seq![rest]);
        (end, end)
    }
}

proof fn lemma_mentioned_add(
    line: Seq<char>,
    rest: Seq<Seq<char>>,
    topics: Seq<Seq<char>>,
    topic: Seq<char>,
)
    ensures
        is_mentioned(seq![line] + rest, topics, topic) <==> mentioned(line, topics) == Some(topic)
            || is_mentioned(rest, topics, topic),
{
    let all = seq![line] + rest;
    assert(all[0] == line);
    assert forall|i: int| 0 <= i < rest.len() implies #[trigger] rest[i] == all[i + 1] by {}
    if is_mentioned(all, topics, topic) {
        let i = choose|i: int|
            0 <= i < all.len() && mentioned(#[trigger] all[i], topics) == Some(topic);
        if i > 0 {
            assert(rest[i - 1] == all[i]);
        }
    }
    if is_mentioned(rest, topics, topic) {
        let i = choose|i: int|
            0 <= i < rest.len() && mentioned(#[trigger] rest[i], topics) == Some(topic);
        assert(all[i + 1] == rest[i]);
    }
}

/// Keeps the topics that a script adds. Of the topics that differ only in case, the first one
/// counts.
pub fn add_script_topic_references(
    text: &str,
    topic_ids: &[String],
    live_topics: &mut DialogueTopicReasons,
)
    requires
        old(live_topics).wf(),
        is_splittable(text@),
    ensures
        final(live_topics).wf(),
        reasons_of(final(live_topics)@) == with_reason(
            reasons_of(old(live_topics)@),
            script_topics(text@, topic_ids.deep_view()),
            DialogueTopicReason::Script,
        ),
{
    let ghost before = reasons_of(live_topics@);
    let ghost topics = topic_ids.deep_view();
    let ghost mut done: Set<Seq<char>> = Set::empty();
    let chars = characters(text);
    let mut at: usize = 0;
    proof {
        lemma_with_reason_none(before, DialogueTopicReason::Script);
        assert(chars@.skip(0) =~= chars@);
    }
    while at < chars.len()
        invariant
            at <= chars@.len(),
            topics == topic_ids.deep_view(),
            live_topics.wf(),
            reasons_of(live_topics@) == with_reason(before, done, DialogueTopicReason::Script),
            forall|t: Seq<char>| #[trigger]
                is_mentioned(lines(chars@), topics, t) <==> done.contains(t) || is_mentioned(
                    lines(chars@.skip(at as int)),
                    topics,
                    t,
                ),
        decreases chars@.len() - at,
    {
        let (end, next) = find_line(&chars, at);
        let ghost line = chars@.subrange(at as int, end as int);
        let ghost reached = done;
        let found = match find_operand(&chars, at, end) {
            Some((from, to)) => find_topic(&chars, from, to, topic_ids),
            None => None,
        };
        if let Some(topic) = found {
            add_topic_reason(live_topics, topic.as_str(), DialogueTopicReason::Script);
            proof {
                done = done.insert(topic@);
                lemma_with_reason_insert(before, reached, DialogueTopicReason::Script, topic@);
            }
        }
        proof {
            assert forall|t: Seq<char>| #[trigger]
                is_mentioned(lines(chars@), topics, t) <==> done.contains(t) || is_mentioned(
                    lines(chars@.skip(next as int)),
                    topics,
                    t,
                ) by {
                lemma_mentioned_add(line, lines(chars@.skip(next as int)), topics, t);
            }
        }
        at = next;
    }
    proof {
        assert forall|t: Seq<char>| #[trigger]
            is_mentioned(lines(chars@), topics, t) <==> done.contains(t) by {
            assert(lines(chars@.skip(at as int)).len() == 0);
        }
        assert(script_topics(text@, topics) =~= done);
    }
}

/// Whether no character between `from` and `to` straddles the end of the first `at` bytes.
fn can_split(chars: &Vec<char>, from: usize, to: usize, at: usize) -> (res: bool)
    requires
        from <= to <= chars@.len(),
    ensures
        res == splits(chars@.subrange(from as int, to as int), at as nat),
{
    let mut i: usize = from;
    let mut left: usize = at;
    while i < to && left > 0
        invariant
            from <= i <= to <= chars@.len(),
            splits(chars@.subrange(from as int, to as int), at as nat) == splits(
                chars@.subrange(i as int, to as int),
                left as nat,
            ),
        decreases to - i,
    {
        let step = char_width(chars[i]);
        assert(chars@.subrange(i as int, to as int).skip(1) =~= chars@.subrange(
            i + 1,
            to as int,
        ));
        if step > left {
            return false;
        }
        left -= step;
        i += 1;
    }
    true
}

/// Whether the topics that a script adds can be looked for: no line but a comment has a character
/// across the end of its first eight bytes.
pub fn is_splittable_script(text: &str) -> (res: bool)
    ensures
        res == is_splittable(text@),
{
    let chars = characters(text);
    let mut at: usize = 0;
    assert(chars@.skip(0) =~= chars@);
    while at < chars.len()
        invariant
            at <= chars@.len(),
            chars@ == text@,
            is_splittable(text@) == are_splittable(lines(chars@.skip(at as int))),
        decreases chars@.len() - at,
    {
        let (end, next) = find_line(&chars, at);
        let ghost line = chars@.subrange(at as int, end as int);
        let ghost rest = lines(chars@.skip(next as int));
        let start = skip_white(&chars, at, end);
        assert((seq![line] + rest)[0] == line);
        assert forall|i: int| 0 <= i < rest.len() implies #[trigger] rest[i] == (seq![line]
            + rest)[i + 1] by {}
        if (start == end || chars[start] != ';') && !can_split(&chars, start, end, 8) {
            return false;
        }
        proof {
            if are_splittable(rest) {
                assert forall|i: int| 0 <= i < (seq![line] + rest).len() implies is_splittable_line(
                    #[trigger] (seq![line] + rest)[i],
                ) by {
                    if i > 0 {
                        assert((seq![line] + rest)[i] == rest[i - 1]);
                    }
                }
            }
        }
        at = next;
    }
    assert(lines(chars@.skip(at as int)).len() == 0);
    true
}

/// A comment adds no topic.
pub proof fn law_comments_add_no_topic(line: Seq<char>, topics: Seq<Seq<char>>)
    requires
        trimmed(line).len() > 0,
        trimmed(line)[0] == ';',
    ensures
        mentioned(line, topics) is None,
{
    let command = trimmed(line);
    reveal_strlit("AddTopic");
    if command.len() > 8 && same(command.take(8), "AddTopic"@) {
        assert(lower(command.take(8))[0] == ';');
        assert(lower("AddTopic"@)[0] == 'a');
    }
}

/// No two of the topics are the same.
pub open spec fn are_topics_distinct(topics: Seq<Seq<char>>) -> bool {
    forall|i: int, j: int|
        0 <= i < j < topics.len() ==> !same(#[trigger] topics[i], #[trigger] topics[j])
}

/// One of the lines adds a topic by the name of `topic`, in any case.
pub open spec fn is_named(script: Seq<Seq<char>>, topic: Seq<char>) -> bool {
    exists|i: int|
        0 <= i < script.len() && (operand(#[trigger] script[i]) matches Some(id) && same(topic, id))
}

proof fn lemma_first_same(topics: Seq<Seq<char>>, id: Seq<char>, topic: Seq<char>)
    requires
        are_topics_distinct(topics),
    ensures
        first_same(topics, id) == Some(topic) <==> topics.contains(topic) && same(topic, id),
    decreases topics.len(),
{
    if topics.len() > 0 {
        let rest = topics.skip(1);
        assert forall|i: int, j: int| 0 <= i < j < rest.len() implies !same(
            #[trigger] rest[i],
            #[trigger] rest[j],
        ) by {
            assert(!same(topics[i + 1], topics[j + 1]));
        }
        lemma_first_same(rest, id, topic);
        assert(topics.contains(topics[0]));
        if rest.contains(topic) {
            let k = choose|k: int| 0 <= k < rest.len() && rest[k] == topic;
            assert(topics[k + 1] == topic);
            assert(!same(topics[0], topics[k + 1]));
        }
        if topics.contains(topic) && topic != topics[0] {
            let k = choose|k: int| 0 <= k < topics.len() && topics[k] == topic;
            assert(rest[k - 1] == topic);
        }
    }
}

/// A script adds just those of the topics that one of its lines names, in any case.
pub proof fn law_scripts_add_what_they_name(
    text: Seq<char>,
    topics: Seq<Seq<char>>,
    topic: Seq<char>,
)
    requires
        are_topics_distinct(topics),
    ensures
        script_topics(text, topics).contains(topic) <==> topics.contains(topic) && is_named(
            lines(text),
            topic,
        ),
{
    let script = lines(text);
    if is_mentioned(script, topics, topic) {
        let i = choose|i: int|
            0 <= i < script.len() && mentioned(#[trigger] script[i], topics) == Some(topic);
        lemma_first_same(topics, operand(script[i])->0, topic);
        assert(operand(script[i]) matches Some(id) && same(topic, id));
    }
    if topics.contains(topic) && is_named(script, topic) {
        let i = choose|i: int|
            0 <= i < script.len() && (operand(#[trigger] script[i]) matches Some(id) && same(
                topic,
                id,
            ));
        lemma_first_same(topics, operand(script[i])->0, topic);
        assert(mentioned(script[i], topics) == Some(topic));
    }
}

} // verus!
