//! How the lines of a script are told apart, and what `AddTopic` is followed by.

use vstd::prelude::*;

use crate::scripts::{
    before_quote, before_white, first_same, is_mentioned, is_white, line_end, lines, mentioned,
    operand, script_topics, trimmed,
};
use crate::text::{lower, lower_char};

verus! {

/// Nothing but white space.
pub open spec fn is_blank(text: Seq<char>) -> bool {
    forall|k: int| 0 <= k < text.len() ==> is_white(#[trigger] text[k])
}

proof fn lemma_trimmed(indent: Seq<char>, text: Seq<char>)
    requires
        is_blank(indent),
        text.len() == 0 || !is_white(text[0]),
    ensures
        trimmed(indent + text) == text,
    decreases indent.len(),
{
    if indent.len() == 0 {
        assert(indent + text =~= text);
    } else {
        assert(is_white(indent[0]));
        assert((indent + text).skip(1) =~= indent.skip(1) + text);
        assert(is_blank(indent.skip(1))) by {
            assert forall|k: int| 0 <= k < indent.skip(1).len() implies is_white(
                #[trigger] indent.skip(1)[k],
            ) by {
                assert(is_white(indent[k + 1]));
            }
        }
        lemma_trimmed(indent.skip(1), text);
    }
}

proof fn lemma_before_quote(topic: Seq<char>, rest: Seq<char>)
    requires
        forall|k: int| 0 <= k < topic.len() ==> #[trigger] topic[k] != '"',
        rest.len() == 0 || rest[0] == '"',
    ensures
        before_quote(topic + rest) == topic,
    decreases topic.len(),
{
    if topic.len() == 0 {
        assert(topic + rest =~= rest);
        assert(topic =~= Seq::empty());
    } else {
        let tail = topic.skip(1);
        assert((topic + rest).skip(1) =~= tail + rest);
        assert forall|k: int| 0 <= k < tail.len() implies #[trigger] tail[k] != '"' by {
            assert(topic[k + 1] != '"');
        }
        lemma_before_quote(tail, rest);
        assert(topic[0] != '"');
        assert(seq![topic[0]] + tail =~= topic);
    }
}

proof fn lemma_before_white(word: Seq<char>, rest: Seq<char>)
    requires
        forall|k: int| 0 <= k < word.len() ==> !is_white(#[trigger] word[k]),
        rest.len() == 0 || is_white(rest[0]),
    ensures
        before_white(word + rest) == word,
    decreases word.len(),
{
    if word.len() == 0 {
        assert(word + rest =~= rest);
        assert(word =~= Seq::empty());
    } else {
        let tail = word.skip(1);
        assert((word + rest).skip(1) =~= tail + rest);
        assert forall|k: int| 0 <= k < tail.len() implies !is_white(#[trigger] tail[k]) by {
            assert(!is_white(word[k + 1]));
        }
        lemma_before_white(tail, rest);
        assert(!is_white(word[0]));
        assert(seq![word[0]] + tail =~= word);
    }
}

proof fn lemma_command(command: Seq<char>)
    requires
        lower(command) == lower("AddTopic"@),
    ensures
        command.len() == 8,
        !is_white(command[0]),
{
    reveal_strlit("AddTopic");
    assert(lower(command).len() == command.len());
    assert(lower(command)[0] == lower_char(command[0]));
    assert(lower("AddTopic"@)[0] == 'a');
}

proof fn lemma_operand(indent: Seq<char>, command: Seq<char>, gap: Seq<char>, rest: Seq<char>)
    requires
        is_blank(indent),
        lower(command) == lower("AddTopic"@),
        gap.len() > 0,
        is_blank(gap),
        rest.len() == 0 || !is_white(rest[0]),
    ensures
        operand(indent + command + gap + rest) == (if rest.len() > 0 && rest[0] == '"' {
            Some(before_quote(rest.skip(1)))
        } else {
            Some(before_white(rest))
        }),
{
    lemma_command(command);
    let text = command + gap + rest;
    assert(indent + command + gap + rest =~= indent + text);
    lemma_trimmed(indent, text);
    assert(text.take(8) =~= command);
    assert(text[8] == gap[0]);
    assert(is_white(gap[0]));
    assert(text.skip(8) =~= gap + rest);
    lemma_trimmed(gap, rest);
}

/// A topic in quotes is all that stands between them: whatever holds no double quote, up to the
/// next double quote or, where there is none, the end of the line. The command may be indented and
/// may be written in any case.
pub proof fn law_quoted_topic_is_read_whole(
    indent: Seq<char>,
    command: Seq<char>,
    gap: Seq<char>,
    topic: Seq<char>,
    rest: Seq<char>,
)
    requires
        is_blank(indent),
        lower(command) == lower("AddTopic"@),
        gap.len() > 0,
        is_blank(gap),
        forall|k: int| 0 <= k < topic.len() ==> #[trigger] topic[k] != '"',
    ensures
        operand(indent + command + gap + seq!['"'] + topic + seq!['"'] + rest) == Some(topic),
        operand(indent + command + gap + seq!['"'] + topic) == Some(topic),
{
    let closed = seq!['"'] + topic + seq!['"'] + rest;
    assert(indent + command + gap + seq!['"'] + topic + seq!['"'] + rest =~= indent + command + gap
        + closed);
    lemma_operand(indent, command, gap, closed);
    assert(closed.skip(1) =~= topic + (seq!['"'] + rest));
    lemma_before_quote(topic, seq!['"'] + rest);
    let open = seq!['"'] + topic;
    assert(indent + command + gap + seq!['"'] + topic =~= indent + command + gap + open);
    lemma_operand(indent, command, gap, open);
    assert(open.skip(1) =~= topic + Seq::empty());
    lemma_before_quote(topic, Seq::empty());
}

/// A topic without quotes is one word: all that holds no white space, up to the next white space or
/// the end of the line.
pub proof fn law_plain_topic_is_one_word(
    indent: Seq<char>,
    command: Seq<char>,
    gap: Seq<char>,
    word: Seq<char>,
    rest: Seq<char>,
)
    requires
        is_blank(indent),
        lower(command) == lower("AddTopic"@),
        gap.len() > 0,
        is_blank(gap),
        word.len() > 0,
        word[0] != '"',
        forall|k: int| 0 <= k < word.len() ==> !is_white(#[trigger] word[k]),
        rest.len() == 0 || is_white(rest[0]),
    ensures
        operand(indent + command + gap + word + rest) == Some(word),
{
    assert(indent + command + gap + word + rest =~= indent + command + gap + (word + rest));
    assert(!is_white(word[0]));
    lemma_operand(indent, command, gap, word + rest);
    lemma_before_white(word, rest);
}

/// A command with nothing but white space behind it adds the empty topic.
pub proof fn law_bare_command_adds_the_empty_topic(
    indent: Seq<char>,
    command: Seq<char>,
    gap: Seq<char>,
)
    requires
        is_blank(indent),
        lower(command) == lower("AddTopic"@),
        gap.len() > 0,
        is_blank(gap),
    ensures
        operand(indent + command + gap) == Some(Seq::<char>::empty()),
{
    assert(indent + command + gap =~= indent + command + gap + Seq::empty());
    lemma_operand(indent, command, gap, Seq::empty());
}

proof fn lemma_trimmed_front(text: Seq<char>) -> (n: int)
    ensures
        0 <= n <= text.len(),
        is_blank(text.take(n)),
        trimmed(text) == text.skip(n),
        n < text.len() ==> !is_white(text[n]),
    decreases text.len(),
{
    if text.len() > 0 && is_white(text[0]) {
        let m = lemma_trimmed_front(text.skip(1));
        let n = m + 1;
        assert forall|k: int| 0 <= k < text.take(n).len() implies is_white(
            #[trigger] text.take(n)[k],
        ) by {
            if k > 0 {
                assert(is_white(text.skip(1).take(m)[k - 1]));
            }
        }
        assert(text.skip(1).skip(m) =~= text.skip(n));
        n
    } else {
        assert(text.skip(0) =~= text);
        0
    }
}

/// A line adds a topic just if it holds, behind any white space, the command in any case and white
/// space behind that.
pub proof fn law_only_the_command_adds_topics(line: Seq<char>)
    ensures
        operand(line) is Some <==> exists|n: int|
            0 <= n && n + 8 < line.len() && is_blank(line.take(n)) && lower(
                #[trigger] line.subrange(n, n + 8),
            ) == lower("AddTopic"@) && is_white(line[n + 8]),
{
    let n = lemma_trimmed_front(line);
    let command = line.skip(n);
    if operand(line) is Some {
        assert(command.take(8) =~= line.subrange(n, n + 8));
    }
    assert forall|m: int|
        0 <= m && m + 8 < line.len() && is_blank(line.take(m)) && lower(
            #[trigger] line.subrange(m, m + 8),
        ) == lower("AddTopic"@) && is_white(line[m + 8]) implies operand(line) is Some by {
        lemma_command(line.subrange(m, m + 8));
        assert(!is_white(line[m]));
        assert(line =~= line.take(m) + line.skip(m));
        lemma_trimmed(line.take(m), line.skip(m));
        assert(line.skip(m).take(8) =~= line.subrange(m, m + 8));
    }
}

/// A comment adds no topic, whatever it says.
pub proof fn law_comments_are_not_read(indent: Seq<char>, rest: Seq<char>)
    requires
        is_blank(indent),
    ensures
        operand(indent + seq![';'] + rest) is None,
{
    let text = seq![';'] + rest;
    assert(indent + seq![';'] + rest =~= indent + text);
    lemma_trimmed(indent, text);
    reveal_strlit("AddTopic");
    if text.len() > 8 && lower(text.take(8)) == lower("AddTopic"@) {
        assert(lower(text.take(8))[0] == ';');
        assert(lower("AddTopic"@)[0] == 'a');
    }
}

/// The line adds the topic at `k`: it is the first of the topics that the line names, in any case.
pub open spec fn is_added_by(line: Seq<char>, topics: Seq<Seq<char>>, k: int) -> bool {
    match operand(line) {
        Some(id) => {
            &&& 0 <= k < topics.len()
            &&& lower(topics[k]) == lower(id)
            &&& forall|j: int| 0 <= j < k ==> lower(#[trigger] topics[j]) != lower(id)
        },
        None => false,
    }
}

proof fn lemma_first_same_is(topics: Seq<Seq<char>>, id: Seq<char>)
    ensures
        match first_same(topics, id) {
            Some(t) => exists|k: int|
                0 <= k < topics.len() && #[trigger] topics[k] == t && lower(topics[k]) == lower(id)
                    && forall|j: int| 0 <= j < k ==> lower(#[trigger] topics[j]) != lower(id),
            None => forall|j: int|
                0 <= j < topics.len() ==> lower(#[trigger] topics[j]) != lower(id),
        },
    decreases topics.len(),
{
    if topics.len() > 0 {
        let rest = topics.skip(1);
        lemma_first_same_is(rest, id);
        if lower(topics[0]) != lower(id) {
            match first_same(rest, id) {
                Some(t) => {
                    let k = choose|k: int|
                        0 <= k < rest.len() && #[trigger] rest[k] == t && lower(rest[k]) == lower(
                            id,
                        ) && forall|j: int| 0 <= j < k ==> lower(#[trigger] rest[j]) != lower(id);
                    assert(topics[k + 1] == t);
                    assert forall|j: int| 0 <= j < k + 1 implies lower(#[trigger] topics[j])
                        != lower(id) by {
                        if j > 0 {
                            assert(rest[j - 1] == topics[j]);
                        }
                    }
                },
                None => {
                    assert forall|j: int| 0 <= j < topics.len() implies lower(#[trigger] topics[j])
                        != lower(id) by {
                        if j > 0 {
                            assert(rest[j - 1] == topics[j]);
                        }
                    }
                },
            }
        } else {
            assert(topics[0] == topics[0]);
        }
    }
}

/// A script adds just those of the topics that one of its lines adds.
pub proof fn law_scripts_add_line_by_line(
    text: Seq<char>,
    topics: Seq<Seq<char>>,
    topic: Seq<char>,
)
    ensures
        script_topics(text, topics).contains(topic) <==> exists|i: int, k: int|
            0 <= i < lines(text).len() && #[trigger] is_added_by(lines(text)[i], topics, k)
                && topics[k] == topic,
{
    let script = lines(text);
    if is_mentioned(script, topics, topic) {
        let i = choose|i: int|
            0 <= i < script.len() && mentioned(#[trigger] script[i], topics) == Some(topic);
        let id = operand(script[i])->0;
        lemma_first_same_is(topics, id);
        let k = choose|k: int|
            0 <= k < topics.len() && #[trigger] topics[k] == topic && lower(topics[k]) == lower(id)
                && forall|j: int| 0 <= j < k ==> lower(#[trigger] topics[j]) != lower(id);
        assert(is_added_by(script[i], topics, k));
    }
    assert forall|i: int, k: int|
        0 <= i < script.len() && #[trigger] is_added_by(script[i], topics, k) && topics[k]
            == topic implies is_mentioned(script, topics, topic) by {
        let id = operand(script[i])->0;
        lemma_first_same_is(topics, id);
        if first_same(topics, id) is Some {
            let t = first_same(topics, id)->0;
            let l = choose|l: int|
                0 <= l < topics.len() && #[trigger] topics[l] == t && lower(topics[l]) == lower(id)
                    && forall|j: int| 0 <= j < l ==> lower(#[trigger] topics[j]) != lower(id);
            if l < k {
                assert(lower(topics[l]) != lower(id));
            } else if k < l {
                assert(lower(topics[k]) != lower(id));
            }
        } else {
            assert(lower(topics[k]) != lower(id));
        }
        assert(mentioned(script[i], topics) == Some(topic));
    }
}

proof fn lemma_line_end_is(line: Seq<char>, rest: Seq<char>)
    requires
        forall|k: int| 0 <= k < line.len() ==> #[trigger] line[k] != '\n',
        rest.len() == 0 || rest[0] == '\n',
    ensures
        line_end(line + rest) == line.len(),
    decreases line.len(),
{
    if line.len() == 0 {
        assert(line + rest =~= rest);
    } else {
        let tail = line.skip(1);
        assert((line + rest).skip(1) =~= tail + rest);
        assert forall|k: int| 0 <= k < tail.len() implies #[trigger] tail[k] != '\n' by {
            assert(line[k + 1] != '\n');
        }
        lemma_line_end_is(tail, rest);
        assert(line[0] != '\n');
    }
}

/// A text is split at its line feeds. A carriage return before one goes with it; one at the end of
/// a last line that no line feed ends stays. An empty text has no lines.
pub proof fn law_texts_are_split_at_line_feeds(line: Seq<char>, rest: Seq<char>)
    requires
        forall|k: int| 0 <= k < line.len() ==> #[trigger] line[k] != '\n',
    ensures
        lines(line + seq!['\n'] + rest) == seq![line] + lines(rest) || (line.len() > 0
            && line.last() == '\r'),
        lines(line + seq!['\r', '\n'] + rest) == seq![line] + lines(rest),
        line.len() > 0 ==> lines(line) == seq![line],
        lines(Seq::empty()) == Seq::<Seq<char>>::empty(),
{
    let ended = line + seq!['\n'] + rest;
    lemma_line_end_is(line, seq!['\n'] + rest);
    assert(ended =~= line + (seq!['\n'] + rest));
    assert(ended.take(line.len() as int) =~= line);
    assert(ended.skip(line.len() as int + 1) =~= rest);
    let full = line.push('\r');
    let returned = line + seq!['\r', '\n'] + rest;
    assert forall|k: int| 0 <= k < full.len() implies #[trigger] full[k] != '\n' by {
        if k < line.len() {
            assert(line[k] != '\n');
        }
    }
    lemma_line_end_is(full, seq!['\n'] + rest);
    assert(returned =~= full + (seq!['\n'] + rest));
    assert(returned.take(full.len() as int) =~= full);
    assert(returned.skip(full.len() as int + 1) =~= rest);
    assert(full.drop_last() =~= line);
    lemma_line_end_is(line, Seq::empty());
    assert(line + Seq::empty() =~= line);
}

} // verus!
