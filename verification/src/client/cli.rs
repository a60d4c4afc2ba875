//! What the client makes of what its user types.

use vstd::prelude::*;

use crate::server::text::{chars_of, text_of, trim, trimmed};

verus! {

/// What the user asks for with one line.
#[derive(Debug, PartialEq, Eq)]
pub enum Command {
    /// `/q` or `/stop`: leave.
    Quit,
    /// `/topic <name>`: write to the topic of that name from now on;
    /// without a name, show the topics there are.
    SwitchTopic(Option<String>),
    /// `/key <key>`: give the messages to come that key; without a key,
    /// none.
    SetKey(Option<String>),
    /// `/retention <minutes>`: set how long the topic keeps its messages;
    /// without a number, show how long it does.
    Retention(Option<String>),
    /// Anything else is the text of a message.
    Post(String),
}

/// What one line of input amounts to.
#[derive(Debug, PartialEq, Eq)]
pub enum Input {
    /// The input is over.
    Eof,
    /// A line of nothing but white space.
    Blank,
    /// A command or a message.
    Line(Command),
}

/// Where the first `mark` of `s` stands; the length of `s` if there is none.
pub open spec fn first_of(s: Seq<char>, mark: char) -> int
    decreases s.len(),
{
    if s.len() == 0 {
        0
    } else if s[0] == mark {
        0
    } else {
        1 + first_of(s.drop_first(), mark)
    }
}

/// The first `mark` of `s` stands within `s`, or there is none in `s`.
pub proof fn lemma_first_of(s: Seq<char>, mark: char)
    ensures
        0 <= first_of(s, mark) <= s.len(),
        first_of(s, mark) < s.len() ==> s[first_of(s, mark)] == mark,
        forall|i: int| 0 <= i < first_of(s, mark) ==> #[trigger] s[i] != mark,
    decreases s.len(),
{
    if s.len() > 0 && s[0] != mark {
        let rest = s.drop_first();
        lemma_first_of(rest, mark);
        assert forall|i: int| 0 <= i < first_of(s, mark) implies #[trigger] s[i] != mark by {
            if i > 0 {
                assert(rest[i - 1] == s[i]);
            }
        }
    }
}

/// If no `mark` stands before place `at`, and one stands there or `s` ends
/// there, then `at` is where the first `mark` stands.
pub proof fn lemma_first_of_is(s: Seq<char>, mark: char, at: int)
    requires
        0 <= at <= s.len(),
        forall|i: int| 0 <= i < at ==> #[trigger] s[i] != mark,
        at < s.len() ==> s[at] == mark,
    ensures
        first_of(s, mark) == at,
{
    lemma_first_of(s, mark);
    let found = first_of(s, mark);
    if found < at {
        assert(s[found] != mark);
    } else if found > at {
        assert(s[at] != mark);
    }
}

/// The word that a line starts with: all up to the first blank.
pub open spec fn first_word(s: Seq<char>) -> Seq<char> {
    s.take(first_of(s, ' '))
}

/// The word after the first: what stands between the first blank and the
/// second. There is none if the line has no blank.
pub open spec fn second_word(s: Seq<char>) -> Option<Seq<char>> {
    let blank = first_of(s, ' ');
    if blank >= s.len() {
        None
    } else {
        let rest = s.skip(blank + 1);
        Some(rest.take(first_of(rest, ' ')))
    }
}

/// Where the first `mark` stands among `chars` from place `from` on.
fn find_from(chars: &Vec<char>, from: usize, mark: char) -> (at: usize)
    requires
        from <= chars@.len(),
    ensures
        from <= at <= chars@.len(),
        at - from == first_of(chars@.skip(from as int), mark),
{
    let mut at: usize = from;
    while at < chars.len() && chars[at] != mark
        invariant
            from <= at <= chars@.len(),
            forall|i: int| from <= i < at ==> #[trigger] chars@[i] != mark,
        decreases chars@.len() - at,
    {
        at = at + 1;
    }
    proof {
        let rest = chars@.skip(from as int);
        assert forall|i: int| 0 <= i < at - from implies #[trigger] rest[i] != mark by {
            assert(rest[i] == chars@[i + from]);
        }
        lemma_first_of_is(rest, mark, at - from);
    }
    at
}

/// What a trimmed, non-empty line asks for.
pub open spec fn command_of(line: Seq<char>) -> CommandView {
    let word = first_word(line);
    if word == "/q"@ || word == "/stop"@ {
        CommandView::Quit
    } else if word == "/topic"@ {
        CommandView::SwitchTopic(second_word(line))
    } else if word == "/key"@ {
        CommandView::SetKey(second_word(line))
    } else if word == "/retention"@ {
        CommandView::Retention(second_word(line))
    } else {
        CommandView::Post(line)
    }
}

/// A command as a mathematical value.
pub enum CommandView {
    Quit,
    SwitchTopic(Option<Seq<char>>),
    SetKey(Option<Seq<char>>),
    Retention(Option<Seq<char>>),
    Post(Seq<char>),
}

/// The text of an optional word.
pub open spec fn word_view(word: Option<String>) -> Option<Seq<char>> {
    match word {
        None => None,
        Some(w) => Some(w@),
    }
}

impl View for Command {
    type V = CommandView;

    open spec fn view(&self) -> CommandView {
        match self {
            Command::Quit => CommandView::Quit,
            Command::SwitchTopic(w) => CommandView::SwitchTopic(word_view(*w)),
            Command::SetKey(w) => CommandView::SetKey(word_view(*w)),
            Command::Retention(w) => CommandView::Retention(word_view(*w)),
            Command::Post(text) => CommandView::Post(text@),
        }
    }
}

/// Whether `word` is the text `literal`.
fn is_word(word: &String, literal: &str) -> (same: bool)
    ensures
        same == (word@ == literal@),
{
    *word == literal.to_owned()
}

/// Reads one line of input. An empty line is the end of the input; a line
/// of white space is blank; any other is trimmed and is a command if it
/// starts with the word of one, else the text of a message.
pub fn parse_line(line: &str) -> (input: Input)
    ensures
        line@.len() == 0 ==> input == Input::Eof,
        line@.len() > 0 && trimmed(line@).len() == 0 ==> input == Input::Blank,
        line@.len() > 0 && trimmed(line@).len() > 0 ==> (input matches Input::Line(command)
            && command@ == command_of(trimmed(line@))),
{
    if line.unicode_len() == 0 {
        return Input::Eof;
    }
    let text = trim(line);
    let chars = chars_of(text.as_str());
    if chars.len() == 0 {
        return Input::Blank;
    }
    let blank = find_from(&chars, 0, ' ');
    proof {
        assert(chars@.skip(0) =~= chars@);
        assert(chars@.take(blank as int) =~= chars@.subrange(0, blank as int));
    }
    let word = text_of(&chars, 0, blank);
    let argument = if blank < chars.len() {
        let end = find_from(&chars, blank + 1, ' ');
        proof {
            let rest = chars@.skip(blank + 1);
            assert(rest.take(end - blank - 1) =~= chars@.subrange(blank + 1, end as int));
        }
        Some(text_of(&chars, blank + 1, end))
    } else {
        None
    };
    let command = if is_word(&word, "/q") || is_word(&word, "/stop") {
        Command::Quit
    } else if is_word(&word, "/topic") {
        Command::SwitchTopic(argument)
    } else if is_word(&word, "/key") {
        Command::SetKey(argument)
    } else if is_word(&word, "/retention") {
        Command::Retention(argument)
    } else {
        Command::Post(text)
    };
    Input::Line(command)
}

/// Takes the first line out of `buffer`, with the line feed that ends it.
/// There is none while the buffer holds no line feed; the buffer then
/// stays as it is, to be filled further.
pub fn take_line(buffer: &mut String) -> (line: Option<String>)
    ensures
        line.is_some() == (first_of(old(buffer)@, '\n') < old(buffer)@.len()),
        line matches Some(l) ==> {
            &&& l@ == old(buffer)@.take(first_of(old(buffer)@, '\n') + 1)
            &&& final(buffer)@ == old(buffer)@.skip(first_of(old(buffer)@, '\n') + 1)
        },
        line.is_none() ==> final(buffer)@ == old(buffer)@,
{
    let chars = chars_of(buffer.as_str());
    let newline_pos = find_from(&chars, 0, '\n');
    proof {
        assert(chars@.skip(0) =~= chars@);
    }
    if newline_pos >= chars.len() {
        return None;
    }
    let line = text_of(&chars, 0, newline_pos + 1);
    let rest = text_of(&chars, newline_pos + 1, chars.len());
    proof {
        assert(chars@.take(newline_pos + 1) =~= chars@.subrange(0, newline_pos + 1));
        assert(chars@.skip(newline_pos + 1) =~= chars@.subrange(
            newline_pos + 1,
            chars@.len() as int,
        ));
    }
    *buffer = rest;
    Some(line)
}

} // verus!
