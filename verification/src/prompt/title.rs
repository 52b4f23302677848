//! The title of a session, taken from its first message.

use crate::text;
use vstd::prelude::*;
use vstd::string::*;

verus! {

/// The most characters of a title.
pub const MAX_TITLE_CHARS: usize = 50;

/// The first line of a message, without white space around it.
pub open spec fn first_line(message: Seq<char>) -> Seq<char> {
    text::trimmed(text::split_at_char(text::trimmed(message), '\n')[0])
}

/// The title that a message gives: its first line, cut where it is too long.
pub open spec fn title_of(message: Seq<char>) -> Seq<char> {
    let line = first_line(message);
    if line.len() == 0 {
        "Nouvelle session"@
    } else if line.len() <= MAX_TITLE_CHARS {
        line
    } else {
        line.take(MAX_TITLE_CHARS - 1) + "…"@
    }
}

/// The title that the first message of a session gives.
pub fn derive_title(first_user_message: &str) -> (r: String)
    ensures
        r@ == title_of(first_user_message@),
{
    let trimmed = text::trim(first_user_message);
    let parts = text::split(trimmed, '\n');
    proof {
        text::lemma_split_nonempty(trimmed@, '\n');
        assert(text::texts_of(parts@)[0] == parts@[0]@);
    }
    let line = text::trim(parts[0].as_str());
    if line.is_empty() {
        return "Nouvelle session".to_owned();
    }
    if text::char_count(line) <= MAX_TITLE_CHARS {
        return line.to_owned();
    }
    let cut = line.substring_char(0, MAX_TITLE_CHARS - 1);
    proof {
        assert(line@.subrange(0, 49) =~= line@.take(49));
    }
    text::cat(cut, "…")
}

/// A title is never empty and never too long.
pub proof fn law_title_length(message: Seq<char>)
    ensures
        0 < title_of(message).len() <= 50,
{
    reveal_strlit("Nouvelle session");
    reveal_strlit("…");
}

/// A message of one short line is its own title; of a longer line the first 49
/// characters are, with an ellipsis; of several lines the first is; and a blank
/// message has the title of a new session.
pub proof fn law_first_line_is_the_title(line: Seq<char>, more: Seq<char>)
    requires
        line.len() > 0,
        !text::is_white(line[0]),
        !text::is_white(line.last()),
        !line.contains('\n'),
        more.len() > 0 ==> more[0] == '\n' && !text::is_white(more.last()),
    ensures
        line.len() <= 50 ==> title_of(line + more) == line,
        line.len() > 50 ==> title_of(line + more) == line.take(49) + "…"@,
        title_of(Seq::empty()) == "Nouvelle session"@,
{
    let message = line + more;
    let nothing = Seq::<char>::empty();
    assert(message.len() > 0 && message[0] == line[0]);
    if more.len() > 0 {
        assert(message.last() == more.last());
    } else {
        assert(message =~= line);
    }
    text::law_trimming_takes_white_space_only(nothing, message, nothing);
    assert(nothing + message + nothing =~= message);
    text::law_trimming_takes_white_space_only(nothing, line, nothing);
    assert(nothing + line + nothing =~= line);
    text::lemma_split_pieces(line, '\n');
    if more.len() > 0 {
        let head = line + seq!['\n'];
        assert(head.drop_last() =~= line);
        let pieces = text::split_at_char(head, '\n');
        assert(pieces =~= seq![line, Seq::<char>::empty()]);
        let rest = more.skip(1);
        assert(message =~= head + rest);
        text::lemma_split_add(head, rest, '\n');
        assert(text::split_at_char(message, '\n')[0] == line);
    }
    text::law_white_space_is_blank(nothing);
    assert(text::trimmed(nothing) =~= nothing);
}

} // verus!
