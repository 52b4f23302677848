//! The prompt: the system text, the tools, and as much of the history as fits.

use crate::session;
use crate::session::{MessageView, Role};
use crate::text;
use vstd::prelude::*;
use vstd::string::*;

verus! {

/// The most messages of the history, the present one included.
pub const MAX_MESSAGES: usize = 12;

/// The most characters of the history. The present message is never cut.
pub const MAX_PROMPT_CHARS: usize = 32_000;

pub open spec fn tag_of(role: Role) -> Seq<char> {
    match role {
        Role::User => "[User]"@,
        Role::Assistant => "[Assistant]"@,
        Role::Tool => "[Tool result]"@,
    }
}

/// A message as it stands in the prompt.
pub open spec fn entry(m: MessageView) -> Seq<char> {
    tag_of(m.role) + ": "@ + m.text + "\n\n"@
}

/// The messages from `start` on, as they stand in the prompt.
pub open spec fn history_text(messages: Seq<MessageView>, start: int) -> Seq<char>
    decreases messages.len() - start,
{
    if start < 0 || start >= messages.len() {
        Seq::empty()
    } else {
        entry(messages[start]) + history_text(messages, start + 1)
    }
}

/// The first message at or after `start` from which on the history fits, or
/// the present one.
pub open spec fn first_fitting(messages: Seq<MessageView>, start: int) -> int
    decreases messages.len() - start,
{
    if start >= messages.len() - 1 {
        messages.len() - 1
    } else if history_text(messages, start).len() <= MAX_PROMPT_CHARS {
        start
    } else {
        first_fitting(messages, start + 1)
    }
}

/// Where the history begins: as far back as the number of messages and the
/// number of characters allow.
pub open spec fn window_start(messages: Seq<MessageView>) -> int {
    first_fitting(
        messages,
        if messages.len() > MAX_MESSAGES {
            messages.len() - MAX_MESSAGES
        } else {
            0
        },
    )
}

/// The system text, followed by the tools where there are any to tell.
pub open spec fn preamble(
    system: Seq<char>,
    tools_enabled: bool,
    tools_section: Option<Seq<char>>,
) -> Seq<char> {
    match tools_section {
        Some(section) => if tools_enabled {
            system + section + "\n\n"@
        } else {
            system
        },
        None => system,
    }
}

/// The whole prompt.
pub open spec fn prompt_text(preamble: Seq<char>, messages: Seq<MessageView>) -> Seq<char> {
    if messages.len() == 0 {
        preamble
    } else {
        preamble + history_text(messages, window_start(messages))
    }
}

// ---------------------------------------------------------------------------
// Laws
// ---------------------------------------------------------------------------

proof fn lemma_first_fitting(messages: Seq<MessageView>, start: int)
    requires
        0 <= start < messages.len(),
    ensures
        ({
            let s = first_fitting(messages, start);
            &&& start <= s < messages.len()
            &&& s < messages.len() - 1 ==> history_text(messages, s).len() <= MAX_PROMPT_CHARS
            &&& forall|t: int|
                start <= t < s ==> #[trigger] history_text(messages, t).len() > MAX_PROMPT_CHARS
        }),
    decreases messages.len() - start,
{
    if start < messages.len() - 1 && history_text(messages, start).len() > MAX_PROMPT_CHARS {
        lemma_first_fitting(messages, start + 1);
    }
}

/// A history that begins later is shorter.
proof fn lemma_history_shorter(messages: Seq<MessageView>, a: int, b: int)
    requires
        0 <= a <= b <= messages.len(),
    ensures
        history_text(messages, b).len() <= history_text(messages, a).len(),
    decreases b - a,
{
    if a < b {
        lemma_history_shorter(messages, a + 1, b);
    }
}

/// The window holds the present message and at most twelve in all; it is
/// within the budget unless it is the present message alone; and nothing that
/// would have fitted is left out.
pub proof fn law_window(messages: Seq<MessageView>, earlier: int)
    requires
        messages.len() > 0,
    ensures
        ({
            let s = window_start(messages);
            &&& 0 <= s < messages.len()
            &&& messages.len() - s <= 12
            &&& s < messages.len() - 1 ==> history_text(messages, s).len() <= 32_000
            &&& 0 <= earlier < s && messages.len() - earlier <= 12 ==> history_text(
                messages,
                earlier,
            ).len() > 32_000
        }),
{
    let lowest = if messages.len() > 12 {
        messages.len() - 12
    } else {
        0
    };
    lemma_first_fitting(messages, lowest);
}

/// The prompt begins with the preamble and ends with the present message,
/// whole.
pub proof fn law_present_message_is_whole(preamble: Seq<char>, messages: Seq<MessageView>)
    requires
        messages.len() > 0,
    ensures
        ({
            let prompt = prompt_text(preamble, messages);
            let present = entry(messages.last());
            &&& preamble.len() + present.len() <= prompt.len()
            &&& prompt.take(preamble.len() as int) == preamble
            &&& prompt.skip(prompt.len() - present.len()) == present
        }),
{
    law_window(messages, 0);
    let s = window_start(messages);
    lemma_history_ends(messages, s);
    let history = history_text(messages, s);
    let prompt = preamble + history;
    let present = entry(messages.last());
    assert(prompt.take(preamble.len() as int) =~= preamble);
    assert(prompt.skip(prompt.len() - present.len()) =~= history.skip(
        history.len() - present.len(),
    ));
}

proof fn lemma_history_ends(messages: Seq<MessageView>, s: int)
    requires
        0 <= s < messages.len(),
    ensures
        ({
            let history = history_text(messages, s);
            let present = entry(messages.last());
            present.len() <= history.len() && history.skip(history.len() - present.len())
                == present
        }),
    decreases messages.len() - s,
{
    let history = history_text(messages, s);
    let present = entry(messages.last());
    if s == messages.len() - 1 {
        assert(history_text(messages, s + 1) =~= Seq::<char>::empty());
        assert(history =~= present);
        assert(history.skip(0) =~= present);
    } else {
        lemma_history_ends(messages, s + 1);
        let rest = history_text(messages, s + 1);
        assert(history.skip(history.len() - present.len()) =~= rest.skip(
            rest.len() - present.len(),
        ));
    }
}

// ---------------------------------------------------------------------------
// Functions
// ---------------------------------------------------------------------------

fn tag(role: Role) -> (r: &'static str)
    ensures
        r@ == tag_of(role),
{
    match role {
        Role::User => "[User]",
        Role::Assistant => "[Assistant]",
        Role::Tool => "[Tool result]",
    }
}

fn entry_len(m: &(Role, String)) -> (r: u128)
    ensures
        r == entry(session::message_view(*m)).len(),
        r <= 0x1_0000_0000_0000_0040,
{
    proof {
        reveal_strlit("[User]");
        reveal_strlit("[Assistant]");
        reveal_strlit("[Tool result]");
        reveal_strlit(": ");
        reveal_strlit("\n\n");
    }
    let tag_len: usize = text::char_count(tag(m.0));
    let text_len: usize = text::char_count(m.1.as_str());
    tag_len as u128 + 2 + text_len as u128 + 2
}

/// Where the history begins.
fn start_of_window(messages: &Vec<(Role, String)>) -> (r: usize)
    requires
        messages@.len() > 0,
    ensures
        r == window_start(session::messages_view(messages@)),
        r < messages@.len(),
{
    let ghost all = session::messages_view(messages@);
    let n: usize = messages.len();
    let lowest: usize = if n > MAX_MESSAGES {
        n - MAX_MESSAGES
    } else {
        0
    };
    let mut start: usize = n - 1;
    let mut size: u128 = entry_len(&messages[n - 1]);
    proof {
        assert(history_text(all, n as int) =~= Seq::<char>::empty());
        assert(history_text(all, n - 1) =~= entry(all[n - 1]));
    }
    while start > lowest
        invariant
            n == messages@.len(),
            all == session::messages_view(messages@),
            n - lowest <= 12,
            lowest <= start < n,
            size == history_text(all, start as int).len(),
            start < n - 1 ==> size <= MAX_PROMPT_CHARS,
            size <= (n - start) * 0x1_0000_0000_0000_0040,
        ensures
            lowest <= start < n,
            start < n - 1 ==> history_text(all, start as int).len() <= MAX_PROMPT_CHARS,
            start > lowest ==> history_text(all, start - 1).len() > MAX_PROMPT_CHARS,
        decreases start,
    {
        let larger: u128 = size + entry_len(&messages[start - 1]);
        proof {
            assert(all[start - 1] == session::message_view(messages@[start - 1]));
        }
        if larger > MAX_PROMPT_CHARS as u128 {
            break;
        }
        size = larger;
        start -= 1;
    }
    proof {
        lemma_first_fitting(all, lowest as int);
        let s = first_fitting(all, lowest as int);
        if s < start {
            lemma_history_shorter(all, s, start - 1);
        }
        if start < s {
            lemma_history_shorter(all, start as int, s);
        }
    }
    start
}

fn format_history(messages: &Vec<(Role, String)>, start: usize) -> (r: String)
    requires
        start <= messages@.len(),
    ensures
        r@ == history_text(session::messages_view(messages@), start as int),
{
    let ghost all = session::messages_view(messages@);
    let mut out: String = String::new();
    let mut i: usize = start;
    while i < messages.len()
        invariant
            start <= i <= messages@.len(),
            all == session::messages_view(messages@),
            history_text(all, start as int) =~= out@ + history_text(all, i as int),
        decreases messages@.len() - i,
    {
        let ghost before = out@;
        out.append(tag(messages[i].0));
        out.append(": ");
        out.append(messages[i].1.as_str());
        out.append("\n\n");
        proof {
            assert(all[i as int] == session::message_view(messages@[i as int]));
            assert(out@ =~= before + entry(all[i as int]));
            assert(before + (entry(all[i as int]) + history_text(all, i + 1)) =~= out@
                + history_text(all, i + 1));
        }
        i += 1;
    }
    out
}

/// The prompt for a session: the system text, the tools where they are enabled
/// and there are any, and the end of the history.
pub fn build_prompt(
    messages: &Vec<(Role, String)>,
    system: &str,
    tools_enabled: bool,
    tools_section: Option<&str>,
) -> (r: String)
    ensures
        r@ == prompt_text(
            preamble(system@, tools_enabled, text::option_str_view(tools_section)),
            session::messages_view(messages@),
        ),
{
    let mut out: String = system.to_owned();
    match tools_section {
        Some(section) => {
            if tools_enabled {
                out.append(section);
                out.append("\n\n");
            }
        },
        None => {},
    }
    if messages.len() == 0 {
        return out;
    }
    let start = start_of_window(messages);
    let history = format_history(messages, start);
    out.append(history.as_str());
    out
}

// ---------------------------------------------------------------------------
// What the model reads
// ---------------------------------------------------------------------------


/// A message stands in the prompt behind the name of who wrote it, whole, and
/// before an empty line.
pub proof fn law_message_stands_behind_its_author(t: Seq<char>)
    ensures
        entry(MessageView { role: Role::User, text: t }) == "[User]: "@ + t + "\n\n"@,
        entry(MessageView { role: Role::Assistant, text: t }) == "[Assistant]: "@ + t + "\n\n"@,
        entry(MessageView { role: Role::Tool, text: t }) == "[Tool result]: "@ + t + "\n\n"@,
{
    reveal_strlit("[User]");
    reveal_strlit("[Assistant]");
    reveal_strlit("[Tool result]");
    reveal_strlit("[User]: ");
    reveal_strlit("[Assistant]: ");
    reveal_strlit("[Tool result]: ");
    reveal_strlit(": ");
    assert("[User]"@ + ": "@ =~= "[User]: "@);
    assert("[Assistant]"@ + ": "@ =~= "[Assistant]: "@);
    assert("[Tool result]"@ + ": "@ =~= "[Tool result]: "@);
}

proof fn lemma_history_is_the_entries(messages: Seq<MessageView>, start: int)
    requires
        0 <= start <= messages.len(),
    ensures
        history_text(messages, start) == text::concatenated(
            Seq::new((messages.len() - start) as nat, |i: int| entry(messages[start + i])),
        ),
    decreases messages.len() - start,
{
    let all = Seq::new((messages.len() - start) as nat, |i: int| entry(messages[start + i]));
    if start < messages.len() {
        lemma_history_is_the_entries(messages, start + 1);
        let rest = Seq::new(
            (messages.len() - start - 1) as nat,
            |i: int| entry(messages[start + 1 + i]),
        );
        assert(all =~= seq![all[0]] + rest);
        text::law_concatenated_in_order(seq![all[0]], rest, all[0]);
    } else {
        assert(all =~= Seq::<Seq<char>>::empty());
    }
}

/// The prompt is the preamble and then the messages of the window, all of them
/// and in order. A history of at most twelve messages that fits is told whole.
pub proof fn law_prompt_is_the_history(preamble: Seq<char>, messages: Seq<MessageView>)
    requires
        messages.len() > 0,
    ensures
        ({
            let s = window_start(messages);
            prompt_text(preamble, messages) == preamble + text::concatenated(
                Seq::new((messages.len() - s) as nat, |i: int| entry(messages[s + i])),
            )
        }),
        messages.len() <= 12 && text::concatenated(
            Seq::new(messages.len(), |i: int| entry(messages[i])),
        ).len() <= 32_000 ==> prompt_text(preamble, messages) == preamble + text::concatenated(
            Seq::new(messages.len(), |i: int| entry(messages[i])),
        ),
        prompt_text(preamble, Seq::empty()) == preamble,
{
    law_window(messages, 0);
    let s = window_start(messages);
    lemma_history_is_the_entries(messages, s);
    lemma_history_is_the_entries(messages, 0);
    let all = Seq::new(messages.len(), |i: int| entry(messages[i]));
    assert(all =~= Seq::new((messages.len() - 0) as nat, |i: int| entry(messages[0 + i])));
}

/// The system text comes first, and the tools after it where they are enabled
/// and there are any.
pub proof fn law_preamble(system: Seq<char>, section: Seq<char>)
    ensures
        preamble(system, true, Some(section)) == system + section + "\n\n"@,
        preamble(system, false, Some(section)) == system,
        preamble(system, true, None) == system,
        preamble(system, false, None) == system,
{
}

} // verus!
