//! JSON texts, read one level at a time.
//!
//! The parts of a list or of an object are kept as they are written: a key that
//! is written twice is seen twice, and a part that nobody asks for need not be
//! more than well formed.

use crate::json;
use crate::json::{Json, JsonView};
use crate::text;
use vstd::prelude::*;
use vstd::string::*;

verus! {

// ---------------------------------------------------------------------------
// Marks
// ---------------------------------------------------------------------------

/// White space between the parts of a JSON text.
pub open spec fn is_blank(c: char) -> bool {
    c == ' ' || c == '\n' || c == '\t' || c == '\r'
}

/// A text from its first character on that is not blank.
pub open spec fn without_blanks(s: Seq<char>) -> Seq<char>
    decreases s.len(),
{
    if s.len() > 0 && is_blank(s[0]) {
        without_blanks(s.drop_first())
    } else {
        s
    }
}

/// What follows the mark, where a text begins with it.
pub open spec fn after_mark(s: Seq<char>, mark: char) -> Option<Seq<char>> {
    let t = without_blanks(s);
    if t.len() > 0 && t[0] == mark {
        Some(t.drop_first())
    } else {
        None
    }
}

pub proof fn lemma_without_blanks(s: Seq<char>)
    ensures
        without_blanks(s).len() <= s.len(),
    decreases s.len(),
{
    if s.len() > 0 && is_blank(s[0]) {
        lemma_without_blanks(s.drop_first());
    }
}

fn skip_blanks(s: &str) -> (r: &str)
    ensures
        r@ == without_blanks(s@),
{
    let chars = text::chars_of(s);
    let n: usize = chars.len();
    let mut i: usize = 0;
    proof {
        assert(s@.skip(0) =~= s@);
    }
    while i < n && (chars[i] == ' ' || chars[i] == '\n' || chars[i] == '\t' || chars[i] == '\r')
        invariant
            i <= n,
            n == chars@.len(),
            chars@ == s@,
            without_blanks(s@) == without_blanks(s@.skip(i as int)),
        decreases n - i,
    {
        proof {
            assert(s@.skip(i as int).drop_first() =~= s@.skip(i + 1));
        }
        i += 1;
    }
    let r = s.substring_char(i, n);
    proof {
        assert(r@ =~= s@.skip(i as int));
    }
    r
}

fn read_mark(s: &str, mark: char) -> (r: Option<&str>)
    ensures
        match r {
            Some(rest) => after_mark(s@, mark) == Some(rest@),
            None => after_mark(s@, mark) is None,
        },
{
    let t = skip_blanks(s);
    let n: usize = t.unicode_len();
    if n > 0 && t.get_char(0) == mark {
        let rest = t.substring_char(1, n);
        proof {
            assert(rest@ =~= t@.drop_first());
        }
        Some(rest)
    } else {
        None
    }
}

// ---------------------------------------------------------------------------
// Lists and objects
// ---------------------------------------------------------------------------

/// The items of a list from `s` on, after those that were read, and what
/// follows the list.
pub open spec fn items_after(read: Seq<Seq<char>>, s: Seq<char>) -> Option<
    (Seq<Seq<char>>, Seq<char>),
>
    decreases s.len(),
{
    match json::leading_value(s) {
        Some((value, rest)) => if rest.len() < s.len() {
            match after_mark(rest, ',') {
                Some(more) => {
                    proof {
                        lemma_without_blanks(rest);
                    }
                    items_after(read.push(value), more)
                },
                None => match after_mark(rest, ']') {
                    Some(end) => Some((read.push(value), end)),
                    None => None,
                },
            }
        } else {
            None
        },
        None => None,
    }
}

/// The items of the list that a text is, each as it is written.
pub open spec fn items_in(source: Seq<char>) -> Option<Seq<Seq<char>>> {
    match after_mark(source, '[') {
        Some(inner) => {
            let list = match after_mark(inner, ']') {
                Some(end) => Some((Seq::empty(), end)),
                None => items_after(Seq::empty(), inner),
            };
            match list {
                Some((items, end)) => if without_blanks(end).len() == 0 {
                    Some(items)
                } else {
                    None
                },
                None => None,
            }
        },
        None => None,
    }
}

/// A key and the value behind it, as it is written, with what follows them.
pub open spec fn member_at(s: Seq<char>) -> Option<((Seq<char>, Seq<char>), Seq<char>)> {
    match json::leading_value(s) {
        Some((key, rest)) => match (json::json_parsed(key), after_mark(rest, ':')) {
            (Some(JsonView::Text(k)), Some(more)) => match json::leading_value(more) {
                Some((value, tail)) => Some(((k, value), tail)),
                None => None,
            },
            _ => None,
        },
        None => None,
    }
}

/// The members of an object from `s` on, after those that were read, and what
/// follows the object.
pub open spec fn members_after(read: Seq<(Seq<char>, Seq<char>)>, s: Seq<char>) -> Option<
    (Seq<(Seq<char>, Seq<char>)>, Seq<char>),
>
    decreases s.len(),
{
    match member_at(s) {
        Some((member, rest)) => if rest.len() < s.len() {
            match after_mark(rest, ',') {
                Some(more) => {
                    proof {
                        lemma_without_blanks(rest);
                    }
                    members_after(read.push(member), more)
                },
                None => match after_mark(rest, '}') {
                    Some(end) => Some((read.push(member), end)),
                    None => None,
                },
            }
        } else {
            None
        },
        None => None,
    }
}

/// The members of the object that a text is, in order, each value as it is
/// written.
pub open spec fn members_in(source: Seq<char>) -> Option<Seq<(Seq<char>, Seq<char>)>> {
    match after_mark(source, '{') {
        Some(inner) => {
            let object = match after_mark(inner, '}') {
                Some(end) => Some((Seq::empty(), end)),
                None => members_after(Seq::empty(), inner),
            };
            match object {
                Some((members, end)) => if without_blanks(end).len() == 0 {
                    Some(members)
                } else {
                    None
                },
                None => None,
            }
        },
        None => None,
    }
}

pub open spec fn pairs_view(pairs: Seq<(String, String)>) -> Seq<(Seq<char>, Seq<char>)> {
    Seq::new(pairs.len(), |i: int| (pairs[i].0@, pairs[i].1@))
}

fn read_items(inner: &str) -> (r: Option<(Vec<String>, String)>)
    ensures
        match r {
            Some((items, end)) => items_after(Seq::empty(), inner@) == Some(
                (text::texts_of(items@), end@),
            ),
            None => items_after(Seq::empty(), inner@) is None,
        },
{
    let mut items: Vec<String> = Vec::new();
    let mut s: String = inner.to_owned();
    proof {
        assert(text::texts_of(items@) =~= Seq::empty());
    }
    loop
        invariant
            items_after(Seq::empty(), inner@) == items_after(text::texts_of(items@), s@),
        decreases s@.len(),
    {
        match json::first_value(s.as_str()) {
            Some((value, rest)) => {
                proof {
                    text::lemma_texts_push(items@, value);
                    lemma_without_blanks(rest@);
                }
                items.push(value);
                match read_mark(rest.as_str(), ',') {
                    Some(more) => {
                        s = more.to_owned();
                    },
                    None => {
                        return match read_mark(rest.as_str(), ']') {
                            Some(end) => Some((items, end.to_owned())),
                            None => None,
                        };
                    },
                }
            },
            None => {
                return None;
            },
        }
    }
}

/// The items of the list that a text is, each as it is written.
pub fn split_list(source: &str) -> (r: Option<Vec<String>>)
    ensures
        match r {
            Some(items) => items_in(source@) == Some(text::texts_of(items@)),
            None => items_in(source@) is None,
        },
{
    match read_mark(source, '[') {
        Some(inner) => {
            let list: Option<(Vec<String>, String)> = match read_mark(inner, ']') {
                Some(end) => {
                    let none: Vec<String> = Vec::new();
                    proof {
                        assert(text::texts_of(none@) =~= Seq::empty());
                    }
                    Some((none, end.to_owned()))
                },
                None => read_items(inner),
            };
            match list {
                Some((items, end)) => if skip_blanks(end.as_str()).is_empty() {
                    Some(items)
                } else {
                    None
                },
                None => None,
            }
        },
        None => None,
    }
}

fn read_member(s: &str) -> (r: Option<((String, String), String)>)
    ensures
        match r {
            Some(((key, value), rest)) => member_at(s@) == Some(((key@, value@), rest@))
                && rest@.len() < s@.len(),
            None => member_at(s@) is None,
        },
{
    match json::first_value(s) {
        Some((key, rest)) => match Json::parse(key.as_str()) {
            Some(Json::Text(k)) => match read_mark(rest.as_str(), ':') {
                Some(more) => {
                    proof {
                        lemma_without_blanks(rest@);
                    }
                    match json::first_value(more) {
                        Some((value, tail)) => {
                            proof {
                                assert((key@ + rest@).len() == s@.len());
                                assert((value@ + tail@).len() == more@.len());
                            }
                            Some(((k, value), tail))
                        },
                        None => None,
                    }
                },
                None => None,
            },
            _ => None,
        },
        None => None,
    }
}

proof fn lemma_pairs_push(pairs: Seq<(String, String)>, pair: (String, String))
    ensures
        pairs_view(pairs.push(pair)) == pairs_view(pairs).push((pair.0@, pair.1@)),
{
    assert(pairs_view(pairs.push(pair)) =~= pairs_view(pairs).push((pair.0@, pair.1@)));
}

fn read_members(inner: &str) -> (r: Option<(Vec<(String, String)>, String)>)
    ensures
        match r {
            Some((members, end)) => members_after(Seq::empty(), inner@) == Some(
                (pairs_view(members@), end@),
            ),
            None => members_after(Seq::empty(), inner@) is None,
        },
{
    let mut members: Vec<(String, String)> = Vec::new();
    let mut s: String = inner.to_owned();
    proof {
        assert(pairs_view(members@) =~= Seq::empty());
    }
    loop
        invariant
            members_after(Seq::empty(), inner@) == members_after(pairs_view(members@), s@),
        decreases s@.len(),
    {
        match read_member(s.as_str()) {
            Some((member, rest)) => {
                proof {
                    lemma_pairs_push(members@, member);
                    lemma_without_blanks(rest@);
                }
                members.push(member);
                match read_mark(rest.as_str(), ',') {
                    Some(more) => {
                        s = more.to_owned();
                    },
                    None => {
                        return match read_mark(rest.as_str(), '}') {
                            Some(end) => Some((members, end.to_owned())),
                            None => None,
                        };
                    },
                }
            },
            None => {
                return None;
            },
        }
    }
}

/// The members of the object that a text is, in order, each value as it is
/// written.
pub fn split_object(source: &str) -> (r: Option<Vec<(String, String)>>)
    ensures
        match r {
            Some(members) => members_in(source@) == Some(pairs_view(members@)),
            None => members_in(source@) is None,
        },
{
    match read_mark(source, '{') {
        Some(inner) => {
            let object: Option<(Vec<(String, String)>, String)> = match read_mark(inner, '}') {
                Some(end) => {
                    let none: Vec<(String, String)> = Vec::new();
                    proof {
                        assert(pairs_view(none@) =~= Seq::empty());
                    }
                    Some((none, end.to_owned()))
                },
                None => read_members(inner),
            };
            match object {
                Some((members, end)) => if skip_blanks(end.as_str()).is_empty() {
                    Some(members)
                } else {
                    None
                },
                None => None,
            }
        },
        None => None,
    }
}

// ---------------------------------------------------------------------------
// Laws
// ---------------------------------------------------------------------------


/// Blanks between the parts do not count, and a mark is read only where it
/// stands first.
pub proof fn law_marks_are_read(mark: char, rest: Seq<char>, other: char)
    requires
        !is_blank(mark),
    ensures
        after_mark(seq![mark] + rest, mark) == Some(rest),
        after_mark(seq![' ', mark] + rest, mark) == Some(rest),
        other != mark ==> after_mark(seq![mark] + rest, other) is None,
        after_mark(Seq::empty(), mark) is None,
{
    reveal_with_fuel(without_blanks, 2);
    assert((seq![mark] + rest).drop_first() =~= rest);
    assert((seq![' ', mark] + rest).drop_first() =~= seq![mark] + rest);
}

/// A list of two values is those two, as they are written, in order; an empty
/// list has none; what follows the list spoils it.
pub proof fn law_items_of_a_list(a: Seq<char>, b: Seq<char>, tail: char)
    requires
        a.len() > 0,
        b.len() > 0,
        !is_blank(a[0]),
        a[0] != ']',
        json::leading_value(a + seq![','] + b + seq![']']) == Some((a, seq![','] + b + seq![']'])),
        json::leading_value(b + seq![']']) == Some((b, seq![']'])),
        !is_blank(tail),
    ensures
        items_in(seq!['['] + a + seq![','] + b + seq![']']) == Some(seq![a, b]),
        items_in(seq!['[', ']']) == Some(Seq::<Seq<char>>::empty()),
        items_in(seq!['[', ']', tail]) is None,
{
    let inner = a + seq![','] + b + seq![']'];
    let source = seq!['['] + a + seq![','] + b + seq![']'];
    assert(source =~= seq!['['] + inner);
    law_marks_are_read('[', inner, ']');
    assert(inner[0] == a[0]);
    assert(after_mark(inner, ']') is None);
    law_marks_are_read(',', b + seq![']'], ']');
    assert(seq![','] + b + seq![']'] =~= seq![','] + (b + seq![']']));
    law_marks_are_read(']', Seq::empty(), ',');
    assert(seq![']'] + Seq::<char>::empty() =~= seq![']']);
    reveal_with_fuel(items_after, 3);
    assert(Seq::<Seq<char>>::empty().push(a).push(b) =~= seq![a, b]);
    assert(seq!['['] + seq![']'] =~= seq!['[', ']']);
    law_marks_are_read('[', seq![']'], ']');
    assert(seq!['['] + seq![']', tail] =~= seq!['[', ']', tail]);
    law_marks_are_read('[', seq![']', tail], ']');
    assert(seq![']'] + seq![tail] =~= seq![']', tail]);
    law_marks_are_read(']', seq![tail], ',');
}

/// An object of one member is its key, as it reads, and its value, as it is
/// written; an empty object has none.
pub proof fn law_members_of_an_object(
    key: Seq<char>,
    k: Seq<char>,
    value: Seq<char>,
)
    requires
        key.len() > 0,
        !is_blank(key[0]),
        key[0] != '}',
        json::leading_value(key + seq![':'] + value + seq!['}']) == Some(
            (key, seq![':'] + value + seq!['}']),
        ),
        json::json_parsed(key) == Some(JsonView::Text(k)),
        json::leading_value(value + seq!['}']) == Some((value, seq!['}'])),
    ensures
        members_in(seq!['{'] + key + seq![':'] + value + seq!['}']) == Some(seq![(k, value)]),
        members_in(seq!['{', '}']) == Some(Seq::<(Seq<char>, Seq<char>)>::empty()),
{
    let inner = key + seq![':'] + value + seq!['}'];
    let source = seq!['{'] + key + seq![':'] + value + seq!['}'];
    assert(source =~= seq!['{'] + inner);
    law_marks_are_read('{', inner, '}');
    assert(inner[0] == key[0]);
    assert(after_mark(inner, '}') is None);
    law_marks_are_read(':', value + seq!['}'], '}');
    assert(seq![':'] + value + seq!['}'] =~= seq![':'] + (value + seq!['}']));
    law_marks_are_read('}', Seq::empty(), ',');
    assert(seq!['}'] + Seq::<char>::empty() =~= seq!['}']);
    reveal_with_fuel(members_after, 2);
    assert(Seq::<(Seq<char>, Seq<char>)>::empty().push((k, value)) =~= seq![(k, value)]);
    assert(seq!['{'] + seq!['}'] =~= seq!['{', '}']);
    law_marks_are_read('{', seq!['}'], '}');
}

} // verus!
