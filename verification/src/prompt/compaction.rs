//! Making room in a history that has grown too long.
//!
//! The history is cut into turns, each beginning with a message of the user.
//! The last [`PRESERVE_TURNS`] are always kept; of the others the largest go
//! first, until what is left is small enough.

use crate::session;
use crate::session::{MessageView, Role};
use crate::text;
use vstd::prelude::*;
use vstd::string::*;

verus! {

/// The characters that a model of the service can hold in view.
pub const CONTEXT_WINDOW_CHARS: usize = 1_000_000;

/// Above this size, nine tenths of the view, the history is compacted.
pub const COMPACTION_THRESHOLD_CHARS: usize = 900_000;

/// The size to which it is then brought down, seven tenths of the view.
pub const EMERGENCY_COMPACTION_CHARS: usize = 700_000;

/// The turns at the end that are always kept.
pub const PRESERVE_TURNS: usize = 10;

// ---------------------------------------------------------------------------
// Models
// ---------------------------------------------------------------------------

/// The turns of a history: each message of the user begins one.
pub open spec fn turns_of(messages: Seq<MessageView>) -> Seq<Seq<MessageView>>
    decreases messages.len(),
{
    if messages.len() == 0 {
        Seq::empty()
    } else {
        let before = turns_of(messages.drop_last());
        let m = messages.last();
        if m.role == Role::User || before.len() == 0 {
            before.push(seq![m])
        } else {
            before.update(before.len() - 1, before.last().push(m))
        }
    }
}

/// The bytes of the messages.
pub open spec fn size_of(messages: Seq<MessageView>) -> nat
    decreases messages.len(),
{
    if messages.len() == 0 {
        0
    } else {
        size_of(messages.drop_last()) + text::utf8_len(messages.last().text)
    }
}

/// The bytes of those of the first `n` turns that go before turn `i`: the
/// larger ones, and of the equally large ones those that stand earlier.
pub open spec fn size_before(turns: Seq<Seq<MessageView>>, i: int, n: int) -> nat
    decreases n,
{
    if n <= 0 {
        0
    } else {
        size_before(turns, i, n - 1) + if goes_before(turns, n - 1, i) {
            size_of(turns[n - 1])
        } else {
            0
        }
    }
}

/// Turn `j` goes before turn `i`.
pub open spec fn goes_before(turns: Seq<Seq<MessageView>>, j: int, i: int) -> bool {
    size_of(turns[j]) > size_of(turns[i]) || (size_of(turns[j]) == size_of(turns[i]) && j < i)
}

/// Turn `i` goes: it is not among the last ones, and with all that go before
/// it gone the history is still too large.
pub open spec fn evicted(turns: Seq<Seq<MessageView>>, total: nat, target: nat, i: int) -> bool {
    let end = turns.len() - PRESERVE_TURNS;
    i < end && total > target + size_before(turns, i, end)
}

/// The first `n` turns without those that go.
pub open spec fn kept_turns(
    turns: Seq<Seq<MessageView>>,
    total: nat,
    target: nat,
    n: int,
) -> Seq<MessageView>
    decreases n,
{
    if n <= 0 {
        Seq::empty()
    } else {
        let before = kept_turns(turns, total, target, n - 1);
        if evicted(turns, total, target, n - 1) {
            before
        } else {
            before + turns[n - 1]
        }
    }
}

/// The history after it was brought down to `target`, as far as that goes.
pub open spec fn compacted(messages: Seq<MessageView>, target: nat) -> Seq<MessageView> {
    let turns = turns_of(messages);
    let total = size_of(messages);
    if messages.len() <= 1 || turns.len() <= PRESERVE_TURNS || total <= target {
        messages
    } else {
        kept_turns(turns, total, target, turns.len() as int)
    }
}

// ---------------------------------------------------------------------------
// Facts and laws
// ---------------------------------------------------------------------------

/// The turns, put together.
pub open spec fn flattened(turns: Seq<Seq<MessageView>>) -> Seq<MessageView>
    decreases turns.len(),
{
    if turns.len() == 0 {
        Seq::empty()
    } else {
        flattened(turns.drop_last()) + turns.last()
    }
}

proof fn lemma_size_add(a: Seq<MessageView>, b: Seq<MessageView>)
    ensures
        size_of(a + b) == size_of(a) + size_of(b),
    decreases b.len(),
{
    if b.len() == 0 {
        assert(a + b =~= a);
    } else {
        lemma_size_add(a, b.drop_last());
        assert((a + b).drop_last() =~= a + b.drop_last());
        assert((a + b).last() == b.last());
    }
}

/// The turns of a history, put together, are the history.
pub proof fn law_turns_are_the_history(messages: Seq<MessageView>)
    ensures
        flattened(turns_of(messages)) == messages,
    decreases messages.len(),
{
    if messages.len() > 0 {
        let front = messages.drop_last();
        let before = turns_of(front);
        let m = messages.last();
        law_turns_are_the_history(front);
        if m.role == Role::User || before.len() == 0 {
            assert(before.push(seq![m]).drop_last() =~= before);
            assert(front + seq![m] =~= messages);
        } else {
            let grown = before.update(before.len() - 1, before.last().push(m));
            assert(grown.drop_last() =~= before.drop_last());
            assert(flattened(before) == flattened(before.drop_last()) + before.last());
            assert(flattened(grown) == flattened(before.drop_last()) + before.last().push(m));
            assert(flattened(grown) =~= front.push(m));
            assert(front.push(m) =~= messages);
        }
    } else {
        assert(flattened(turns_of(messages)) =~= messages);
    }
}

/// What stands after the first turns stays.
proof fn lemma_tail_kept(
    turns: Seq<Seq<MessageView>>,
    total: nat,
    target: nat,
    n: int,
)
    requires
        turns.len() - PRESERVE_TURNS <= n <= turns.len(),
        n >= 0,
    ensures
        ({
            let from = if turns.len() > PRESERVE_TURNS {
                turns.len() - PRESERVE_TURNS
            } else {
                0
            };
            kept_turns(turns, total, target, n) == kept_turns(turns, total, target, from)
                + flattened(turns.subrange(from, n))
        }),
    decreases n,
{
    let from = if turns.len() > PRESERVE_TURNS {
        turns.len() - PRESERVE_TURNS
    } else {
        0
    };
    if n == from {
        assert(turns.subrange(from, n) =~= Seq::<Seq<MessageView>>::empty());
        assert(kept_turns(turns, total, target, n) =~= kept_turns(turns, total, target, from)
            + flattened(turns.subrange(from, n)));
    } else {
        lemma_tail_kept(turns, total, target, n - 1);
        assert(turns.subrange(from, n).drop_last() =~= turns.subrange(from, n - 1));
        assert(kept_turns(turns, total, target, n) =~= kept_turns(turns, total, target, from)
            + flattened(turns.subrange(from, n)));
    }
}

/// The last ten turns are never touched: the history ends after a compaction
/// in the same turns as before.
pub proof fn law_last_turns_stay(messages: Seq<MessageView>, target: nat)
    ensures
        ({
            let turns = turns_of(messages);
            let from = if turns.len() > PRESERVE_TURNS {
                turns.len() - PRESERVE_TURNS
            } else {
                0
            };
            let last = flattened(turns.skip(from));
            let after = compacted(messages, target);
            last.len() <= after.len() && after.skip(after.len() - last.len()) == last
        }),
{
    let turns = turns_of(messages);
    let from = if turns.len() > PRESERVE_TURNS {
        turns.len() - PRESERVE_TURNS
    } else {
        0
    };
    let last = flattened(turns.skip(from));
    let after = compacted(messages, target);
    assert(turns.skip(from) =~= turns.subrange(from, turns.len() as int));
    if messages.len() <= 1 || turns.len() <= PRESERVE_TURNS || size_of(messages) <= target {
        law_turns_are_the_history(messages);
        lemma_flattened_split(turns, from);
        assert(after.skip(after.len() - last.len()) =~= last);
    } else {
        lemma_tail_kept(turns, size_of(messages), target, turns.len() as int);
        assert(after.skip(after.len() - last.len()) =~= last);
    }
}

proof fn lemma_flattened_split(turns: Seq<Seq<MessageView>>, n: int)
    requires
        0 <= n <= turns.len(),
    ensures
        flattened(turns) == flattened(turns.take(n)) + flattened(turns.skip(n)),
    decreases turns.len(),
{
    if n == turns.len() {
        assert(turns.take(n) =~= turns);
        assert(turns.skip(n) =~= Seq::<Seq<MessageView>>::empty());
        assert(flattened(turns) =~= flattened(turns.take(n)) + flattened(turns.skip(n)));
    } else {
        let front = turns.drop_last();
        lemma_flattened_split(front, n);
        assert(front.take(n) =~= turns.take(n));
        assert(turns.skip(n).drop_last() =~= front.skip(n));
        assert(flattened(turns) =~= flattened(turns.take(n)) + flattened(turns.skip(n)));
    }
}

/// The bytes of the first `n` turns that go.
spec fn evicted_size(turns: Seq<Seq<MessageView>>, total: nat, target: nat, n: int) -> nat
    decreases n,
{
    if n <= 0 {
        0
    } else {
        evicted_size(turns, total, target, n - 1) + if evicted(turns, total, target, n - 1) {
            size_of(turns[n - 1])
        } else {
            0
        }
    }
}

proof fn lemma_kept_size(turns: Seq<Seq<MessageView>>, total: nat, target: nat, n: int)
    requires
        0 <= n <= turns.len(),
    ensures
        size_of(kept_turns(turns, total, target, n)) + evicted_size(turns, total, target, n)
            == size_of(flattened(turns.take(n))),
    decreases n,
{
    if n > 0 {
        lemma_kept_size(turns, total, target, n - 1);
        assert(turns.take(n).drop_last() =~= turns.take(n - 1));
        lemma_size_add(flattened(turns.take(n - 1)), turns[n - 1]);
        lemma_size_add(kept_turns(turns, total, target, n - 1), turns[n - 1]);
    } else {
        assert(turns.take(n) =~= Seq::<Seq<MessageView>>::empty());
    }
}

/// Among the first `n` turns that stay there is one that goes last of them.
proof fn lemma_first_that_stays(
    turns: Seq<Seq<MessageView>>,
    total: nat,
    target: nat,
    n: int,
    some: int,
) -> (i: int)
    requires
        0 <= some < n,
        !evicted(turns, total, target, some),
    ensures
        0 <= i < n,
        !evicted(turns, total, target, i),
        forall|j: int|
            0 <= j < n && #[trigger] goes_before(turns, j, i) ==> evicted(turns, total, target, j),
    decreases n,
{
    if n == 1 {
        0
    } else if some == n - 1 && (forall|j: int|
        0 <= j < n - 1 ==> #[trigger] evicted(turns, total, target, j)) {
        n - 1
    } else {
        let other = if some < n - 1 {
            some
        } else {
            choose|j: int| 0 <= j < n - 1 && !#[trigger] evicted(turns, total, target, j)
        };
        let i = lemma_first_that_stays(turns, total, target, n - 1, other);
        if !evicted(turns, total, target, n - 1) && goes_before(turns, n - 1, i) {
            assert forall|j: int| 0 <= j < n && #[trigger] goes_before(turns, j, n - 1) implies
                evicted(turns, total, target, j) by {
                assert(goes_before(turns, j, i));
            }
            n - 1
        } else {
            i
        }
    }
}

/// Where all the turns that go before `i` are gone, at least their bytes are.
proof fn lemma_evicted_size(
    turns: Seq<Seq<MessageView>>,
    total: nat,
    target: nat,
    n: int,
    i: int,
)
    requires
        0 <= n,
        forall|j: int|
            0 <= j < n && #[trigger] goes_before(turns, j, i) ==> evicted(turns, total, target, j),
    ensures
        evicted_size(turns, total, target, n) >= size_before(turns, i, n),
    decreases n,
{
    if n > 0 {
        lemma_evicted_size(turns, total, target, n - 1, i);
        if goes_before(turns, n - 1, i) {
            assert(evicted(turns, total, target, n - 1));
        }
    }
}

proof fn lemma_evicted_size_end(turns: Seq<Seq<MessageView>>, total: nat, target: nat, n: int)
    requires
        turns.len() - PRESERVE_TURNS <= n <= turns.len(),
        turns.len() > PRESERVE_TURNS,
    ensures
        evicted_size(turns, total, target, n) == evicted_size(
            turns,
            total,
            target,
            turns.len() - PRESERVE_TURNS,
        ),
    decreases n,
{
    if n > turns.len() - PRESERVE_TURNS {
        lemma_evicted_size_end(turns, total, target, n - 1);
    }
}

/// A compaction reaches its target, or nothing but the last ten turns is left.
pub proof fn law_compaction_reaches_target(messages: Seq<MessageView>, target: nat)
    requires
        messages.len() > 1,
    ensures
        ({
            let turns = turns_of(messages);
            let end = turns.len() - PRESERVE_TURNS;
            let after = compacted(messages, target);
            ||| size_of(after) <= target
            ||| turns.len() <= PRESERVE_TURNS
            ||| after == flattened(turns.skip(end))
        }),
{
    let turns = turns_of(messages);
    let total = size_of(messages);
    let end = turns.len() - PRESERVE_TURNS;
    let after = compacted(messages, target);
    if turns.len() > PRESERVE_TURNS && total > target {
        law_turns_are_the_history(messages);
        lemma_kept_size(turns, total, target, turns.len() as int);
        assert(turns.take(turns.len() as int) =~= turns);
        lemma_evicted_size_end(turns, total, target, turns.len() as int);
        if exists|j: int| 0 <= j < end && !#[trigger] evicted(turns, total, target, j) {
            let some = choose|j: int| 0 <= j < end && !#[trigger] evicted(turns, total, target, j);
            let i = lemma_first_that_stays(turns, total, target, end, some);
            lemma_evicted_size(turns, total, target, end, i);
        } else {
            lemma_all_gone(turns, total, target, end);
            lemma_tail_kept(turns, total, target, turns.len() as int);
            assert(turns.subrange(end, turns.len() as int) =~= turns.skip(end));
            assert(after =~= flattened(turns.skip(end)));
        }
    }
}

proof fn lemma_all_gone(turns: Seq<Seq<MessageView>>, total: nat, target: nat, n: int)
    requires
        0 <= n,
        forall|j: int| 0 <= j < n ==> #[trigger] evicted(turns, total, target, j),
    ensures
        kept_turns(turns, total, target, n).len() == 0,
    decreases n,
{
    if n > 0 {
        lemma_all_gone(turns, total, target, n - 1);
        assert(evicted(turns, total, target, n - 1));
    }
}

/// A compaction adds nothing: the history is no larger than before.
pub proof fn law_compaction_does_not_grow(messages: Seq<MessageView>, target: nat)
    ensures
        size_of(compacted(messages, target)) <= size_of(messages),
{
    let turns = turns_of(messages);
    law_turns_are_the_history(messages);
    lemma_kept_size(turns, size_of(messages), target, turns.len() as int);
    assert(turns.take(turns.len() as int) =~= turns);
}

/// The turns that are not marked as gone, put together.
pub open spec fn remaining(turns: Seq<Seq<MessageView>>, gone: Seq<bool>) -> Seq<MessageView>
    decreases turns.len(),
{
    if turns.len() == 0 || gone.len() != turns.len() {
        Seq::empty()
    } else if gone.last() {
        remaining(turns.drop_last(), gone.drop_last())
    } else {
        remaining(turns.drop_last(), gone.drop_last()) + turns.last()
    }
}

proof fn lemma_kept_are_remaining(turns: Seq<Seq<MessageView>>, total: nat, target: nat, n: int)
    requires
        0 <= n <= turns.len(),
    ensures
        kept_turns(turns, total, target, n) == remaining(
            turns.take(n),
            Seq::new(n as nat, |i: int| evicted(turns, total, target, i)),
        ),
    decreases n,
{
    let gone = Seq::new(n as nat, |i: int| evicted(turns, total, target, i));
    if n > 0 {
        lemma_kept_are_remaining(turns, total, target, n - 1);
        assert(turns.take(n).drop_last() =~= turns.take(n - 1));
        assert(gone.drop_last() =~= Seq::new(
            (n - 1) as nat,
            |i: int| evicted(turns, total, target, i),
        ));
        assert(turns.take(n).last() == turns[n - 1]);
    }
}

proof fn lemma_none_gone(turns: Seq<Seq<MessageView>>, gone: Seq<bool>)
    requires
        gone.len() == turns.len(),
        forall|i: int| 0 <= i < gone.len() ==> !#[trigger] gone[i],
    ensures
        remaining(turns, gone) == flattened(turns),
    decreases turns.len(),
{
    if turns.len() > 0 {
        lemma_none_gone(turns.drop_last(), gone.drop_last());
        assert(!gone[gone.len() - 1]);
    }
}

/// What goes before an earlier one goes before a later one too.
proof fn lemma_size_before_mono(turns: Seq<Seq<MessageView>>, j: int, i: int, n: int)
    requires
        goes_before(turns, j, i),
    ensures
        size_before(turns, j, n) <= size_before(turns, i, n),
    decreases n,
{
    if n > 0 {
        lemma_size_before_mono(turns, j, i, n - 1);
    }
}

/// Where no turn that is gone comes after `i`, and `i` is gone, the bytes gone
/// are those that go before `i`, and those of `i`.
proof fn lemma_gone_up_to(
    turns: Seq<Seq<MessageView>>,
    total: nat,
    target: nat,
    n: int,
    i: int,
)
    requires
        0 <= n,
        0 <= i,
        evicted(turns, total, target, i),
        forall|k: int|
            0 <= k < n && k != i && #[trigger] evicted(turns, total, target, k) ==> goes_before(
                turns,
                k,
                i,
            ),
    ensures
        evicted_size(turns, total, target, n) <= size_before(turns, i, n) + if i < n {
            size_of(turns[i])
        } else {
            0
        },
    decreases n,
{
    if n > 0 {
        lemma_gone_up_to(turns, total, target, n - 1, i);
    }
}

/// Among the first `n` turns that go there is one that goes last.
proof fn lemma_last_that_goes(
    turns: Seq<Seq<MessageView>>,
    total: nat,
    target: nat,
    n: int,
    some: int,
) -> (i: int)
    requires
        0 <= some < n,
        evicted(turns, total, target, some),
    ensures
        0 <= i < n,
        evicted(turns, total, target, i),
        forall|k: int|
            0 <= k < n && k != i && #[trigger] evicted(turns, total, target, k) ==> goes_before(
                turns,
                k,
                i,
            ),
    decreases n,
{
    if n == 1 {
        0
    } else if some == n - 1 && (forall|j: int|
        0 <= j < n - 1 ==> !#[trigger] evicted(turns, total, target, j)) {
        n - 1
    } else {
        let other = if some < n - 1 {
            some
        } else {
            choose|j: int| 0 <= j < n - 1 && #[trigger] evicted(turns, total, target, j)
        };
        let i = lemma_last_that_goes(turns, total, target, n - 1, other);
        if evicted(turns, total, target, n - 1) && goes_before(turns, i, n - 1) {
            n - 1
        } else {
            i
        }
    }
}

/// Largest first, and no more than needed. Of the turns before the last ten some
/// are gone; the others are left as they were, in their order. A turn that is
/// gone is at least as large as every old one that stayed, and where both are
/// equally large it is the older one. With the smallest of those that are gone
/// put back, the history would still be above the target; and where an old turn
/// stayed, the history is not above it.
pub proof fn law_largest_turns_go_first(messages: Seq<MessageView>, target: nat) -> (gone: Seq<
    bool,
>)
    ensures
        gone.len() == turns_of(messages).len(),
        compacted(messages, target) == remaining(turns_of(messages), gone),
        forall|i: int| 0 <= i < gone.len() && #[trigger] gone[i] ==> i < gone.len() - 10,
        forall|i: int, j: int|
            0 <= i < gone.len() && 0 <= j < gone.len() - 10 && #[trigger] gone[i]
                && !#[trigger] gone[j] ==> size_of(turns_of(messages)[i]) >= size_of(
                turns_of(messages)[j],
            ) && (size_of(turns_of(messages)[i]) == size_of(turns_of(messages)[j]) ==> i < j),
        forall|i: int|
            0 <= i < gone.len() && #[trigger] gone[i] && (forall|k: int|
                0 <= k < gone.len() && #[trigger] gone[k] ==> size_of(turns_of(messages)[k])
                    >= size_of(turns_of(messages)[i])) ==> size_of(compacted(messages, target))
                + size_of(turns_of(messages)[i]) > target,
        forall|j: int|
            0 <= j < gone.len() - 10 && !#[trigger] gone[j] ==> size_of(
                compacted(messages, target),
            ) <= target,
        size_of(messages) <= target ==> compacted(messages, target) == messages,
{
    let turns = turns_of(messages);
    let total = size_of(messages);
    let end = turns.len() - PRESERVE_TURNS;
    law_turns_are_the_history(messages);
    if messages.len() <= 1 || turns.len() <= PRESERVE_TURNS || total <= target {
        let gone = Seq::new(turns.len(), |i: int| false);
        lemma_none_gone(turns, gone);
        lemma_turn_count(messages);
        return gone;
    }
    let gone = Seq::new(turns.len(), |i: int| evicted(turns, total, target, i));
    let after = compacted(messages, target);
    lemma_kept_are_remaining(turns, total, target, turns.len() as int);
    assert(turns.take(turns.len() as int) =~= turns);
    lemma_kept_size(turns, total, target, turns.len() as int);
    lemma_evicted_size_end(turns, total, target, turns.len() as int);
    assert forall|i: int, j: int|
        0 <= i < gone.len() && 0 <= j < gone.len() - 10 && #[trigger] gone[i]
            && !#[trigger] gone[j] implies size_of(turns[i]) >= size_of(turns[j]) && (size_of(
        turns[i],
    ) == size_of(turns[j]) ==> i < j) by {
        if goes_before(turns, j, i) {
            lemma_size_before_mono(turns, j, i, end);
        }
        assert(i != j);
    }
    assert forall|i: int|
        0 <= i < gone.len() && #[trigger] gone[i] && (forall|k: int|
            0 <= k < gone.len() && #[trigger] gone[k] ==> size_of(turns[k]) >= size_of(
                turns[i],
            )) implies size_of(after) + size_of(turns[i]) > target by {
        let last = lemma_last_that_goes(turns, total, target, end, i);
        lemma_gone_up_to(turns, total, target, end, last);
        assert(gone[last]);
        assert(size_of(turns[i]) <= size_of(turns[last]));
        if i != last {
            assert(goes_before(turns, i, last));
        }
    }
    assert forall|j: int| 0 <= j < gone.len() - 10 && !#[trigger] gone[j] implies size_of(after)
        <= target by {
        let first = lemma_first_that_stays(turns, total, target, end, j);
        lemma_evicted_size(turns, total, target, end, first);
    }
    gone
}

/// What was said last is still said last.
pub proof fn law_last_message_stays(messages: Seq<MessageView>, target: nat)
    requires
        messages.len() > 0,
    ensures
        compacted(messages, target).len() > 0,
        compacted(messages, target).last() == messages.last(),
{
    let turns = turns_of(messages);
    let from = if turns.len() > PRESERVE_TURNS {
        turns.len() - PRESERVE_TURNS
    } else {
        0
    };
    law_turns_are_the_history(messages);
    law_turns_begin_with_the_user(messages);
    lemma_flattened_split(turns, from);
    law_last_turns_stay(messages, target);
    let tail = turns.skip(from);
    let last = flattened(tail);
    assert(tail.len() > 0);
    assert(tail.last() == turns[turns.len() - 1]);
    assert(turns[turns.len() - 1].len() > 0);
    assert(last == flattened(tail.drop_last()) + tail.last());
    assert(last.len() > 0);
    assert(messages.last() == last.last());
    let after = compacted(messages, target);
    assert(after.skip(after.len() - last.len()).last() == after.last());
}

/// There are no more turns than messages.
proof fn lemma_turn_count(messages: Seq<MessageView>)
    ensures
        turns_of(messages).len() <= messages.len(),
    decreases messages.len(),
{
    if messages.len() > 0 {
        lemma_turn_count(messages.drop_last());
    }
}

/// A turn is what the user says and all that follows up to what they say next:
/// every turn but the first begins with a message of the user, and only its
/// first message is one.
pub proof fn law_turns_begin_with_the_user(messages: Seq<MessageView>)
    ensures
        messages.len() > 0 ==> turns_of(messages).len() > 0,
        forall|k: int| 0 <= k < turns_of(messages).len() ==> #[trigger] turns_of(messages)[k].len()
            > 0,
        forall|k: int|
            1 <= k < turns_of(messages).len() ==> (#[trigger] turns_of(messages)[k])[0].role
                == Role::User,
        forall|k: int, m: int|
            0 <= k < turns_of(messages).len() && 1 <= m < turns_of(messages)[k].len() ==> (
            #[trigger] turns_of(messages)[k][m]).role != Role::User,
    decreases messages.len(),
{
    if messages.len() > 0 {
        let before = turns_of(messages.drop_last());
        law_turns_begin_with_the_user(messages.drop_last());
        let turns = turns_of(messages);
        assert forall|k: int| 0 <= k < turns.len() implies #[trigger] turns[k].len() > 0 by {
            if k < before.len() {
                assert(before[k].len() > 0);
            }
        }
        assert forall|k: int| 1 <= k < turns.len() implies (#[trigger] turns[k])[0].role
            == Role::User by {
            if k < before.len() {
                assert(before[k].len() > 0);
                assert(before[k][0].role == Role::User);
            }
        }
        assert forall|k: int, m: int| 0 <= k < turns.len() && 1 <= m < turns[k].len() implies (
        #[trigger] turns[k][m]).role != Role::User by {
            if k < before.len() && m < before[k].len() {
                assert(before[k][m].role != Role::User);
            }
        }
    }
}

/// The size of a history is the number of bytes of its texts: that of a message
/// is the length of its UTF-8 form, and that of two parts is the sum.
pub proof fn law_size_is_in_bytes(m: MessageView, a: Seq<MessageView>, b: Seq<MessageView>)
    ensures
        size_of(Seq::empty()) == 0,
        size_of(seq![m]) == vstd::utf8::encode_utf8(m.text).len(),
        size_of(a + b) == size_of(a) + size_of(b),
{
    lemma_size_add(a, b);
    assert(seq![m].drop_last() =~= Seq::<MessageView>::empty());
}

// ---------------------------------------------------------------------------
// Functions
// ---------------------------------------------------------------------------

/// The bytes of the messages.
pub fn history_size(messages: &Vec<(Role, String)>) -> (r: u128)
    ensures
        r == size_of(session::messages_view(messages@)),
{
    range_size(messages, 0, messages.len())
}

fn range_size(messages: &Vec<(Role, String)>, from: usize, to: usize) -> (r: u128)
    requires
        from <= to <= messages@.len(),
    ensures
        r == size_of(session::messages_view(messages@).subrange(from as int, to as int)),
        r <= (to - from) * 0xffff_ffff_ffff_ffff,
        from == 0 && to == messages@.len() ==> r == size_of(session::messages_view(messages@)),
{
    let ghost all = session::messages_view(messages@);
    let mut size: u128 = 0;
    let mut i: usize = from;
    proof {
        assert(all.subrange(from as int, from as int) =~= Seq::<MessageView>::empty());
    }
    while i < to
        invariant
            from <= i <= to <= messages@.len(),
            all == session::messages_view(messages@),
            size == size_of(all.subrange(from as int, i as int)),
            size <= (i - from) * 0xffff_ffff_ffff_ffff,
        decreases to - i,
    {
        proof {
            assert(all.subrange(from as int, i + 1).drop_last() =~= all.subrange(
                from as int,
                i as int,
            ));
        }
        size = size + text::byte_len(messages[i].1.as_str()) as u128;
        i += 1;
    }
    proof {
        assert(all.subrange(0, all.len() as int) =~= all);
    }
    size
}

/// Where the turns begin, and after them where the history ends.
spec fn cuts(bounds: Seq<usize>, messages: Seq<MessageView>, turns: Seq<Seq<MessageView>>) -> bool {
    &&& bounds.len() == turns.len()
    &&& forall|k: int|
        0 <= k < turns.len() ==> #[trigger] bounds[k] <= end_of(bounds, messages, k)
            <= messages.len() && turns[k] == messages.subrange(
            bounds[k] as int,
            end_of(bounds, messages, k),
        )
}

spec fn end_of(bounds: Seq<usize>, messages: Seq<MessageView>, k: int) -> int {
    if k + 1 < bounds.len() {
        bounds[k + 1] as int
    } else {
        messages.len() as int
    }
}

/// The first messages of the turns.
fn turn_starts(messages: &Vec<(Role, String)>) -> (r: Vec<usize>)
    ensures
        cuts(
            r@,
            session::messages_view(messages@),
            turns_of(session::messages_view(messages@)),
        ),
{
    let ghost all = session::messages_view(messages@);
    let mut starts: Vec<usize> = Vec::new();
    let mut i: usize = 0;
    proof {
        assert(all.take(0) =~= Seq::<MessageView>::empty());
    }
    while i < messages.len()
        invariant
            i <= messages@.len(),
            all == session::messages_view(messages@),
            cuts(starts@, all.take(i as int), turns_of(all.take(i as int))),
        decreases messages@.len() - i,
    {
        let ghost before = all.take(i as int);
        let ghost now = all.take(i + 1);
        let ghost old_starts = starts@;
        let ghost old_turns = turns_of(before);
        proof {
            assert(now.drop_last() =~= before);
            assert(now.last() == session::message_view(messages@[i as int]));
        }
        if messages[i].0 == Role::User || starts.len() == 0 {
            starts.push(i);
        }
        proof {
            let turns = turns_of(now);
            let m = now.last();
            assert forall|k: int| 0 <= k < turns.len() implies #[trigger] starts@[k] <= end_of(
                starts@,
                now,
                k,
            ) <= now.len() && turns[k] == now.subrange(
                starts@[k] as int,
                end_of(starts@, now, k),
            ) by {
                if m.role == Role::User || old_turns.len() == 0 {
                    if k < old_turns.len() {
                        assert(old_starts[k] <= end_of(old_starts, before, k));
                        assert(old_turns[k] == before.subrange(
                            old_starts[k] as int,
                            end_of(old_starts, before, k),
                        ));
                        assert(end_of(starts@, now, k) == end_of(old_starts, before, k));
                        assert(turns[k] =~= now.subrange(
                            starts@[k] as int,
                            end_of(starts@, now, k),
                        ));
                    } else {
                        assert(turns[k] =~= now.subrange(
                            starts@[k] as int,
                            end_of(starts@, now, k),
                        ));
                    }
                } else {
                    assert(old_starts[k] <= end_of(old_starts, before, k));
                    assert(old_turns[k] == before.subrange(
                        old_starts[k] as int,
                        end_of(old_starts, before, k),
                    ));
                    assert(turns[k] =~= now.subrange(starts@[k] as int, end_of(starts@, now, k)));
                }
            }
        }
        i += 1;
    }
    proof {
        assert(all.take(all.len() as int) =~= all);
    }
    starts
}

/// The bytes of each turn.
fn turn_sizes(messages: &Vec<(Role, String)>, starts: &Vec<usize>) -> (r: Vec<u128>)
    requires
        cuts(
            starts@,
            session::messages_view(messages@),
            turns_of(session::messages_view(messages@)),
        ),
    ensures
        r@.len() == starts@.len(),
        forall|k: int|
            0 <= k < r@.len() ==> #[trigger] r@[k] == size_of(
                turns_of(session::messages_view(messages@))[k],
            ),
{
    let ghost all = session::messages_view(messages@);
    let ghost turns = turns_of(all);
    let mut sizes: Vec<u128> = Vec::new();
    let mut k: usize = 0;
    while k < starts.len()
        invariant
            k <= starts@.len(),
            all == session::messages_view(messages@),
            turns == turns_of(all),
            cuts(starts@, all, turns),
            sizes@.len() == k,
            forall|j: int| 0 <= j < k ==> #[trigger] sizes@[j] == size_of(turns[j]),
        decreases starts@.len() - k,
    {
        let from: usize = starts[k];
        let to: usize = if k + 1 < starts.len() {
            starts[k + 1]
        } else {
            messages.len()
        };
        proof {
            assert(starts@[k as int] <= end_of(starts@, all, k as int));
        }
        let size: u128 = range_size(messages, from, to);
        sizes.push(size);
        k += 1;
    }
    sizes
}

/// The bytes of the first `n` turns that go before turn `i`.
fn size_ahead(
    sizes: &Vec<u128>,
    i: usize,
    n: usize,
    limit: u128,
    turns: Ghost<Seq<Seq<MessageView>>>,
) -> (r: Option<u128>)
    requires
        sizes@.len() == turns@.len(),
        i < sizes@.len(),
        n <= sizes@.len(),
        forall|k: int| 0 <= k < sizes@.len() ==> #[trigger] sizes@[k] == size_of(turns@[k]),
    ensures
        match r {
            Some(size) => size == size_before(turns@, i as int, n as int) && size <= limit,
            None => size_before(turns@, i as int, n as int) > limit,
        },
{
    let mut sum: u128 = 0;
    let mut j: usize = 0;
    while j < n
        invariant
            j <= n <= sizes@.len(),
            i < sizes@.len(),
            sizes@.len() == turns@.len(),
            forall|k: int| 0 <= k < sizes@.len() ==> #[trigger] sizes@[k] == size_of(turns@[k]),
            sum == size_before(turns@, i as int, j as int),
            sum <= limit,
        decreases n - j,
    {
        if sizes[j] > sizes[i] || (sizes[j] == sizes[i] && j < i) {
            if sizes[j] > limit - sum {
                proof {
                    lemma_size_before_grows(turns@, i as int, j + 1, n as int);
                }
                return None;
            }
            sum = sum + sizes[j];
        }
        j += 1;
    }
    Some(sum)
}

proof fn lemma_size_before_grows(turns: Seq<Seq<MessageView>>, i: int, a: int, b: int)
    requires
        0 <= a <= b,
    ensures
        size_before(turns, i, a) <= size_before(turns, i, b),
    decreases b - a,
{
    if a < b {
        lemma_size_before_grows(turns, i, a, b - 1);
    }
}

/// Brings the history down to `target_chars` bytes, as far as that goes: the
/// largest turns go first, and the last [`PRESERVE_TURNS`] stay.
pub fn compact_messages(messages: &mut Vec<(Role, String)>, target_chars: usize)
    ensures
        session::messages_view(final(messages)@) == compacted(
            session::messages_view(old(messages)@),
            target_chars as nat,
        ),
{
    let ghost all = session::messages_view(messages@);
    if messages.len() <= 1 {
        return;
    }
    let starts = turn_starts(messages);
    if starts.len() <= PRESERVE_TURNS {
        return;
    }
    let total: u128 = history_size(messages);
    if total <= target_chars as u128 {
        return;
    }
    let sizes = turn_sizes(messages, &starts);
    let ghost turns = turns_of(all);
    let end: usize = starts.len() - PRESERVE_TURNS;
    let excess: u128 = total - target_chars as u128;
    let mut kept: Vec<(Role, String)> = Vec::new();
    let mut k: usize = 0;
    proof {
        assert(session::messages_view(kept@) =~= Seq::<MessageView>::empty());
    }
    while k < starts.len()
        invariant
            k <= starts@.len(),
            all == session::messages_view(messages@),
            turns == turns_of(all),
            cuts(starts@, all, turns),
            end == turns.len() - PRESERVE_TURNS,
            end >= 0,
            sizes@.len() == turns.len(),
            forall|j: int| 0 <= j < sizes@.len() ==> #[trigger] sizes@[j] == size_of(turns[j]),
            total == size_of(all),
            excess == total - target_chars,
            excess > 0,
            session::messages_view(kept@) == kept_turns(
                turns,
                total as nat,
                target_chars as nat,
                k as int,
            ),
        decreases starts@.len() - k,
    {
        let gone: bool = k < end && size_ahead(&sizes, k, end, excess - 1, Ghost(turns)).is_some();
        proof {
            assert(gone == evicted(turns, total as nat, target_chars as nat, k as int));
        }
        if !gone {
            let from: usize = starts[k];
            let to: usize = if k + 1 < starts.len() {
                starts[k + 1]
            } else {
                messages.len()
            };
            proof {
                assert(starts@[k as int] <= end_of(starts@, all, k as int));
            }
            let ghost before = session::messages_view(kept@);
            let mut i: usize = from;
            proof {
                assert(before + all.subrange(from as int, from as int) =~= before);
            }
            while i < to
                invariant
                    from <= i <= to <= messages@.len(),
                    all == session::messages_view(messages@),
                    session::messages_view(kept@) =~= before + all.subrange(from as int, i as int),
                decreases to - i,
            {
                let m = (messages[i].0, messages[i].1.clone());
                proof {
                    session::lemma_messages_push(kept@, m);
                    assert(all.subrange(from as int, i + 1) =~= all.subrange(
                        from as int,
                        i as int,
                    ).push(all[i as int]));
                }
                kept.push(m);
                i += 1;
            }
        }
        k += 1;
    }
    *messages = kept;
}

} // verus!
