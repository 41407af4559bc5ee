//! What an earlier conversation hands on to the one that starts from it.

use vstd::prelude::*;

use crate::protocol::optional_text;
use crate::rollout::{
    base_instructions, dynamic_tools, events_of, first_meta, first_value, forked_from, meta_of,
    meta_version, turn_version, version_of, InitialHistory, RolloutItem, SessionMeta,
};

verus! {

/// The items of a conversation are those that it was resumed or forked with, and none else.
pub proof fn conversations_start_with_their_items(history: InitialHistory)
    ensures
        (match history {
            InitialHistory::New => history.items().len() == 0 && !history.has_history(),
            InitialHistory::Cleared => history.items().len() == 0 && !history.has_history(),
            InitialHistory::Resumed(resumed) => history.items() == resumed.history@
                && history.has_history(),
            InitialHistory::Forked(items) => history.items() == items@ && history.has_history(),
        }),
{
}

/// The first session start among items: no item in front of it is one, and there is none only where
/// no item is one.
pub proof fn first_session_start_is_first(items: Seq<RolloutItem>)
    ensures
        (match first_meta(items) {
            Some(meta) => exists|i: int|
                0 <= i < items.len() && (#[trigger] items[i] matches RolloutItem::SessionMeta(line)
                    && line.meta == meta) && forall|j: int|
                    0 <= j < i ==> !(#[trigger] items[j] is SessionMeta),
            None => forall|j: int| 0 <= j < items.len() ==> !(#[trigger] items[j] is SessionMeta),
        }),
    decreases items.len(),
{
    if items.len() > 0 {
        let rest = items.drop_first();
        first_session_start_is_first(rest);
        match meta_of(items[0]) {
            Some(meta) => {
                assert(items[0] is SessionMeta);
            },
            None => {
                assert(!(items[0] is SessionMeta));
                match first_meta(rest) {
                    Some(meta) => {
                        let i = choose|i: int|
                            0 <= i < rest.len() && (#[trigger] rest[i] matches
                                RolloutItem::SessionMeta(line) && line.meta == meta) && forall|
                                j: int,
                            |
                                0 <= j < i ==> !(#[trigger] rest[j] is SessionMeta);
                        assert(items[i + 1] == rest[i]);
                        assert forall|j: int| 0 <= j < i + 1 implies !(
                        #[trigger] items[j] is SessionMeta) by {
                            if j > 0 {
                                assert(rest[j - 1] == items[j]);
                            }
                        }
                    },
                    None => {
                        assert forall|j: int| 0 <= j < items.len() implies !(
                        #[trigger] items[j] is SessionMeta) by {
                            if j > 0 {
                                assert(rest[j - 1] == items[j]);
                            }
                        }
                    },
                }
            },
        }
    }
}

/// The first value that a session start gives: items without one are passed over, and what stands
/// behind the first one that gives it does not matter.
pub proof fn first_value_is_first<T>(
    items: Seq<RolloutItem>,
    item: RolloutItem,
    later: Seq<RolloutItem>,
    value: spec_fn(SessionMeta) -> Option<T>,
)
    requires
        first_value(items, value) is None,
    ensures
        first_value(seq![], value) is None,
        first_value(items + seq![item] + later, value) == (match item {
            RolloutItem::SessionMeta(line) => match value(line.meta) {
                Some(found) => Some(found),
                None => first_value(later, value),
            },
            _ => first_value(later, value),
        }),
    decreases items.len(),
{
    let all = items + seq![item] + later;
    if items.len() == 0 {
        assert(all[0] == item);
        assert(all.drop_first() =~= later);
    } else {
        assert(all[0] == items[0]);
        assert(all.drop_first() =~= items.drop_first() + seq![item] + later);
        first_value_is_first(items.drop_first(), item, later, value);
    }
}

/// What is looked for in a session start is the field of that name.
pub proof fn session_starts_give_their_fields(meta: SessionMeta)
    ensures
        forked_from()(meta) == optional_text(meta.forked_from_id),
        base_instructions()(meta) == optional_text(meta.base_instructions),
        dynamic_tools()(meta) == (match meta.dynamic_tools {
            Some(tools) => Some(tools@),
            None => None,
        }),
{
}

/// The events among items are those of all event items, in order.
pub proof fn events_are_all_events(a: Seq<RolloutItem>, b: Seq<RolloutItem>, item: RolloutItem)
    ensures
        events_of(a + b) == events_of(a) + events_of(b),
        events_of(seq![]) == Seq::<Seq<char>>::empty(),
        events_of(seq![item]) == (match item {
            RolloutItem::EventMsg(event) => seq![event@],
            _ => seq![],
        }),
    decreases b.len(),
{
    let none: Seq<RolloutItem> = seq![];
    assert(seq![item].drop_last() =~= none);
    assert(seq![item].last() == item);
    reveal_with_fuel(events_of, 2);
    if b.len() == 0 {
        assert(a + b =~= a);
        assert(events_of(a + b) =~= events_of(a) + events_of(b));
    } else {
        events_are_all_events(a, b.drop_last(), item);
        assert((a + b).drop_last() =~= a + b.drop_last());
        assert((a + b).last() == b.last());
        assert(events_of(a + b) =~= events_of(a) + events_of(b));
    }
}

/// The version of multi-agent work is that of the last session start of the thread that gives one,
/// where one does, and else that of the last turn that gives one.
pub proof fn last_version_counts(
    items: Seq<RolloutItem>,
    item: RolloutItem,
    thread: Option<Seq<char>>,
)
    ensures
        meta_version(seq![], thread) is None,
        turn_version(seq![]) is None,
        meta_version(items.push(item), thread) == (match item {
            RolloutItem::SessionMeta(line) => if (thread is None || thread == Some(line.meta.id@))
                && line.meta.multi_agent_version is Some {
                optional_text(line.meta.multi_agent_version)
            } else {
                meta_version(items, thread)
            },
            _ => meta_version(items, thread),
        }),
        turn_version(items.push(item)) == (match item {
            RolloutItem::TurnContext(turn) => if turn.multi_agent_version is Some {
                optional_text(turn.multi_agent_version)
            } else {
                turn_version(items)
            },
            _ => turn_version(items),
        }),
        version_of(items, thread) == (if meta_version(items, thread) is Some {
            meta_version(items, thread)
        } else {
            turn_version(items)
        }),
{
    assert(items.push(item).drop_last() =~= items);
    assert(items.push(item).last() == item);
}

} // verus!
