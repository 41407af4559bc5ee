//! What is persisted of a conversation, and what a resumed or forked one takes from it.

use vstd::prelude::*;
use vstd::string::*;

use crate::history::{copy_texts, texts, ResponseItemEnvelope};
use crate::protocol::{
    content_models, copy_optional, optional_text, ContentItem, ContentModel, ResponseItem,
    ResponseItemModel,
};
use crate::text::same_text;

verus! {

/// What a session starts with. Values that are only carried along are held as text.
#[derive(Debug)]
pub struct SessionMeta {
    pub id: String,
    pub forked_from_id: Option<String>,
    pub parent_thread_id: Option<String>,
    pub cwd: String,
    pub originator: String,
    pub source: String,
    pub thread_source: Option<String>,
    pub base_instructions: Option<String>,
    pub dynamic_tools: Option<Vec<String>>,
    pub selected_capability_roots: Vec<String>,
    pub multi_agent_version: Option<String>,
    pub history_mode: String,
}

/// A session's start as it is persisted.
#[derive(Debug)]
pub struct SessionMetaLine {
    pub meta: SessionMeta,
}

/// The settings of a turn.
#[derive(Debug)]
pub struct TurnContextItem {
    pub multi_agent_version: Option<String>,
    pub details: String,
}

/// A conversation up to a point, in short.
#[derive(Debug)]
pub struct CompactedItem {
    pub message: String,
    pub replacement_history: Option<Vec<ResponseItemEnvelope>>,
    pub mcp_resource_origins: Option<String>,
    pub window_number: Option<u64>,
    pub first_window_id: Option<String>,
    pub previous_window_id: Option<String>,
    pub window_id: Option<String>,
}

impl CompactedItem {
    /// The item as a message of the assistant.
    pub fn into_response_item(self) -> (r: ResponseItem)
        ensures
            r@ == (ResponseItemModel::Message {
                id: None,
                role: "assistant"@,
                content: seq![ContentModel::OutputText { text: self.message@ }],
                phase: None,
                internal_chat_message_metadata_passthrough: None,
            }),
    {
        let mut content: Vec<ContentItem> = Vec::new();
        content.push(ContentItem::OutputText { text: self.message });
        proof {
            assert(content_models(content@) =~= seq![ContentModel::OutputText { text: self.message@ }]);
        }
        ResponseItem::Message {
            id: None,
            role: "assistant".to_owned(),
            content,
            phase: None,
            internal_chat_message_metadata_passthrough: None,
        }
    }
}

/// One persisted item of a conversation.
#[derive(Debug)]
pub enum RolloutItem {
    SessionMeta(SessionMetaLine),
    ResponseItem(ResponseItemEnvelope),
    InterAgentCommunication(String),
    InterAgentCommunicationMetadata { trigger_turn: bool },
    Compacted(CompactedItem),
    TurnContext(TurnContextItem),
    WorldState(String),
    SecurityRiskScore(String),
    EventMsg(String),
    /// Sparse facts, invisible to the model, that realtime presentation is rebuilt from.
    RealtimeItem(String),
}

/// One line of a persisted conversation.
#[derive(Debug)]
pub struct RolloutLine {
    pub timestamp: String,
    pub ordinal: Option<u64>,
    pub item: RolloutItem,
}

/// A conversation that is resumed.
#[derive(Debug)]
pub struct ResumedHistory {
    pub conversation_id: String,
    pub history: Vec<RolloutItem>,
    pub rollout_path: Option<String>,
}

/// What a conversation starts from.
#[derive(Debug)]
pub enum InitialHistory {
    New,
    Cleared,
    Resumed(ResumedHistory),
    Forked(Vec<RolloutItem>),
}

/// The session's start that an item holds.
pub open spec fn meta_of(item: RolloutItem) -> Option<SessionMeta> {
    match item {
        RolloutItem::SessionMeta(line) => Some(line.meta),
        _ => None,
    }
}

/// The first session start among items.
pub open spec fn first_meta(items: Seq<RolloutItem>) -> Option<SessionMeta>
    decreases items.len(),
{
    if items.len() == 0 {
        None
    } else {
        match meta_of(items[0]) {
            Some(meta) => Some(meta),
            None => first_meta(items.drop_first()),
        }
    }
}

/// The first value that a session start among items gives.
pub open spec fn first_value<T>(
    items: Seq<RolloutItem>,
    value: spec_fn(SessionMeta) -> Option<T>,
) -> Option<T>
    decreases items.len(),
{
    if items.len() == 0 {
        None
    } else {
        let here = match meta_of(items[0]) {
            Some(meta) => value(meta),
            None => None,
        };
        match here {
            Some(found) => Some(found),
            None => first_value(items.drop_first(), value),
        }
    }
}

/// What a session start says it was forked from.
pub open spec fn forked_from() -> spec_fn(SessionMeta) -> Option<Seq<char>> {
    |meta: SessionMeta| optional_text(meta.forked_from_id)
}

/// The base instructions of a session start.
pub open spec fn base_instructions() -> spec_fn(SessionMeta) -> Option<Seq<char>> {
    |meta: SessionMeta| optional_text(meta.base_instructions)
}

/// The dynamic tools of a session start.
pub open spec fn dynamic_tools() -> spec_fn(SessionMeta) -> Option<Seq<String>> {
    |meta: SessionMeta|
        match meta.dynamic_tools {
            Some(tools) => Some(tools@),
            None => None,
        }
}

/// The events among items.
pub open spec fn events_of(items: Seq<RolloutItem>) -> Seq<Seq<char>>
    decreases items.len(),
{
    if items.len() == 0 {
        seq![]
    } else {
        let before = events_of(items.drop_last());
        match items.last() {
            RolloutItem::EventMsg(event) => before.push(event@),
            _ => before,
        }
    }
}

/// The version that the last session start of a thread among items gives.
pub open spec fn meta_version(items: Seq<RolloutItem>, thread_id: Option<Seq<char>>) -> Option<
    Seq<char>,
>
    decreases items.len(),
{
    if items.len() == 0 {
        None
    } else {
        let here = match meta_of(items.last()) {
            Some(meta) => if thread_id is None || meta.id@ == thread_id->0 {
                optional_text(meta.multi_agent_version)
            } else {
                None
            },
            None => None,
        };
        match here {
            Some(version) => Some(version),
            None => meta_version(items.drop_last(), thread_id),
        }
    }
}

/// The version that the last turn among items gives.
pub open spec fn turn_version(items: Seq<RolloutItem>) -> Option<Seq<char>>
    decreases items.len(),
{
    if items.len() == 0 {
        None
    } else {
        let here = match items.last() {
            RolloutItem::TurnContext(turn) => optional_text(turn.multi_agent_version),
            _ => None,
        };
        match here {
            Some(version) => Some(version),
            None => turn_version(items.drop_last()),
        }
    }
}

/// The version among items: a session start's before a turn's.
pub open spec fn version_of(items: Seq<RolloutItem>, thread_id: Option<Seq<char>>) -> Option<
    Seq<char>,
> {
    match meta_version(items, thread_id) {
        Some(version) => Some(version),
        None => turn_version(items),
    }
}

impl InitialHistory {
    /// The items that the conversation starts with.
    pub open spec fn items(&self) -> Seq<RolloutItem> {
        match self {
            InitialHistory::New | InitialHistory::Cleared => seq![],
            InitialHistory::Resumed(resumed) => resumed.history@,
            InitialHistory::Forked(items) => items@,
        }
    }

    /// Whether the conversation starts from an earlier one.
    pub open spec fn has_history(&self) -> bool {
        self is Resumed || self is Forked
    }

    /// Whether a predicate holds of some item.
    pub fn scan_rollout_items<F: Fn(&RolloutItem) -> bool>(&self, predicate: F) -> (r: bool)
        requires
            forall|i: int|
                0 <= i < self.items().len() ==> call_requires(
                    predicate,
                    (&(#[trigger] self.items()[i]),),
                ),
        ensures
            r ==> exists|i: int|
                0 <= i < self.items().len() && call_ensures(
                    predicate,
                    (&(#[trigger] self.items()[i]),),
                    true,
                ),
            !r ==> forall|i: int|
                0 <= i < self.items().len() ==> call_ensures(
                    predicate,
                    (&(#[trigger] self.items()[i]),),
                    false,
                ),
    {
        let items = self.get_rollout_items();
        let mut i: usize = 0;
        while i < items.len()
            invariant
                i <= items@.len(),
                items@ == self.items(),
                forall|j: int|
                    0 <= j < self.items().len() ==> call_requires(
                        predicate,
                        (&(#[trigger] self.items()[j]),),
                    ),
                forall|j: int|
                    0 <= j < i ==> call_ensures(
                        predicate,
                        (&(#[trigger] self.items()[j]),),
                        false,
                    ),
            decreases items@.len() - i,
        {
            let item = &items[i];
            proof {
                assert(*item == self.items()[i as int]);
            }
            if predicate(item) {
                proof {
                    assert(call_ensures(predicate, (&self.items()[i as int],), true));
                }
                return true;
            }
            i += 1;
        }
        false
    }

    /// The items that the conversation starts with.
    pub fn get_rollout_items(&self) -> (r: &[RolloutItem])
        ensures
            r@ == self.items(),
    {
        match self {
            InitialHistory::New | InitialHistory::Cleared => {
                let none: &[RolloutItem] = &[];
                proof {
                    assert(none@ =~= Seq::<RolloutItem>::empty());
                }
                none
            },
            InitialHistory::Resumed(resumed) => resumed.history.as_slice(),
            InitialHistory::Forked(items) => items.as_slice(),
        }
    }

    fn get_session_meta(&self) -> (r: Option<&SessionMeta>)
        ensures
            (match r {
                Some(meta) => first_meta(self.items()) == Some(*meta),
                None => first_meta(self.items()) is None,
            }),
    {
        let items = self.get_rollout_items();
        let ghost all = items@;
        let mut i: usize = 0;
        proof {
            assert(all.skip(0) =~= all);
        }
        while i < items.len()
            invariant
                i <= items@.len(),
                all == items@,
                all == self.items(),
                first_meta(all) == first_meta(all.skip(i as int)),
            decreases items@.len() - i,
        {
            proof {
                assert(all.skip(i as int)[0] == all[i as int]);
                assert(all.skip(i as int).drop_first() =~= all.skip(i + 1));
            }
            if let RolloutItem::SessionMeta(line) = &items[i] {
                return Some(&line.meta);
            }
            i += 1;
        }
        None
    }

    fn get_resumed_session_meta(&self) -> (r: Option<&SessionMeta>)
        ensures
            (match r {
                Some(meta) => self is Resumed && first_meta(self.items()) == Some(*meta),
                None => !(self is Resumed) || first_meta(self.items()) is None,
            }),
    {
        match self {
            InitialHistory::Resumed(_) => self.get_session_meta(),
            _ => None,
        }
    }

    /// The conversation that this one was forked from: for a resumed one what its session start
    /// says, for a fork the session that its items start with.
    pub fn forked_from_id(&self) -> (r: Option<String>)
        ensures
            optional_text(r) == (match self {
                InitialHistory::New | InitialHistory::Cleared => None,
                InitialHistory::Resumed(_) => first_value(self.items(), forked_from()),
                InitialHistory::Forked(_) => match first_meta(self.items()) {
                    Some(meta) => Some(meta.id@),
                    None => None,
                },
            }),
    {
        match self {
            InitialHistory::New | InitialHistory::Cleared => None,
            InitialHistory::Forked(_) => match self.get_session_meta() {
                Some(meta) => Some(meta.id.clone()),
                None => None,
            },
            InitialHistory::Resumed(resumed) => {
                let ghost value = forked_from();
                let items = &resumed.history;
                let ghost all = items@;
                let mut i: usize = 0;
                proof {
                    assert(all.skip(0) =~= all);
                }
                while i < items.len()
                    invariant
                        i <= items@.len(),
                        all == items@,
                        all == self.items(),
                        self is Resumed,
                        value == forked_from(),
                        first_value(all, value) == first_value(all.skip(i as int), value),
                    decreases items@.len() - i,
                {
                    proof {
                        assert(all.skip(i as int)[0] == all[i as int]);
                        assert(all.skip(i as int).drop_first() =~= all.skip(i + 1));
                    }
                    if let RolloutItem::SessionMeta(line) = &items[i] {
                        if let Some(id) = &line.meta.forked_from_id {
                            return Some(id.clone());
                        }
                    }
                    i += 1;
                }
                None
            },
        }
    }

    /// The directory that the first session start names.
    pub fn session_cwd(&self) -> (r: Option<String>)
        ensures
            optional_text(r) == (match first_meta(self.items()) {
                Some(meta) => Some(meta.cwd@),
                None => None,
            }),
    {
        match self.get_session_meta() {
            Some(meta) => Some(meta.cwd.clone()),
            None => None,
        }
    }

    /// The events of an earlier conversation.
    pub fn get_event_msgs(&self) -> (r: Option<Vec<String>>)
        ensures
            (match r {
                Some(events) => self.has_history() && texts(events@) == events_of(self.items()),
                None => !self.has_history(),
            }),
    {
        match self {
            InitialHistory::New | InitialHistory::Cleared => {
                return None;
            },
            _ => {},
        }
        let items = self.get_rollout_items();
        let ghost all = items@;
        let mut events: Vec<String> = Vec::new();
        let mut i: usize = 0;
        proof {
            assert(all.take(0) =~= Seq::<RolloutItem>::empty());
            assert(texts(events@) =~= Seq::<Seq<char>>::empty());
        }
        while i < items.len()
            invariant
                i <= items@.len(),
                all == items@,
                texts(events@) == events_of(all.take(i as int)),
            decreases items@.len() - i,
        {
            let ghost before = events@;
            proof {
                assert(all.take(i + 1).drop_last() =~= all.take(i as int));
            }
            if let RolloutItem::EventMsg(event) = &items[i] {
                events.push(event.clone());
                proof {
                    assert(texts(events@) =~= texts(before).push(event@));
                }
            }
            i += 1;
        }
        proof {
            assert(all.take(i as int) =~= all);
        }
        Some(events)
    }

    /// The first base instructions that a session start gives.
    pub fn get_base_instructions(&self) -> (r: Option<String>)
        ensures
            optional_text(r) == first_value(self.items(), base_instructions()),
    {
        let ghost value = base_instructions();
        let items = self.get_rollout_items();
        let ghost all = items@;
        let mut i: usize = 0;
        proof {
            assert(all.skip(0) =~= all);
        }
        while i < items.len()
            invariant
                i <= items@.len(),
                all == items@,
                all == self.items(),
                value == base_instructions(),
                first_value(all, value) == first_value(all.skip(i as int), value),
            decreases items@.len() - i,
        {
            proof {
                assert(all.skip(i as int)[0] == all[i as int]);
                assert(all.skip(i as int).drop_first() =~= all.skip(i + 1));
            }
            if let RolloutItem::SessionMeta(line) = &items[i] {
                if let Some(text) = &line.meta.base_instructions {
                    return Some(text.clone());
                }
            }
            i += 1;
        }
        None
    }

    /// The first dynamic tools that a session start gives.
    pub fn get_dynamic_tools(&self) -> (r: Option<Vec<String>>)
        ensures
            (match r {
                Some(tools) => Some(tools@),
                None => None,
            }) == first_value(self.items(), dynamic_tools()),
    {
        let ghost value = dynamic_tools();
        let items = self.get_rollout_items();
        let ghost all = items@;
        let mut i: usize = 0;
        proof {
            assert(all.skip(0) =~= all);
        }
        while i < items.len()
            invariant
                i <= items@.len(),
                all == items@,
                all == self.items(),
                value == dynamic_tools(),
                first_value(all, value) == first_value(all.skip(i as int), value),
            decreases items@.len() - i,
        {
            proof {
                assert(all.skip(i as int)[0] == all[i as int]);
                assert(all.skip(i as int).drop_first() =~= all.skip(i + 1));
            }
            if let RolloutItem::SessionMeta(line) = &items[i] {
                if let Some(tools) = &line.meta.dynamic_tools {
                    return Some(copy_texts(tools));
                }
            }
            i += 1;
        }
        None
    }

    /// The capability roots of the first session start.
    pub fn get_selected_capability_roots(&self) -> (r: Vec<String>)
        ensures
            r@ == (match first_meta(self.items()) {
                Some(meta) => meta.selected_capability_roots@,
                None => seq![],
            }),
    {
        match self.get_session_meta() {
            Some(meta) => copy_texts(&meta.selected_capability_roots),
            None => Vec::new(),
        }
    }

    /// The version of multi-agent work: that of the last session start (of the resumed thread,
    /// where one is resumed) that gives one, else that of the last turn that does.
    pub fn get_multi_agent_version(&self) -> (r: Option<String>)
        ensures
            optional_text(r) == (match self {
                InitialHistory::Resumed(resumed) => version_of(
                    self.items(),
                    Some(resumed.conversation_id@),
                ),
                _ => version_of(self.items(), None),
            }),
    {
        match self {
            InitialHistory::New | InitialHistory::Cleared => None,
            InitialHistory::Resumed(resumed) => multi_agent_version_from_items(
                &resumed.history,
                Some(resumed.conversation_id.as_str()),
            ),
            InitialHistory::Forked(items) => multi_agent_version_from_items(items, None),
        }
    }

    /// The history mode of the first session start, or the given one.
    pub fn get_history_mode(&self, default_history_mode: String) -> (r: String)
        ensures
            r@ == (match first_meta(self.items()) {
                Some(meta) => meta.history_mode@,
                None => default_history_mode@,
            }),
    {
        match self.get_session_meta() {
            Some(meta) => meta.history_mode.clone(),
            None => default_history_mode,
        }
    }

    /// Where a resumed conversation came from.
    pub fn get_resumed_session_sources(&self) -> (r: Option<(String, Option<String>)>)
        ensures
            (match r {
                Some(sources) => {
                    &&& self is Resumed
                    &&& first_meta(self.items()) is Some
                    &&& sources.0@ == first_meta(self.items())->0.source@
                    &&& optional_text(sources.1) == optional_text(
                        first_meta(self.items())->0.thread_source,
                    )
                },
                None => !(self is Resumed) || first_meta(self.items()) is None,
            }),
    {
        match self.get_resumed_session_meta() {
            Some(meta) => Some((meta.source.clone(), copy_optional(&meta.thread_source))),
            None => None,
        }
    }

    /// The thread that a resumed conversation came from.
    pub fn get_resumed_thread_source(&self) -> (r: Option<String>)
        ensures
            optional_text(r) == (if self is Resumed && first_meta(self.items()) is Some {
                optional_text(first_meta(self.items())->0.thread_source)
            } else {
                None
            }),
    {
        match self.get_resumed_session_meta() {
            Some(meta) => copy_optional(&meta.thread_source),
            None => None,
        }
    }

    /// Who started the session, unless that is empty.
    pub fn get_session_originator(&self) -> (r: Option<String>)
        ensures
            optional_text(r) == (match first_meta(self.items()) {
                Some(meta) => if meta.originator@.len() > 0 {
                    Some(meta.originator@)
                } else {
                    None
                },
                None => None,
            }),
    {
        match self.get_session_meta() {
            Some(meta) => if meta.originator.as_str().unicode_len() > 0 {
                Some(meta.originator.clone())
            } else {
                None
            },
            None => None,
        }
    }

    /// The parent thread of a resumed conversation.
    pub fn get_resumed_parent_thread_id(&self) -> (r: Option<String>)
        ensures
            optional_text(r) == (if self is Resumed && first_meta(self.items()) is Some {
                optional_text(first_meta(self.items())->0.parent_thread_id)
            } else {
                None
            }),
    {
        match self.get_resumed_session_meta() {
            Some(meta) => copy_optional(&meta.parent_thread_id),
            None => None,
        }
    }
}

fn multi_agent_version_from_items(items: &Vec<RolloutItem>, thread_id: Option<&str>) -> (r: Option<
    String,
>)
    ensures
        optional_text(r) == version_of(
            items@,
            (match thread_id {
                Some(id) => Some(id@),
                None => None,
            }),
        ),
{
    let ghost all = items@;
    let ghost thread = match thread_id {
        Some(id) => Some(id@),
        None => None,
    };
    let mut i: usize = items.len();
    proof {
        assert(all.take(i as int) =~= all);
    }
    while i > 0
        invariant
            i <= items@.len(),
            all == items@,
            thread == (match thread_id {
                Some(id) => Some(id@),
                None => None,
            }),
            meta_version(all, thread) == meta_version(all.take(i as int), thread),
        decreases i,
    {
        proof {
            assert(all.take(i as int).drop_last() =~= all.take(i - 1));
        }
        if let RolloutItem::SessionMeta(line) = &items[i - 1] {
            let matches = match thread_id {
                Some(id) => same_text(line.meta.id.as_str(), id),
                None => true,
            };
            if matches {
                if let Some(version) = &line.meta.multi_agent_version {
                    return Some(version.clone());
                }
            }
        }
        i -= 1;
    }
    i = items.len();
    proof {
        assert(all.take(i as int) =~= all);
    }
    while i > 0
        invariant
            i <= items@.len(),
            all == items@,
            turn_version(all) == turn_version(all.take(i as int)),
            meta_version(all, thread) is None,
            thread == (match thread_id {
                Some(id) => Some(id@),
                None => None,
            }),
        decreases i,
    {
        proof {
            assert(all.take(i as int).drop_last() =~= all.take(i - 1));
        }
        if let RolloutItem::TurnContext(turn) = &items[i - 1] {
            if let Some(version) = &turn.multi_agent_version {
                return Some(version.clone());
            }
        }
        i -= 1;
    }
    None
}

/// A new or cleared conversation takes nothing from an earlier one.
pub proof fn new_history_is_empty(history: InitialHistory)
    requires
        !history.has_history(),
    ensures
        history.items().len() == 0,
        first_meta(history.items()) is None,
        events_of(history.items()).len() == 0,
        version_of(history.items(), None) is None,
{
}

/// The version of multi-agent work comes from a turn only where no session start of the thread
/// gives one.
pub proof fn session_version_wins(
    items: Seq<RolloutItem>,
    thread_id: Option<Seq<char>>,
    later: Seq<RolloutItem>,
)
    requires
        meta_version(items, thread_id) is Some,
        forall|i: int| 0 <= i < later.len() ==> meta_of(#[trigger] later[i]) is None,
    ensures
        meta_version(items + later, thread_id) == meta_version(items, thread_id),
        version_of(items + later, thread_id) == meta_version(items, thread_id),
    decreases later.len(),
{
    if later.len() == 0 {
        assert(items + later =~= items);
    } else {
        let fewer = later.drop_last();
        assert forall|i: int| 0 <= i < fewer.len() implies meta_of(#[trigger] fewer[i]) is None by {
            assert(fewer[i] == later[i]);
        }
        session_version_wins(items, thread_id, fewer);
        assert((items + later).drop_last() =~= items + fewer);
        assert((items + later).last() == later[later.len() - 1]);
    }
}

} // verus!
