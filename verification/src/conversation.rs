//! Conversations: what was said in a session, and what is remembered of it.

use std::collections::VecDeque;
use vstd::prelude::*;

verus! {

/// The number of turns that a conversation keeps.
pub const HISTORY_LIMIT: usize = 10;

/// A point in time: seconds since the Unix epoch, and the nanoseconds
/// within that second.
#[derive(Clone, Copy, Debug, PartialEq, Eq, Structural)]
pub struct Moment {
    pub seconds: i64,
    pub nanos: u32,
}

/// One exchange: what the user said, what was answered, and what was made
/// of it.
#[derive(Debug, PartialEq, Eq)]
pub struct ConversationTurn {
    pub user_input: String,
    pub bot_response: String,
    pub intent: String,
    pub entities: Vec<String>,
    pub timestamp: Moment,
}

/// What `entries` hold under `key`: the value of the last entry with that
/// key, if there is one.
pub open spec fn lookup(entries: Seq<(String, String)>, key: Seq<char>) -> Option<Seq<char>>
    decreases entries.len(),
{
    if entries.len() == 0 {
        None
    } else if entries.last().0@ == key {
        Some(entries.last().1@)
    } else {
        lookup(entries.drop_last(), key)
    }
}

/// The history after one more turn: the oldest turn leaves when the limit
/// is reached, and the new one joins at the end.
pub open spec fn history_with(history: Seq<ConversationTurn>, turn: ConversationTurn) -> Seq<
    ConversationTurn,
> {
    if history.len() >= HISTORY_LIMIT {
        history.skip(1).push(turn)
    } else {
        history.push(turn)
    }
}

/// The last `count` turns of `history`, oldest first; all of them where
/// there are fewer.
pub open spec fn last_turns(history: Seq<ConversationTurn>, count: nat) -> Seq<ConversationTurn> {
    if count >= history.len() {
        history
    } else {
        history.skip(history.len() - count)
    }
}

/// What tells the entries of other keys from those of `dropped`.
pub open spec fn other_keys(dropped: Seq<char>) -> spec_fn((String, String)) -> bool {
    |e: (String, String)| e.0@ != dropped
}

/// Dropping the entries of one key leaves what is held under every other
/// key, and nothing under that one.
pub proof fn lemma_lookup_without(entries: Seq<(String, String)>, dropped: Seq<char>, key: Seq<char>)
    ensures
        key == dropped ==> lookup(entries.filter(other_keys(dropped)), key) is None,
        key != dropped ==> lookup(entries.filter(other_keys(dropped)), key) == lookup(entries, key),
    decreases entries.len(),
{
    reveal(Seq::filter);
    let keep = other_keys(dropped);
    if entries.len() > 0 {
        lemma_lookup_without(entries.drop_last(), dropped, key);
        if keep(entries.last()) {
            assert(entries.filter(keep).drop_last() =~= entries.drop_last().filter(keep));
        }
    }
}

/// A session: who is talking, what was said lately, and what is remembered.
#[derive(Debug, PartialEq, Eq)]
pub struct ConversationContext {
    pub session_id: String,
    pub user_name: Option<String>,
    /// The latest turns, oldest first.
    pub conversation_history: VecDeque<ConversationTurn>,
    /// What is remembered, as entries of a key and a value.
    pub context_data: Vec<(String, String)>,
    pub started_at: Moment,
    pub last_intent: Option<String>,
}

impl ConversationContext {
    /// A session that starts now, with nothing said and nothing remembered.
    pub fn new(session_id: String, started_at: Moment) -> (context: Self)
        ensures
            context.session_id == session_id,
            context.user_name is None,
            context.conversation_history@ == Seq::<ConversationTurn>::empty(),
            context.context_data@ == Seq::<(String, String)>::empty(),
            context.started_at == started_at,
            context.last_intent is None,
    {
        ConversationContext {
            session_id,
            user_name: None,
            conversation_history: VecDeque::with_capacity(10),
            context_data: Vec::new(),
            started_at,
            last_intent: None,
        }
    }

    /// Whether the session is one that was just opened under `session_id` at
    /// `now`: nothing said, nothing remembered.
    pub open spec fn is_fresh(self, session_id: Seq<char>, now: Moment) -> bool {
        &&& self.session_id@ == session_id
        &&& self.user_name is None
        &&& self.conversation_history@.len() == 0
        &&& self.context_data@.len() == 0
        &&& self.started_at == now
        &&& self.last_intent is None
    }

    /// Whether the session is what `before` becomes when `turn` is recorded:
    /// the turn joins the history, where only the latest ten turns stay, its
    /// intent is the last intent, and all else is as it was.
    pub open spec fn follows_turn(self, before: Self, turn: ConversationTurn) -> bool {
        &&& self.conversation_history@ == history_with(before.conversation_history@, turn)
        &&& self.last_intent matches Some(intent) && intent@ == turn.intent@
        &&& self.session_id == before.session_id
        &&& self.user_name == before.user_name
        &&& self.context_data == before.context_data
        &&& self.started_at == before.started_at
    }

    /// Records one more turn. Its intent becomes the last intent, and only
    /// the latest ten turns are kept.
    pub fn add_turn(&mut self, turn: ConversationTurn)
        ensures
            final(self).follows_turn(*old(self), turn),
    {
        self.last_intent = Some(turn.intent.clone());
        if self.conversation_history.len() >= HISTORY_LIMIT {
            let ghost before = self.conversation_history@;
            self.conversation_history.pop_front();
            assert(self.conversation_history@ =~= before.skip(1));
        }
        self.conversation_history.push_back(turn);
    }

    /// Remembers `value` under `key`, in place of what was remembered under
    /// that key before.
    pub fn set_context(&mut self, key: String, value: String)
        ensures
            lookup(final(self).context_data@, key@) == Some(value@),
            forall|k: Seq<char>|
                k != key@ ==> #[trigger] lookup(final(self).context_data@, k) == lookup(
                    old(self).context_data@,
                    k,
                ),
            final(self).session_id == old(self).session_id,
            final(self).user_name == old(self).user_name,
            final(self).conversation_history == old(self).conversation_history,
            final(self).started_at == old(self).started_at,
            final(self).last_intent == old(self).last_intent,
    {
        let ghost before = self.context_data@;
        let ghost keep = other_keys(key@);
        let mut kept: Vec<(String, String)> = Vec::new();
        let mut at: usize = 0;
        proof {
            reveal(Seq::filter);
            assert(before.take(0).filter(keep) =~= kept@);
        }
        while at < self.context_data.len()
            invariant
                0 <= at <= before.len(),
                self.context_data@ == before,
                *self == (ConversationContext { context_data: self.context_data, ..*old(self) }),
                keep == other_keys(key@),
                kept@ == before.take(at as int).filter(keep),
            decreases before.len() - at,
        {
            proof {
                crate::sequences::lemma_filter_push(
                    before.take(at as int),
                    before[at as int],
                    keep,
                );
                assert(before.take(at as int).push(before[at as int]) =~= before.take(at + 1));
            }
            if !crate::text::same_text(self.context_data[at].0.as_str(), key.as_str()) {
                let entry = (self.context_data[at].0.clone(), self.context_data[at].1.clone());
                assert(entry == before[at as int]);
                kept.push(entry);
            }
            at += 1;
        }
        let ghost filtered = kept@;
        kept.push((key, value));
        proof {
            assert(before.take(at as int) =~= before);
            assert(kept@.drop_last() =~= filtered);
            assert(kept@.last().0@ == key@ && kept@.last().1@ == value@);
            assert forall|k: Seq<char>| k != key@ implies #[trigger] lookup(kept@, k) == lookup(
                before,
                k,
            ) by {
                lemma_lookup_without(before, key@, k);
            }
        }
        self.context_data = kept;
    }

    /// What is remembered under `key`, if anything.
    pub fn get_context(&self, key: &str) -> (value: Option<&String>)
        ensures
            value matches Some(found) ==> lookup(self.context_data@, key@) == Some(found@),
            value is None ==> lookup(self.context_data@, key@) is None,
    {
        let mut at: usize = self.context_data.len();
        assert(self.context_data@.take(at as int) =~= self.context_data@);
        while at > 0
            invariant
                0 <= at <= self.context_data@.len(),
                lookup(self.context_data@, key@) == lookup(self.context_data@.take(at as int), key@),
            decreases at,
        {
            at -= 1;
            proof {
                assert(self.context_data@.take(at + 1).drop_last() =~= self.context_data@.take(
                    at as int,
                ));
            }
            if crate::text::same_text(self.context_data[at].0.as_str(), key) {
                return Some(&self.context_data[at].1);
            }
        }
        None
    }

    /// The last `count` turns, oldest first.
    pub fn get_last_turns(&self, count: usize) -> (turns: Vec<&ConversationTurn>)
        ensures
            turns@.len() == last_turns(self.conversation_history@, count as nat).len(),
            forall|i: int|
                0 <= i < turns@.len() ==> *(#[trigger] turns@[i]) == last_turns(
                    self.conversation_history@,
                    count as nat,
                )[i],
    {
        let len = self.conversation_history.len();
        let start: usize = if count >= len {
            0
        } else {
            len - count
        };
        let mut turns: Vec<&ConversationTurn> = Vec::new();
        let mut at: usize = start;
        while at < len
            invariant
                start <= at <= len,
                len == self.conversation_history@.len(),
                start == if count >= len {
                    0
                } else {
                    len - count
                },
                turns@.len() == at - start,
                forall|i: int|
                    0 <= i < turns@.len() ==> *(#[trigger] turns@[i])
                        == self.conversation_history@[start + i],
            decreases len - at,
        {
            turns.push(&self.conversation_history[at]);
            at += 1;
        }
        turns
    }
}

/// The position of the first session filed under `session_id`, or the
/// number of sessions if there is none.
pub open spec fn position_of(sessions: Seq<(String, ConversationContext)>, session_id: Seq<char>) -> int
    decreases sessions.len(),
{
    if sessions.len() == 0 {
        0
    } else if sessions[0].0@ == session_id {
        0
    } else {
        1 + position_of(sessions.skip(1), session_id)
    }
}

/// The position of a session lies within the sessions or just behind them;
/// no session before it is filed under that id, and the one at it is.
pub proof fn lemma_position_of(sessions: Seq<(String, ConversationContext)>, session_id: Seq<char>)
    ensures
        0 <= position_of(sessions, session_id) <= sessions.len(),
        position_of(sessions, session_id) < sessions.len() ==> sessions[position_of(
            sessions,
            session_id,
        )].0@ == session_id,
        forall|i: int|
            0 <= i < position_of(sessions, session_id) ==> (#[trigger] sessions[i]).0@ != session_id,
    decreases sessions.len(),
{
    if sessions.len() > 0 && sessions[0].0@ != session_id {
        let rest = sessions.skip(1);
        lemma_position_of(rest, session_id);
        assert forall|i: int| 0 <= i < position_of(sessions, session_id) implies (#[trigger] sessions[i]).0@
            != session_id by {
            if i > 0 {
                assert(rest[i - 1] == sessions[i]);
            }
        }
    }
}

/// The position of a session is the first place where its id is found.
pub proof fn lemma_position_is_first(
    sessions: Seq<(String, ConversationContext)>,
    session_id: Seq<char>,
    at: int,
)
    requires
        0 <= at <= sessions.len(),
        forall|i: int| 0 <= i < at ==> (#[trigger] sessions[i]).0@ != session_id,
        at < sessions.len() ==> sessions[at].0@ == session_id,
    ensures
        position_of(sessions, session_id) == at,
    decreases sessions.len(),
{
    if sessions.len() > 0 && at > 0 {
        let rest = sessions.skip(1);
        assert(sessions[0].0@ != session_id);
        assert forall|i: int| 0 <= i < at - 1 implies (#[trigger] rest[i]).0@ != session_id by {
            assert(rest[i] == sessions[i + 1]);
        }
        lemma_position_is_first(rest, session_id, at - 1);
    }
}

/// All sessions, each filed under its id.
pub struct ConversationManager {
    sessions: Vec<(String, ConversationContext)>,
}

impl ConversationManager {
    /// The sessions with the ids they are filed under, in the order they
    /// were opened.
    pub closed spec fn sessions(self) -> Seq<(String, ConversationContext)> {
        self.sessions@
    }

    /// Whether a session is filed under `session_id`.
    pub open spec fn has_session(self, session_id: Seq<char>) -> bool {
        position_of(self.sessions(), session_id) < self.sessions().len()
    }

    /// The session filed under `session_id`.
    pub open spec fn session(self, session_id: Seq<char>) -> ConversationContext {
        self.sessions()[position_of(self.sessions(), session_id)].1
    }

    /// A manager without sessions.
    pub fn new() -> (manager: Self)
        ensures
            manager.sessions() == Seq::<(String, ConversationContext)>::empty(),
    {
        ConversationManager { sessions: Vec::new() }
    }

    /// Where the session filed under `session_id` stands, or the number of
    /// sessions if there is none.
    fn find(&self, session_id: &str) -> (at: usize)
        ensures
            at == position_of(self.sessions(), session_id@),
            at <= self.sessions().len(),
    {
        let mut at: usize = 0;
        while at < self.sessions.len()
            invariant
                0 <= at <= self.sessions@.len(),
                forall|i: int| 0 <= i < at ==> (#[trigger] self.sessions@[i]).0@ != session_id@,
            decreases self.sessions@.len() - at,
        {
            if crate::text::same_text(self.sessions[at].0.as_str(), session_id) {
                proof {
                    lemma_position_is_first(self.sessions@, session_id@, at as int);
                }
                return at;
            }
            at += 1;
        }
        proof {
            lemma_position_is_first(self.sessions@, session_id@, at as int);
        }
        at
    }

    /// The session filed under `session_id`, to be changed. Where there is
    /// none yet, one is opened that starts at `now`. All other sessions stay
    /// as they are.
    pub fn get_or_create_session(&mut self, session_id: String, now: Moment) -> (context:
        &mut ConversationContext)
        ensures
            old(self).has_session(session_id@) ==> *context == old(self).session(session_id@)
                && final(self).sessions() == old(self).sessions().update(
                position_of(old(self).sessions(), session_id@),
                (old(self).sessions()[position_of(old(self).sessions(), session_id@)].0, *final(context)),
            ),
            !old(self).has_session(session_id@) ==> context.is_fresh(session_id@, now) && final(
                self).sessions().len() == old(self).sessions().len() + 1 && final(
                self).sessions().drop_last() == old(self).sessions() && final(
                self).sessions().last().0@ == session_id@ && final(self).sessions().last().1
                == *final(context),
    {
        let at = self.find(session_id.as_str());
        if at == self.sessions.len() {
            let context = ConversationContext::new(session_id.clone(), now);
            self.sessions.push((session_id, context));
        }
        &mut self.sessions[at].1
    }

    /// The session filed under `session_id`, if there is one.
    pub fn get_session(&self, session_id: &str) -> (found: Option<&ConversationContext>)
        ensures
            found is Some <==> self.has_session(session_id@),
            found matches Some(context) ==> *context == self.session(session_id@),
    {
        let at = self.find(session_id);
        if at < self.sessions.len() {
            Some(&self.sessions[at].1)
        } else {
            None
        }
    }

    /// The session filed under `session_id`, to be changed, if there is one.
    pub fn get_session_mut(&mut self, session_id: &str) -> (found: Option<&mut ConversationContext>)
        ensures
            found is Some <==> old(self).has_session(session_id@),
            found matches Some(context) ==> *context == old(self).session(session_id@) && final(
                self).sessions() == old(self).sessions().update(
                position_of(old(self).sessions(), session_id@),
                (old(self).sessions()[position_of(old(self).sessions(), session_id@)].0, *final(context)),
            ),
            found is None ==> final(self).sessions() == old(self).sessions(),
    {
        let at = self.find(session_id);
        if at < self.sessions.len() {
            Some(&mut self.sessions[at].1)
        } else {
            None
        }
    }

    /// Closes the session filed under `session_id` and hands it out, if
    /// there is one. All other sessions stay as they are.
    pub fn end_session(&mut self, session_id: &str) -> (ended: Option<ConversationContext>)
        ensures
            ended is Some <==> old(self).has_session(session_id@),
            ended matches Some(context) ==> context == old(self).session(session_id@),
            ended is Some ==> final(self).sessions() == old(self).sessions().remove(
                position_of(old(self).sessions(), session_id@),
            ),
            ended is None ==> final(self).sessions() == old(self).sessions(),
    {
        let at = self.find(session_id);
        if at < self.sessions.len() {
            let entry = self.sessions.remove(at);
            Some(entry.1)
        } else {
            None
        }
    }

    /// Records a turn in the session filed under `session_id`; where there
    /// is no such session, nothing happens.
    pub fn record_turn(
        &mut self,
        session_id: &str,
        user_input: String,
        bot_response: String,
        intent: String,
        entities: Vec<String>,
        timestamp: Moment,
    )
        ensures
            !old(self).has_session(session_id@) ==> final(self).sessions() == old(self).sessions(),
            old(self).has_session(session_id@) ==> final(self).sessions().len() == old(
                self).sessions().len() && final(self).sessions() == old(self).sessions().update(
                position_of(old(self).sessions(), session_id@),
                final(self).sessions()[position_of(old(self).sessions(), session_id@)],
            ) && final(self).sessions()[position_of(old(self).sessions(), session_id@)].0 == old(
                self).sessions()[position_of(old(self).sessions(), session_id@)].0 && final(
                self).session(session_id@).follows_turn(
                old(self).session(session_id@),
                (ConversationTurn { user_input, bot_response, intent, entities, timestamp }),
            ),
    {
        proof {
            lemma_position_of(self.sessions(), session_id@);
        }
        let ghost at = position_of(self.sessions(), session_id@);
        let ghost before = self.sessions();
        match self.get_session_mut(session_id) {
            Some(context) => {
                let turn = ConversationTurn { user_input, bot_response, intent, entities, timestamp };
                context.add_turn(turn);
            },
            None => {},
        }
        proof {
            if at < before.len() {
                assert(self.sessions()[at].0@ == session_id@);
                assert forall|i: int| 0 <= i < at implies (#[trigger] self.sessions()[i]).0@
                    != session_id@ by {
                    assert(self.sessions()[i] == before[i]);
                }
                lemma_position_is_first(self.sessions(), session_id@, at);
                assert(self.sessions() =~= before.update(at, self.sessions()[at]));
            }
        }
    }
}

} // verus!
