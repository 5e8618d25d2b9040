//! Conversation context for AI replies: the messages and memories that go
//! with a question, how they are ordered, and the cache of earlier answers.
//!
//! The database queries are I/O; how their results become context, which
//! entries come first and which are kept is decided here.

use vstd::prelude::*;
use crate::selection::{is_selection, is_strict_total, lemma_selection_unique};
use crate::database::{Memory, Message, MessageType, StoreMessageData, Timestamp};
use crate::embeddings::{
    calculate_text_similarity, frac_less, lemma_fraction_bounds,
    similarity_fraction, similarity_greater, TextSimilarity,
};
use crate::text::{chars_eq, chars_of, owned};

verus! {

/// A message given to the AI as context.
pub struct ContextMessage {
    pub content: String,
    pub author: String,
    pub author_id: Option<String>,
    pub msg_type: String,
    pub similarity: Option<TextSimilarity>,
    pub timestamp: Option<Timestamp>,
    pub is_recent: bool,
}

/// The value of a context message.
pub struct ContextMessageView {
    pub content: Seq<char>,
    pub author: Seq<char>,
    pub author_id: Option<Seq<char>>,
    pub msg_type: Seq<char>,
    pub similarity: Option<TextSimilarity>,
    pub timestamp: Option<Timestamp>,
    pub is_recent: bool,
}

/// The view of an optional string.
pub open spec fn opt_text(o: Option<String>) -> Option<Seq<char>> {
    match o {
        Some(s) => Some(s@),
        None => None,
    }
}

impl View for ContextMessage {
    type V = ContextMessageView;

    open spec fn view(&self) -> ContextMessageView {
        ContextMessageView {
            content: self.content@,
            author: self.author@,
            author_id: opt_text(self.author_id),
            msg_type: self.msg_type@,
            similarity: self.similarity,
            timestamp: self.timestamp,
            is_recent: self.is_recent,
        }
    }
}

/// The values of a list of context messages.
pub open spec fn views(v: Seq<ContextMessage>) -> Seq<ContextMessageView> {
    v.map_values(|m: ContextMessage| m@)
}

fn copy_opt_text(o: &Option<String>) -> (res: Option<String>)
    ensures
        opt_text(res) == opt_text(*o),
{
    match o {
        Some(s) => Some(s.clone()),
        None => None,
    }
}

impl ContextMessage {
    /// A copy of this message.
    pub fn copy(&self) -> (res: ContextMessage)
        ensures
            res@ == self@,
    {
        ContextMessage {
            content: self.content.clone(),
            author: self.author.clone(),
            author_id: copy_opt_text(&self.author_id),
            msg_type: self.msg_type.clone(),
            similarity: self.similarity,
            timestamp: self.timestamp,
            is_recent: self.is_recent,
        }
    }
}

/// A copy of a list of context messages.
pub fn copy_messages(v: &Vec<ContextMessage>) -> (res: Vec<ContextMessage>)
    ensures
        views(res@) == views(v@),
{
    let mut out: Vec<ContextMessage> = Vec::new();
    let mut i: usize = 0;
    while i < v.len()
        invariant
            i <= v.len(),
            views(out@) == views(v@).take(i as int),
        decreases v.len() - i,
    {
        let ghost before = views(out@);
        out.push(v[i].copy());
        assert(views(out@) =~= before.push(v@[i as int]@));
        assert(views(v@).take(i + 1) =~= views(v@).take(i as int).push(v@[i as int]@));
        i += 1;
    }
    assert(views(v@).take(v.len() as int) =~= views(v@));
    out
}

/// Statistics about the stored messages.
pub struct Statistics {
    pub total_messages: i64,
    pub user_messages: i64,
    pub assistant_messages: i64,
    pub unique_channels: i64,
}

impl Statistics {
    /// The statistics reported from the message count and the channel count;
    /// user and assistant messages are not counted apart.
    pub fn from_counts(total_messages: i64, unique_channels: i64) -> (res: Statistics)
        ensures
            res.total_messages == total_messages,
            res.unique_channels == unique_channels,
            res.user_messages == 0,
            res.assistant_messages == 0,
    {
        Statistics { total_messages, user_messages: 0, assistant_messages: 0, unique_channels }
    }
}

// ------------------------------------------------------------------
// The cache
// ------------------------------------------------------------------

/// The index of a key among distinct keys.
pub open spec fn key_index(keys: Seq<Seq<char>>, k: Seq<char>) -> int {
    choose|j: int| 0 <= j < keys.len() && keys[j] == k
}

/// Cached context lists, by key.
pub struct ContextCache {
    keys: Vec<String>,
    values: Vec<Vec<ContextMessage>>,
}

impl ContextCache {
    /// The keys, as text.
    pub closed spec fn key_views(&self) -> Seq<Seq<char>> {
        self.keys@.map_values(|k: String| k@)
    }

    #[verifier::type_invariant]
    spec fn wf(&self) -> bool {
        &&& self.keys.len() == self.values.len()
        &&& forall|i: int, j: int|
            0 <= i < j < self.keys.len() ==> #[trigger] self.keys@[i]@ != #[trigger] self.keys@[j]@
    }
}

impl View for ContextCache {
    type V = Map<Seq<char>, Seq<ContextMessageView>>;

    closed spec fn view(&self) -> Map<Seq<char>, Seq<ContextMessageView>> {
        Map::new(
            |k: Seq<char>| self.key_views().contains(k),
            |k: Seq<char>| views(self.values@[key_index(self.key_views(), k)]@),
        )
    }
}

impl ContextCache {
    /// What `get(key)` gives back, by its view: the list cached under `key`,
    /// or nothing.
    pub open spec fn lookup(&self, key: Seq<char>) -> Option<Seq<ContextMessageView>> {
        if self@.contains_key(key) {
            Some(self@[key])
        } else {
            None
        }
    }

    /// What `insert(key, value)` leaves in a cache, by its view.
    pub open spec fn with_entry(&self, key: Seq<char>, value: Seq<ContextMessageView>) -> Map<
        Seq<char>,
        Seq<ContextMessageView>,
    > {
        self@.insert(key, value)
    }

    /// An empty cache.
    pub fn new() -> (res: ContextCache)
        ensures
            res@ == Map::<Seq<char>, Seq<ContextMessageView>>::empty(),
    {
        let res = ContextCache { keys: Vec::new(), values: Vec::new() };
        assert(res@ =~= Map::<Seq<char>, Seq<ContextMessageView>>::empty());
        res
    }

    fn find(&self, key: &Vec<char>) -> (res: Option<usize>)
        ensures
            match res {
                Some(i) => i < self.keys.len() && self.keys@[i as int]@ == key@,
                None => !self.key_views().contains(key@),
            },
    {
        let mut i: usize = 0;
        while i < self.keys.len()
            invariant
                i <= self.keys.len(),
                forall|j: int| 0 <= j < i ==> self.keys@[j]@ != key@,
            decreases self.keys.len() - i,
        {
            let k = chars_of(self.keys[i].as_str());
            if chars_eq(&k, key) {
                return Some(i);
            }
            i += 1;
        }
        assert forall|j: int| 0 <= j < self.key_views().len() implies self.key_views()[j]
            != key@ by {
            assert(self.key_views()[j] == self.keys@[j]@);
        }
        None
    }

    /// The cached list for `key`, if any.
    pub fn get(&self, key: &str) -> (res: Option<Vec<ContextMessage>>)
        ensures
            match res {
                Some(v) => self.lookup(key@) == Some(views(v@)),
                None => self.lookup(key@) is None,
            },
    {
        proof {
            use_type_invariant(self);
        }
        let k = chars_of(key);
        match self.find(&k) {
            Some(i) => {
                proof {
                    assert(self.key_views()[i as int] == key@);
                    let j = key_index(self.key_views(), key@);
                    assert(self.keys@[j]@ == key@);
                    if j != i as int {
                        if j < i {
                            assert(self.keys@[j]@ != self.keys@[i as int]@);
                        } else {
                            assert(self.keys@[i as int]@ != self.keys@[j]@);
                        }
                    }
                }
                Some(copy_messages(&self.values[i]))
            },
            None => None,
        }
    }

    /// Caches `value` under `key`, replacing what was cached under it.
    pub fn insert(&mut self, key: String, value: Vec<ContextMessage>)
        ensures
            final(self)@ == old(self).with_entry(key@, views(value@)),
    {
        proof {
            use_type_invariant(&*self);
        }
        let ghost old_view = self@;
        let ghost old_keys = self.key_views();
        let ghost old_values = self.values@;
        let k = chars_of(key.as_str());
        match self.find(&k) {
            Some(i) => {
                let mut whole = ContextCache::new();
                std::mem::swap(&mut whole, self);
                let ContextCache { keys, mut values } = whole;
                values.set(i, value);
                *self = ContextCache { keys, values };
                proof {
                    assert(self.key_views() == old_keys);
                    assert forall|kk: Seq<char>| #[trigger] self@.contains_key(kk) == old_view.insert(key@, views(value@)).contains_key(kk) by {
                        if kk == key@ {
                            assert(old_keys[i as int] == key@);
                        }
                    }
                    assert forall|kk: Seq<char>| self@.contains_key(kk) implies #[trigger] self@[kk] == old_view.insert(key@, views(value@))[kk] by {
                        let j = key_index(old_keys, kk);
                        assert(old_keys[j] == kk);
                        if kk == key@ {
                            assert(old_keys[i as int] == key@);
                            if j != i as int {
                                if j < i {
                                    assert(self.keys@[j]@ != self.keys@[i as int]@);
                                } else {
                                    assert(self.keys@[i as int]@ != self.keys@[j]@);
                                }
                            }
                        } else {
                            assert(j != i as int);
                            assert(self.values@[j] == old_values[j]);
                        }
                    }
                    assert(self@ =~= old_view.insert(key@, views(value@)));
                }
            },
            None => {
                let mut whole = ContextCache::new();
                std::mem::swap(&mut whole, self);
                let ContextCache { mut keys, mut values } = whole;
                proof {
                    assert forall|j: int| 0 <= j < keys.len() implies keys@[j]@ != key@ by {
                        assert(old_keys[j] == keys@[j]@);
                    }
                }
                keys.push(key);
                values.push(value);
                *self = ContextCache { keys, values };
                proof {
                    let n = old_keys.len();
                    assert(self.key_views() =~= old_keys.push(key@));
                    assert forall|kk: Seq<char>| #[trigger] self@.contains_key(kk) == old_view.insert(key@, views(value@)).contains_key(kk) by {
                        if kk == key@ {
                            assert(self.key_views()[n as int] == key@);
                        } else if self.key_views().contains(kk) {
                            let j = choose|j: int| 0 <= j < self.key_views().len() && self.key_views()[j] == kk;
                            assert(old_keys[j] == kk);
                        } else if old_keys.contains(kk) {
                            let j = choose|j: int| 0 <= j < old_keys.len() && old_keys[j] == kk;
                            assert(self.key_views()[j] == kk);
                        }
                    }
                    assert forall|kk: Seq<char>| self@.contains_key(kk) implies #[trigger] self@[kk] == old_view.insert(key@, views(value@))[kk] by {
                        let j = key_index(self.key_views(), kk);
                        assert(self.key_views()[j] == kk);
                        if kk == key@ {
                            if j != n {
                                assert(old_keys[j] == key@);
                                assert(old_keys.contains(key@));
                            }
                        } else {
                            assert(j < n);
                            assert(old_keys[j] == kk);
                            assert(old_keys.contains(kk));
                            let j0 = key_index(old_keys, kk);
                            assert(old_keys[j0] == kk);
                            if j0 != j {
                                if j0 < j {
                                    assert(self.keys@[j0]@ != self.keys@[j]@);
                                } else {
                                    assert(self.keys@[j]@ != self.keys@[j0]@);
                                }
                            }
                            assert(self.values@[j] == old_values[j]);
                        }
                    }
                    assert(self@ =~= old_view.insert(key@, views(value@)));
                }
            },
        }
    }
}

/// After `insert(key, value)` a cache holds `value` under `key`, so `get(key)`
/// gives `value` back: `before` is the cache before the call, `after` the
/// cache as `insert` leaves it.
pub proof fn law_cache_get_after_insert(
    before: ContextCache,
    after: ContextCache,
    key: Seq<char>,
    value: Seq<ContextMessageView>,
)
    requires
        after@ == before.with_entry(key, value),
    ensures
        after.lookup(key) == Some(value),
{
}

/// `insert(key, value)` leaves what a cache holds under every other key as
/// it was, so `get` of another key gives what it gave before.
pub proof fn law_cache_insert_keeps_other_keys(
    before: ContextCache,
    after: ContextCache,
    key: Seq<char>,
    value: Seq<ContextMessageView>,
    other: Seq<char>,
)
    requires
        after@ == before.with_entry(key, value),
        other != key,
    ensures
        after.lookup(other) == before.lookup(other),
{
}

/// A new cache gives nothing back for any key.
pub proof fn law_new_cache_is_empty(cache: ContextCache, key: Seq<char>)
    requires
        cache@ == Map::<Seq<char>, Seq<ContextMessageView>>::empty(),
    ensures
        cache.lookup(key) is None,
{
}

// ------------------------------------------------------------------
// Building context
// ------------------------------------------------------------------

/// How a message type is labelled in context.
pub open spec fn type_label(t: MessageType) -> Seq<char> {
    match t {
        MessageType::Assistant => "assistant"@,
        MessageType::User => "user"@,
    }
}

fn type_label_string(t: MessageType) -> (res: String)
    ensures
        res@ == type_label(t),
{
    match t {
        MessageType::Assistant => owned("assistant"),
        MessageType::User => owned("user"),
    }
}

/// `s` holds the word counts of texts `t1` and `t2` (see `calculate_text_similarity`).
pub open spec fn is_similarity_of(s: TextSimilarity, t1: Seq<char>, t2: Seq<char>) -> bool {
    &&& s.wf()
    &&& s.count1 == crate::embeddings::word_set(t1).len()
    &&& s.count2 == crate::embeddings::word_set(t2).len()
    &&& s.shared == crate::embeddings::word_set(t1).intersect(crate::embeddings::word_set(t2)).len()
    &&& s.fraction() == similarity_fraction(t1, t2)
}

/// `e` is the context entry of a message found similar to the input `input`.
pub open spec fn is_similar_entry(e: ContextMessageView, m: Message, input: Seq<char>) -> bool {
    &&& e.content == m.content@
    &&& e.author == m.author_name@
    &&& e.author_id == Some(m.author_id@)
    &&& e.msg_type == type_label(m.message_type)
    &&& e.timestamp == Some(m.created_at)
    &&& !e.is_recent
    &&& e.similarity matches Some(s) && is_similarity_of(s, m.content@, input)
}

/// `e` is the context entry of a memory found relevant to the input `input`.
pub open spec fn is_memory_entry(e: ContextMessageView, m: Memory, input: Seq<char>) -> bool {
    &&& e.content == "[Memory] "@ + m.memory@
    &&& e.author == m.username@
    &&& e.author_id == Some(m.user_id@)
    &&& e.msg_type == "memory"@
    &&& e.timestamp == Some(m.created_at)
    &&& !e.is_recent
    &&& e.similarity matches Some(s) && is_similarity_of(s, m.memory@, input)
}

/// The context entry of a recent message.
pub open spec fn recent_entry(m: Message) -> ContextMessageView {
    ContextMessageView {
        content: m.content@,
        author: m.author_name@,
        author_id: Some(m.author_id@),
        msg_type: type_label(m.message_type),
        similarity: None,
        timestamp: Some(m.created_at),
        is_recent: true,
    }
}

/// The context entry of a stored message, without similarity and not recent
/// (as a channel's history is shown).
pub open spec fn history_entry(m: Message) -> ContextMessageView {
    ContextMessageView {
        content: m.content@,
        author: m.author_name@,
        author_id: Some(m.author_id@),
        msg_type: type_label(m.message_type),
        similarity: None,
        timestamp: Some(m.created_at),
        is_recent: false,
    }
}

/// The context entry of a message found similar to the input.
pub fn similar_entry(m: &Message, user_input: &str) -> (res: ContextMessage)
    ensures
        is_similar_entry(res@, *m, user_input@),
{
    let sim = calculate_text_similarity(m.content.as_str(), user_input);
    ContextMessage {
        content: m.content.clone(),
        author: m.author_name.clone(),
        author_id: Some(m.author_id.clone()),
        msg_type: type_label_string(m.message_type),
        similarity: Some(sim),
        timestamp: Some(m.created_at),
        is_recent: false,
    }
}

/// The context entry of a memory found relevant to the input.
pub fn memory_entry(m: &Memory, user_input: &str) -> (res: ContextMessage)
    ensures
        is_memory_entry(res@, *m, user_input@),
{
    let sim = calculate_text_similarity(m.memory.as_str(), user_input);
    let mut content = owned("[Memory] ");
    content.append(m.memory.as_str());
    ContextMessage {
        content,
        author: m.username.clone(),
        author_id: Some(m.user_id.clone()),
        msg_type: owned("memory"),
        similarity: Some(sim),
        timestamp: Some(m.created_at),
        is_recent: false,
    }
}

/// The context entry of a recent message.
pub fn recent_message_entry(m: &Message) -> (res: ContextMessage)
    ensures
        res@ == recent_entry(*m),
{
    ContextMessage {
        content: m.content.clone(),
        author: m.author_name.clone(),
        author_id: Some(m.author_id.clone()),
        msg_type: type_label_string(m.message_type),
        similarity: None,
        timestamp: Some(m.created_at),
        is_recent: true,
    }
}

/// The first context of a question: the similar messages, then the relevant
/// memories, each with its similarity to the input.
pub fn gather_context(similar: &Vec<Message>, memories: &Vec<Memory>, user_input: &str) -> (res: Vec<ContextMessage>)
    ensures
        res.len() == similar.len() + memories.len(),
        forall|i: int|
            0 <= i < similar.len() ==> is_similar_entry(#[trigger] res@[i]@, similar@[i], user_input@),
        forall|j: int|
            0 <= j < memories.len() ==> is_memory_entry(
                #[trigger] res@[similar.len() + j]@,
                memories@[j],
                user_input@,
            ),
{
    let mut out: Vec<ContextMessage> = Vec::new();
    let mut i: usize = 0;
    while i < similar.len()
        invariant
            i <= similar.len(),
            out.len() == i,
            forall|k: int| 0 <= k < i ==> is_similar_entry(#[trigger] out@[k]@, similar@[k], user_input@),
        decreases similar.len() - i,
    {
        out.push(similar_entry(&similar[i], user_input));
        i += 1;
    }
    let mut j: usize = 0;
    while j < memories.len()
        invariant
            j <= memories.len(),
            out.len() == similar.len() + j,
            forall|k: int| 0 <= k < similar.len() ==> is_similar_entry(#[trigger] out@[k]@, similar@[k], user_input@),
            forall|k: int|
                0 <= k < j ==> is_memory_entry(#[trigger] out@[similar.len() + k]@, memories@[k], user_input@),
        decreases memories.len() - j,
    {
        out.push(memory_entry(&memories[j], user_input));
        proof {
            assert forall|k: int|
                0 <= k < j + 1 implies is_memory_entry(#[trigger] out@[similar.len() + k]@, memories@[k], user_input@) by {
            }
        }
        j += 1;
    }
    out
}

/// How many recent messages to fetch besides the context so far: when fewer
/// than half of `max` entries were found, enough to reach `max`.
pub fn recent_limit(context_len: usize, max: usize) -> (res: Option<usize>)
    ensures
        context_len < max / 2 <==> res is Some,
        res matches Some(n) ==> n == max - context_len,
{
    if context_len < max / 2 {
        Some(max - context_len)
    } else {
        None
    }
}

/// `ctx` with the recent messages added in order, each unless an entry with the
/// same content is already there.
pub open spec fn with_recent(ctx: Seq<ContextMessageView>, recent: Seq<Message>) -> Seq<ContextMessageView>
    decreases recent.len(),
{
    if recent.len() == 0 {
        ctx
    } else {
        let c = with_recent(ctx, recent.drop_last());
        let m = recent.last();
        if exists|i: int| 0 <= i < c.len() && c[i].content == m.content@ {
            c
        } else {
            c.push(recent_entry(m))
        }
    }
}

/// Adding recent messages keeps the context in front, adds no content twice
/// and leaves no recent message's content out.
pub proof fn law_recent_messages_added_once(ctx: Seq<ContextMessageView>, recent: Seq<Message>)
    ensures
        with_recent(ctx, recent).len() >= ctx.len(),
        with_recent(ctx, recent).take(ctx.len() as int) == ctx,
        forall|i: int, j: int|
            0 <= i < j < with_recent(ctx, recent).len() && j >= ctx.len() ==> (#[trigger] with_recent(
                ctx,
                recent,
            )[i]).content != (#[trigger] with_recent(ctx, recent)[j]).content,
        forall|k: int|
            0 <= k < recent.len() ==> exists|i: int|
                0 <= i < with_recent(ctx, recent).len() && (#[trigger] with_recent(ctx, recent)[i]).content
                    == (#[trigger] recent[k]).content@,
    decreases recent.len(),
{
    if recent.len() > 0 {
        let before = recent.drop_last();
        law_recent_messages_added_once(ctx, before);
        let c = with_recent(ctx, before);
        let m = recent.last();
        let r = with_recent(ctx, recent);
        if exists|i: int| 0 <= i < c.len() && c[i].content == m.content@ {
            assert(r == c);
            assert forall|k: int| 0 <= k < recent.len() implies exists|i: int|
                0 <= i < r.len() && (#[trigger] r[i]).content == (#[trigger] recent[k]).content@ by {
                if k < recent.len() - 1 {
                    assert(recent[k] == before[k]);
                }
            }
        } else {
            assert(r == c.push(recent_entry(m)));
            assert(r.take(ctx.len() as int) =~= c.take(ctx.len() as int));
            assert forall|i: int, j: int|
                0 <= i < j < r.len() && j >= ctx.len() implies (#[trigger] r[i]).content != (
                #[trigger] r[j]).content by {
                if j == r.len() - 1 {
                    assert(r[i] == c[i]);
                } else {
                    assert(r[i] == c[i] && r[j] == c[j]);
                }
            }
            assert forall|k: int| 0 <= k < recent.len() implies exists|i: int|
                0 <= i < r.len() && (#[trigger] r[i]).content == (#[trigger] recent[k]).content@ by {
                if k < recent.len() - 1 {
                    assert(recent[k] == before[k]);
                    let i = choose|i: int| 0 <= i < c.len() && c[i].content == before[k].content@;
                    assert(r[i] == c[i]);
                } else {
                    assert(r[c.len() as int] == recent_entry(m));
                }
            }
        }
    } else {
        assert(with_recent(ctx, recent).take(ctx.len() as int) =~= ctx);
    }
}

fn has_content(ctx: &Vec<ContextMessage>, content: &String) -> (res: bool)
    ensures
        res == exists|i: int| 0 <= i < ctx.len() && ctx@[i]@.content == content@,
{
    let mut i: usize = 0;
    while i < ctx.len()
        invariant
            i <= ctx.len(),
            forall|k: int| 0 <= k < i ==> ctx@[k]@.content != content@,
        decreases ctx.len() - i,
    {
        if ctx[i].content == *content {
            return true;
        }
        i += 1;
    }
    false
}

/// Adds the recent messages to the context, skipping those whose content is
/// already there.
pub fn add_recent(context: Vec<ContextMessage>, recent: &Vec<Message>) -> (res: Vec<ContextMessage>)
    ensures
        views(res@) == with_recent(views(context@), recent@),
{
    let mut ctx = context;
    let mut i: usize = 0;
    assert(recent@.take(0) =~= Seq::<Message>::empty());
    while i < recent.len()
        invariant
            i <= recent.len(),
            views(ctx@) == with_recent(views(context@), recent@.take(i as int)),
        decreases recent.len() - i,
    {
        let ghost c = views(ctx@);
        assert(recent@.take(i + 1).drop_last() =~= recent@.take(i as int));
        assert(recent@.take(i + 1).last() == recent@[i as int]);
        if !has_content(&ctx, &recent[i].content) {
            ctx.push(recent_message_entry(&recent[i]));
            assert(views(ctx@) =~= c.push(recent_entry(recent@[i as int])));
            assert(!exists|k: int| 0 <= k < c.len() && c[k].content == recent@[i as int].content@) by {
                if exists|k: int| 0 <= k < c.len() && c[k].content == recent@[i as int].content@ {
                    let k = choose|k: int| 0 <= k < c.len() && c[k].content == recent@[i as int].content@;
                    assert(ctx@[k]@.content == c[k].content);
                }
            }
        } else {
            assert(exists|k: int| 0 <= k < c.len() && c[k].content == recent@[i as int].content@) by {
                let k = choose|k: int| 0 <= k < ctx.len() && ctx@[k]@.content == recent@[i as int].content@;
                assert(c[k].content == ctx@[k]@.content);
            }
        }
        i += 1;
    }
    assert(recent@.take(recent.len() as int) =~= recent@);
    ctx
}

/// The recent history of a channel, oldest first: the stored messages come
/// newest first and are reversed.
pub fn channel_context(messages: &Vec<Message>) -> (res: Vec<ContextMessage>)
    ensures
        res.len() == messages.len(),
        forall|i: int|
            0 <= i < res.len() ==> #[trigger] res@[i]@ == history_entry(messages@[messages.len() - 1 - i]),
{
    let mut out: Vec<ContextMessage> = Vec::new();
    let mut i: usize = messages.len();
    while i > 0
        invariant
            i <= messages.len(),
            out.len() == messages.len() - i,
            forall|k: int|
                0 <= k < out.len() ==> #[trigger] out@[k]@ == history_entry(messages@[messages.len() - 1 - k]),
        decreases i,
    {
        i -= 1;
        let m = &messages[i];
        out.push(
            ContextMessage {
                content: m.content.clone(),
                author: m.author_name.clone(),
                author_id: Some(m.author_id.clone()),
                msg_type: type_label_string(m.message_type),
                similarity: None,
                timestamp: Some(m.created_at),
                is_recent: false,
            },
        );
    }
    out
}

// ------------------------------------------------------------------
// Ordering context
// ------------------------------------------------------------------

/// Similarity `x` is strictly greater than similarity `y`.
pub open spec fn sim_greater(x: TextSimilarity, y: TextSimilarity) -> bool {
    frac_less(y.fraction().0, y.fraction().1, x.fraction().0, x.fraction().1)
}

/// Entry `a` is ordered strictly before entry `b`: entries with a similarity
/// come first, by decreasing similarity; the others follow, newest first.
pub open spec fn comes_before(a: ContextMessageView, b: ContextMessageView) -> bool {
    match (a.similarity, b.similarity) {
        (Some(x), Some(y)) => sim_greater(x, y),
        (Some(_), None) => true,
        (None, Some(_)) => false,
        (None, None) => match (a.timestamp, b.timestamp) {
            (Some(ta), Some(tb)) => ta.later_than(tb),
            _ => false,
        },
    }
}

/// Entry `i` of `cs` is placed before entry `j`: it comes before it, or
/// neither comes before the other and it was earlier (a stable sort).
pub open spec fn ranks_before(cs: Seq<ContextMessageView>, i: int, j: int) -> bool {
    comes_before(cs[i], cs[j]) || (!comes_before(cs[j], cs[i]) && i < j)
}

/// The entries can be ordered: each has a time, and each similarity is
/// consistent and within the range of exact arithmetic.
pub open spec fn entry_rankable(e: ContextMessageView) -> bool {
    &&& e.timestamp is Some
    &&& (e.similarity matches Some(s) ==> s.wf() && s.in_range())
}

/// Every entry of `cs` can be ordered.
pub open spec fn rankable(cs: Seq<ContextMessageView>) -> bool {
    forall|i: int| 0 <= i < cs.len() ==> entry_rankable(#[trigger] cs[i])
}

proof fn lemma_frac_trans(a: int, b: int, c: int, d: int, e: int, f: int)
    requires
        b > 0,
        d > 0,
        f > 0,
    ensures
        frac_less(a, b, c, d) && frac_less(c, d, e, f) ==> frac_less(a, b, e, f),
        !frac_less(a, b, c, d) && !frac_less(c, d, e, f) ==> !frac_less(a, b, e, f),
{
    if frac_less(a, b, c, d) && frac_less(c, d, e, f) {
        assert(a * f < e * b) by (nonlinear_arith)
            requires
                a * d < c * b,
                c * f < e * d,
                b > 0,
                d > 0,
                f > 0,
        ;
    }
    if !frac_less(a, b, c, d) && !frac_less(c, d, e, f) {
        assert(a * f >= e * b) by (nonlinear_arith)
            requires
                a * d >= c * b,
                c * f >= e * d,
                b > 0,
                d > 0,
                f > 0,
        ;
    }
}

proof fn lemma_den_positive(s: TextSimilarity)
    requires
        s.wf(),
    ensures
        s.fraction().1 > 0,
{
    lemma_fraction_bounds(s.shared as int, s.count1 as int, s.count2 as int);
}

proof fn lemma_comes_before_order(a: ContextMessageView, b: ContextMessageView, c: ContextMessageView)
    requires
        entry_rankable(a),
        entry_rankable(b),
        entry_rankable(c),
    ensures
        !comes_before(a, a),
        comes_before(a, b) && comes_before(b, c) ==> comes_before(a, c),
        !comes_before(a, b) && !comes_before(b, c) ==> !comes_before(a, c),
{
    if let (Some(x), Some(y), Some(z)) = (a.similarity, b.similarity, c.similarity) {
        lemma_den_positive(x);
        lemma_den_positive(y);
        lemma_den_positive(z);
        lemma_frac_trans(
            z.fraction().0,
            z.fraction().1,
            y.fraction().0,
            y.fraction().1,
            x.fraction().0,
            x.fraction().1,
        );
    }
}

/// Placing entries before one another is a strict total order on the
/// positions of rankable entries.
pub proof fn lemma_ranks_before_order(cs: Seq<ContextMessageView>, i: int, j: int, k: int)
    requires
        rankable(cs),
        0 <= i < cs.len(),
        0 <= j < cs.len(),
        0 <= k < cs.len(),
    ensures
        !ranks_before(cs, i, i),
        i != j ==> ranks_before(cs, i, j) || ranks_before(cs, j, i),
        ranks_before(cs, i, j) ==> !ranks_before(cs, j, i),
        ranks_before(cs, i, j) && ranks_before(cs, j, k) ==> ranks_before(cs, i, k),
{
    assert(entry_rankable(cs[i]) && entry_rankable(cs[j]) && entry_rankable(cs[k]));
    lemma_comes_before_order(cs[i], cs[j], cs[k]);
    lemma_comes_before_order(cs[j], cs[k], cs[i]);
    lemma_comes_before_order(cs[k], cs[i], cs[j]);
    lemma_comes_before_order(cs[i], cs[k], cs[j]);
    lemma_comes_before_order(cs[j], cs[i], cs[k]);
    lemma_comes_before_order(cs[k], cs[j], cs[i]);
    lemma_comes_before_order(cs[i], cs[j], cs[i]);
    lemma_comes_before_order(cs[j], cs[i], cs[j]);
}

/// Whether entry `a` comes strictly before entry `b`.
pub fn entry_comes_before(a: &ContextMessage, b: &ContextMessage) -> (res: bool)
    requires
        entry_rankable(a@),
        entry_rankable(b@),
    ensures
        res == comes_before(a@, b@),
{
    match (&a.similarity, &b.similarity) {
        (Some(x), Some(y)) => similarity_greater(x, y),
        (Some(_), None) => true,
        (None, Some(_)) => false,
        (None, None) => match (&a.timestamp, &b.timestamp) {
            (Some(ta), Some(tb)) => ta.is_later_than(tb),
            _ => false,
        },
    }
}

/// `picked` lists positions of `cs` in the order they are placed, the first
/// `max` of them: no position is left out unless `max` were picked, and then
/// every picked one is placed before it.
pub open spec fn is_ordered_prefix(cs: Seq<ContextMessageView>, picked: Seq<usize>, max: usize) -> bool {
    &&& picked.len() <= max
    &&& forall|k: int| 0 <= k < picked.len() ==> #[trigger] picked[k] < cs.len()
    &&& forall|k: int, l: int|
        0 <= k < l < picked.len() ==> ranks_before(cs, #[trigger] picked[k] as int, #[trigger] picked[l] as int)
    &&& forall|i: int|
        0 <= i < cs.len() && !(#[trigger] picked.contains(i as usize)) ==> picked.len() == max
            && forall|k: int| 0 <= k < picked.len() ==> ranks_before(cs, #[trigger] picked[k] as int, i)
}

/// The context chosen from rankable entries is determined: two lists of
/// positions that both meet the description of the first `max` entries in
/// order are the same list.
pub proof fn law_ordered_prefix_is_unique(
    cs: Seq<ContextMessageView>,
    p1: Seq<usize>,
    p2: Seq<usize>,
    max: usize,
)
    requires
        rankable(cs),
        is_ordered_prefix(cs, p1, max),
        is_ordered_prefix(cs, p2, max),
    ensures
        p1 == p2,
{
    let before = |i: int, j: int| ranks_before(cs, i, j);
    let eligible = |i: int| true;
    let n = cs.len() as int;
    assert forall|i: int, j: int| 0 <= i < n && 0 <= j < n implies {
        &&& !#[trigger] before(i, j) || !before(j, i)
        &&& !before(i, i)
        &&& before(i, j) ==> !before(j, i)
        &&& i != j ==> before(i, j) || before(j, i)
    } by {
        lemma_ranks_before_order(cs, i, j, j);
    }
    assert(is_strict_total(before, n));
    assert(is_selection(before, eligible, n, max as int, p1));
    assert(is_selection(before, eligible, n, max as int, p2));
    lemma_selection_unique(before, eligible, n, max as int, p1, p2);
}

fn contains_position(v: &Vec<usize>, x: usize) -> (res: bool)
    ensures
        res == v@.contains(x),
{
    let mut k: usize = 0;
    while k < v.len()
        invariant
            k <= v.len(),
            forall|j: int| 0 <= j < k ==> v@[j] != x,
        decreases v.len() - k,
    {
        if v[k] == x {
            return true;
        }
        k += 1;
    }
    false
}

/// The positions of the first `max` entries in the order context is given:
/// by decreasing similarity, then newest first, ties kept in list order.
pub fn order_positions(context: &Vec<ContextMessage>, max: usize) -> (res: Vec<usize>)
    requires
        rankable(views(context@)),
    ensures
        is_ordered_prefix(views(context@), res@, max),
{
    let ghost cs = views(context@);
    let n = context.len();
    let mut picked: Vec<usize> = Vec::new();
    while picked.len() < max
        invariant
            n == context.len(),
            cs == views(context@),
            rankable(cs),
            picked.len() <= max,
            forall|k: int| 0 <= k < picked.len() ==> #[trigger] picked@[k] < n,
            forall|k: int, l: int|
                0 <= k < l < picked.len() ==> ranks_before(cs, #[trigger] picked@[k] as int, #[trigger] picked@[l] as int),
            forall|i: int, k: int|
                #![trigger picked@[k], cs[i]]
                0 <= i < n && !picked@.contains(i as usize) && 0 <= k < picked.len() ==> ranks_before(
                    cs,
                    picked@[k] as int,
                    i,
                ),
        decreases max - picked.len(),
    {
        let mut best: Option<usize> = None;
        let mut i: usize = 0;
        while i < n
            invariant
                n == context.len(),
                cs == views(context@),
                rankable(cs),
                i <= n,
                match best {
                    Some(b) => b < i && !picked@.contains(b) && forall|j: int|
                        0 <= j < i && j != b && !picked@.contains(j as usize) ==> ranks_before(cs, b as int, j),
                    None => forall|j: int| 0 <= j < i ==> #[trigger] picked@.contains(j as usize),
                },
            decreases n - i,
        {
            let ghost old_best = best;
            if !contains_position(&picked, i) {
                match best {
                    Some(b) => {
                        assert(cs[i as int] == context@[i as int]@);
                        assert(cs[b as int] == context@[b as int]@);
                        assert(entry_rankable(cs[i as int]) && entry_rankable(cs[b as int]));
                        if entry_comes_before(&context[i], &context[b]) {
                            best = Some(i);
                        }
                    },
                    None => {
                        best = Some(i);
                    },
                }
            }
            proof {
                match best {
                    Some(nb) => {
                        assert forall|j: int|
                            0 <= j < i + 1 && j != nb && !picked@.contains(j as usize) implies ranks_before(
                            cs,
                            nb as int,
                            j,
                        ) by {
                            match old_best {
                                Some(ob) => {
                                    lemma_ranks_before_order(cs, nb as int, ob as int, j);
                                    lemma_ranks_before_order(cs, ob as int, nb as int, j);
                                    if j < i && j != ob {
                                        assert(ranks_before(cs, ob as int, j));
                                    }
                                },
                                None => {},
                            }
                        }
                    },
                    None => {},
                }
            }
            i += 1;
        }
        match best {
            None => {
                assert forall|j: int| 0 <= j < n implies #[trigger] picked@.contains(j as usize) by {}
                proof {
                    assert(forall|k: int| 0 <= k < picked.len() ==> #[trigger] picked@[k] < cs.len());
                }
                return picked;
            },
            Some(b) => {
                let ghost old_picked = picked@;
                picked.push(b);
                proof {
                    assert forall|k: int, l: int|
                        0 <= k < l < picked.len() implies ranks_before(
                        cs,
                        #[trigger] picked@[k] as int,
                        #[trigger] picked@[l] as int,
                    ) by {
                        if l == picked.len() - 1 {
                            assert(picked@[l] == b);
                            assert(old_picked[k] == picked@[k]);
                        } else {
                            assert(old_picked[k] == picked@[k]);
                            assert(old_picked[l] == picked@[l]);
                        }
                    }
                    assert forall|i: int, k: int|
                        #![trigger picked@[k], cs[i]]
                        0 <= i < n && !picked@.contains(i as usize) && 0 <= k < picked.len() implies ranks_before(
                        cs,
                        picked@[k] as int,
                        i,
                    ) by {
                        assert(!old_picked.contains(i as usize)) by {
                            if old_picked.contains(i as usize) {
                                let m = choose|m: int| 0 <= m < old_picked.len() && old_picked[m] == i as usize;
                                assert(picked@[m] == i as usize);
                            }
                        }
                        assert(i != b as int) by {
                            assert(picked@[picked.len() - 1] == b);
                        }
                        if k < old_picked.len() {
                            assert(old_picked[k] == picked@[k]);
                        }
                    }
                    assert forall|k: int| 0 <= k < picked.len() implies #[trigger] picked@[k] < n by {
                        if k < old_picked.len() {
                            assert(old_picked[k] == picked@[k]);
                        }
                    }
                }
            },
        }
    }
    picked
}

/// Whether every entry of `context` can be ordered.
pub fn can_rank(context: &Vec<ContextMessage>) -> (res: bool)
    ensures
        res == rankable(views(context@)),
{
    let mut i: usize = 0;
    while i < context.len()
        invariant
            i <= context.len(),
            forall|k: int| 0 <= k < i ==> entry_rankable(#[trigger] views(context@)[k]),
        decreases context.len() - i,
    {
        let e = &context[i];
        assert(views(context@)[i as int] == e@);
        let ok = match &e.timestamp {
            None => false,
            Some(_) => match &e.similarity {
                Some(s) => s.shared <= s.count1 && s.shared <= s.count2 && (s.count1 as u128)
                    < 0x8000_0000_0000_0000u128 && (s.count2 as u128) < 0x8000_0000_0000_0000u128,
                None => true,
            },
        };
        if !ok {
            assert(!entry_rankable(views(context@)[i as int]));
            return false;
        }
        i += 1;
    }
    true
}

/// The context given to the AI (the ordering step of `get_relevant_context`):
/// the entries placed first, at most `max` of them.
pub fn rank_context(context: &Vec<ContextMessage>, max: usize) -> (res: Vec<ContextMessage>)
    requires
        rankable(views(context@)),
    ensures
        exists|picked: Seq<usize>|
            #![trigger is_ordered_prefix(views(context@), picked, max)]
            is_ordered_prefix(views(context@), picked, max) && res.len() == picked.len()
                && forall|k: int| 0 <= k < picked.len() ==> #[trigger] res@[k]@ == context@[picked[k] as int]@,
{
    let picked = order_positions(context, max);
    let mut out: Vec<ContextMessage> = Vec::new();
    let mut k: usize = 0;
    while k < picked.len()
        invariant
            k <= picked.len(),
            is_ordered_prefix(views(context@), picked@, max),
            out.len() == k,
            forall|m: int| 0 <= m < k ==> #[trigger] out@[m]@ == context@[picked@[m] as int]@,
        decreases picked.len() - k,
    {
        assert(picked@[k as int] < views(context@).len());
        out.push(context[picked[k]].copy());
        k += 1;
    }
    out
}

// ------------------------------------------------------------------
// Storing conversation
// ------------------------------------------------------------------

/// The view of an optional string slice.
pub open spec fn opt_str(o: Option<&str>) -> Option<Seq<char>> {
    match o {
        Some(s) => Some(s@),
        None => None,
    }
}

fn owned_opt(o: Option<&str>) -> (res: Option<String>)
    ensures
        opt_text(res) == opt_str(o),
{
    match o {
        Some(s) => Some(owned(s)),
        None => None,
    }
}

/// The cache key of a question asked in a guild (or none) by a user (or none).
pub open spec fn cache_key_of(guild_id: Option<Seq<char>>, user_id: Option<Seq<char>>, input: Seq<char>) -> Seq<char> {
    (match guild_id {
        Some(g) => g,
        None => "all_guilds"@,
    }) + "_"@ + (match user_id {
        Some(u) => u,
        None => "all"@,
    }) + "_"@ + input
}

/// The key under which the context of a question is cached:
/// `guild_user_input`, with `all_guilds` and `all` for missing ids.
pub fn cache_key(guild_id: Option<&str>, user_id: Option<&str>, user_input: &str) -> (res: String)
    ensures
        res@ == cache_key_of(opt_str(guild_id), opt_str(user_id), user_input@),
{
    let mut key = match guild_id {
        Some(g) => owned(g),
        None => owned("all_guilds"),
    };
    key.append("_");
    match user_id {
        Some(u) => key.append(u),
        None => key.append("all"),
    }
    key.append("_");
    key.append(user_input);
    key
}

/// What is stored for a message written by a user.
pub fn user_message_data(
    discord_message_id: &str,
    content: &str,
    author_id: &str,
    author_name: &str,
    channel_id: &str,
    guild_id: Option<&str>,
) -> (res: StoreMessageData)
    ensures
        res.discord_message_id@ == discord_message_id@,
        res.content@ == content@,
        res.author_id@ == author_id@,
        res.author_name@ == author_name@,
        res.channel_id@ == channel_id@,
        opt_text(res.guild_id) == opt_str(guild_id),
        res.message_type == MessageType::User,
{
    StoreMessageData {
        discord_message_id: owned(discord_message_id),
        content: owned(content),
        author_id: owned(author_id),
        author_name: owned(author_name),
        channel_id: owned(channel_id),
        guild_id: owned_opt(guild_id),
        message_type: MessageType::User,
    }
}

/// What is stored for a reply of the assistant: its author is `assistant`, named `AM`.
pub fn assistant_message_data(
    discord_message_id: &str,
    content: &str,
    channel_id: &str,
    guild_id: Option<&str>,
) -> (res: StoreMessageData)
    ensures
        res.discord_message_id@ == discord_message_id@,
        res.content@ == content@,
        res.author_id@ == "assistant"@,
        res.author_name@ == "AM"@,
        res.channel_id@ == channel_id@,
        opt_text(res.guild_id) == opt_str(guild_id),
        res.message_type == MessageType::Assistant,
{
    StoreMessageData {
        discord_message_id: owned(discord_message_id),
        content: owned(content),
        author_id: owned("assistant"),
        author_name: owned("AM"),
        channel_id: owned(channel_id),
        guild_id: owned_opt(guild_id),
        message_type: MessageType::Assistant,
    }
}

/// What is cached for a stored message: one entry, without similarity or time.
pub open spec fn stored_entry(content: Seq<char>, author: Seq<char>, author_id: Seq<char>, msg_type: Seq<char>) -> ContextMessageView {
    ContextMessageView {
        content,
        author,
        author_id: Some(author_id),
        msg_type,
        similarity: None,
        timestamp: None,
        is_recent: false,
    }
}

/// What is cached under a user message's id.
pub fn user_cache_entry(content: &str, author_id: &str, author_name: &str) -> (res: Vec<ContextMessage>)
    ensures
        views(res@) == seq![stored_entry(content@, author_name@, author_id@, "user"@)],
{
    let mut v: Vec<ContextMessage> = Vec::new();
    v.push(
        ContextMessage {
            content: owned(content),
            author: owned(author_name),
            author_id: Some(owned(author_id)),
            msg_type: owned("user"),
            similarity: None,
            timestamp: None,
            is_recent: false,
        },
    );
    assert(views(v@) =~= seq![stored_entry(content@, author_name@, author_id@, "user"@)]);
    v
}

/// What is cached under an assistant reply's id.
pub fn assistant_cache_entry(content: &str) -> (res: Vec<ContextMessage>)
    ensures
        views(res@) == seq![stored_entry(content@, "AM"@, "assistant"@, "assistant"@)],
{
    let mut v: Vec<ContextMessage> = Vec::new();
    v.push(
        ContextMessage {
            content: owned(content),
            author: owned("AM"),
            author_id: Some(owned("assistant")),
            msg_type: owned("assistant"),
            similarity: None,
            timestamp: None,
            is_recent: false,
        },
    );
    assert(views(v@) =~= seq![stored_entry(content@, "AM"@, "assistant"@, "assistant"@)]);
    v
}


// ------------------------------------------------------------------
// Looking up context, step by step
// ------------------------------------------------------------------

/// What a context lookup waits for.
pub enum LookupPhase {
    /// The messages similar to the input.
    Similar,
    /// The user's memories relevant to the input.
    Memories,
    /// The recent messages.
    Recent,
    /// Nothing more: the lookup has given its answer.
    Done,
}

/// What the caller of a context lookup does next.
pub enum LookupAction {
    /// Answer with this context and leave the cache as it is.
    Answer(Vec<ContextMessage>),
    /// Fetch at most this many messages similar to the input and hand them to `on_similar`.
    FindSimilar(usize),
    /// Search at most this many of the user's memories and hand them to `on_memories`.
    SearchMemories(usize),
    /// Fetch at most this many recent messages and hand them to `on_recent`.
    FetchRecent(usize),
    /// Cache this context under the lookup's key and answer with it.
    Store(Vec<ContextMessage>),
    /// The gathered entries cannot be ordered exactly: one lacks its time, or
    /// a word count is beyond exact arithmetic.
    CannotOrder,
}

/// A lookup of the context of a question (`get_relevant_context`) between
/// the database queries it asks for.
pub struct ContextLookup {
    /// The key under which the question's context is cached.
    pub key: String,
    pub user_input: String,
    pub user_id: Option<String>,
    /// How many entries the context may hold.
    pub max: usize,
    pub phase: LookupPhase,
    /// The similar messages found.
    pub similar: Vec<Message>,
    /// The context gathered so far.
    pub context: Vec<ContextMessage>,
}

/// `r` is `cs` as it is given to the AI: its first `max` entries in order
/// (see `rank_context`).
pub open spec fn is_ranking(cs: Seq<ContextMessageView>, max: usize, r: Seq<ContextMessageView>) -> bool {
    exists|picked: Seq<usize>|
        #![trigger is_ordered_prefix(cs, picked, max)]
        is_ordered_prefix(cs, picked, max) && r.len() == picked.len() && forall|k: int|
            0 <= k < picked.len() ==> r[k] == cs[picked[k] as int]
}

/// `ctx` is the first context of a question: the entries of the similar
/// messages, then those of the memories (see `gather_context`).
pub open spec fn is_gathered(
    ctx: Seq<ContextMessageView>,
    similar: Seq<Message>,
    memories: Seq<Memory>,
    input: Seq<char>,
) -> bool {
    &&& ctx.len() == similar.len() + memories.len()
    &&& forall|i: int| 0 <= i < similar.len() ==> is_similar_entry(#[trigger] ctx[i], similar[i], input)
    &&& forall|j: int|
        0 <= j < memories.len() ==> is_memory_entry(#[trigger] ctx[similar.len() + j], memories[j], input)
}

impl ContextLookup {
    /// The lookup has ordered its context: it stores and answers with the
    /// ordered context, or reports that it cannot be ordered.
    pub open spec fn finishes(&self, action: LookupAction) -> bool {
        let ctx = views(self.context@);
        &&& self.phase is Done
        &&& if rankable(ctx) {
            action matches LookupAction::Store(r) && is_ranking(ctx, self.max, views(r@))
        } else {
            action is CannotOrder
        }
    }

    /// The lookup has its first context: it asks for recent messages, enough
    /// to reach `max`, when fewer than half of `max` entries were found, and
    /// else finishes.
    pub open spec fn continues_after_gathering(&self, action: LookupAction) -> bool {
        let n = self.context.len();
        if n < self.max / 2 {
            action == LookupAction::FetchRecent((self.max - n) as usize) && self.phase is Recent
        } else {
            self.finishes(action)
        }
    }

    /// The question, its key and its limit are those of `other`.
    pub open spec fn same_question(&self, other: ContextLookup) -> bool {
        &&& self.key@ == other.key@
        &&& self.user_input@ == other.user_input@
        &&& opt_text(self.user_id) == opt_text(other.user_id)
        &&& self.max == other.max
    }

    fn finish(&mut self) -> (res: LookupAction)
        ensures
            final(self).same_question(*old(self)),
            final(self).similar@ == old(self).similar@,
            final(self).context@ == old(self).context@,
            final(self).finishes(res),
    {
        self.phase = LookupPhase::Done;
        if can_rank(&self.context) {
            let r = rank_context(&self.context, self.max);
            proof {
                let cs = views(self.context@);
                let picked = choose|picked: Seq<usize>|
                    #![trigger is_ordered_prefix(cs, picked, self.max)]
                    is_ordered_prefix(cs, picked, self.max) && r.len() == picked.len() && forall|k: int|
                        0 <= k < picked.len() ==> #[trigger] r@[k]@ == self.context@[picked[k] as int]@;
                assert forall|k: int| 0 <= k < picked.len() implies views(r@)[k] == cs[picked[k] as int] by {
                    assert(r@[k]@ == self.context@[picked[k] as int]@);
                    assert(picked[k] < cs.len());
                }
                assert(is_ordered_prefix(cs, picked, self.max));
            }
            LookupAction::Store(r)
        } else {
            LookupAction::CannotOrder
        }
    }

    fn after_gathering(&mut self) -> (res: LookupAction)
        ensures
            final(self).same_question(*old(self)),
            final(self).similar@ == old(self).similar@,
            final(self).context@ == old(self).context@,
            final(self).continues_after_gathering(res),
    {
        match recent_limit(self.context.len(), self.max) {
            Some(n) => {
                self.phase = LookupPhase::Recent;
                LookupAction::FetchRecent(n)
            },
            None => self.finish(),
        }
    }

    /// Starts the lookup of the context of `user_input`. Without a ready
    /// database the answer is empty; a question whose context is cached is
    /// answered with it; else the lookup searches for similar messages when
    /// semantic search is on, and otherwise goes on with an empty context.
    pub fn start(
        ready: bool,
        cache: &ContextCache,
        guild_id: Option<&str>,
        user_id: Option<&str>,
        user_input: &str,
        semantic: bool,
        max: usize,
    ) -> (res: (ContextLookup, LookupAction))
        ensures
            !ready ==> (res.1 matches LookupAction::Answer(v) && v.len() == 0),
            ready ==> res.0.key@ == cache_key_of(opt_str(guild_id), opt_str(user_id), user_input@),
            ready ==> res.0.user_input@ == user_input@,
            ready ==> opt_text(res.0.user_id) == opt_str(user_id),
            ready ==> res.0.max == max,
            ready ==> (cache.lookup(res.0.key@) matches Some(c) ==> res.1 matches LookupAction::Answer(v)
                && views(v@) == c),
            ready && cache.lookup(res.0.key@) is None && semantic ==> res.1 == LookupAction::FindSimilar(
                max / 2,
            ) && res.0.phase is Similar,
            ready && cache.lookup(res.0.key@) is None && !semantic ==> res.0.context.len() == 0
                && res.0.continues_after_gathering(res.1),
    {
        let key = cache_key(guild_id, user_id, user_input);
        let mut lookup = ContextLookup {
            key,
            user_input: owned(user_input),
            user_id: owned_opt(user_id),
            max,
            phase: LookupPhase::Done,
            similar: Vec::new(),
            context: Vec::new(),
        };
        if !ready {
            return (lookup, LookupAction::Answer(Vec::new()));
        }
        match cache.get(lookup.key.as_str()) {
            Some(cached) => (lookup, LookupAction::Answer(cached)),
            None => {
                if semantic {
                    lookup.phase = LookupPhase::Similar;
                    (lookup, LookupAction::FindSimilar(max / 2))
                } else {
                    let action = lookup.after_gathering();
                    (lookup, action)
                }
            },
        }
    }

    /// Goes on with the messages found similar to the input: it searches the
    /// user's memories when there is a user, and else goes on with the
    /// entries of the similar messages.
    pub fn on_similar(&mut self, similar: Vec<Message>) -> (res: LookupAction)
        requires
            old(self).phase is Similar,
        ensures
            final(self).same_question(*old(self)),
            final(self).similar@ == similar@,
            old(self).user_id is Some ==> res == LookupAction::SearchMemories(old(self).max / 4)
                && final(self).phase is Memories,
            old(self).user_id is None ==> is_gathered(
                views(final(self).context@),
                similar@,
                Seq::empty(),
                old(self).user_input@,
            ) && final(self).continues_after_gathering(res),
    {
        self.similar = similar;
        if self.user_id.is_some() {
            self.phase = LookupPhase::Memories;
            LookupAction::SearchMemories(self.max / 4)
        } else {
            let none: Vec<Memory> = Vec::new();
            self.context = gather_context(&self.similar, &none, self.user_input.as_str());
            proof {
                lemma_gathered(self.context@, self.similar@, none@, self.user_input@);
            }
            self.after_gathering()
        }
    }

    /// Goes on with the user's memories found relevant to the input: the
    /// context is the entries of the similar messages, then of the memories.
    pub fn on_memories(&mut self, memories: &Vec<Memory>) -> (res: LookupAction)
        requires
            old(self).phase is Memories,
        ensures
            final(self).same_question(*old(self)),
            final(self).similar@ == old(self).similar@,
            is_gathered(views(final(self).context@), old(self).similar@, memories@, old(self).user_input@),
            final(self).continues_after_gathering(res),
    {
        self.context = gather_context(&self.similar, memories, self.user_input.as_str());
        proof {
            lemma_gathered(self.context@, self.similar@, memories@, self.user_input@);
        }
        self.after_gathering()
    }

    /// Goes on with the recent messages: each whose content is not in the
    /// context yet is added, and the context is ordered.
    pub fn on_recent(&mut self, recent: &Vec<Message>) -> (res: LookupAction)
        requires
            old(self).phase is Recent,
        ensures
            final(self).same_question(*old(self)),
            final(self).similar@ == old(self).similar@,
            views(final(self).context@) == with_recent(views(old(self).context@), recent@),
            final(self).finishes(res),
    {
        let mut ctx: Vec<ContextMessage> = Vec::new();
        std::mem::swap(&mut ctx, &mut self.context);
        self.context = add_recent(ctx, recent);
        self.finish()
    }
}

proof fn lemma_gathered(ctx: Seq<ContextMessage>, similar: Seq<Message>, memories: Seq<Memory>, input: Seq<char>)
    requires
        ctx.len() == similar.len() + memories.len(),
        forall|i: int| 0 <= i < similar.len() ==> is_similar_entry(#[trigger] ctx[i]@, similar[i], input),
        forall|j: int|
            0 <= j < memories.len() ==> is_memory_entry(#[trigger] ctx[similar.len() + j]@, memories[j], input),
    ensures
        is_gathered(views(ctx), similar, memories, input),
{
    let v = views(ctx);
    assert forall|i: int| 0 <= i < similar.len() implies is_similar_entry(#[trigger] v[i], similar[i], input) by {
        assert(v[i] == ctx[i]@);
    }
    assert forall|j: int| 0 <= j < memories.len() implies is_memory_entry(
        #[trigger] v[similar.len() + j],
        memories[j],
        input,
    ) by {
        assert(v[similar.len() + j] == ctx[similar.len() + j]@);
    }
}

} // verus!
