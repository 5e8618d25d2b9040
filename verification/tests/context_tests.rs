use veebot::context::{
    add_recent, assistant_cache_entry, assistant_message_data, cache_key, can_rank,
    channel_context, gather_context, rank_context, recent_limit, user_cache_entry,
    user_message_data, ContextCache, ContextLookup, ContextMessage, LookupAction, LookupPhase,
    Statistics,
};
use veebot::database::{Memory, Message, MessageType, Timestamp};
use veebot::embeddings::calculate_text_similarity;

fn t(secs: i64) -> Timestamp {
    Timestamp { secs, nanos: 0 }
}

fn message(content: &str, author: &str, kind: MessageType, secs: i64) -> Message {
    Message {
        id: secs,
        discord_message_id: None,
        content: content.to_string(),
        author_id: format!("{}-id", author),
        author_name: author.to_string(),
        message_type: kind,
        guild_id: None,
        channel_id: None,
        created_at: t(secs),
        updated_at: t(secs),
    }
}

fn memory(text: &str, secs: i64) -> Memory {
    Memory {
        id: secs,
        user_id: "u".to_string(),
        username: "ann".to_string(),
        memory: text.to_string(),
        guild_id: None,
        channel_id: None,
        created_at: t(secs),
        updated_at: t(secs),
    }
}

fn contents(v: &[ContextMessage]) -> Vec<&str> {
    v.iter().map(|m| m.content.as_str()).collect()
}

#[test]
fn law_cache_returns_what_was_inserted() {
    let mut cache = ContextCache::new();
    assert!(cache.get("k").is_none());
    cache.insert("k".to_string(), user_cache_entry("hi", "1", "ann"));
    cache.insert("other".to_string(), assistant_cache_entry("yo"));
    let got = cache.get("k").unwrap();
    assert_eq!(got.len(), 1);
    assert_eq!(got[0].content, "hi");
    assert_eq!(got[0].msg_type, "user");
    cache.insert("k".to_string(), assistant_cache_entry("replaced"));
    assert_eq!(cache.get("k").unwrap()[0].content, "replaced");
    assert_eq!(cache.get("other").unwrap()[0].author, "AM");
}

#[test]
fn cache_keys_name_guild_user_and_input() {
    assert_eq!(cache_key(Some("g"), Some("u"), "hi"), "g_u_hi");
    assert_eq!(cache_key(None, None, "hi"), "all_guilds_all_hi");
}

#[test]
fn stored_message_data() {
    let d = user_message_data("m1", "hello", "a1", "ann", "c1", Some("g1"));
    assert_eq!(d.message_type, MessageType::User);
    assert_eq!(d.guild_id.as_deref(), Some("g1"));
    let a = assistant_message_data("assistant_m1", "reply", "c1", None);
    assert_eq!(a.author_id, "assistant");
    assert_eq!(a.author_name, "AM");
    assert_eq!(a.message_type, MessageType::Assistant);
}

#[test]
fn gathered_context_has_similarities_and_memories() {
    let similar = vec![message("cats are great", "bob", MessageType::Assistant, 5)];
    let memories = vec![memory("likes cats", 3)];
    let ctx = gather_context(&similar, &memories, "cats");
    assert_eq!(ctx.len(), 2);
    assert_eq!(ctx[0].msg_type, "assistant");
    assert_eq!(ctx[0].author, "bob");
    assert_eq!(ctx[1].content, "[Memory] likes cats");
    assert_eq!(ctx[1].msg_type, "memory");
    let expected = calculate_text_similarity("likes cats", "cats");
    assert_eq!(ctx[1].similarity.unwrap().exact_fraction(), expected.exact_fraction());
}

#[test]
fn recent_messages_fill_a_small_context() {
    assert_eq!(recent_limit(3, 10), Some(7));
    assert_eq!(recent_limit(5, 10), None);
    assert_eq!(recent_limit(0, 1), None);
    let base = gather_context(&vec![message("dup", "x", MessageType::User, 1)], &Vec::new(), "q");
    let recent = vec![message("dup", "y", MessageType::User, 9), message("new", "z", MessageType::User, 8)];
    let ctx = add_recent(base, &recent);
    assert_eq!(contents(&ctx), vec!["dup", "new"]);
    assert!(ctx[1].is_recent);
    assert!(ctx[1].similarity.is_none());
}

#[test]
fn ranking_puts_similar_first_then_newest() {
    let similar = vec![
        message("weather today", "a", MessageType::User, 1),
        message("cats cats", "b", MessageType::User, 2),
    ];
    let base = gather_context(&similar, &Vec::new(), "cats");
    let recent = vec![message("old news", "c", MessageType::User, 10), message("fresh news", "d", MessageType::User, 20)];
    let ctx = add_recent(base, &recent);
    assert!(can_rank(&ctx));
    let ranked = rank_context(&ctx, 10);
    assert_eq!(contents(&ranked), vec!["cats cats", "weather today", "fresh news", "old news"]);
    let top = rank_context(&ctx, 2);
    assert_eq!(contents(&top), vec!["cats cats", "weather today"]);
}

#[test]
fn ranking_is_stable_for_equal_entries() {
    let similar = vec![
        message("alpha", "a", MessageType::User, 1),
        message("beta", "b", MessageType::User, 1),
    ];
    let ctx = gather_context(&similar, &Vec::new(), "zzz");
    let ranked = rank_context(&ctx, 5);
    assert_eq!(contents(&ranked), vec!["alpha", "beta"]);
}

#[test]
fn entries_without_time_cannot_be_ranked() {
    assert!(!can_rank(&user_cache_entry("hi", "1", "ann")));
    assert!(can_rank(&Vec::new()));
}

#[test]
fn channel_history_is_oldest_first() {
    let newest_first = vec![message("3", "a", MessageType::User, 3), message("2", "b", MessageType::Assistant, 2)];
    let ctx = channel_context(&newest_first);
    assert_eq!(contents(&ctx), vec!["2", "3"]);
    assert_eq!(ctx[0].msg_type, "assistant");
    assert!(!ctx[0].is_recent);
}

#[test]
fn statistics_from_counts() {
    let s = Statistics::from_counts(12, 4);
    assert_eq!((s.total_messages, s.user_messages, s.assistant_messages, s.unique_channels), (12, 0, 0, 4));
}

#[test]
fn lookup_without_a_ready_database_answers_empty() {
    let cache = ContextCache::new();
    let (_, action) = ContextLookup::start(false, &cache, Some("g"), Some("u"), "hi", true, 10);
    assert!(matches!(action, LookupAction::Answer(v) if v.is_empty()));
}

#[test]
fn law_lookup_answers_a_cached_context_unchanged() {
    let mut cache = ContextCache::new();
    cache.insert(cache_key(Some("g"), Some("u"), "hi"), user_cache_entry("cached", "1", "ann"));
    let (lookup, action) = ContextLookup::start(true, &cache, Some("g"), Some("u"), "hi", true, 10);
    assert_eq!(lookup.key, "g_u_hi");
    match action {
        LookupAction::Answer(v) => assert_eq!(contents(&v), vec!["cached"]),
        _ => panic!("expected the cached answer"),
    }
    // another user's question is not answered from that entry
    let (_, other) = ContextLookup::start(true, &cache, Some("g"), Some("v"), "hi", true, 10);
    assert!(matches!(other, LookupAction::FindSimilar(5)));
}

#[test]
fn lookup_asks_for_similar_messages_memories_then_recent_ones() {
    let cache = ContextCache::new();
    let (mut lookup, action) = ContextLookup::start(true, &cache, None, Some("u"), "cats", true, 10);
    assert!(matches!(action, LookupAction::FindSimilar(5)));
    assert!(matches!(lookup.phase, LookupPhase::Similar));
    let action = lookup.on_similar(vec![message("cats cats", "b", MessageType::User, 2)]);
    assert!(matches!(action, LookupAction::SearchMemories(2)));
    let action = lookup.on_memories(&vec![memory("likes cats", 3)]);
    assert!(matches!(action, LookupAction::FetchRecent(8)));
    let action = lookup.on_recent(&vec![message("cats cats", "x", MessageType::User, 9), message("fresh", "y", MessageType::User, 20)]);
    match action {
        LookupAction::Store(v) => assert_eq!(contents(&v), vec!["cats cats", "[Memory] likes cats", "fresh"]),
        _ => panic!("expected a context to store"),
    }
    assert!(matches!(lookup.phase, LookupPhase::Done));
}

#[test]
fn lookup_without_user_skips_memories_and_a_full_context_skips_recent() {
    let cache = ContextCache::new();
    let (mut lookup, _) = ContextLookup::start(true, &cache, None, None, "cats", true, 2);
    let action = lookup.on_similar(vec![message("cats", "b", MessageType::User, 2), message("dogs", "c", MessageType::User, 3)]);
    match action {
        LookupAction::Store(v) => assert_eq!(contents(&v), vec!["cats", "dogs"]),
        _ => panic!("expected a context to store"),
    }
}

#[test]
fn lookup_without_semantic_search_goes_to_recent_messages() {
    let cache = ContextCache::new();
    let (mut lookup, action) = ContextLookup::start(true, &cache, Some("g"), None, "q", false, 4);
    assert!(matches!(action, LookupAction::FetchRecent(4)));
    let action = lookup.on_recent(&vec![message("old", "a", MessageType::User, 1), message("new", "b", MessageType::Assistant, 5)]);
    match action {
        LookupAction::Store(v) => {
            assert_eq!(contents(&v), vec!["new", "old"]);
            assert_eq!(v[0].msg_type, "assistant");
        }
        _ => panic!("expected a context to store"),
    }
    // with no room for recent messages the empty context is stored
    let (_, action) = ContextLookup::start(true, &cache, None, None, "q", false, 1);
    assert!(matches!(action, LookupAction::Store(v) if v.is_empty()));
}
