use veebot::database::{
    postgres_memory_search_sql, postgres_similar_messages_sql,
    sqlite_memories_sql, sqlite_memory_search_sql, sqlite_recent_messages_sql,
    sqlite_similar_messages_sql,
};

#[test]
fn sqlite_similar_queries_match_the_fixed_texts() {
    assert_eq!(sqlite_similar_messages_sql(true, true), "SELECT m.id, m.discord_message_id, m.content, m.author_id, m.author_name, m.message_type, m.guild_id, m.channel_id, m.created_at, m.updated_at\n                     FROM messages m\n                     JOIN messages_fts ON messages_fts.rowid = m.id\n                     WHERE messages_fts MATCH ? AND m.guild_id = ? AND m.author_id = ?\n                     ORDER BY m.created_at DESC\n                     LIMIT ?");
    assert_eq!(sqlite_similar_messages_sql(true, false), "SELECT m.id, m.discord_message_id, m.content, m.author_id, m.author_name, m.message_type, m.guild_id, m.channel_id, m.created_at, m.updated_at\n                     FROM messages m\n                     JOIN messages_fts ON messages_fts.rowid = m.id\n                     WHERE messages_fts MATCH ? AND m.guild_id = ?\n                     ORDER BY m.created_at DESC\n                     LIMIT ?");
    assert_eq!(sqlite_similar_messages_sql(false, true), "SELECT m.id, m.discord_message_id, m.content, m.author_id, m.author_name, m.message_type, m.guild_id, m.channel_id, m.created_at, m.updated_at\n                     FROM messages m\n                     JOIN messages_fts ON messages_fts.rowid = m.id\n                     WHERE messages_fts MATCH ? AND m.author_id = ?\n                     ORDER BY m.created_at DESC\n                     LIMIT ?");
    assert_eq!(sqlite_similar_messages_sql(false, false), "SELECT m.id, m.discord_message_id, m.content, m.author_id, m.author_name, m.message_type, m.guild_id, m.channel_id, m.created_at, m.updated_at\n                     FROM messages m\n                     JOIN messages_fts ON messages_fts.rowid = m.id\n                     WHERE messages_fts MATCH ?\n                     ORDER BY m.created_at DESC\n                     LIMIT ?");
}

#[test]
fn sqlite_recent_queries_match_the_fixed_texts() {
    assert_eq!(sqlite_recent_messages_sql(true, true), "SELECT id, discord_message_id, content, author_id, author_name, message_type, guild_id, channel_id, created_at, updated_at\n                     FROM messages\n                     WHERE guild_id = ? AND author_id = ?\n                     ORDER BY created_at DESC\n                     LIMIT ?");
    assert_eq!(sqlite_recent_messages_sql(true, false), "SELECT id, discord_message_id, content, author_id, author_name, message_type, guild_id, channel_id, created_at, updated_at\n                     FROM messages\n                     WHERE guild_id = ?\n                     ORDER BY created_at DESC\n                     LIMIT ?");
    assert_eq!(sqlite_recent_messages_sql(false, true), "SELECT id, discord_message_id, content, author_id, author_name, message_type, guild_id, channel_id, created_at, updated_at\n                     FROM messages\n                     WHERE author_id = ?\n                     ORDER BY created_at DESC\n                     LIMIT ?");
    assert_eq!(sqlite_recent_messages_sql(false, false), "SELECT id, discord_message_id, content, author_id, author_name, message_type, guild_id, channel_id, created_at, updated_at\n                     FROM messages\n                     ORDER BY created_at DESC\n                     LIMIT ?");
}

#[test]
fn sqlite_memory_queries_match_the_fixed_texts() {
    assert_eq!(sqlite_memories_sql(true), "SELECT id, user_id, username, memory, guild_id, channel_id, created_at, updated_at\n                     FROM memories\n                     WHERE user_id = ? AND guild_id = ?\n                     ORDER BY created_at DESC\n                     LIMIT ?");
    assert_eq!(sqlite_memories_sql(false), "SELECT id, user_id, username, memory, guild_id, channel_id, created_at, updated_at\n                     FROM memories\n                     WHERE user_id = ?\n                     ORDER BY created_at DESC\n                     LIMIT ?");
}

#[test]
fn sqlite_memory_search_queries_match_the_fixed_texts() {
    assert_eq!(sqlite_memory_search_sql(true, true), "SELECT m.id, m.user_id, m.username, m.memory, m.guild_id, m.channel_id, m.created_at, m.updated_at\n                     FROM memories m\n                     JOIN memories_fts ON memories_fts.rowid = m.id\n                     WHERE memories_fts MATCH ? AND m.user_id = ? AND m.guild_id = ?\n                     ORDER BY m.created_at DESC\n                     LIMIT ?");
    assert_eq!(sqlite_memory_search_sql(true, false), "SELECT m.id, m.user_id, m.username, m.memory, m.guild_id, m.channel_id, m.created_at, m.updated_at\n                     FROM memories m\n                     JOIN memories_fts ON memories_fts.rowid = m.id\n                     WHERE memories_fts MATCH ? AND m.user_id = ?\n                     ORDER BY m.created_at DESC\n                     LIMIT ?");
    assert_eq!(sqlite_memory_search_sql(false, true), "SELECT m.id, m.user_id, m.username, m.memory, m.guild_id, m.channel_id, m.created_at, m.updated_at\n                     FROM memories m\n                     JOIN memories_fts ON memories_fts.rowid = m.id\n                     WHERE memories_fts MATCH ? AND m.guild_id = ?\n                     ORDER BY m.created_at DESC\n                     LIMIT ?");
    assert_eq!(sqlite_memory_search_sql(false, false), "SELECT m.id, m.user_id, m.username, m.memory, m.guild_id, m.channel_id, m.created_at, m.updated_at\n                     FROM memories m\n                     JOIN memories_fts ON memories_fts.rowid = m.id\n                     WHERE memories_fts MATCH ?\n                     ORDER BY m.created_at DESC\n                     LIMIT ?");
}

#[test]
fn postgres_full_text_queries_keep_their_fixed_start() {
    assert_eq!(
        postgres_similar_messages_sql(false, false),
        format!("{} ORDER BY similarity_score DESC, created_at DESC LIMIT $2", "SELECT id, discord_message_id, content, author_id, author_name, message_type, guild_id, channel_id, created_at, updated_at,\n             ts_rank(to_tsvector('english', content), plainto_tsquery('english', $1)) as similarity_score\n             FROM messages\n             WHERE to_tsvector('english', content) @@ plainto_tsquery('english', $1)")
    );
    assert_eq!(
        postgres_memory_search_sql(false, false, 9),
        format!("{} ORDER BY similarity_score DESC, created_at DESC LIMIT 9", "SELECT id, user_id, username, memory, guild_id, channel_id, created_at, updated_at,\n             ts_rank(to_tsvector('english', memory), plainto_tsquery('english', $1)) as similarity_score\n             FROM memories\n             WHERE to_tsvector('english', memory) @@ plainto_tsquery('english', $1)")
    );
}
