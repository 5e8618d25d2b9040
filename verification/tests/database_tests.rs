use veebot::database::{
    postgres_cleanup_sql, postgres_memories_sql, postgres_memory_search_sql,
    postgres_recent_messages_sql, postgres_similar_messages_sql, schema_statements,
    sqlite_age_modifier, DatabaseError, MessageType, Timestamp,
};

#[test]
fn law_message_type_round_trip_on_values() {
    for t in [MessageType::User, MessageType::Assistant] {
        assert_eq!(MessageType::from_db_str(&t.as_db_str()), t);
    }
    assert_eq!(MessageType::from_db_str("system"), MessageType::User);
}

#[test]
fn database_error_messages() {
    assert_eq!(DatabaseError::NotFound.message(), "Not found");
    assert_eq!(DatabaseError::Query("q".to_string()).message(), "Query error: q");
    assert_eq!(DatabaseError::Connection("c".to_string()).message(), "Database connection error: c");
}

#[test]
fn schema_is_cut_into_statements() {
    let schema = "CREATE TABLE a (x INT);\n-- comment\n;\n  CREATE INDEX i ON a(x)  ;\n";
    assert_eq!(schema_statements(schema), vec!["CREATE TABLE a (x INT)", "CREATE INDEX i ON a(x)"]);
}

#[test]
fn recent_messages_query() {
    let base = "SELECT id, discord_message_id, content, author_id, author_name, message_type, guild_id, channel_id, created_at, updated_at FROM messages";
    assert_eq!(postgres_recent_messages_sql(None, None, 5), format!("{} ORDER BY created_at DESC LIMIT 5", base));
    assert_eq!(
        postgres_recent_messages_sql(Some("g"), Some("a"), 7),
        format!("{} WHERE guild_id = 'g' AND author_id = 'a' ORDER BY created_at DESC LIMIT 7", base)
    );
    assert_eq!(
        postgres_recent_messages_sql(None, Some("a"), 1),
        format!("{} WHERE author_id = 'a' ORDER BY created_at DESC LIMIT 1", base)
    );
}

#[test]
fn similar_messages_query_numbers_its_parameters() {
    let q = postgres_similar_messages_sql(true, true);
    assert!(q.ends_with(" AND guild_id = $2 AND author_id = $3 ORDER BY similarity_score DESC, created_at DESC LIMIT $4"));
    let q = postgres_similar_messages_sql(false, true);
    assert!(q.ends_with("plainto_tsquery('english', $1) AND author_id = $2 ORDER BY similarity_score DESC, created_at DESC LIMIT $3"));
    let q = postgres_similar_messages_sql(false, false);
    assert!(q.ends_with("plainto_tsquery('english', $1) ORDER BY similarity_score DESC, created_at DESC LIMIT $2"));
    assert!(q.starts_with("SELECT id, discord_message_id, content,"));
}

#[test]
fn memory_queries() {
    assert!(postgres_memories_sql(true, 5).ends_with("WHERE user_id = $1 AND guild_id = $2 ORDER BY created_at DESC LIMIT 5"));
    assert!(postgres_memories_sql(false, 12).ends_with("WHERE user_id = $1 ORDER BY created_at DESC LIMIT 12"));
    let q = postgres_memory_search_sql(true, true, 3);
    assert!(q.ends_with(" AND user_id = $2 AND guild_id = $3 ORDER BY similarity_score DESC, created_at DESC LIMIT 3"));
    let q = postgres_memory_search_sql(false, true, 3);
    assert!(q.ends_with("$1) AND guild_id = $2 ORDER BY similarity_score DESC, created_at DESC LIMIT 3"));
}

#[test]
fn cleanup_queries() {
    assert_eq!(
        postgres_cleanup_sql(30),
        "DELETE FROM messages WHERE created_at < NOW() - INTERVAL '30 days' AND message_type = 'user'"
    );
    assert_eq!(sqlite_age_modifier(30), "-30 days");
    assert_eq!(sqlite_age_modifier(-2), "--2 days");
}

#[test]
fn timestamps_compare_by_seconds_then_nanoseconds() {
    let a = Timestamp { secs: 5, nanos: 1 };
    let b = Timestamp { secs: 5, nanos: 0 };
    assert!(a.is_later_than(&b));
    assert!(!b.is_later_than(&a));
    assert!(!a.is_later_than(&a));
}
