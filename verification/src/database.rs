//! Stored records, their text encodings, and the SQL that the PostgreSQL
//! backend builds.
//!
//! Running queries is I/O; the records that queries return, how a message
//! type is written to and read from a row, how a schema file is cut into
//! statements and which SQL text the PostgreSQL backend sends are decided
//! here.

use vstd::prelude::*;
use crate::text::{
    chars_of, decimal, i64_decimal, owned, signed_decimal, string_from_chars,
    string_views, trim_chars, trim_seq, u64_decimal,
};

verus! {

/// Errors of the database layer.
pub enum DatabaseError {
    /// The database could not be reached; the text says why.
    Connection(String),
    /// A query failed; the text says why.
    Query(String),
    /// The record does not exist.
    NotFound,
}

impl DatabaseError {
    /// The message shown for this error.
    pub fn message(&self) -> (res: String)
        ensures
            match self {
                DatabaseError::Connection(e) => res@ == "Database connection error: "@ + e@,
                DatabaseError::Query(e) => res@ == "Query error: "@ + e@,
                DatabaseError::NotFound => res@ == "Not found"@,
            },
    {
        match self {
            DatabaseError::Connection(e) => {
                let mut s = owned("Database connection error: ");
                s.append(e.as_str());
                s
            },
            DatabaseError::Query(e) => {
                let mut s = owned("Query error: ");
                s.append(e.as_str());
                s
            },
            DatabaseError::NotFound => owned("Not found"),
        }
    }
}

/// Who wrote a stored message.
#[derive(PartialEq, Eq, Structural, Clone, Copy, Debug)]
pub enum MessageType {
    User,
    Assistant,
}

impl MessageType {
    /// The text stored for this type in the `message_type` column.
    pub open spec fn db_text(self) -> Seq<char> {
        match self {
            MessageType::User => "user"@,
            MessageType::Assistant => "assistant"@,
        }
    }

    /// The text stored for this type.
    pub fn as_db_str(&self) -> (res: String)
        ensures
            res@ == self.db_text(),
    {
        match self {
            MessageType::User => owned("user"),
            MessageType::Assistant => owned("assistant"),
        }
    }

    /// The type read back from a `message_type` column: `"assistant"` is the
    /// assistant, anything else a user.
    pub fn from_db_str(s: &str) -> (res: MessageType)
        ensures
            res == (if s@ == "assistant"@ {
                MessageType::Assistant
            } else {
                MessageType::User
            }),
    {
        let chars = chars_of(s);
        let assistant = chars_of("assistant");
        if crate::text::chars_eq(&chars, &assistant) {
            MessageType::Assistant
        } else {
            MessageType::User
        }
    }
}

/// Reading back the stored text of a message type gives the same type.
pub proof fn law_message_type_round_trip(t: MessageType)
    ensures
        (if t.db_text() == "assistant"@ {
            MessageType::Assistant
        } else {
            MessageType::User
        }) == t,
{
    reveal_strlit("user");
    reveal_strlit("assistant");
    assert("user"@ != "assistant"@) by {
        assert("user"@.len() != "assistant"@.len());
    }
}

/// A point in time: seconds since the Unix epoch and nanoseconds within the second.
#[derive(PartialEq, Eq, Structural, Clone, Copy)]
pub struct Timestamp {
    pub secs: i64,
    pub nanos: u32,
}

impl Timestamp {
    /// This time is strictly later than `other`.
    pub open spec fn later_than(self, other: Timestamp) -> bool {
        self.secs > other.secs || (self.secs == other.secs && self.nanos > other.nanos)
    }

    /// Whether this time is strictly later than `other`.
    pub fn is_later_than(&self, other: &Timestamp) -> (res: bool)
        ensures
            res == self.later_than(*other),
    {
        self.secs > other.secs || (self.secs == other.secs && self.nanos > other.nanos)
    }
}

/// A stored message.
pub struct Message {
    pub id: i64,
    pub discord_message_id: Option<String>,
    pub content: String,
    pub author_id: String,
    pub author_name: String,
    pub message_type: MessageType,
    pub guild_id: Option<String>,
    pub channel_id: Option<String>,
    pub created_at: Timestamp,
    pub updated_at: Timestamp,
}

/// A stored birthday.
pub struct Birthday {
    pub user_id: String,
    pub username: String,
    pub day: i32,
    pub month: i32,
    pub year: Option<i32>,
    pub last_pinged_year: i32,
    pub created_at: Timestamp,
    pub updated_at: Timestamp,
}

/// A memory stored for a user.
pub struct Memory {
    pub id: i64,
    pub user_id: String,
    pub username: String,
    pub memory: String,
    pub guild_id: Option<String>,
    pub channel_id: Option<String>,
    pub created_at: Timestamp,
    pub updated_at: Timestamp,
}

/// A setting of a server.
pub struct ServerSetting {
    pub guild_id: String,
    pub setting_name: String,
    pub setting_value: Option<String>,
}

/// The birthday channel of a server.
pub struct BirthdayChannel {
    pub guild_id: String,
    pub channel_id: String,
}

/// What is stored for a new message.
pub struct StoreMessageData {
    pub discord_message_id: String,
    pub content: String,
    pub author_id: String,
    pub author_name: String,
    pub channel_id: String,
    pub guild_id: Option<String>,
    pub message_type: MessageType,
}

// ------------------------------------------------------------------
// Schema files
// ------------------------------------------------------------------

/// The pieces of `s` between the `;` separators, given that `cur` is the piece
/// already read (`str::split(';')`).
pub open spec fn pieces_from(s: Seq<char>, cur: Seq<char>) -> Seq<Seq<char>>
    decreases s.len(),
{
    if s.len() == 0 {
        seq![cur]
    } else if s[0] == ';' {
        seq![cur] + pieces_from(s.drop_first(), seq![])
    } else {
        pieces_from(s.drop_first(), cur.push(s[0]))
    }
}

/// A trimmed piece of a schema file is run when it is not empty and does not
/// start with a comment marker.
pub open spec fn is_statement(t: Seq<char>) -> bool {
    t.len() > 0 && !(t.len() >= 2 && t[0] == '-' && t[1] == '-')
}

/// The statements of a schema file: its `;`-separated pieces, trimmed, keeping
/// those that are not empty and do not start with `--`.
pub open spec fn statements_of(pieces: Seq<Seq<char>>) -> Seq<Seq<char>>
    decreases pieces.len(),
{
    if pieces.len() == 0 {
        seq![]
    } else {
        let t = trim_seq(pieces[0]);
        (if is_statement(t) {
            seq![t]
        } else {
            seq![]
        }) + statements_of(pieces.drop_first())
    }
}

proof fn lemma_statements_single(x: Seq<char>)
    ensures
        statements_of(seq![x]) == (if is_statement(trim_seq(x)) {
            seq![trim_seq(x)]
        } else {
            Seq::<Seq<char>>::empty()
        }),
{
    assert(seq![x].drop_first() =~= Seq::<Seq<char>>::empty());
    assert(statements_of(Seq::<Seq<char>>::empty()) == Seq::<Seq<char>>::empty());
    assert(seq![x][0] == x);
    if is_statement(trim_seq(x)) {
        assert(seq![trim_seq(x)] + Seq::<Seq<char>>::empty() =~= seq![trim_seq(x)]);
    } else {
        assert(Seq::<Seq<char>>::empty() + Seq::<Seq<char>>::empty() =~= Seq::<Seq<char>>::empty());
    }
}

proof fn lemma_statements_append(a: Seq<Seq<char>>, b: Seq<Seq<char>>)
    ensures
        statements_of(a + b) == statements_of(a) + statements_of(b),
    decreases a.len(),
{
    if a.len() == 0 {
        assert(a + b =~= b);
        assert(statements_of(a) + statements_of(b) =~= statements_of(b));
    } else {
        assert((a + b).drop_first() =~= a.drop_first() + b);
        lemma_statements_append(a.drop_first(), b);
        assert((a + b)[0] == a[0]);
        let t = trim_seq(a[0]);
        let head: Seq<Seq<char>> = if is_statement(t) {
            seq![t]
        } else {
            seq![]
        };
        assert(head + (statements_of(a.drop_first()) + statements_of(b)) =~= (head
            + statements_of(a.drop_first())) + statements_of(b));
    }
}

/// The statements that initialising a database runs, in order: the pieces of
/// the schema between `;`, trimmed, without empty ones and those starting with `--`.
pub fn schema_statements(schema: &str) -> (res: Vec<String>)
    ensures
        string_views(res@) == statements_of(pieces_from(schema@, seq![])),
{
    let chars = chars_of(schema);
    let mut out: Vec<String> = Vec::new();
    let mut cur: Vec<char> = Vec::new();
    let mut i: usize = 0;
    let ghost target = statements_of(pieces_from(schema@, seq![]));
    assert(chars@.skip(0) =~= chars@);
    assert(string_views(out@) =~= Seq::<Seq<char>>::empty());
    while i < chars.len()
        invariant
            i <= chars.len(),
            chars@ == schema@,
            string_views(out@) + statements_of(pieces_from(chars@.skip(i as int), cur@))
                == target,
        decreases chars.len() - i,
    {
        let ghost rest = chars@.skip(i as int);
        assert(rest.drop_first() =~= chars@.skip(i + 1));
        assert(rest[0] == chars@[i as int]);
        if chars[i] == ';' {
            let ghost before = string_views(out@);
            let ghost piece = cur@;
            proof {
                lemma_statements_append(seq![piece], pieces_from(chars@.skip(i + 1), seq![]));
                assert(seq![piece].drop_first() =~= Seq::<Seq<char>>::empty());
                assert(pieces_from(rest, piece) == seq![piece] + pieces_from(chars@.skip(i + 1), seq![]));
                lemma_statements_single(piece);
            }
            let t = trim_chars(&cur);
            if is_statement_chars(&t) {
                out.push(string_from_chars(&t));
                assert(string_views(out@) =~= before + seq![t@]);
                assert(statements_of(seq![piece]) =~= seq![t@]);
            } else {
                assert(string_views(out@) =~= before);
                assert(statements_of(seq![piece]) =~= Seq::<Seq<char>>::empty());
            }
            cur = Vec::new();
            assert(cur@ =~= Seq::<char>::empty());
            assert(string_views(out@) + statements_of(
                pieces_from(chars@.skip(i + 1), cur@),
            ) =~= target);
        } else {
            cur.push(chars[i]);
        }
        i += 1;
    }
    let ghost before = string_views(out@);
    assert(pieces_from(chars@.skip(i as int), cur@) =~= seq![cur@]);
    proof {
        lemma_statements_single(cur@);
    }
    assert(seq![cur@].drop_first() =~= Seq::<Seq<char>>::empty());
    let t = trim_chars(&cur);
    if is_statement_chars(&t) {
        out.push(string_from_chars(&t));
        assert(string_views(out@) =~= before + seq![t@]);
        assert(statements_of(seq![cur@]) =~= seq![t@]);
    } else {
        assert(string_views(out@) =~= before);
        assert(statements_of(seq![cur@]) =~= Seq::<Seq<char>>::empty());
    }
    out
}

fn is_statement_chars(t: &Vec<char>) -> (res: bool)
    ensures
        res == is_statement(t@),
{
    t.len() > 0 && !(t.len() >= 2 && t[0] == '-' && t[1] == '-')
}

// ------------------------------------------------------------------
// PostgreSQL queries
// ------------------------------------------------------------------

/// The columns of a stored message.
pub open spec fn message_columns() -> Seq<char> {
    "id, discord_message_id, content, author_id, author_name, message_type, guild_id, channel_id, created_at, updated_at"@
}

/// The query for the latest messages of a guild and/or author: the values are
/// written into the SQL text between single quotes, as the PostgreSQL backend does.
pub open spec fn recent_messages_sql(
    guild_id: Option<Seq<char>>,
    author_id: Option<Seq<char>>,
    limit: u64,
) -> Seq<char> {
    let base = "SELECT "@ + message_columns() + " FROM messages"@;
    let g = match guild_id {
        Some(g) => seq!["guild_id = '"@ + g + "'"@],
        None => seq![],
    };
    let a = match author_id {
        Some(a) => seq!["author_id = '"@ + a + "'"@],
        None => seq![],
    };
    let conds = g + a;
    let filter = if conds.len() == 0 {
        seq![]
    } else if conds.len() == 1 {
        " WHERE "@ + conds[0]
    } else {
        " WHERE "@ + conds[0] + " AND "@ + conds[1]
    };
    base + filter + " ORDER BY created_at DESC LIMIT "@ + decimal(limit as nat)
}

/// The SQL text that the PostgreSQL backend runs to list recent messages.
pub fn postgres_recent_messages_sql(guild_id: Option<&str>, author_id: Option<&str>, limit: u64) -> (res: String)
    ensures
        res@ == recent_messages_sql(
            match guild_id {
                Some(g) => Some(g@),
                None => None,
            },
            match author_id {
                Some(a) => Some(a@),
                None => None,
            },
            limit,
        ),
{
    let mut sql = owned("SELECT id, discord_message_id, content, author_id, author_name, message_type, guild_id, channel_id, created_at, updated_at FROM messages");
    let mut conditions: Vec<String> = Vec::new();
    match guild_id {
        Some(g) => {
            let mut c = owned("guild_id = '");
            c.append(g);
            c.append("'");
            conditions.push(c);
        },
        None => {},
    }
    match author_id {
        Some(a) => {
            let mut c = owned("author_id = '");
            c.append(a);
            c.append("'");
            conditions.push(c);
        },
        None => {},
    }
    if conditions.len() > 0 {
        sql.append(" WHERE ");
        sql.append(conditions[0].as_str());
        if conditions.len() > 1 {
            sql.append(" AND ");
            sql.append(conditions[1].as_str());
        }
    }
    sql.append(" ORDER BY created_at DESC LIMIT ");
    let digits = u64_decimal(limit);
    let d = string_from_chars(&digits);
    sql.append(d.as_str());
    proof {
        reveal_strlit("SELECT id, discord_message_id, content, author_id, author_name, message_type, guild_id, channel_id, created_at, updated_at FROM messages");
        reveal_strlit("SELECT ");
        reveal_strlit(" FROM messages");
        reveal_strlit("id, discord_message_id, content, author_id, author_name, message_type, guild_id, channel_id, created_at, updated_at");
    }
    assert(("SELECT "@ + message_columns() + " FROM messages"@) =~= "SELECT id, discord_message_id, content, author_id, author_name, message_type, guild_id, channel_id, created_at, updated_at FROM messages"@);
    sql
}

/// The SQL text that deletes user messages older than `days_old` days on PostgreSQL.
pub fn postgres_cleanup_sql(days_old: i32) -> (res: String)
    ensures
        res@ == "DELETE FROM messages WHERE created_at < NOW() - INTERVAL '"@ + signed_decimal(
            days_old as int,
        ) + " days' AND message_type = 'user'"@,
{
    let mut sql = owned("DELETE FROM messages WHERE created_at < NOW() - INTERVAL '");
    let d = string_from_chars(&i64_decimal(days_old as i64));
    sql.append(d.as_str());
    sql.append(" days' AND message_type = 'user'");
    sql
}

/// The age modifier that the SQLite backend binds when deleting old messages.
pub fn sqlite_age_modifier(days_old: i32) -> (res: String)
    ensures
        res@ == "-"@ + signed_decimal(days_old as int) + " days"@,
{
    let mut s = owned("-");
    let d = string_from_chars(&i64_decimal(days_old as i64));
    s.append(d.as_str());
    s.append(" days");
    s
}

/// The start of the full-text query for messages like a search text (`$1`).
pub open spec fn similar_messages_base() -> Seq<char> {
    "SELECT id, discord_message_id, content, author_id, author_name, message_type, guild_id, channel_id, created_at, updated_at,\n             ts_rank(to_tsvector('english', content), plainto_tsquery('english', $1)) as similarity_score\n             FROM messages\n             WHERE to_tsvector('english', content) @@ plainto_tsquery('english', $1)"@
}

/// The full-text query for messages like a search text: the text is `$1`,
/// then come the guild and the author when they are given, each with the
/// next parameter number, and the limit last.
pub open spec fn similar_messages_sql(has_guild: bool, has_author: bool) -> Seq<char> {
    let author_index: nat = if has_guild {
        3
    } else {
        2
    };
    let limit_index: nat = if has_author {
        author_index + 1
    } else {
        author_index
    };
    similar_messages_base() + (if has_guild {
        " AND guild_id = $2"@
    } else {
        Seq::empty()
    }) + (if has_author {
        " AND author_id = $"@ + decimal(author_index)
    } else {
        Seq::empty()
    }) + " ORDER BY similarity_score DESC, created_at DESC LIMIT $"@ + decimal(limit_index)
}

fn decimal_text(n: u64) -> (res: String)
    ensures
        res@ == decimal(n as nat),
{
    string_from_chars(&u64_decimal(n))
}

/// The SQL text that the PostgreSQL backend runs to find messages like a
/// search text; its parameters are bound in the order text, guild, author, limit.
pub fn postgres_similar_messages_sql(has_guild: bool, has_author: bool) -> (res: String)
    ensures
        res@ == similar_messages_sql(has_guild, has_author),
{
    let mut sql = owned("SELECT id, discord_message_id, content, author_id, author_name, message_type, guild_id, channel_id, created_at, updated_at,\n             ts_rank(to_tsvector('english', content), plainto_tsquery('english', $1)) as similarity_score\n             FROM messages\n             WHERE to_tsvector('english', content) @@ plainto_tsquery('english', $1)");
    let mut param_index: u64 = 2;
    if has_guild {
        sql.append(" AND guild_id = $");
        sql.append(decimal_text(param_index).as_str());
        param_index += 1;
    }
    let ghost after_guild = sql@;
    if has_author {
        sql.append(" AND author_id = $");
        sql.append(decimal_text(param_index).as_str());
        param_index += 1;
    }
    sql.append(" ORDER BY similarity_score DESC, created_at DESC LIMIT $");
    sql.append(decimal_text(param_index).as_str());
    proof {
        reveal_strlit(" AND guild_id = $");
        reveal_strlit(" AND guild_id = $2");
        let two: nat = 2;
        assert(decimal(two) =~= seq!['2']);
        if has_guild {
            assert(" AND guild_id = $"@ + decimal(two) =~= " AND guild_id = $2"@);
        }
    }
    sql
}

/// The query for a user's memories, in a guild or anywhere, newest first.
pub open spec fn memories_sql(has_guild: bool, limit: nat) -> Seq<char> {
    (if has_guild {
        "SELECT id, user_id, username, memory, guild_id, channel_id, created_at, updated_at FROM memories WHERE user_id = $1 AND guild_id = $2 ORDER BY created_at DESC LIMIT "@
    } else {
        "SELECT id, user_id, username, memory, guild_id, channel_id, created_at, updated_at FROM memories WHERE user_id = $1 ORDER BY created_at DESC LIMIT "@
    }) + decimal(limit)
}

/// The SQL text that the PostgreSQL backend runs to list a user's memories.
pub fn postgres_memories_sql(has_guild: bool, limit: usize) -> (res: String)
    ensures
        res@ == memories_sql(has_guild, limit as nat),
{
    let mut sql = if has_guild {
        owned("SELECT id, user_id, username, memory, guild_id, channel_id, created_at, updated_at FROM memories WHERE user_id = $1 AND guild_id = $2 ORDER BY created_at DESC LIMIT ")
    } else {
        owned("SELECT id, user_id, username, memory, guild_id, channel_id, created_at, updated_at FROM memories WHERE user_id = $1 ORDER BY created_at DESC LIMIT ")
    };
    sql.append(decimal_text(limit as u64).as_str());
    sql
}

/// The start of the full-text query for memories like a search text (`$1`).
pub open spec fn memory_search_base() -> Seq<char> {
    "SELECT id, user_id, username, memory, guild_id, channel_id, created_at, updated_at,\n             ts_rank(to_tsvector('english', memory), plainto_tsquery('english', $1)) as similarity_score\n             FROM memories\n             WHERE to_tsvector('english', memory) @@ plainto_tsquery('english', $1)"@
}

/// The full-text query for memories like a search text, as the PostgreSQL
/// backend writes it: the user and the guild are named by the parameter
/// numbers that follow `$1`, and the limit is written into the text.
pub open spec fn memory_search_sql(has_user: bool, has_guild: bool, limit: nat) -> Seq<char> {
    let guild_index: nat = if has_user {
        3
    } else {
        2
    };
    memory_search_base() + (if has_user {
        " AND user_id = $2"@
    } else {
        Seq::empty()
    }) + (if has_guild {
        " AND guild_id = $"@ + decimal(guild_index)
    } else {
        Seq::empty()
    }) + " ORDER BY similarity_score DESC, created_at DESC LIMIT "@ + decimal(limit)
}

/// The SQL text that the PostgreSQL backend runs to find memories like a
/// search text; only the text is bound to it, as `$1`.
pub fn postgres_memory_search_sql(has_user: bool, has_guild: bool, limit: usize) -> (res: String)
    ensures
        res@ == memory_search_sql(has_user, has_guild, limit as nat),
{
    let mut sql = owned("SELECT id, user_id, username, memory, guild_id, channel_id, created_at, updated_at,\n             ts_rank(to_tsvector('english', memory), plainto_tsquery('english', $1)) as similarity_score\n             FROM memories\n             WHERE to_tsvector('english', memory) @@ plainto_tsquery('english', $1)");
    let mut param_index: u64 = 2;
    if has_user {
        sql.append(" AND user_id = $");
        sql.append(decimal_text(param_index).as_str());
        param_index += 1;
    }
    if has_guild {
        sql.append(" AND guild_id = $");
        sql.append(decimal_text(param_index).as_str());
    }
    sql.append(" ORDER BY similarity_score DESC, created_at DESC LIMIT ");
    sql.append(decimal_text(limit as u64).as_str());
    proof {
        reveal_strlit(" AND user_id = $");
        reveal_strlit(" AND user_id = $2");
        let two: nat = 2;
        assert(decimal(two) =~= seq!['2']);
        if has_user {
            assert(" AND user_id = $"@ + decimal(two) =~= " AND user_id = $2"@);
        }
    }
    sql
}

// ------------------------------------------------------------------
// SQLite queries
// ------------------------------------------------------------------

/// The line break and indentation between the clauses of a SQLite query.
pub open spec fn sqlite_break() -> Seq<char> {
    "\n                     "@
}

/// The full-text query for messages like a search text on SQLite. Its
/// parameters are the text, the guild and the author when they are given,
/// and the limit.
pub open spec fn sqlite_similar_messages_text(has_guild: bool, has_author: bool) -> Seq<char> {
    "SELECT m.id, m.discord_message_id, m.content, m.author_id, m.author_name, m.message_type, m.guild_id, m.channel_id, m.created_at, m.updated_at"@
        + sqlite_break() + "FROM messages m"@ + sqlite_break()
        + "JOIN messages_fts ON messages_fts.rowid = m.id"@ + sqlite_break()
        + "WHERE messages_fts MATCH ?"@ + (if has_guild {
        " AND m.guild_id = ?"@
    } else {
        Seq::empty()
    }) + (if has_author {
        " AND m.author_id = ?"@
    } else {
        Seq::empty()
    }) + sqlite_break() + "ORDER BY m.created_at DESC"@ + sqlite_break() + "LIMIT ?"@
}

/// The SQL text that the SQLite backend runs to find messages like a search text.
pub fn sqlite_similar_messages_sql(has_guild: bool, has_author: bool) -> (res: String)
    ensures
        res@ == sqlite_similar_messages_text(has_guild, has_author),
{
    let mut sql = owned("SELECT m.id, m.discord_message_id, m.content, m.author_id, m.author_name, m.message_type, m.guild_id, m.channel_id, m.created_at, m.updated_at");
    sql.append("\n                     ");
    sql.append("FROM messages m");
    sql.append("\n                     ");
    sql.append("JOIN messages_fts ON messages_fts.rowid = m.id");
    sql.append("\n                     ");
    sql.append("WHERE messages_fts MATCH ?");
    let ghost head = sql@;
    if has_guild {
        sql.append(" AND m.guild_id = ?");
    }
    let ghost with_guild = sql@;
    if has_author {
        sql.append(" AND m.author_id = ?");
    }
    let ghost with_author = sql@;
    assert(with_guild == head + (if has_guild {
        " AND m.guild_id = ?"@
    } else {
        Seq::<char>::empty()
    }));
    assert(with_author == with_guild + (if has_author {
        " AND m.author_id = ?"@
    } else {
        Seq::<char>::empty()
    }));
    sql.append("\n                     ");
    sql.append("ORDER BY m.created_at DESC");
    sql.append("\n                     ");
    sql.append("LIMIT ?");
    sql
}

/// The query for the latest messages of a guild and/or author on SQLite.
/// Its parameters are the guild and the author when they are given, and the limit.
pub open spec fn sqlite_recent_messages_text(has_guild: bool, has_author: bool) -> Seq<char> {
    let filter = if has_guild && has_author {
        sqlite_break() + "WHERE guild_id = ? AND author_id = ?"@
    } else if has_guild {
        sqlite_break() + "WHERE guild_id = ?"@
    } else if has_author {
        sqlite_break() + "WHERE author_id = ?"@
    } else {
        Seq::empty()
    };
    "SELECT "@ + message_columns() + sqlite_break() + "FROM messages"@ + filter + sqlite_break()
        + "ORDER BY created_at DESC"@ + sqlite_break() + "LIMIT ?"@
}

/// The SQL text that the SQLite backend runs to list recent messages.
pub fn sqlite_recent_messages_sql(has_guild: bool, has_author: bool) -> (res: String)
    ensures
        res@ == sqlite_recent_messages_text(has_guild, has_author),
{
    let mut sql = owned("SELECT ");
    sql.append("id, discord_message_id, content, author_id, author_name, message_type, guild_id, channel_id, created_at, updated_at");
    sql.append("\n                     ");
    sql.append("FROM messages");
    let ghost head = sql@;
    if has_guild && has_author {
        sql.append("\n                     ");
        sql.append("WHERE guild_id = ? AND author_id = ?");
    } else if has_guild {
        sql.append("\n                     ");
        sql.append("WHERE guild_id = ?");
    } else if has_author {
        sql.append("\n                     ");
        sql.append("WHERE author_id = ?");
    }
    let ghost filtered = sql@;
    assert(filtered == head + (if has_guild && has_author {
        sqlite_break() + "WHERE guild_id = ? AND author_id = ?"@
    } else if has_guild {
        sqlite_break() + "WHERE guild_id = ?"@
    } else if has_author {
        sqlite_break() + "WHERE author_id = ?"@
    } else {
        Seq::<char>::empty()
    }));
    sql.append("\n                     ");
    sql.append("ORDER BY created_at DESC");
    sql.append("\n                     ");
    sql.append("LIMIT ?");
    sql
}

/// The query for a user's memories on SQLite, in a guild or anywhere. Its
/// parameters are the user, the guild when it is given, and the limit.
pub open spec fn sqlite_memories_text(has_guild: bool) -> Seq<char> {
    "SELECT id, user_id, username, memory, guild_id, channel_id, created_at, updated_at"@
        + sqlite_break() + "FROM memories"@ + sqlite_break() + (if has_guild {
        "WHERE user_id = ? AND guild_id = ?"@
    } else {
        "WHERE user_id = ?"@
    }) + sqlite_break() + "ORDER BY created_at DESC"@ + sqlite_break() + "LIMIT ?"@
}

/// The SQL text that the SQLite backend runs to list a user's memories.
pub fn sqlite_memories_sql(has_guild: bool) -> (res: String)
    ensures
        res@ == sqlite_memories_text(has_guild),
{
    let mut sql = owned("SELECT id, user_id, username, memory, guild_id, channel_id, created_at, updated_at");
    sql.append("\n                     ");
    sql.append("FROM memories");
    sql.append("\n                     ");
    if has_guild {
        sql.append("WHERE user_id = ? AND guild_id = ?");
    } else {
        sql.append("WHERE user_id = ?");
    }
    sql.append("\n                     ");
    sql.append("ORDER BY created_at DESC");
    sql.append("\n                     ");
    sql.append("LIMIT ?");
    sql
}

/// The full-text query for memories like a search text on SQLite. Its
/// parameters are the text, the user and the guild when they are given, and the limit.
pub open spec fn sqlite_memory_search_text(has_user: bool, has_guild: bool) -> Seq<char> {
    "SELECT m.id, m.user_id, m.username, m.memory, m.guild_id, m.channel_id, m.created_at, m.updated_at"@
        + sqlite_break() + "FROM memories m"@ + sqlite_break()
        + "JOIN memories_fts ON memories_fts.rowid = m.id"@ + sqlite_break()
        + "WHERE memories_fts MATCH ?"@ + (if has_user {
        " AND m.user_id = ?"@
    } else {
        Seq::empty()
    }) + (if has_guild {
        " AND m.guild_id = ?"@
    } else {
        Seq::empty()
    }) + sqlite_break() + "ORDER BY m.created_at DESC"@ + sqlite_break() + "LIMIT ?"@
}

/// The SQL text that the SQLite backend runs to find memories like a search text.
pub fn sqlite_memory_search_sql(has_user: bool, has_guild: bool) -> (res: String)
    ensures
        res@ == sqlite_memory_search_text(has_user, has_guild),
{
    let mut sql = owned("SELECT m.id, m.user_id, m.username, m.memory, m.guild_id, m.channel_id, m.created_at, m.updated_at");
    sql.append("\n                     ");
    sql.append("FROM memories m");
    sql.append("\n                     ");
    sql.append("JOIN memories_fts ON memories_fts.rowid = m.id");
    sql.append("\n                     ");
    sql.append("WHERE memories_fts MATCH ?");
    let ghost head = sql@;
    if has_user {
        sql.append(" AND m.user_id = ?");
    }
    let ghost with_user = sql@;
    if has_guild {
        sql.append(" AND m.guild_id = ?");
    }
    let ghost with_guild = sql@;
    assert(with_user == head + (if has_user {
        " AND m.user_id = ?"@
    } else {
        Seq::<char>::empty()
    }));
    assert(with_guild == with_user + (if has_guild {
        " AND m.guild_id = ?"@
    } else {
        Seq::<char>::empty()
    }));
    sql.append("\n                     ");
    sql.append("ORDER BY m.created_at DESC");
    sql.append("\n                     ");
    sql.append("LIMIT ?");
    sql
}

} // verus!
