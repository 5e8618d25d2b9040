//! What the bot decides when Discord events come in: which command was
//! called, what each command answers, whether a message gets a reply, and
//! the texts and fields that are shown.
//!
//! Talking to Discord and to the database is I/O; the handlers ask the
//! functions here what to do and what to say.

use vstd::prelude::*;
use crate::config::{pair_views, parsed_unsigned, DatabaseType};
use crate::context::{opt_text, Statistics};
use crate::database::{Birthday, ServerSetting};
use crate::search::{GameInfo, SearchError};
use crate::text::{
    chars_eq, chars_of, decimal, join_strings, joined, owned, signed_decimal, starts_with, starts_with_seq,
    string_from_chars, string_views, u128_decimal, u64_decimal, i64_decimal,
};

verus! {

/// The first `max_len` characters of `value` (all of them when it is shorter).
pub fn truncate(value: &str, max_len: usize) -> (res: String)
    ensures
        res@ == value@.take(if value@.len() < max_len {
            value@.len() as int
        } else {
            max_len as int
        }),
{
    let chars = chars_of(value);
    let n: usize = if chars.len() < max_len {
        chars.len()
    } else {
        max_len
    };
    let mut out = String::new();
    let mut i: usize = 0;
    while i < n
        invariant
            i <= n <= chars.len(),
            out@ == chars@.take(i as int),
        decreases n - i,
    {
        crate::text::push_char(&mut out, chars[i]);
        assert(chars@.take(i as int).push(chars@[i as int]) =~= chars@.take(i + 1));
        i += 1;
    }
    out
}

fn decimal_string(n: u64) -> (res: String)
    ensures
        res@ == decimal(n as nat),
{
    string_from_chars(&u64_decimal(n))
}

fn signed_string(n: i64) -> (res: String)
    ensures
        res@ == signed_decimal(n as int),
{
    string_from_chars(&i64_decimal(n))
}

// ------------------------------------------------------------------
// Commands
// ------------------------------------------------------------------

/// The slash commands of the bot.
#[derive(PartialEq, Eq, Structural, Clone, Copy, Debug)]
pub enum BotCommand {
    Search,
    Info,
    Ping,
    Ask,
    Stats,
    Help,
    Birthday,
    Settings,
    Location,
    Unknown,
}

/// The command a name calls.
pub open spec fn command_named(name: Seq<char>) -> BotCommand {
    if name == "search"@ {
        BotCommand::Search
    } else if name == "info"@ {
        BotCommand::Info
    } else if name == "ping"@ {
        BotCommand::Ping
    } else if name == "ask"@ {
        BotCommand::Ask
    } else if name == "stats"@ {
        BotCommand::Stats
    } else if name == "help"@ {
        BotCommand::Help
    } else if name == "birthday"@ {
        BotCommand::Birthday
    } else if name == "settings"@ {
        BotCommand::Settings
    } else if name == "location"@ {
        BotCommand::Location
    } else {
        BotCommand::Unknown
    }
}

fn is_named(name: &Vec<char>, word: &str) -> (res: bool)
    ensures
        res == (name@ == word@),
{
    let w = chars_of(word);
    chars_eq(name, &w)
}

/// The command called by `name`.
pub fn command_of(name: &str) -> (res: BotCommand)
    ensures
        res == command_named(name@),
{
    let n = chars_of(name);
    if is_named(&n, "search") {
        BotCommand::Search
    } else if is_named(&n, "info") {
        BotCommand::Info
    } else if is_named(&n, "ping") {
        BotCommand::Ping
    } else if is_named(&n, "ask") {
        BotCommand::Ask
    } else if is_named(&n, "stats") {
        BotCommand::Stats
    } else if is_named(&n, "help") {
        BotCommand::Help
    } else if is_named(&n, "birthday") {
        BotCommand::Birthday
    } else if is_named(&n, "settings") {
        BotCommand::Settings
    } else if is_named(&n, "location") {
        BotCommand::Location
    } else {
        BotCommand::Unknown
    }
}

/// The answer to a command the bot does not know.
pub fn unknown_command_reply() -> (res: String)
    ensures
        res@ == "Unknown command"@,
{
    owned("Unknown command")
}

/// The answer to a server-only command used elsewhere.
pub open spec fn server_only_text() -> Seq<char> {
    "This command can only be used in a server"@
}

/// The answer to a server-only command used outside a server.
pub fn server_only_reply() -> (res: String)
    ensures
        res@ == server_only_text(),
{
    owned("This command can only be used in a server")
}

// ------------------------------------------------------------------
// /ping, /info, /stats, /help
// ------------------------------------------------------------------

/// The colour of the latency report: green under 100 ms, yellow under 250 ms, red otherwise.
pub fn latency_color(roundtrip_ms: u128) -> (res: u32)
    ensures
        res == (if roundtrip_ms < 100 {
            0x00FF00u32
        } else if roundtrip_ms < 250 {
            0xFFFF00u32
        } else {
            0xFF0000u32
        }),
{
    if roundtrip_ms < 100 {
        0x00FF00
    } else if roundtrip_ms < 250 {
        0xFFFF00
    } else {
        0xFF0000
    }
}

/// The fields of the latency report.
pub fn ping_fields(roundtrip_ms: u128) -> (res: Vec<(String, String)>)
    ensures
        pair_views(res@) == seq![
            ("Roundtrip Latency"@, decimal(roundtrip_ms as nat) + "ms"@),
            ("Gateway Heartbeat"@, "Cache unavailable"@),
        ],
{
    let mut ms = string_from_chars(&u128_decimal(roundtrip_ms));
    ms.append("ms");
    let mut v: Vec<(String, String)> = Vec::new();
    v.push((owned("Roundtrip Latency"), ms));
    v.push((owned("Gateway Heartbeat"), owned("Cache unavailable")));
    assert(pair_views(v@) =~= seq![
        ("Roundtrip Latency"@, decimal(roundtrip_ms as nat) + "ms"@),
        ("Gateway Heartbeat"@, "Cache unavailable"@),
    ]);
    v
}

/// An uptime as hours, minutes and seconds: `{h}h {m}m {s}s`.
pub open spec fn uptime_text(secs: nat) -> Seq<char> {
    decimal(secs / 3600) + "h "@ + decimal((secs % 3600) / 60) + "m "@ + decimal(secs % 60) + "s"@
}

/// Writes an uptime given in seconds.
pub fn format_uptime(secs: u64) -> (res: String)
    ensures
        res@ == uptime_text(secs as nat),
{
    let mut out = decimal_string(secs / 3600);
    out.append("h ");
    out.append(decimal_string((secs % 3600) / 60).as_str());
    out.append("m ");
    out.append(decimal_string(secs % 60).as_str());
    out.append("s");
    out
}

/// What `/info` shows about the database: its type when it is on.
pub open spec fn database_status_text(enabled: bool, t: DatabaseType) -> Seq<char> {
    if enabled {
        "Enabled ("@ + t.name_text() + ")"@
    } else {
        "Disabled"@
    }
}

/// `/info` shows the message statistics only in semantic mode with the database on.
pub fn info_shows_statistics(is_semantic: bool, database_enabled: bool) -> (res: bool)
    ensures
        res == (is_semantic && database_enabled),
{
    is_semantic && database_enabled
}

/// The state the bot reports in `/info`.
pub struct BotStatus {
    pub ai_model: Option<String>,
    pub is_semantic: bool,
    pub uptime_secs: u64,
    pub database_enabled: bool,
    pub database_type: DatabaseType,
    pub mentions_enabled: bool,
    pub semantic_search_enabled: bool,
}

/// The fields `/info` shows for a status, with the statistics when they were read.
pub open spec fn info_fields_of(s: BotStatus, stats: Option<Statistics>) -> Seq<(Seq<char>, Seq<char>)> {
    let base = seq![
        ("Model"@, match s.ai_model {
            Some(m) => m@,
            None => "Not configured"@,
        }),
        ("Mode"@, if s.is_semantic {
            "🔮 Semantic"@
        } else {
            "💬 Simple"@
        }),
        ("Uptime"@, uptime_text(s.uptime_secs as nat)),
        ("Database"@, database_status_text(s.database_enabled, s.database_type)),
        ("Mentions"@, if s.mentions_enabled {
            "✅ Enabled"@
        } else {
            "❌ Disabled"@
        }),
        ("Semantic"@, if s.semantic_search_enabled {
            "✅ Enabled"@
        } else {
            "❌ Disabled"@
        }),
    ];
    match stats {
        Some(st) => if s.is_semantic && s.database_enabled {
            base + seq![
                ("Total Messages"@, signed_decimal(st.total_messages as int)),
                ("Channels"@, signed_decimal(st.unique_channels as int)),
            ]
        } else {
            base
        },
        None => base,
    }
}

/// The fields of the `/info` report.
pub fn info_fields(status: &BotStatus, stats: Option<&Statistics>) -> (res: Vec<(String, String)>)
    ensures
        pair_views(res@) == info_fields_of(
            *status,
            match stats {
                Some(st) => Some(*st),
                None => None,
            },
        ),
{
    let mut v: Vec<(String, String)> = Vec::new();
    let model = match &status.ai_model {
        Some(m) => m.clone(),
        None => owned("Not configured"),
    };
    v.push((owned("Model"), model));
    let mode = if status.is_semantic {
        owned("🔮 Semantic")
    } else {
        owned("💬 Simple")
    };
    v.push((owned("Mode"), mode));
    v.push((owned("Uptime"), format_uptime(status.uptime_secs)));
    let database = if status.database_enabled {
        let mut d = owned("Enabled (");
        d.append(status.database_type.name().as_str());
        d.append(")");
        d
    } else {
        owned("Disabled")
    };
    v.push((owned("Database"), database));
    let mentions = if status.mentions_enabled {
        owned("✅ Enabled")
    } else {
        owned("❌ Disabled")
    };
    v.push((owned("Mentions"), mentions));
    let semantic = if status.semantic_search_enabled {
        owned("✅ Enabled")
    } else {
        owned("❌ Disabled")
    };
    v.push((owned("Semantic"), semantic));
    let ghost base = pair_views(v@);
    match stats {
        Some(st) => {
            if status.is_semantic && status.database_enabled {
                v.push((owned("Total Messages"), signed_string(st.total_messages)));
                v.push((owned("Channels"), signed_string(st.unique_channels)));
                assert(pair_views(v@) =~= base + seq![
                    ("Total Messages"@, signed_decimal(st.total_messages as int)),
                    ("Channels"@, signed_decimal(st.unique_channels as int)),
                ]);
            }
        },
        None => {},
    }
    assert(base =~= info_fields_of(*status, None));
    v
}

/// The answer to `/stats` before the server is known to the cache.
pub fn guild_not_cached_reply() -> (res: String)
    ensures
        res@ == "Server data is not in cache yet"@,
{
    owned("Server data is not in cache yet")
}

/// The members of a server that are not bots; never below zero.
pub fn human_count(total_members: u64, bot_count: u64) -> (res: u64)
    ensures
        res == (if bot_count <= total_members {
            (total_members - bot_count) as u64
        } else {
            0u64
        }),
{
    total_members.saturating_sub(bot_count)
}

/// The title and fields of the `/stats` report of a server.
pub fn stats_report(
    guild_name: &str,
    total_members: u64,
    bot_count: u64,
    channel_count: u64,
    role_count: u64,
) -> (res: (String, Vec<(String, String)>))
    ensures
        res.0@ == "📊 "@ + guild_name@,
        pair_views(res.1@) == seq![
            ("Total Members"@, decimal(total_members as nat)),
            ("Humans"@, decimal(
                (if bot_count <= total_members {
                    total_members - bot_count
                } else {
                    0
                }) as nat,
            )),
            ("Bots"@, decimal(bot_count as nat)),
            ("Channels"@, decimal(channel_count as nat)),
            ("Roles"@, decimal(role_count as nat)),
        ],
{
    let mut title = owned("📊 ");
    title.append(guild_name);
    let humans = human_count(total_members, bot_count);
    let mut v: Vec<(String, String)> = Vec::new();
    v.push((owned("Total Members"), decimal_string(total_members)));
    v.push((owned("Humans"), decimal_string(humans)));
    v.push((owned("Bots"), decimal_string(bot_count)));
    v.push((owned("Channels"), decimal_string(channel_count)));
    v.push((owned("Roles"), decimal_string(role_count)));
    let ghost expected = seq![
        ("Total Members"@, decimal(total_members as nat)),
        ("Humans"@, decimal(
            (if bot_count <= total_members {
                total_members - bot_count
            } else {
                0
            }) as nat,
        )),
        ("Bots"@, decimal(bot_count as nat)),
        ("Channels"@, decimal(channel_count as nat)),
        ("Roles"@, decimal(role_count as nat)),
    ];
    assert(pair_views(v@) =~= expected);
    (title, v)
}

/// The commands listed by `/help`, with what each does.
pub open spec fn help_entries_of() -> Seq<(Seq<char>, Seq<char>)> {
    seq![
        ("/search <query>"@, "Search UnionCrax for games"@),
        ("/ask <question>"@, "Ask the AI a question"@),
        ("/info"@, "Show bot information"@),
        ("/stats"@, "Display server statistics"@),
        ("/ping"@, "Check bot latency"@),
        ("/location"@, "Show runtime details"@),
        ("/birthday"@, "Manage birthdays and birthday channels"@),
        ("/settings"@, "Manage server settings"@),
        ("/help"@, "Show this help message"@),
    ]
}

/// The entries of the `/help` list, in order.
pub fn help_entries() -> (res: Vec<(String, String)>)
    ensures
        pair_views(res@) == help_entries_of(),
{
    let mut v: Vec<(String, String)> = Vec::new();
    v.push((owned("/search <query>"), owned("Search UnionCrax for games")));
    v.push((owned("/ask <question>"), owned("Ask the AI a question")));
    v.push((owned("/info"), owned("Show bot information")));
    v.push((owned("/stats"), owned("Display server statistics")));
    v.push((owned("/ping"), owned("Check bot latency")));
    v.push((owned("/location"), owned("Show runtime details")));
    v.push((owned("/birthday"), owned("Manage birthdays and birthday channels")));
    v.push((owned("/settings"), owned("Manage server settings")));
    v.push((owned("/help"), owned("Show this help message")));
    assert(pair_views(v@) =~= help_entries_of());
    v
}

// ------------------------------------------------------------------
// /birthday
// ------------------------------------------------------------------

/// A date as the bot writes it: `month/day`, then `/year` when the year is known.
pub open spec fn date_text(month: i32, day: i32, year: Option<i32>) -> Seq<char> {
    signed_decimal(month as int) + "/"@ + signed_decimal(day as int) + match year {
        Some(y) => "/"@ + signed_decimal(y as int),
        None => Seq::empty(),
    }
}

/// Writes a date.
pub fn format_date(month: i32, day: i32, year: Option<i32>) -> (res: String)
    ensures
        res@ == date_text(month, day, year),
{
    let mut out = signed_string(month as i64);
    out.append("/");
    out.append(signed_string(day as i64).as_str());
    match year {
        Some(y) => {
            out.append("/");
            out.append(signed_string(y as i64).as_str());
        },
        None => {
            assert(out@ + Seq::<char>::empty() =~= out@);
        },
    }
    out
}

/// The options given to `/birthday`: the subcommand's name (none when
/// there is no subcommand) and the values of its options.
pub struct BirthdayRequest {
    pub subcommand: Option<String>,
    pub month: Option<i64>,
    pub day: Option<i64>,
    pub year: Option<i64>,
    pub user: Option<u64>,
}

/// What a `/birthday` command does: answer at once, or work on the stored
/// birthdays and answer after.
pub enum BirthdayAction {
    Reply(String),
    Save { user_id: String, username: String, day: i32, month: i32, year: Option<i32> },
    Get { user_id: String },
    Remove { user_id: String },
    List { day: i32, month: i32 },
    Announce,
    Channel,
}

/// The answer when `/birthday` is used without a known subcommand.
pub open spec fn birthday_usage_text() -> Seq<char> {
    "Use /help to see birthday options"@
}

/// The subcommand of a request is `name`.
pub open spec fn is_subcommand(sub: Option<String>, name: Seq<char>) -> bool {
    opt_text(sub) == Some(name)
}

/// The user a birthday subcommand is about: the one named, or the caller.
pub open spec fn target_user(user: Option<u64>, caller_id: u64) -> u64 {
    match user {
        Some(u) => u,
        None => caller_id,
    }
}

/// A month from 1 to 12 and a day from 1 to 31, as the `set` options describe them.
pub open spec fn valid_date_parts(month: i64, day: i64) -> bool {
    1 <= month <= 12 && 1 <= day <= 31
}

/// The answer to `/birthday set` with a month or day out of range.
pub open spec fn date_range_text() -> Seq<char> {
    "Month must be from 1 to 12 and day from 1 to 31"@
}

/// What a `/birthday` request does, for a caller, on a day, in a server or not.
pub open spec fn is_birthday_action(
    req: BirthdayRequest,
    caller_id: u64,
    caller_name: Seq<char>,
    today_day: i64,
    today_month: i64,
    in_guild: bool,
    res: BirthdayAction,
) -> bool {
    let target = target_user(req.user, caller_id);
    if is_subcommand(req.subcommand, "set"@) {
        let month_value = match req.month {
            Some(m) => m,
            None => 0,
        };
        let day_value = match req.day {
            Some(d) => d,
            None => 0,
        };
        let month = month_value as i32;
        let day = day_value as i32;
        if month == 0 || day == 0 {
            res matches BirthdayAction::Reply(t) && t@ == "Both month and day are required"@
        } else if !valid_date_parts(month_value, day_value) {
            res matches BirthdayAction::Reply(t) && t@ == date_range_text()
        } else {
            &&& res matches BirthdayAction::Save { user_id, username, day: d, month: m, year }
            &&& user_id@ == decimal(target as nat)
            &&& username@ == (if target == caller_id {
                caller_name
            } else {
                decimal(target as nat)
            })
            &&& d == day
            &&& m == month
            &&& year == (match req.year {
                Some(y) => Some(y as i32),
                None => None,
            })
        }
    } else if is_subcommand(req.subcommand, "get"@) {
        res matches BirthdayAction::Get { user_id } && user_id@ == decimal(target as nat)
    } else if is_subcommand(req.subcommand, "remove"@) {
        res matches BirthdayAction::Remove { user_id } && user_id@ == decimal(target as nat)
    } else if is_subcommand(req.subcommand, "test"@) {
        res == BirthdayAction::List {
            day: (match req.day {
                Some(d) => d,
                None => today_day,
            }) as i32,
            month: (match req.month {
                Some(m) => m,
                None => today_month,
            }) as i32,
        }
    } else if is_subcommand(req.subcommand, "send"@) {
        if in_guild {
            res == BirthdayAction::Announce
        } else {
            res matches BirthdayAction::Reply(t) && t@ == server_only_text()
        }
    } else if is_subcommand(req.subcommand, "channel"@) {
        res == BirthdayAction::Channel
    } else {
        res matches BirthdayAction::Reply(t) && t@ == birthday_usage_text()
    }
}

fn subcommand_is(sub: &Option<String>, name: &str) -> (res: bool)
    ensures
        res == is_subcommand(*sub, name@),
{
    match sub {
        Some(s) => {
            let c = chars_of(s.as_str());
            is_named(&c, name)
        },
        None => false,
    }
}

/// Decides what a `/birthday` request does. `today_day` and `today_month`
/// stand in for a missing day or month of the `test` subcommand.
pub fn birthday_action(
    req: &BirthdayRequest,
    caller_id: u64,
    caller_name: &str,
    today_day: i64,
    today_month: i64,
    in_guild: bool,
) -> (res: BirthdayAction)
    ensures
        is_birthday_action(*req, caller_id, caller_name@, today_day, today_month, in_guild, res),
{
    let target: u64 = match req.user {
        Some(u) => u,
        None => caller_id,
    };
    if subcommand_is(&req.subcommand, "set") {
        let month_value: i64 = match req.month {
            Some(m) => m,
            None => 0,
        };
        let day_value: i64 = match req.day {
            Some(d) => d,
            None => 0,
        };
        let month = month_value as i32;
        let day = day_value as i32;
        if month == 0 || day == 0 {
            return BirthdayAction::Reply(owned("Both month and day are required"));
        }
        if !(1 <= month_value && month_value <= 12 && 1 <= day_value && day_value <= 31) {
            return BirthdayAction::Reply(owned("Month must be from 1 to 12 and day from 1 to 31"));
        }
        let username = if target == caller_id {
            owned(caller_name)
        } else {
            decimal_string(target)
        };
        let year: Option<i32> = match req.year {
            Some(y) => Some(y as i32),
            None => None,
        };
        BirthdayAction::Save { user_id: decimal_string(target), username, day, month, year }
    } else if subcommand_is(&req.subcommand, "get") {
        BirthdayAction::Get { user_id: decimal_string(target) }
    } else if subcommand_is(&req.subcommand, "remove") {
        BirthdayAction::Remove { user_id: decimal_string(target) }
    } else if subcommand_is(&req.subcommand, "test") {
        let day_value: i64 = match req.day {
            Some(d) => d,
            None => today_day,
        };
        let month_value: i64 = match req.month {
            Some(m) => m,
            None => today_month,
        };
        BirthdayAction::List { day: day_value as i32, month: month_value as i32 }
    } else if subcommand_is(&req.subcommand, "send") {
        if in_guild {
            BirthdayAction::Announce
        } else {
            BirthdayAction::Reply(server_only_reply())
        }
    } else if subcommand_is(&req.subcommand, "channel") {
        BirthdayAction::Channel
    } else {
        BirthdayAction::Reply(owned("Use /help to see birthday options"))
    }
}

/// The answer after setting a birthday.
pub fn birthday_set_reply(success: bool, month: i32, day: i32, year: Option<i32>) -> (res: String)
    ensures
        res@ == (if success {
            "Birthday set to **"@ + date_text(month, day, year) + "**"@
        } else {
            "Failed to save birthday"@
        }),
{
    if success {
        let mut out = owned("Birthday set to **");
        out.append(format_date(month, day, year).as_str());
        out.append("**");
        out
    } else {
        owned("Failed to save birthday")
    }
}

/// The answer to asking for a birthday: the stored date, if there is one.
pub fn birthday_get_reply(found: Option<&Birthday>) -> (res: String)
    ensures
        res@ == (match found {
            Some(b) => "🎂 Birthday: **"@ + date_text(b.month, b.day, b.year) + "**"@,
            None => "No birthday found"@,
        }),
{
    match found {
        Some(b) => {
            let mut out = owned("🎂 Birthday: **");
            out.append(format_date(b.month, b.day, b.year).as_str());
            out.append("**");
            out
        },
        None => owned("No birthday found"),
    }
}

/// The answer after removing a birthday.
pub fn birthday_remove_reply(success: bool) -> (res: String)
    ensures
        res@ == (if success {
            "Birthday removed"@
        } else {
            "Failed to remove birthday"@
        }),
{
    if success {
        owned("Birthday removed")
    } else {
        owned("Failed to remove birthday")
    }
}

/// The names of the users whose birthdays are listed.
pub open spec fn birthday_names(bs: Seq<Birthday>) -> Seq<Seq<char>> {
    bs.map_values(|b: Birthday| b.username@)
}

/// The mentions of the users whose birthdays are listed.
pub open spec fn birthday_mentions(bs: Seq<Birthday>) -> Seq<Seq<char>> {
    bs.map_values(|b: Birthday| "<@"@ + b.user_id@ + ">"@)
}

/// The answer listing the birthdays of a day.
pub fn birthday_list_reply(month: i32, day: i32, birthdays: &Vec<Birthday>) -> (res: String)
    ensures
        res@ == (if birthdays@.len() == 0 {
            "No birthdays found for "@ + signed_decimal(month as int) + "/"@ + signed_decimal(day as int)
        } else {
            "Birthdays for "@ + signed_decimal(month as int) + "/"@ + signed_decimal(day as int)
                + ": "@ + joined(birthday_names(birthdays@), ", "@)
        }),
{
    let date = format_date(month, day, None);
    assert(date@ =~= signed_decimal(month as int) + "/"@ + signed_decimal(day as int));
    if birthdays.len() == 0 {
        let mut out = owned("No birthdays found for ");
        out.append(date.as_str());
        out
    } else {
        let mut names: Vec<String> = Vec::new();
        let mut i: usize = 0;
        while i < birthdays.len()
            invariant
                i <= birthdays.len(),
                string_views(names@) == birthday_names(birthdays@).take(i as int),
            decreases birthdays.len() - i,
        {
            let ghost before = string_views(names@);
            let name = birthdays[i].username.clone();
            names.push(name);
            assert(string_views(names@) =~= before.push(birthdays@[i as int].username@));
            assert(birthday_names(birthdays@).take(i + 1) =~= birthday_names(birthdays@).take(
                i as int,
            ).push(birthdays@[i as int].username@));
            i += 1;
        }
        assert(birthday_names(birthdays@).take(birthdays.len() as int) =~= birthday_names(birthdays@));
        let mut out = owned("Birthdays for ");
        out.append(date.as_str());
        out.append(": ");
        out.append(join_strings(&names, ", ").as_str());
        out
    }
}

/// What `/birthday send` does once today's birthdays are known.
pub enum Announcement {
    /// Nothing to send; answer with this text.
    Reply(String),
    /// Post `text` in the channel `channel_id`.
    Send { channel_id: u64, text: String },
}

/// The channel a birthday announcement goes to: the configured one when its
/// id reads as a number, else the channel the command was used in.
pub open spec fn announcement_channel(configured: Option<Seq<char>>, current_channel: u64) -> u64 {
    match configured {
        Some(c) => match parsed_unsigned(c, u64::MAX as nat) {
            Some(n) => n as u64,
            None => current_channel,
        },
        None => current_channel,
    }
}

/// Plans the announcement of today's birthdays: none to send, or the
/// message `🎉 Happy birthday <@id> <@id>!` for the channel to post in.
pub fn plan_announcement(
    birthdays: &Vec<Birthday>,
    configured_channel: Option<&str>,
    current_channel: u64,
) -> (res: Announcement)
    ensures
        birthdays@.len() == 0 ==> (res matches Announcement::Reply(t) && t@
            == "No birthdays to send today"@),
        birthdays@.len() > 0 ==> (res matches Announcement::Send { channel_id, text } && channel_id
            == announcement_channel(
            match configured_channel {
                Some(c) => Some(c@),
                None => None,
            },
            current_channel,
        ) && text@ == "🎉 Happy birthday "@ + joined(birthday_mentions(birthdays@), " "@) + "!"@),
{
    if birthdays.len() == 0 {
        return Announcement::Reply(owned("No birthdays to send today"));
    }
    let channel_id: u64 = match configured_channel {
        Some(c) => match crate::config::parse_u64(c) {
            Some(n) => n,
            None => current_channel,
        },
        None => current_channel,
    };
    let mut mentions: Vec<String> = Vec::new();
    let mut i: usize = 0;
    while i < birthdays.len()
        invariant
            i <= birthdays.len(),
            string_views(mentions@) == birthday_mentions(birthdays@).take(i as int),
        decreases birthdays.len() - i,
    {
        let ghost before = string_views(mentions@);
        let mut m = owned("<@");
        m.append(birthdays[i].user_id.as_str());
        m.append(">");
        let ghost mention = m@;
        mentions.push(m);
        assert(string_views(mentions@) =~= before.push(mention));
        assert(birthday_mentions(birthdays@).take(i + 1) =~= birthday_mentions(birthdays@).take(
            i as int,
        ).push("<@"@ + birthdays@[i as int].user_id@ + ">"@));
        i += 1;
    }
    assert(birthday_mentions(birthdays@).take(birthdays.len() as int) =~= birthday_mentions(birthdays@));
    let mut text = owned("🎉 Happy birthday ");
    text.append(join_strings(&mentions, " ").as_str());
    text.append("!");
    Announcement::Send { channel_id, text }
}

/// The answer after the birthday announcement was posted.
pub fn announcement_sent_reply() -> (res: String)
    ensures
        res@ == "Birthday announcement sent"@,
{
    owned("Birthday announcement sent")
}

/// What a `/birthday channel` command does.
pub enum ChannelAction {
    Reply(String),
    Assign(String),
    Get,
    Remove,
}

/// The answer when `/birthday channel` is used without a known subcommand.
pub open spec fn channel_usage_text() -> Seq<char> {
    "Use /birthday channel with set, get, or remove"@
}

/// Decides what a `/birthday channel` command does: `sub` is the name of its
/// subcommand and `channel` the channel given to `set`.
pub fn birthday_channel_action(in_guild: bool, sub: Option<&str>, channel: Option<u64>) -> (res: ChannelAction)
    ensures
        !in_guild ==> (res matches ChannelAction::Reply(t) && t@ == server_only_text()),
        in_guild ==> match sub {
            None => res matches ChannelAction::Reply(t) && t@ == channel_usage_text(),
            Some(s) => if s@ == "set"@ {
                match channel {
                    Some(c) => res matches ChannelAction::Assign(id) && id@ == decimal(c as nat),
                    None => res matches ChannelAction::Reply(t) && t@ == "A channel is required"@,
                }
            } else if s@ == "get"@ {
                res matches ChannelAction::Get
            } else if s@ == "remove"@ {
                res matches ChannelAction::Remove
            } else {
                res matches ChannelAction::Reply(t) && t@ == channel_usage_text()
            },
        },
{
    if !in_guild {
        return ChannelAction::Reply(server_only_reply());
    }
    match sub {
        None => ChannelAction::Reply(owned("Use /birthday channel with set, get, or remove")),
        Some(s) => {
            let name = chars_of(s);
            if is_named(&name, "set") {
                match channel {
                    Some(c) => ChannelAction::Assign(decimal_string(c)),
                    None => ChannelAction::Reply(owned("A channel is required")),
                }
            } else if is_named(&name, "get") {
                ChannelAction::Get
            } else if is_named(&name, "remove") {
                ChannelAction::Remove
            } else {
                ChannelAction::Reply(owned("Use /birthday channel with set, get, or remove"))
            }
        },
    }
}

/// The channel stored by `/birthday channel set` is the channel birthday
/// announcements are posted in.
pub proof fn law_assigned_channel_receives_announcements(channel: u64, current_channel: u64)
    ensures
        announcement_channel(Some(decimal(channel as nat)), current_channel) == channel,
{
    crate::config::law_decimal_round_trip(channel);
}

/// The answer after setting the birthday channel.
pub fn channel_set_reply(success: bool, channel_id: &str) -> (res: String)
    ensures
        res@ == (if success {
            "Birthday channel set to <#"@ + channel_id@ + ">"@
        } else {
            "Failed to set birthday channel"@
        }),
{
    if success {
        let mut out = owned("Birthday channel set to <#");
        out.append(channel_id);
        out.append(">");
        out
    } else {
        owned("Failed to set birthday channel")
    }
}

/// The answer to asking for the birthday channel.
pub fn channel_get_reply(channel_id: Option<&str>) -> (res: String)
    ensures
        res@ == (match channel_id {
            Some(c) => "Birthday channel: <#"@ + c@ + ">"@,
            None => "No birthday channel configured"@,
        }),
{
    match channel_id {
        Some(c) => {
            let mut out = owned("Birthday channel: <#");
            out.append(c);
            out.append(">");
            out
        },
        None => owned("No birthday channel configured"),
    }
}

/// The answer after removing the birthday channel.
pub fn channel_remove_reply(success: bool) -> (res: String)
    ensures
        res@ == (if success {
            "Birthday channel removed"@
        } else {
            "Failed to remove birthday channel"@
        }),
{
    if success {
        owned("Birthday channel removed")
    } else {
        owned("Failed to remove birthday channel")
    }
}

// ------------------------------------------------------------------
// /settings
// ------------------------------------------------------------------

/// What a `/settings` command does.
pub enum SettingsAction {
    /// Answer at once with this text.
    Reply(String),
    /// Show the server's settings.
    View,
    /// Make this channel the AI channel.
    AssignAiChannel(String),
    /// Forget the AI channel.
    ResetAiChannel,
    /// Set the response chance given as this text.
    Chance(String),
}

/// The answer when `/settings` is used without a known subcommand.
pub open spec fn settings_usage_text() -> Seq<char> {
    "Use /help to see settings options"@
}

/// Decides what a `/settings` command does: `sub` is the name of its
/// subcommand, `channel` and `percentage` the values of its options.
pub fn settings_action(
    in_guild: bool,
    sub: Option<&str>,
    channel: Option<u64>,
    percentage: Option<&str>,
) -> (res: SettingsAction)
    ensures
        !in_guild ==> (res matches SettingsAction::Reply(t) && t@ == server_only_text()),
        in_guild ==> match sub {
            None => res matches SettingsAction::Reply(t) && t@ == settings_usage_text(),
            Some(s) => if s@ == "view"@ {
                res matches SettingsAction::View
            } else if s@ == "ai_channel"@ {
                match channel {
                    Some(c) => res matches SettingsAction::AssignAiChannel(id) && id@ == decimal(
                        c as nat,
                    ),
                    None => res matches SettingsAction::ResetAiChannel,
                }
            } else if s@ == "response_chance"@ {
                match percentage {
                    Some(p) => res matches SettingsAction::Chance(t) && t@ == p@,
                    None => res matches SettingsAction::Reply(t) && t@
                        == "A percentage value is required"@,
                }
            } else {
                res matches SettingsAction::Reply(t) && t@ == settings_usage_text()
            },
        },
{
    if !in_guild {
        return SettingsAction::Reply(server_only_reply());
    }
    match sub {
        None => SettingsAction::Reply(owned("Use /help to see settings options")),
        Some(s) => {
            let name = chars_of(s);
            if is_named(&name, "view") {
                SettingsAction::View
            } else if is_named(&name, "ai_channel") {
                match channel {
                    Some(c) => SettingsAction::AssignAiChannel(decimal_string(c)),
                    None => SettingsAction::ResetAiChannel,
                }
            } else if is_named(&name, "response_chance") {
                match percentage {
                    Some(p) => SettingsAction::Chance(owned(p)),
                    None => SettingsAction::Reply(owned("A percentage value is required")),
                }
            } else {
                SettingsAction::Reply(owned("Use /help to see settings options"))
            }
        },
    }
}

/// The answer after the AI channel was set (`true`) or reset (`false`).
pub fn ai_channel_reply(assigned: bool) -> (res: String)
    ensures
        res@ == (if assigned {
            "AI channel set"@
        } else {
            "AI channel reset"@
        }),
{
    if assigned {
        owned("AI channel set")
    } else {
        owned("AI channel reset")
    }
}

/// The value of the first setting named `name`, if that setting has one.
pub open spec fn setting_value_of(settings: Seq<ServerSetting>, name: Seq<char>) -> Option<Seq<char>>
    decreases settings.len(),
{
    if settings.len() == 0 {
        None
    } else if settings[0].setting_name@ == name {
        opt_text(settings[0].setting_value)
    } else {
        setting_value_of(settings.drop_first(), name)
    }
}

/// The value of the first setting named `name`, if that setting has one.
pub fn setting_value(settings: &Vec<ServerSetting>, name: &str) -> (res: Option<String>)
    ensures
        opt_text(res) == setting_value_of(settings@, name@),
{
    let wanted = chars_of(name);
    let mut i: usize = 0;
    assert(settings@.skip(0) =~= settings@);
    while i < settings.len()
        invariant
            i <= settings.len(),
            wanted@ == name@,
            setting_value_of(settings@, name@) == setting_value_of(settings@.skip(i as int), name@),
        decreases settings.len() - i,
    {
        let ghost rest = settings@.skip(i as int);
        assert(rest[0] == settings@[i as int]);
        let setting_name = chars_of(settings[i].setting_name.as_str());
        if chars_eq(&setting_name, &wanted) {
            return match &settings[i].setting_value {
                Some(v) => Some(v.clone()),
                None => None,
            };
        }
        assert(rest.drop_first() =~= settings@.skip(i + 1));
        i += 1;
    }
    None
}

/// What `/settings view` shows before the chance is read as a number: the AI
/// channel (`Not set` when there is none) and the response chance as
/// stored (`0.1` when there is none).
pub fn settings_overview(settings: &Vec<ServerSetting>) -> (res: (String, String))
    ensures
        res.0@ == (match setting_value_of(settings@, "ai_channel"@) {
            Some(v) => v,
            None => "Not set"@,
        }),
        res.1@ == (match setting_value_of(settings@, "random_response_chance"@) {
            Some(v) => v,
            None => "0.1"@,
        }),
{
    let channel = match setting_value(settings, "ai_channel") {
        Some(v) => v,
        None => owned("Not set"),
    };
    let chance = match setting_value(settings, "random_response_chance") {
        Some(v) => v,
        None => owned("0.1"),
    };
    (channel, chance)
}

// ------------------------------------------------------------------
// Messages
// ------------------------------------------------------------------

/// Messages of bots are ignored unless friendly fire is on.
pub fn ignores_author(author_is_bot: bool, friendly_fire: bool) -> (res: bool)
    ensures
        res == (author_is_bot && !friendly_fire),
{
    author_is_bot && !friendly_fire
}

/// Whether `user_id` is among the users a message mentions.
pub fn mentions_user(mentioned: &Vec<u64>, user_id: u64) -> (res: bool)
    ensures
        res == mentioned@.contains(user_id),
{
    let mut i: usize = 0;
    while i < mentioned.len()
        invariant
            i <= mentioned.len(),
            forall|k: int| 0 <= k < i ==> mentioned@[k] != user_id,
        decreases mentioned.len() - i,
    {
        if mentioned[i] == user_id {
            assert(mentioned@[i as int] == user_id);
            return true;
        }
        i += 1;
    }
    false
}

/// Whether a message's channel is the channel configured for AI replies.
pub fn is_configured_channel(configured: Option<&str>, channel_id: u64) -> (res: bool)
    ensures
        res == (match configured {
            Some(c) => c@ == decimal(channel_id as nat),
            None => false,
        }),
{
    match configured {
        Some(c) => {
            let id = u64_decimal(channel_id);
            let text = chars_of(c);
            chars_eq(&text, &id)
        },
        None => false,
    }
}

/// The bot waits this long after its last reply before it may answer
/// unprompted again, in milliseconds.
pub const REPLY_PAUSE_MS: u64 = 10000;

/// Whether the bot replies to a message.
#[derive(PartialEq, Eq, Structural, Clone, Copy, Debug)]
pub enum ReplyDecision {
    /// Reply.
    Reply,
    /// Reply if a random draw falls under the response chance.
    Roll,
    /// Do not reply.
    Stay,
}

/// Decides whether the bot replies to a message: always when it is
/// mentioned; in the configured channel only once more than the pause has
/// passed since its last reply, and then by chance; never elsewhere.
pub fn reply_decision(mentioned: bool, in_channel: bool, now_ms: u64, last_reply_ms: u64) -> (res: ReplyDecision)
    requires
        mentioned || !in_channel || last_reply_ms <= now_ms,
    ensures
        res == (if mentioned {
            ReplyDecision::Reply
        } else if in_channel && now_ms - last_reply_ms > REPLY_PAUSE_MS {
            ReplyDecision::Roll
        } else {
            ReplyDecision::Stay
        }),
{
    if mentioned {
        ReplyDecision::Reply
    } else if in_channel {
        if now_ms - last_reply_ms > REPLY_PAUSE_MS {
            ReplyDecision::Roll
        } else {
            ReplyDecision::Stay
        }
    } else {
        ReplyDecision::Stay
    }
}

/// A file attached to a message: its media type, when known, and its address.
pub struct Attachment {
    pub content_type: Option<String>,
    pub url: String,
}

/// An attachment is an image when its media type starts with `image/`.
pub open spec fn is_image(a: Attachment) -> bool {
    match a.content_type {
        Some(t) => starts_with_seq(t@, "image/"@),
        None => false,
    }
}

/// The addresses of the image attachments, in order.
pub open spec fn image_urls_of(atts: Seq<Attachment>) -> Seq<Seq<char>>
    decreases atts.len(),
{
    if atts.len() == 0 {
        Seq::empty()
    } else {
        let before = image_urls_of(atts.drop_last());
        if is_image(atts.last()) {
            before.push(atts.last().url@)
        } else {
            before
        }
    }
}

/// The addresses of the images attached to a message; the list is given
/// even when it is empty.
pub fn image_attachment_urls(atts: &Vec<Attachment>) -> (res: Option<Vec<String>>)
    ensures
        res is Some,
        string_views(res.unwrap()@) == image_urls_of(atts@),
{
    let image = chars_of("image/");
    let mut out: Vec<String> = Vec::new();
    let mut i: usize = 0;
    assert(atts@.take(0) =~= Seq::<Attachment>::empty());
    assert(string_views(out@) =~= Seq::<Seq<char>>::empty());
    while i < atts.len()
        invariant
            i <= atts.len(),
            image@ == "image/"@,
            string_views(out@) == image_urls_of(atts@.take(i as int)),
        decreases atts.len() - i,
    {
        let ghost before = string_views(out@);
        let ghost upto = atts@.take(i + 1);
        assert(upto.drop_last() =~= atts@.take(i as int));
        assert(upto.last() == atts@[i as int]);
        let is_img = match &atts[i].content_type {
            Some(t) => {
                let tc = chars_of(t.as_str());
                starts_with(&tc, &image)
            },
            None => false,
        };
        if is_img {
            let url = atts[i].url.clone();
            out.push(url);
            assert(string_views(out@) =~= before.push(atts@[i as int].url@));
        }
        i += 1;
    }
    assert(atts@.take(atts.len() as int) =~= atts@);
    Some(out)
}

// ------------------------------------------------------------------
// /search and /ask
// ------------------------------------------------------------------

/// The description shown for a game.
pub fn game_description(game: &GameInfo) -> (res: String)
    ensures
        res@ == (match game.description {
            Some(d) => d@,
            None => "No description"@,
        }),
{
    match &game.description {
        Some(d) => d.clone(),
        None => owned("No description"),
    }
}

/// A count as shown, or `N/A` when it is unknown.
pub open spec fn count_text(n: Option<u64>) -> Seq<char> {
    match n {
        Some(v) => decimal(v as nat),
        None => "N/A"@,
    }
}

fn count_string(n: Option<u64>) -> (res: String)
    ensures
        res@ == count_text(n),
{
    match n {
        Some(v) => decimal_string(v),
        None => owned("N/A"),
    }
}

/// The fields shown for a game found by `/search`.
pub fn game_fields(game: &GameInfo) -> (res: Vec<(String, String)>)
    ensures
        pair_views(res@) == seq![
            ("Source"@, game.source@),
            ("Views"@, count_text(game.view_count)),
            ("Downloads"@, count_text(game.download_count)),
            ("Size"@, match game.size {
                Some(s) => s@,
                None => "N/A"@,
            }),
        ],
{
    let mut v: Vec<(String, String)> = Vec::new();
    v.push((owned("Source"), game.source.clone()));
    v.push((owned("Views"), count_string(game.view_count)));
    v.push((owned("Downloads"), count_string(game.download_count)));
    let size = match &game.size {
        Some(s) => s.clone(),
        None => owned("N/A"),
    };
    v.push((owned("Size"), size));
    assert(pair_views(v@) =~= seq![
        ("Source"@, game.source@),
        ("Views"@, count_text(game.view_count)),
        ("Downloads"@, count_text(game.download_count)),
        ("Size"@, match game.size {
            Some(s) => s@,
            None => "N/A"@,
        }),
    ]);
    v
}

/// The answer when `/search` finds nothing.
pub fn no_match_reply(query: &str) -> (res: String)
    ensures
        res@ == "No matching games found for: **"@ + query@ + "**"@,
{
    let mut out = owned("No matching games found for: **");
    out.append(query);
    out.append("**");
    out
}

/// The answer when a search fails.
pub fn search_error_reply(e: &SearchError) -> (res: String)
    ensures
        ({
            let m = match e {
                SearchError::RequestFailed(t) => "HTTP request failed: "@ + t@,
                SearchError::ParseError(t) => "Parse error: "@ + t@,
                SearchError::NoResults => "No results found"@,
            };
            res@ == "Error: "@ + m
        }),
{
    let mut out = owned("Error: ");
    out.append(e.message().as_str());
    out
}

/// The answer when a command fails with the error text `message`.
pub fn error_reply(message: &str) -> (res: String)
    ensures
        res@ == "Error: "@ + message@,
{
    let mut out = owned("Error: ");
    out.append(message);
    out
}

/// Questions and answers are shown cut to this many characters.
pub const PREVIEW_LEN: usize = 1024;

/// The fields of the `/ask` report: the question and the answer, each cut
/// to the preview length.
pub fn ask_fields(question: &str, answer: &str) -> (res: Vec<(String, String)>)
    ensures
        pair_views(res@) == seq![
            ("Question"@, question@.take(if question@.len() < PREVIEW_LEN {
                question@.len() as int
            } else {
                PREVIEW_LEN as int
            })),
            ("Answer"@, answer@.take(if answer@.len() < PREVIEW_LEN {
                answer@.len() as int
            } else {
                PREVIEW_LEN as int
            })),
        ],
{
    let mut v: Vec<(String, String)> = Vec::new();
    v.push((owned("Question"), truncate(question, PREVIEW_LEN)));
    v.push((owned("Answer"), truncate(answer, PREVIEW_LEN)));
    assert(pair_views(v@) =~= seq![
        ("Question"@, question@.take(if question@.len() < PREVIEW_LEN {
            question@.len() as int
        } else {
            PREVIEW_LEN as int
        })),
        ("Answer"@, answer@.take(if answer@.len() < PREVIEW_LEN {
            answer@.len() as int
        } else {
            PREVIEW_LEN as int
        })),
    ]);
    v
}

/// The footer of the `/ask` report.
pub fn asked_by(user_name: &str) -> (res: String)
    ensures
        res@ == "Asked by "@ + user_name@,
{
    let mut out = owned("Asked by ");
    out.append(user_name);
    out
}

/// The id under which a question asked with `/ask` is stored.
pub fn slash_message_id(interaction_id: u64) -> (res: String)
    ensures
        res@ == "slash_"@ + decimal(interaction_id as nat),
{
    let mut out = owned("slash_");
    out.append(decimal_string(interaction_id).as_str());
    out
}

/// The answer to `/ask` when no AI service is configured.
pub fn ai_unavailable_reply() -> (res: String)
    ensures
        res@ == "AI service not configured"@,
{
    owned("AI service not configured")
}

// ------------------------------------------------------------------
// Start-up
// ------------------------------------------------------------------

/// What starting the bot does first.
#[derive(PartialEq, Eq, Structural, Clone, Copy, Debug)]
pub enum StartupStep {
    /// Run without the database and without the AI service.
    SimpleMode,
    /// Check the database, set it up and start the context manager, then
    /// create the AI service.
    PrepareDatabase,
    /// Create the AI service right away.
    CreateService,
}

/// The first step of starting the bot: without the database it runs in
/// simple mode; with semantic search the database is prepared first.
pub fn startup_step(enable_database: bool, enable_semantic_search: bool) -> (res: StartupStep)
    ensures
        res == (if !enable_database {
            StartupStep::SimpleMode
        } else if enable_semantic_search {
            StartupStep::PrepareDatabase
        } else {
            StartupStep::CreateService
        }),
{
    if !enable_database {
        StartupStep::SimpleMode
    } else if enable_semantic_search {
        StartupStep::PrepareDatabase
    } else {
        StartupStep::CreateService
    }
}

/// The API key and model the AI service is created with; there is no
/// service unless both are configured.
pub fn ai_credentials(api_key: &Option<String>, model: &Option<String>) -> (res: Option<(String, String)>)
    ensures
        match res {
            Some(p) => opt_text(*api_key) == Some(p.0@) && opt_text(*model) == Some(p.1@),
            None => api_key.is_none() || model.is_none(),
        },
{
    match (api_key, model) {
        (Some(k), Some(m)) => Some((k.clone(), m.clone())),
        _ => None,
    }
}

/// Why starting the bot failed.
pub enum StartupError {
    /// The database could not be reached.
    Connection(String),
    /// The database schema could not be set up.
    Schema(String),
    /// The context manager could not be started.
    ContextManager(String),
}

impl StartupError {
    /// The message shown for this error.
    pub fn message(&self) -> (res: String)
        ensures
            match self {
                StartupError::Connection(e) => res@ == "Database connection failed: "@ + e@,
                StartupError::Schema(e) => res@ == "Database schema init failed: "@ + e@,
                StartupError::ContextManager(e) => res@ == "Context manager init failed: "@ + e@,
            },
    {
        match self {
            StartupError::Connection(e) => {
                let mut s = owned("Database connection failed: ");
                s.append(e.as_str());
                s
            },
            StartupError::Schema(e) => {
                let mut s = owned("Database schema init failed: ");
                s.append(e.as_str());
                s
            },
            StartupError::ContextManager(e) => {
                let mut s = owned("Context manager init failed: ");
                s.append(e.as_str());
                s
            },
        }
    }
}

// ------------------------------------------------------------------
// The registered commands
// ------------------------------------------------------------------

/// The kind of value an option of a slash command takes.
#[derive(PartialEq, Eq, Structural, Clone, Copy, Debug)]
pub enum OptionKind {
    Text,
    Integer,
    User,
    Channel,
    SubCommand,
    SubCommandGroup,
}

/// An option of a slash command, with its own options when it is a subcommand.
pub struct CommandOption {
    pub kind: OptionKind,
    pub name: String,
    pub description: String,
    pub required: bool,
    pub options: Vec<CommandOption>,
}

/// A slash command as it is registered.
pub struct CommandSpec {
    pub name: String,
    pub description: String,
    pub options: Vec<CommandOption>,
}

/// The value of an option as it is registered: its kind, name, description,
/// whether it must be given, and its own options.
pub struct OptionEntry {
    pub kind: OptionKind,
    pub name: Seq<char>,
    pub description: Seq<char>,
    pub required: bool,
    pub options: Seq<OptionEntry>,
}

/// The value of a command as it is registered.
pub struct CommandEntry {
    pub name: Seq<char>,
    pub description: Seq<char>,
    pub options: Seq<OptionEntry>,
}

/// An option entry.
pub open spec fn entry(
    kind: OptionKind,
    name: Seq<char>,
    description: Seq<char>,
    required: bool,
    options: Seq<OptionEntry>,
) -> OptionEntry {
    OptionEntry { kind, name, description, required, options }
}

/// Option `o` is the option `e`, down to its last sub-option.
pub open spec fn option_is(o: CommandOption, e: OptionEntry) -> bool
    decreases e,
{
    &&& o.kind == e.kind
    &&& o.name@ == e.name
    &&& o.description@ == e.description
    &&& o.required == e.required
    &&& o.options@.len() == e.options.len()
    &&& forall|i: int|
        0 <= i < e.options.len() ==> option_is(#[trigger] o.options@[i], e.options[i])
}

/// The options `os` are the entries `es`, in order.
pub open spec fn options_are(os: Seq<CommandOption>, es: Seq<OptionEntry>) -> bool {
    &&& os.len() == es.len()
    &&& forall|i: int| 0 <= i < es.len() ==> option_is(#[trigger] os[i], es[i])
}

/// Command `c` is the command `e`, with all its options.
pub open spec fn command_is(c: CommandSpec, e: CommandEntry) -> bool {
    &&& c.name@ == e.name
    &&& c.description@ == e.description
    &&& options_are(c.options@, e.options)
}

/// The options of `/birthday`.
pub open spec fn birthday_entries() -> Seq<OptionEntry> {
    seq![
        entry(OptionKind::SubCommand, "set"@, "Set your birthday"@, false, seq![
            entry(OptionKind::Integer, "month"@, "Month (1-12)"@, true, seq![]),
            entry(OptionKind::Integer, "day"@, "Day (1-31)"@, true, seq![]),
            entry(OptionKind::Integer, "year"@, "Year (optional)"@, false, seq![]),
            entry(OptionKind::User, "user"@, "User to set birthday for"@, false, seq![]),
        ]),
        entry(OptionKind::SubCommand, "remove"@, "Remove your birthday"@, false, seq![
            entry(OptionKind::User, "user"@, "User to remove birthday for"@, false, seq![]),
        ]),
        entry(OptionKind::SubCommand, "get"@, "Get a birthday"@, false, seq![
            entry(OptionKind::User, "user"@, "User to get birthday for"@, false, seq![]),
        ]),
        entry(OptionKind::SubCommand, "test"@, "Test birthday announcements"@, false, seq![
            entry(OptionKind::Integer, "day"@, "Day to test"@, false, seq![]),
            entry(OptionKind::Integer, "month"@, "Month to test"@, false, seq![]),
        ]),
        entry(OptionKind::SubCommand, "send"@, "Send today's birthday pings"@, false, seq![]),
        entry(OptionKind::SubCommandGroup, "channel"@, "Manage birthday channel"@, false, seq![
            entry(OptionKind::SubCommand, "set"@, "Set birthday channel"@, false, seq![
                entry(OptionKind::Channel, "channel"@, "Channel to use"@, true, seq![]),
            ]),
            entry(OptionKind::SubCommand, "remove"@, "Remove birthday channel"@, false, seq![]),
            entry(OptionKind::SubCommand, "get"@, "Get birthday channel"@, false, seq![]),
        ]),
    ]
}

/// The options of `/settings`.
pub open spec fn settings_entries() -> Seq<OptionEntry> {
    seq![
        entry(OptionKind::SubCommand, "view"@, "View all server settings"@, false, seq![]),
        entry(OptionKind::SubCommand, "ai_channel"@, "Set AI response channel"@, false, seq![
            entry(OptionKind::Channel, "channel"@, "Channel for AI responses"@, false, seq![]),
        ]),
        entry(OptionKind::SubCommand, "response_chance"@, "Set response chance"@, false, seq![
            entry(OptionKind::Text, "percentage"@, "0.0 to 1.0"@, true, seq![]),
        ]),
    ]
}

/// The commands the bot registers, in order, with all their options.
pub open spec fn registered_commands() -> Seq<CommandEntry> {
    seq![
        CommandEntry {
            name: "search"@,
            description: "Search UnionCrax for games"@,
            options: seq![entry(OptionKind::Text, "query"@, "The game to search for"@, true, seq![])],
        },
        CommandEntry { name: "info"@, description: "Get information about the bot"@, options: seq![] },
        CommandEntry { name: "birthday"@, description: "Manage your birthday"@, options: birthday_entries() },
        CommandEntry { name: "settings"@, description: "Manage server settings"@, options: settings_entries() },
        CommandEntry { name: "location"@, description: "Get bot location info"@, options: seq![] },
        CommandEntry { name: "ping"@, description: "Check bot latency"@, options: seq![] },
        CommandEntry {
            name: "ask"@,
            description: "Ask the AI a question"@,
            options: seq![entry(OptionKind::Text, "question"@, "Your question"@, true, seq![])],
        },
        CommandEntry { name: "stats"@, description: "Show server statistics"@, options: seq![] },
        CommandEntry { name: "help"@, description: "Show available commands"@, options: seq![] },
    ]
}

fn option(
    kind: OptionKind,
    name: &str,
    description: &str,
    required: bool,
    options: Vec<CommandOption>,
    Ghost(entries): Ghost<Seq<OptionEntry>>,
) -> (res: CommandOption)
    requires
        options_are(options@, entries),
    ensures
        option_is(res, entry(kind, name@, description@, required, entries)),
{
    CommandOption { kind, name: owned(name), description: owned(description), required, options }
}

fn leaf(kind: OptionKind, name: &str, description: &str, required: bool) -> (res: CommandOption)
    ensures
        option_is(res, entry(kind, name@, description@, required, seq![])),
{
    let none: Vec<CommandOption> = Vec::new();
    option(kind, name, description, required, none, Ghost(Seq::<OptionEntry>::empty()))
}

fn push_option(
    v: &mut Vec<CommandOption>,
    o: CommandOption,
    Ghost(entries): Ghost<Seq<OptionEntry>>,
    Ghost(e): Ghost<OptionEntry>,
)
    requires
        options_are(old(v)@, entries),
        option_is(o, e),
    ensures
        options_are(final(v)@, entries.push(e)),
{
    v.push(o);
    assert forall|i: int| 0 <= i < entries.push(e).len() implies option_is(
        #[trigger] v@[i],
        entries.push(e)[i],
    ) by {
        if i < entries.len() {
            assert(v@[i] == old(v)@[i]);
        }
    }
}

fn command(name: &str, description: &str, options: Vec<CommandOption>) -> (res: CommandSpec)
    ensures
        res.name@ == name@,
        res.description@ == description@,
        res.options@ == options@,
{
    CommandSpec { name: owned(name), description: owned(description), options }
}

fn birthday_set_options() -> (res: Vec<CommandOption>)
    ensures
        options_are(res@, birthday_entries()[0].options),
{
    let mut v: Vec<CommandOption> = Vec::new();
    let ghost mut es: Seq<OptionEntry> = seq![];
    let o = leaf(OptionKind::Integer, "month", "Month (1-12)", true);
    push_option(&mut v, o, Ghost(es), Ghost(entry(OptionKind::Integer, "month"@, "Month (1-12)"@, true, seq![])));
    proof { es = es.push(entry(OptionKind::Integer, "month"@, "Month (1-12)"@, true, seq![])); }
    let o = leaf(OptionKind::Integer, "day", "Day (1-31)", true);
    push_option(&mut v, o, Ghost(es), Ghost(entry(OptionKind::Integer, "day"@, "Day (1-31)"@, true, seq![])));
    proof { es = es.push(entry(OptionKind::Integer, "day"@, "Day (1-31)"@, true, seq![])); }
    let o = leaf(OptionKind::Integer, "year", "Year (optional)", false);
    push_option(&mut v, o, Ghost(es), Ghost(entry(OptionKind::Integer, "year"@, "Year (optional)"@, false, seq![])));
    proof { es = es.push(entry(OptionKind::Integer, "year"@, "Year (optional)"@, false, seq![])); }
    let o = leaf(OptionKind::User, "user", "User to set birthday for", false);
    push_option(&mut v, o, Ghost(es), Ghost(entry(OptionKind::User, "user"@, "User to set birthday for"@, false, seq![])));
    proof { es = es.push(entry(OptionKind::User, "user"@, "User to set birthday for"@, false, seq![])); }
    assert(es =~= birthday_entries()[0].options);
    v
}

fn birthday_channel_options() -> (res: Vec<CommandOption>)
    ensures
        options_are(res@, birthday_entries()[5].options),
{
    let mut set_options: Vec<CommandOption> = Vec::new();
    let o = leaf(OptionKind::Channel, "channel", "Channel to use", true);
    let ghost channel_entry = entry(OptionKind::Channel, "channel"@, "Channel to use"@, true, seq![]);
    push_option(&mut set_options, o, Ghost(Seq::<OptionEntry>::empty()), Ghost(channel_entry));
    let ghost set_entries = Seq::<OptionEntry>::empty().push(channel_entry);
    let mut v: Vec<CommandOption> = Vec::new();
    let ghost mut es: Seq<OptionEntry> = seq![];
    let o = option(OptionKind::SubCommand, "set", "Set birthday channel", false, set_options, Ghost(set_entries));
    push_option(&mut v, o, Ghost(es), Ghost(entry(OptionKind::SubCommand, "set"@, "Set birthday channel"@, false, set_entries)));
    proof { es = es.push(entry(OptionKind::SubCommand, "set"@, "Set birthday channel"@, false, set_entries)); }
    let o = leaf(OptionKind::SubCommand, "remove", "Remove birthday channel", false);
    push_option(&mut v, o, Ghost(es), Ghost(entry(OptionKind::SubCommand, "remove"@, "Remove birthday channel"@, false, seq![])));
    proof { es = es.push(entry(OptionKind::SubCommand, "remove"@, "Remove birthday channel"@, false, seq![])); }
    let o = leaf(OptionKind::SubCommand, "get", "Get birthday channel", false);
    push_option(&mut v, o, Ghost(es), Ghost(entry(OptionKind::SubCommand, "get"@, "Get birthday channel"@, false, seq![])));
    proof { es = es.push(entry(OptionKind::SubCommand, "get"@, "Get birthday channel"@, false, seq![])); }
    assert(set_entries =~= seq![channel_entry]);
    assert(es =~= birthday_entries()[5].options);
    v
}

fn single_option(o: CommandOption, Ghost(e): Ghost<OptionEntry>) -> (res: Vec<CommandOption>)
    requires
        option_is(o, e),
    ensures
        options_are(res@, seq![e]),
{
    let mut v: Vec<CommandOption> = Vec::new();
    push_option(&mut v, o, Ghost(Seq::<OptionEntry>::empty()), Ghost(e));
    assert(Seq::<OptionEntry>::empty().push(e) =~= seq![e]);
    v
}

fn birthday_options() -> (res: Vec<CommandOption>)
    ensures
        options_are(res@, birthday_entries()),
{
    let ghost b = birthday_entries();
    let mut v: Vec<CommandOption> = Vec::new();
    let ghost mut es: Seq<OptionEntry> = seq![];

    let o = option(OptionKind::SubCommand, "set", "Set your birthday", false, birthday_set_options(), Ghost(b[0].options));
    push_option(&mut v, o, Ghost(es), Ghost(b[0]));
    proof { es = es.push(b[0]); }

    let user = leaf(OptionKind::User, "user", "User to remove birthday for", false);
    let user_options = single_option(user, Ghost(b[1].options[0]));
    assert(seq![b[1].options[0]] =~= b[1].options);
    let o = option(OptionKind::SubCommand, "remove", "Remove your birthday", false, user_options, Ghost(b[1].options));
    push_option(&mut v, o, Ghost(es), Ghost(b[1]));
    proof { es = es.push(b[1]); }

    let user = leaf(OptionKind::User, "user", "User to get birthday for", false);
    let user_options = single_option(user, Ghost(b[2].options[0]));
    assert(seq![b[2].options[0]] =~= b[2].options);
    let o = option(OptionKind::SubCommand, "get", "Get a birthday", false, user_options, Ghost(b[2].options));
    push_option(&mut v, o, Ghost(es), Ghost(b[2]));
    proof { es = es.push(b[2]); }

    let mut test_options: Vec<CommandOption> = Vec::new();
    let d = leaf(OptionKind::Integer, "day", "Day to test", false);
    push_option(&mut test_options, d, Ghost(Seq::<OptionEntry>::empty()), Ghost(b[3].options[0]));
    let m = leaf(OptionKind::Integer, "month", "Month to test", false);
    let ghost first = Seq::<OptionEntry>::empty().push(b[3].options[0]);
    push_option(&mut test_options, m, Ghost(first), Ghost(b[3].options[1]));
    assert(first.push(b[3].options[1]) =~= b[3].options);
    let o = option(OptionKind::SubCommand, "test", "Test birthday announcements", false, test_options, Ghost(b[3].options));
    push_option(&mut v, o, Ghost(es), Ghost(b[3]));
    proof { es = es.push(b[3]); }

    let o = leaf(OptionKind::SubCommand, "send", "Send today's birthday pings", false);
    push_option(&mut v, o, Ghost(es), Ghost(b[4]));
    proof { es = es.push(b[4]); }

    let o = option(OptionKind::SubCommandGroup, "channel", "Manage birthday channel", false, birthday_channel_options(), Ghost(b[5].options));
    push_option(&mut v, o, Ghost(es), Ghost(b[5]));
    proof { es = es.push(b[5]); }

    assert(es =~= b);
    v
}

fn settings_options() -> (res: Vec<CommandOption>)
    ensures
        options_are(res@, settings_entries()),
{
    let ghost st = settings_entries();
    let mut v: Vec<CommandOption> = Vec::new();
    let ghost mut es: Seq<OptionEntry> = seq![];

    let o = leaf(OptionKind::SubCommand, "view", "View all server settings", false);
    push_option(&mut v, o, Ghost(es), Ghost(st[0]));
    proof { es = es.push(st[0]); }

    let c = leaf(OptionKind::Channel, "channel", "Channel for AI responses", false);
    let channel_options = single_option(c, Ghost(st[1].options[0]));
    assert(seq![st[1].options[0]] =~= st[1].options);
    let o = option(OptionKind::SubCommand, "ai_channel", "Set AI response channel", false, channel_options, Ghost(st[1].options));
    push_option(&mut v, o, Ghost(es), Ghost(st[1]));
    proof { es = es.push(st[1]); }

    let p = leaf(OptionKind::Text, "percentage", "0.0 to 1.0", true);
    let chance_options = single_option(p, Ghost(st[2].options[0]));
    assert(seq![st[2].options[0]] =~= st[2].options);
    let o = option(OptionKind::SubCommand, "response_chance", "Set response chance", false, chance_options, Ghost(st[2].options));
    push_option(&mut v, o, Ghost(es), Ghost(st[2]));
    proof { es = es.push(st[2]); }

    assert(es =~= st);
    v
}

/// The slash commands the bot registers, in order, each with its whole tree
/// of options.
pub fn command_specs() -> (res: Vec<CommandSpec>)
    ensures
        res@.len() == registered_commands().len(),
        forall|i: int| 0 <= i < res@.len() ==> command_is(#[trigger] res@[i], registered_commands()[i]),
{
    let ghost t = registered_commands();
    let query = leaf(OptionKind::Text, "query", "The game to search for", true);
    let search_options = single_option(query, Ghost(t[0].options[0]));
    assert(seq![t[0].options[0]] =~= t[0].options);
    let question = leaf(OptionKind::Text, "question", "Your question", true);
    let ask_options = single_option(question, Ghost(t[6].options[0]));
    assert(seq![t[6].options[0]] =~= t[6].options);
    let mut v: Vec<CommandSpec> = Vec::new();
    v.push(command("search", "Search UnionCrax for games", search_options));
    v.push(command("info", "Get information about the bot", Vec::new()));
    v.push(command("birthday", "Manage your birthday", birthday_options()));
    v.push(command("settings", "Manage server settings", settings_options()));
    v.push(command("location", "Get bot location info", Vec::new()));
    v.push(command("ping", "Check bot latency", Vec::new()));
    v.push(command("ask", "Ask the AI a question", ask_options));
    v.push(command("stats", "Show server statistics", Vec::new()));
    v.push(command("help", "Show available commands", Vec::new()));
    assert forall|i: int| 0 <= i < v@.len() implies command_is(#[trigger] v@[i], t[i]) by {
        if v@[i].options@.len() == 0 {
            assert(v@[i].options@ =~= Seq::<CommandOption>::empty());
        }
    }
    v
}

/// Every registered command is one the bot answers.
pub proof fn law_registered_commands_are_answered(i: int)
    requires
        0 <= i < registered_commands().len(),
    ensures
        command_named(registered_commands()[i].name) != BotCommand::Unknown,
{
}

/// The name under which a command is called; empty for an unknown one.
pub open spec fn command_word(c: BotCommand) -> Seq<char> {
    match c {
        BotCommand::Search => "search"@,
        BotCommand::Info => "info"@,
        BotCommand::Ping => "ping"@,
        BotCommand::Ask => "ask"@,
        BotCommand::Stats => "stats"@,
        BotCommand::Help => "help"@,
        BotCommand::Birthday => "birthday"@,
        BotCommand::Settings => "settings"@,
        BotCommand::Location => "location"@,
        BotCommand::Unknown => Seq::empty(),
    }
}

/// Each registered command name calls the command that is called by that
/// name, so two different registered commands never call the same one.
pub proof fn law_registered_names_call_their_own_command(i: int, j: int)
    requires
        0 <= i < registered_commands().len(),
        0 <= j < registered_commands().len(),
    ensures
        command_word(command_named(registered_commands()[i].name)) == registered_commands()[i].name,
        i != j ==> command_named(registered_commands()[i].name) != command_named(
            registered_commands()[j].name,
        ),
{
    reveal_strlit("search");
    reveal_strlit("info");
    reveal_strlit("ping");
    reveal_strlit("ask");
    reveal_strlit("stats");
    reveal_strlit("help");
    reveal_strlit("birthday");
    reveal_strlit("settings");
    reveal_strlit("location");
    assert("ping"@[0] != "info"@[0]);
    assert("help"@[0] != "info"@[0]);
    assert("help"@[0] != "ping"@[0]);
    assert("settings"@[0] != "birthday"@[0]);
    assert("location"@[0] != "birthday"@[0]);
    assert("location"@[0] != "settings"@[0]);
    let r = registered_commands();
    assert(r[0].name == "search"@);
    assert(r[1].name == "info"@);
    assert(r[2].name == "birthday"@);
    assert(r[3].name == "settings"@);
    assert(r[4].name == "location"@);
    assert(r[5].name == "ping"@);
    assert(r[6].name == "ask"@);
    assert(r[7].name == "stats"@);
    assert(r[8].name == "help"@);
    assert(command_named("search"@) == BotCommand::Search);
    assert(command_named("info"@) == BotCommand::Info);
    assert(command_named("birthday"@) == BotCommand::Birthday);
    assert(command_named("settings"@) == BotCommand::Settings);
    assert(command_named("location"@) == BotCommand::Location);
    assert(command_named("ping"@) == BotCommand::Ping);
    assert(command_named("ask"@) == BotCommand::Ask);
    assert(command_named("stats"@) == BotCommand::Stats);
    assert(command_named("help"@) == BotCommand::Help);
}

/// `/birthday get`, `remove` and `set` act on the user named in the request,
/// or on the caller when none is named.
pub proof fn law_birthday_acts_on_the_named_user(
    req: BirthdayRequest,
    caller_id: u64,
    caller_name: Seq<char>,
    today_day: i64,
    today_month: i64,
    in_guild: bool,
    res: BirthdayAction,
)
    requires
        is_birthday_action(req, caller_id, caller_name, today_day, today_month, in_guild, res),
    ensures
        is_subcommand(req.subcommand, "get"@) ==> (res matches BirthdayAction::Get { user_id } && (
        match req.user {
            Some(u) => user_id@ == decimal(u as nat),
            None => user_id@ == decimal(caller_id as nat),
        })),
        is_subcommand(req.subcommand, "remove"@) ==> (res matches BirthdayAction::Remove { user_id }
            && (match req.user {
            Some(u) => user_id@ == decimal(u as nat),
            None => user_id@ == decimal(caller_id as nat),
        })),
        res matches BirthdayAction::Save { user_id, username, .. } ==> is_subcommand(
            req.subcommand,
            "set"@,
        ) && (match req.user {
            Some(u) => user_id@ == decimal(u as nat) && (u != caller_id ==> username@ == decimal(
                u as nat,
            )),
            None => user_id@ == decimal(caller_id as nat) && username@ == caller_name,
        }),
{
    reveal_strlit("get");
    reveal_strlit("set");
    reveal_strlit("remove");
    assert("get"@[0] != "set"@[0]);
}

/// The `Model` field of `/info` comes first and shows the configured model,
/// or says that none is configured.
pub proof fn law_info_shows_the_configured_model(s: BotStatus, stats: Option<Statistics>)
    ensures
        info_fields_of(s, stats).len() >= 6,
        info_fields_of(s, stats)[0].0 == "Model"@,
        s.ai_model matches Some(m) ==> info_fields_of(s, stats)[0].1 == m@,
        s.ai_model is None ==> info_fields_of(s, stats)[0].1 == "Not configured"@,
{
}

} // verus!
