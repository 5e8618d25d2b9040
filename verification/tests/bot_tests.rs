use veebot::bot::{
    ai_channel_reply, ai_credentials, ask_fields, asked_by, birthday_action,
    birthday_channel_action, birthday_get_reply, birthday_list_reply, birthday_remove_reply,
    birthday_set_reply, channel_get_reply, channel_remove_reply, channel_set_reply, command_of,
    command_specs, format_date, format_uptime, game_fields, help_entries, human_count,
    ignores_author, image_attachment_urls, info_fields, info_shows_statistics,
    is_configured_channel, latency_color, mentions_user, no_match_reply, ping_fields,
    plan_announcement, reply_decision, search_error_reply, setting_value, settings_action,
    settings_overview, slash_message_id, startup_step, stats_report, truncate, Announcement,
    Attachment, BirthdayAction, BirthdayRequest, BotCommand, BotStatus, ChannelAction,
    OptionKind, ReplyDecision, SettingsAction, StartupError, StartupStep,
};
use veebot::config::DatabaseType;
use veebot::context::Statistics;
use veebot::database::{Birthday, ServerSetting, Timestamp};
use veebot::search::{GameInfo, SearchError};

fn pairs(v: &[(String, String)]) -> Vec<(&str, &str)> {
    v.iter().map(|(a, b)| (a.as_str(), b.as_str())).collect()
}

fn request(sub: Option<&str>, month: Option<i64>, day: Option<i64>, year: Option<i64>, user: Option<u64>) -> BirthdayRequest {
    BirthdayRequest { subcommand: sub.map(|s| s.to_string()), month, day, year, user }
}

fn birthday(user_id: &str, username: &str) -> Birthday {
    let t = Timestamp { secs: 0, nanos: 0 };
    Birthday {
        user_id: user_id.to_string(),
        username: username.to_string(),
        day: 1,
        month: 2,
        year: None,
        last_pinged_year: 0,
        created_at: t,
        updated_at: t,
    }
}

#[test]
fn truncate_counts_characters() {
    assert_eq!(truncate("héllo", 2), "hé");
    assert_eq!(truncate("abc", 10), "abc");
    assert_eq!(truncate("abc", 0), "");
}

#[test]
fn commands_are_dispatched_by_name() {
    assert_eq!(command_of("search"), BotCommand::Search);
    assert_eq!(command_of("birthday"), BotCommand::Birthday);
    assert_eq!(command_of("location"), BotCommand::Location);
    assert_eq!(command_of("Search"), BotCommand::Unknown);
    assert_eq!(command_of(""), BotCommand::Unknown);
}

#[test]
fn law_registered_commands_are_answered_on_table() {
    let specs = command_specs();
    assert_eq!(specs.len(), 9);
    for s in &specs {
        assert_ne!(command_of(&s.name), BotCommand::Unknown, "{}", s.name);
    }
    let birthday = &specs[2];
    assert_eq!(birthday.name, "birthday");
    let names: Vec<&str> = birthday.options.iter().map(|o| o.name.as_str()).collect();
    assert_eq!(names, vec!["set", "remove", "get", "test", "send", "channel"]);
    assert_eq!(birthday.options[0].options.len(), 4);
    assert!(birthday.options[0].options[0].required);
    assert_eq!(birthday.options[5].kind, OptionKind::SubCommandGroup);
    assert_eq!(specs[0].options[0].kind, OptionKind::Text);
}

#[test]
fn ping_and_uptime() {
    assert_eq!(latency_color(99), 0x00FF00);
    assert_eq!(latency_color(100), 0xFFFF00);
    assert_eq!(latency_color(250), 0xFF0000);
    let f = ping_fields(42);
    assert_eq!(pairs(&f), vec![("Roundtrip Latency", "42ms"), ("Gateway Heartbeat", "Cache unavailable")]);
    assert_eq!(format_uptime(3725), "1h 2m 5s");
    assert_eq!(format_uptime(0), "0h 0m 0s");
}

#[test]
fn info_lists_state_and_statistics() {
    let status = BotStatus {
        ai_model: None,
        is_semantic: true,
        uptime_secs: 61,
        database_enabled: true,
        database_type: DatabaseType::Postgres,
        mentions_enabled: false,
        semantic_search_enabled: true,
    };
    assert!(info_shows_statistics(true, true));
    assert!(!info_shows_statistics(true, false));
    let stats = Statistics { total_messages: 10, user_messages: 0, assistant_messages: 0, unique_channels: 3 };
    let f = info_fields(&status, Some(&stats));
    assert_eq!(
        pairs(&f),
        vec![
            ("Model", "Not configured"),
            ("Mode", "🔮 Semantic"),
            ("Uptime", "0h 1m 1s"),
            ("Database", "Enabled (postgres)"),
            ("Mentions", "❌ Disabled"),
            ("Semantic", "✅ Enabled"),
            ("Total Messages", "10"),
            ("Channels", "3"),
        ]
    );
    assert_eq!(info_fields(&status, None).len(), 6);
}

#[test]
fn stats_and_help() {
    assert_eq!(human_count(10, 3), 7);
    assert_eq!(human_count(2, 5), 0);
    let (title, fields) = stats_report("Guild", 10, 12, 4, 2);
    assert_eq!(title, "📊 Guild");
    assert_eq!(
        pairs(&fields),
        vec![("Total Members", "10"), ("Humans", "0"), ("Bots", "12"), ("Channels", "4"), ("Roles", "2")]
    );
    let help = help_entries();
    assert_eq!(help.len(), 9);
    assert_eq!(help[0].0, "/search <query>");
    assert_eq!(help[8].1, "Show this help message");
}

#[test]
fn birthday_set_requires_month_and_day() {
    match birthday_action(&request(Some("set"), Some(3), None, None, None), 7, "me", 1, 1, true) {
        BirthdayAction::Reply(t) => assert_eq!(t, "Both month and day are required"),
        _ => panic!("expected a reply"),
    }
    match birthday_action(&request(Some("set"), Some(3), Some(14), Some(1990), None), 7, "me", 1, 1, true) {
        BirthdayAction::Save { user_id, username, day, month, year } => {
            assert_eq!(user_id, "7");
            assert_eq!(username, "me");
            assert_eq!((day, month, year), (14, 3, Some(1990)));
        }
        _ => panic!("expected a save"),
    }
    match birthday_action(&request(Some("set"), Some(3), Some(14), None, Some(99)), 7, "me", 1, 1, true) {
        BirthdayAction::Save { user_id, username, .. } => {
            assert_eq!(user_id, "99");
            assert_eq!(username, "99");
        }
        _ => panic!("expected a save"),
    }
    // values are cut to 32 bits as the interaction values are
    match birthday_action(&request(Some("set"), Some(1 << 32), Some(1), None, None), 7, "me", 1, 1, true) {
        BirthdayAction::Reply(t) => assert_eq!(t, "Both month and day are required"),
        _ => panic!("expected a reply"),
    }
}

#[test]
fn birthday_set_rejects_dates_out_of_range() {
    for (m, d) in [(13, 1), (1, 32), (13, 40), (-1, 5), (5, -3)] {
        match birthday_action(&request(Some("set"), Some(m), Some(d), None, None), 7, "me", 1, 1, true) {
            BirthdayAction::Reply(t) => assert_eq!(t, "Month must be from 1 to 12 and day from 1 to 31"),
            _ => panic!("expected a reply for {}/{}", m, d),
        }
    }
    for (m, d) in [(12, 31), (1, 1)] {
        assert!(matches!(
            birthday_action(&request(Some("set"), Some(m), Some(d), None, None), 7, "me", 1, 1, true),
            BirthdayAction::Save { .. }
        ));
    }
}

#[test]
fn registered_birthday_options_in_full() {
    let specs = command_specs();
    let birthday = &specs[2];
    let set = &birthday.options[0];
    assert_eq!(set.kind, OptionKind::SubCommand);
    let names: Vec<&str> = set.options.iter().map(|o| o.name.as_str()).collect();
    assert_eq!(names, vec!["month", "day", "year", "user"]);
    assert_eq!(set.options[0].description, "Month (1-12)");
    assert_eq!(set.options[1].description, "Day (1-31)");
    assert!(set.options[0].required && set.options[1].required);
    assert!(!set.options[2].required && !set.options[3].required);
    assert_eq!(set.options[0].kind, OptionKind::Integer);
    assert_eq!(set.options[3].kind, OptionKind::User);
    let channel = &birthday.options[5];
    let subs: Vec<&str> = channel.options.iter().map(|o| o.name.as_str()).collect();
    assert_eq!(subs, vec!["set", "remove", "get"]);
    assert_eq!(channel.options[0].options[0].kind, OptionKind::Channel);
    assert!(channel.options[0].options[0].required);
}

#[test]
fn birthday_other_subcommands() {
    assert!(matches!(birthday_action(&request(Some("get"), None, None, None, None), 5, "me", 1, 1, true), BirthdayAction::Get { user_id } if user_id == "5"));
    assert!(matches!(birthday_action(&request(Some("remove"), None, None, None, Some(8)), 5, "me", 1, 1, true), BirthdayAction::Remove { user_id } if user_id == "8"));
    assert!(matches!(birthday_action(&request(Some("test"), None, Some(9), None, None), 5, "me", 24, 12, true), BirthdayAction::List { day: 9, month: 12 }));
    assert!(matches!(birthday_action(&request(Some("send"), None, None, None, None), 5, "me", 1, 1, true), BirthdayAction::Announce));
    assert!(matches!(birthday_action(&request(Some("send"), None, None, None, None), 5, "me", 1, 1, false), BirthdayAction::Reply(t) if t == "This command can only be used in a server"));
    assert!(matches!(birthday_action(&request(Some("channel"), None, None, None, None), 5, "me", 1, 1, true), BirthdayAction::Channel));
    assert!(matches!(birthday_action(&request(Some("other"), None, None, None, None), 5, "me", 1, 1, true), BirthdayAction::Reply(t) if t == "Use /help to see birthday options"));
    assert!(matches!(birthday_action(&request(None, None, None, None, None), 5, "me", 1, 1, true), BirthdayAction::Reply(t) if t == "Use /help to see birthday options"));
}

#[test]
fn birthday_replies() {
    assert_eq!(format_date(3, 14, Some(1990)), "3/14/1990");
    assert_eq!(birthday_set_reply(true, 3, 14, None), "Birthday set to **3/14**");
    assert_eq!(birthday_set_reply(false, 3, 14, None), "Failed to save birthday");
    let b = birthday("1", "ann");
    assert_eq!(birthday_get_reply(Some(&b)), "🎂 Birthday: **2/1**");
    assert_eq!(birthday_get_reply(None), "No birthday found");
    assert_eq!(birthday_remove_reply(true), "Birthday removed");
    assert_eq!(birthday_remove_reply(false), "Failed to remove birthday");
    assert_eq!(birthday_list_reply(2, 1, &Vec::new()), "No birthdays found for 2/1");
    let list = vec![birthday("1", "ann"), birthday("2", "bo")];
    assert_eq!(birthday_list_reply(2, 1, &list), "Birthdays for 2/1: ann, bo");
}

#[test]
fn announcements() {
    match plan_announcement(&Vec::new(), None, 5) {
        Announcement::Reply(t) => assert_eq!(t, "No birthdays to send today"),
        _ => panic!("expected a reply"),
    }
    let list = vec![birthday("1", "ann"), birthday("2", "bo")];
    match plan_announcement(&list, Some("777"), 5) {
        Announcement::Send { channel_id, text } => {
            assert_eq!(channel_id, 777);
            assert_eq!(text, "🎉 Happy birthday <@1> <@2>!");
        }
        _ => panic!("expected a post"),
    }
    match plan_announcement(&list, Some("not-a-channel"), 5) {
        Announcement::Send { channel_id, .. } => assert_eq!(channel_id, 5),
        _ => panic!("expected a post"),
    }
}

#[test]
fn birthday_channel_commands() {
    assert!(matches!(birthday_channel_action(false, Some("set"), Some(1)), ChannelAction::Reply(t) if t == "This command can only be used in a server"));
    assert!(matches!(birthday_channel_action(true, None, None), ChannelAction::Reply(t) if t == "Use /birthday channel with set, get, or remove"));
    assert!(matches!(birthday_channel_action(true, Some("set"), Some(42)), ChannelAction::Assign(id) if id == "42"));
    assert!(matches!(birthday_channel_action(true, Some("set"), None), ChannelAction::Reply(t) if t == "A channel is required"));
    assert!(matches!(birthday_channel_action(true, Some("get"), None), ChannelAction::Get));
    assert!(matches!(birthday_channel_action(true, Some("remove"), None), ChannelAction::Remove));
    assert_eq!(channel_set_reply(true, "42"), "Birthday channel set to <#42>");
    assert_eq!(channel_set_reply(false, "42"), "Failed to set birthday channel");
    assert_eq!(channel_get_reply(Some("9")), "Birthday channel: <#9>");
    assert_eq!(channel_get_reply(None), "No birthday channel configured");
    assert_eq!(channel_remove_reply(true), "Birthday channel removed");
}

#[test]
fn settings_commands() {
    assert!(matches!(settings_action(false, Some("view"), None, None), SettingsAction::Reply(t) if t == "This command can only be used in a server"));
    assert!(matches!(settings_action(true, None, None, None), SettingsAction::Reply(t) if t == "Use /help to see settings options"));
    assert!(matches!(settings_action(true, Some("view"), None, None), SettingsAction::View));
    assert!(matches!(settings_action(true, Some("ai_channel"), Some(12), None), SettingsAction::AssignAiChannel(c) if c == "12"));
    assert!(matches!(settings_action(true, Some("ai_channel"), None, None), SettingsAction::ResetAiChannel));
    assert!(matches!(settings_action(true, Some("response_chance"), None, Some("0.5")), SettingsAction::Chance(p) if p == "0.5"));
    assert!(matches!(settings_action(true, Some("response_chance"), None, None), SettingsAction::Reply(t) if t == "A percentage value is required"));
    assert_eq!(ai_channel_reply(true), "AI channel set");
    assert_eq!(ai_channel_reply(false), "AI channel reset");
}

#[test]
fn settings_values_come_from_the_first_match() {
    let s = |name: &str, value: Option<&str>| ServerSetting {
        guild_id: "g".to_string(),
        setting_name: name.to_string(),
        setting_value: value.map(|v| v.to_string()),
    };
    let settings = vec![s("ai_channel", None), s("ai_channel", Some("5")), s("random_response_chance", Some("0.3"))];
    assert_eq!(setting_value(&settings, "ai_channel"), None);
    assert_eq!(setting_value(&settings, "random_response_chance").as_deref(), Some("0.3"));
    let (channel, chance) = settings_overview(&settings);
    assert_eq!(channel, "Not set");
    assert_eq!(chance, "0.3");
    let (channel, chance) = settings_overview(&Vec::new());
    assert_eq!((channel.as_str(), chance.as_str()), ("Not set", "0.1"));
}

#[test]
fn reply_decisions() {
    assert!(ignores_author(true, false));
    assert!(!ignores_author(true, true));
    assert!(mentions_user(&vec![1, 2, 3], 2));
    assert!(!mentions_user(&vec![], 2));
    assert!(is_configured_channel(Some("123"), 123));
    assert!(!is_configured_channel(Some("0123"), 123));
    assert!(!is_configured_channel(None, 123));
    assert_eq!(reply_decision(true, false, 0, 99), ReplyDecision::Reply);
    assert_eq!(reply_decision(false, true, 20_001, 10_000), ReplyDecision::Roll);
    assert_eq!(reply_decision(false, true, 20_000, 10_000), ReplyDecision::Stay);
    assert_eq!(reply_decision(false, false, 50_000, 0), ReplyDecision::Stay);
}

#[test]
fn image_attachments() {
    let a = |t: Option<&str>, u: &str| Attachment { content_type: t.map(|x| x.to_string()), url: u.to_string() };
    let atts = vec![a(Some("image/png"), "p"), a(Some("text/plain"), "t"), a(None, "n"), a(Some("image/gif"), "g")];
    assert_eq!(image_attachment_urls(&atts), Some(vec!["p".to_string(), "g".to_string()]));
    assert_eq!(image_attachment_urls(&Vec::new()), Some(Vec::new()));
}

#[test]
fn search_and_ask_texts() {
    let g = GameInfo {
        title: "T".to_string(),
        url: "U".to_string(),
        description: None,
        source: "UnionCrax".to_string(),
        download_count: Some(5),
        view_count: None,
        size: None,
        appid: None,
    };
    assert_eq!(
        pairs(&game_fields(&g)),
        vec![("Source", "UnionCrax"), ("Views", "N/A"), ("Downloads", "5"), ("Size", "N/A")]
    );
    assert_eq!(no_match_reply("zelda"), "No matching games found for: **zelda**");
    assert_eq!(search_error_reply(&SearchError::NoResults), "Error: No results found");
    let long = "x".repeat(2000);
    let f = ask_fields(&long, "short");
    assert_eq!(f[0].1.chars().count(), 1024);
    assert_eq!(f[1].1, "short");
    assert_eq!(asked_by("ann"), "Asked by ann");
    assert_eq!(slash_message_id(77), "slash_77");
}

#[test]
fn startup() {
    assert_eq!(startup_step(false, true), StartupStep::SimpleMode);
    assert_eq!(startup_step(true, true), StartupStep::PrepareDatabase);
    assert_eq!(startup_step(true, false), StartupStep::CreateService);
    assert_eq!(ai_credentials(&Some("k".to_string()), &Some("m".to_string())), Some(("k".to_string(), "m".to_string())));
    assert_eq!(ai_credentials(&Some("k".to_string()), &None), None);
    assert_eq!(StartupError::Schema("x".to_string()).message(), "Database schema init failed: x");
}
