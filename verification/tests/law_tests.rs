use veebot::ai::cleanup_response;
use veebot::bot::{birthday_channel_action, plan_announcement, Announcement, ChannelAction};
use veebot::config::parse_u64;
use veebot::context::{add_recent, gather_context};
use veebot::database::{Birthday, Message, MessageType, Timestamp};
use veebot::search::{rank_games, UnionCraxGame};

fn birthday(user_id: &str) -> Birthday {
    let t = Timestamp { secs: 0, nanos: 0 };
    Birthday {
        user_id: user_id.to_string(),
        username: "u".to_string(),
        day: 1,
        month: 1,
        year: None,
        last_pinged_year: 0,
        created_at: t,
        updated_at: t,
    }
}

fn message(content: &str, secs: i64) -> Message {
    let t = Timestamp { secs, nanos: 0 };
    Message {
        id: secs,
        discord_message_id: None,
        content: content.to_string(),
        author_id: "a".to_string(),
        author_name: "a".to_string(),
        message_type: MessageType::User,
        guild_id: None,
        channel_id: None,
        created_at: t,
        updated_at: t,
    }
}

#[test]
fn law_decimal_round_trip_on_values() {
    for n in [0u64, 9, 10, 4321, 1234567890123, u64::MAX] {
        assert_eq!(parse_u64(&n.to_string()), Some(n));
    }
}

#[test]
fn law_assigned_channel_receives_announcements_on_values() {
    for channel in [1u64, 987654321012345678, u64::MAX] {
        let stored = match birthday_channel_action(true, Some("set"), Some(channel)) {
            ChannelAction::Assign(id) => id,
            _ => panic!("expected the channel to be stored"),
        };
        match plan_announcement(&vec![birthday("7")], Some(&stored), 5) {
            Announcement::Send { channel_id, .. } => assert_eq!(channel_id, channel),
            _ => panic!("expected a post"),
        }
    }
}

#[test]
fn law_cleaned_reply_is_one_nonempty_line_on_values() {
    for raw in ["", "\n\n", "AM:\n", "a\nb\nc", "Human: x", "AM: fine\r\nthanks\nHuman: y"] {
        let r = cleanup_response(raw);
        assert!(r.len() >= 3, "{:?} -> {:?}", raw, r);
        assert!(!r.contains('\n'), "{:?} -> {:?}", raw, r);
    }
}

#[test]
fn law_recent_messages_added_once_on_values() {
    let base = gather_context(&vec![message("a", 1)], &Vec::new(), "q");
    let recent = vec![message("b", 2), message("a", 3), message("b", 4), message("c", 5)];
    let ctx = add_recent(base, &recent);
    let contents: Vec<&str> = ctx.iter().map(|m| m.content.as_str()).collect();
    assert_eq!(contents, vec!["a", "b", "c"]);
    assert!(!ctx[0].is_recent);
}

#[test]
fn law_top_selection_is_unique_on_values() {
    let g = |name: &str, id: &str| UnionCraxGame {
        name: Some(name.to_string()),
        description: None,
        appid: Some(id.to_string()),
        id: None,
        size: None,
        source: None,
    };
    let games = vec![g("Quake", "1"), g("Quake II", "2"), g("Quake", "3")];
    let first = rank_games("quake", &games, &Vec::new(), "b");
    let second = rank_games("quake", &games, &Vec::new(), "b");
    let urls = |v: &Vec<veebot::search::GameInfo>| v.iter().map(|x| x.url.clone()).collect::<Vec<_>>();
    assert_eq!(urls(&first), urls(&second));
    assert_eq!(urls(&first), vec!["b/game/1", "b/game/3", "b/game/2"]);
}
