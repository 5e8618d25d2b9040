use veebot::search::{
    best_game, count_result_lines, encode, normalize_string, rank_games, web_results,
    web_search_url, GameInfo, GameStats, SearchError, UnionCraxGame,
};

fn text(v: &Vec<char>) -> String {
    v.iter().collect()
}

fn game(name: &str, appid: &str) -> UnionCraxGame {
    UnionCraxGame {
        name: Some(name.to_string()),
        description: None,
        appid: Some(appid.to_string()),
        id: None,
        size: None,
        source: None,
    }
}

#[test]
fn encode_keeps_unreserved_and_escapes_the_rest() {
    assert_eq!(encode("a b"), "a%20b");
    assert_eq!(encode("AZaz09-_.~"), "AZaz09-_.~");
    assert_eq!(encode("a/b?c=d&e"), "a%2Fb%3Fc%3Dd%26e");
    assert_eq!(encode("é"), "%C3%A9");
    assert_eq!(encode("😀"), "%F0%9F%98%80");
    assert_eq!(encode(""), "");
}

#[test]
fn law_encoded_text_is_url_safe_on_examples() {
    for s in ["hello world", "ü/ß", "100% sure?"] {
        let e = encode(s);
        assert!(e.chars().all(|c| c.is_ascii_alphanumeric() || "-_.~%".contains(c)));
    }
}

#[test]
fn web_search_url_appends_encoded_query() {
    assert_eq!(
        web_search_url("https://www.google.com/search?q=", "rust lang"),
        "https://www.google.com/search?q=rust%20lang"
    );
}

#[test]
fn normalize_string_lowercases_and_splits_on_symbols() {
    assert_eq!(text(&normalize_string("Hello, World!")), "hello  world");
    assert_eq!(text(&normalize_string("  GTA-V  ")), "gta v");
    // Unicode lowercase and Unicode letters stay letters
    assert_eq!(text(&normalize_string("ÉCOLE")), "école");
}

#[test]
fn rank_games_orders_by_score_and_applies_threshold() {
    let games = vec![game("Half-Life", "70"), game("Portal 2", "620"), game("Portal", "400")];
    let stats = vec![GameStats { appid: "400".to_string(), downloads: Some(12), views: Some(34) }];
    let found = rank_games("portal", &games, &stats, "https://union-crax.xyz");
    assert_eq!(found.len(), 2);
    assert_eq!(found[0].title, "Portal - Free Download on UnionCrax");
    assert_eq!(found[0].url, "https://union-crax.xyz/game/400");
    assert_eq!(found[0].download_count, Some(12));
    assert_eq!(found[0].view_count, Some(34));
    assert_eq!(found[0].source, "UnionCrax");
    assert_eq!(found[1].title, "Portal 2 - Free Download on UnionCrax");
    assert_eq!(found[1].download_count, None);
}

#[test]
fn rank_games_keeps_at_most_three_in_list_order_on_ties() {
    let games = vec![
        game("Doom", "1"),
        game("Doom", "2"),
        game("Doom", "3"),
        game("Doom", "4"),
    ];
    let found = rank_games("doom", &games, &Vec::new(), "b");
    assert_eq!(found.len(), 3);
    assert_eq!(found[0].url, "b/game/1");
    assert_eq!(found[1].url, "b/game/2");
    assert_eq!(found[2].url, "b/game/3");
}

#[test]
fn rank_games_uses_id_when_appid_is_missing() {
    let g = UnionCraxGame {
        name: Some("Celeste".to_string()),
        description: Some("climb".to_string()),
        appid: None,
        id: Some("celeste-id".to_string()),
        size: Some("1 GB".to_string()),
        source: Some("Mirror".to_string()),
    };
    let found = rank_games("celeste", &vec![g], &Vec::new(), "x");
    assert_eq!(found.len(), 1);
    assert_eq!(found[0].url, "x/game/celeste-id");
    assert_eq!(found[0].appid.as_deref(), Some("celeste-id"));
    assert_eq!(found[0].source, "Mirror");
    assert_eq!(found[0].size.as_deref(), Some("1 GB"));
}

#[test]
fn rank_games_drops_low_scores() {
    let games = vec![game("Minecraft", "9")];
    assert_eq!(rank_games("tetris", &games, &Vec::new(), "b").len(), 0);
}

#[test]
fn best_game_needs_a_result() {
    assert!(matches!(best_game(&Vec::new()), Err(SearchError::NoResults)));
    let g = GameInfo {
        title: "T".to_string(),
        url: "U".to_string(),
        description: None,
        source: "S".to_string(),
        download_count: None,
        view_count: Some(3),
        size: None,
        appid: None,
    };
    match best_game(&vec![g]) {
        Ok(Some(found)) => {
            assert_eq!(found.title, "T");
            assert_eq!(found.view_count, Some(3));
        }
        _ => panic!("expected a game"),
    }
}

#[test]
fn search_error_messages() {
    assert_eq!(SearchError::NoResults.message(), "No results found");
    assert_eq!(SearchError::ParseError("bad".to_string()).message(), "Parse error: bad");
    assert_eq!(
        SearchError::RequestFailed("timeout".to_string()).message(),
        "HTTP request failed: timeout"
    );
}

#[test]
fn web_results_count_result_lines() {
    let html = "<div class=\"g\">a</div>\nplain\n<div class='g'>b</div>";
    assert_eq!(count_result_lines(html), 2);
    let rs = web_results(html, "q", "url");
    assert_eq!(rs.len(), 2);
    assert_eq!(rs[0].title, "Search result");
    assert_eq!(rs[0].description, "Results for q");
    assert_eq!(rs[1].source, "Web Search");
}

#[test]
fn web_results_fall_back_to_one_entry() {
    let rs = web_results("<html></html>", "rust", "url");
    assert_eq!(rs.len(), 1);
    assert_eq!(rs[0].title, "Search results for \"rust\"");
    assert_eq!(rs[0].description, "Find information about rust on the web");
    assert_eq!(rs[0].url, "url");
}

#[test]
fn law_normal_form_is_stable_on_ascii_examples() {
    let once = text(&normalize_string("Half-Life 2: Episode One"));
    assert_eq!(once, "half life 2  episode one");
    assert_eq!(text(&normalize_string(&once)), once);
    let tabs = text(&normalize_string("\tA_b\n"));
    assert_eq!(text(&normalize_string(&tabs)), tabs);
}

fn percent_decode(s: &str) -> String {
    let b = s.as_bytes();
    let mut out: Vec<u8> = Vec::new();
    let mut i = 0;
    let hex = |c: u8| -> Option<u8> {
        match c {
            b'0'..=b'9' => Some(c - b'0'),
            b'A'..=b'F' => Some(c - b'A' + 10),
            _ => None,
        }
    };
    while i < b.len() {
        if b[i] == b'%' && i + 2 < b.len() {
            if let (Some(h), Some(l)) = (hex(b[i + 1]), hex(b[i + 2])) {
                out.push(h * 16 + l);
                i += 3;
                continue;
            }
        }
        out.push(b[i]);
        i += 1;
    }
    String::from_utf8(out).unwrap()
}

#[test]
fn law_url_encoding_decodes_back_on_examples() {
    for s in ["", "a b", "a+b", "100%", "Grand Theft Auto: V", "école ☃ 😀", "%41"] {
        assert_eq!(percent_decode(&encode(s)), s, "{}", s);
    }
    assert_ne!(encode("a b"), encode("a+b"));
    assert_ne!(encode("%41"), encode("A"));
}
