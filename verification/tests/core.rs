use kicktipp::cli::{get_default_season, show, season_filename, tips_filename, fetch_url,
    query_str, query_u32, do_submit, ShowWhat, Submit};
use kicktipp::errors::ToolError;
use kicktipp::goals::{aggregate_goals, board_lines};
use kicktipp::grid::{players, tip_cell, tip_grid};
use kicktipp::season::{parse_season, Match};
use kicktipp::text::parse_u32_line;
use kicktipp::tips::{load_tips, parse_tips, render_tips_document, Tip, TipStore};

fn sample_match(day: u32, t1: &str, t2: &str, g1: u32, g2: u32, finished: bool) -> String {
    let teams = format!(
        "\"team1\":{{\"teamName\":\"{t1} FC\",\"shortName\":\"{t1}\"}},\"team2\":{{\"teamName\":\"{t2} FC\",\"shortName\":\"{t2}\"}}",
        t1 = t1,
        t2 = t2
    );
    if finished {
        format!(
            "{{{teams},\"matchIsFinished\":true,\"group\":{{\"groupOrderID\":{day}}},\"matchResults\":[{{\"pointsTeam1\":{g1},\"pointsTeam2\":{g2}}}]}}",
            teams = teams,
            day = day,
            g1 = g1,
            g2 = g2
        )
    } else {
        format!(
            "{{{teams},\"matchIsFinished\":false,\"group\":{{\"groupOrderID\":{day}}},\"matchResults\":[]}}",
            teams = teams,
            day = day
        )
    }
}

#[test]
fn default_season_is_fixed() {
    assert_eq!(get_default_season(), 2021);
}

#[test]
fn show_dispatch() {
    assert_eq!(show("goals"), Some(ShowWhat::Goals));
    assert_eq!(show("tips"), Some(ShowWhat::Tips));
    assert_eq!(show("players"), None);
    assert_eq!(show(""), None);
}

#[test]
fn filenames_and_url() {
    assert_eq!(season_filename(2021), "data/season_2021.json");
    assert_eq!(tips_filename(2021), "data/season_2021_tips.json");
    assert_eq!(tips_filename(0), "data/season_0_tips.json");
    assert_eq!(
        fetch_url(2021),
        "https://api.openligadb.de/getmatchdata/bl1/2021"
    );
}

#[test]
fn numeric_prompt_parsing() {
    assert_eq!(parse_u32_line("42"), Some(42));
    assert_eq!(parse_u32_line("  42\n"), Some(42));
    assert_eq!(parse_u32_line("+7"), Some(7));
    assert_eq!(parse_u32_line("4294967295"), Some(u32::MAX));
    assert_eq!(parse_u32_line("4294967296"), None);
    assert_eq!(parse_u32_line("12a"), None);
    assert_eq!(parse_u32_line(""), None);
    assert_eq!(parse_u32_line("-3"), None);
    assert_eq!(parse_u32_line("+"), None);
}

#[test]
fn prompt_rounds() {
    let mut n: Option<u32> = None;
    query_u32(&mut n, "oops");
    assert_eq!(n, None);
    query_u32(&mut n, " 3 ");
    assert_eq!(n, Some(3));
    query_u32(&mut n, "9");
    assert_eq!(n, Some(3));

    let mut s: Option<String> = None;
    query_str(&mut s, "  Alice \n");
    assert_eq!(s.as_deref(), Some("Alice"));
    query_str(&mut s, "Bob");
    assert_eq!(s.as_deref(), Some("Alice"));
}

#[test]
fn season_parsing_and_aggregate_example() {
    // day 1: A beats B 2:1 (finished); C vs D not yet played
    let text = format!(
        "[{},{}]",
        sample_match(1, "A", "B", 2, 1, true),
        sample_match(1, "C", "D", 0, 0, false)
    );
    let ms = parse_season(&text).unwrap();
    assert_eq!(ms.len(), 2);
    assert_eq!(ms[0].team_1, "A FC");
    assert_eq!(ms[0].team_1_short, "A");
    assert!(ms[0].finished);
    assert!(!ms[1].finished);

    let board = aggregate_goals(&ms);
    assert_eq!(board.len(), 2);
    assert_eq!(board[0].team, "A FC");
    assert_eq!(board[0].goals, 2);
    assert_eq!(board[1].team, "B FC");
    assert_eq!(board[1].goals, 1);
    for row in &board {
        assert_ne!(row.team, "C FC");
        assert_ne!(row.team, "D FC");
    }
}

#[test]
fn aggregate_keeps_goalless_teams() {
    let text = format!("[{}]", sample_match(1, "A", "B", 0, 0, true));
    let ms = parse_season(&text).unwrap();
    let board = aggregate_goals(&ms);
    assert_eq!(board.len(), 2);
    assert_eq!(board[0].team, "A FC");
    assert_eq!(board[0].goals, 0);
    assert_eq!(board[1].team, "B FC");
    assert_eq!(board[1].goals, 0);
}

#[test]
fn aggregate_sums_both_sides_and_sorts() {
    let text = format!(
        "[{},{},{}]",
        sample_match(1, "A", "B", 2, 0, true),
        sample_match(2, "B", "A", 1, 3, true),
        sample_match(3, "C", "D", 5, 5, true)
    );
    let ms = parse_season(&text).unwrap();
    let board = aggregate_goals(&ms);
    // totals: A 5, B 1, C 5, D 5; ties keep first-seen order
    assert_eq!(board.len(), 4);
    assert_eq!((board[0].team.as_str(), board[0].goals), ("A FC", 5));
    assert_eq!((board[1].team.as_str(), board[1].goals), ("C FC", 5));
    assert_eq!((board[2].team.as_str(), board[2].goals), ("D FC", 5));
    assert_eq!((board[3].team.as_str(), board[3].goals), ("B FC", 1));
}

#[test]
fn board_line_format() {
    let text = format!("[{}]", sample_match(1, "A", "B", 2, 1, true));
    let ms = parse_season(&text).unwrap();
    let board = aggregate_goals(&ms);
    let lines = board_lines(&board);
    assert_eq!(lines[0], format!("{:25}: {}", "A FC", 2));
    assert_eq!(lines[1], format!("{:25}: {}", "B FC", 1));
}

#[test]
fn season_parse_errors() {
    assert!(matches!(parse_season("not json"), Err(ToolError::Parse)));
    // a member missing matchIsFinished
    assert!(matches!(
        parse_season("[{\"team1\":{\"teamName\":\"A\",\"shortName\":\"A\"}}]"),
        Err(ToolError::Parse)
    ));
    // a finished match without a result entry
    let text = "[{\"team1\":{\"teamName\":\"A\",\"shortName\":\"A\"},\
                 \"team2\":{\"teamName\":\"B\",\"shortName\":\"B\"},\
                 \"matchIsFinished\":true,\
                 \"group\":{\"groupOrderID\":1},\
                 \"matchResults\":[]}]";
    assert!(matches!(parse_season(text), Err(ToolError::Parse)));
    // a non-array document iterates as empty
    assert_eq!(parse_season("{}").unwrap().len(), 0);
}

#[test]
fn tips_load_without_file_creates_empty_document() {
    let (store, create) = load_tips(None).unwrap();
    assert_eq!(store.entries.len(), 0);
    assert_eq!(create.as_deref(), Some("{}"));
}

#[test]
fn tips_load_with_file_writes_nothing() {
    let (store, create) = load_tips(Some("{}")).unwrap();
    assert_eq!(store.entries.len(), 0);
    assert_eq!(create, None);
    assert!(matches!(load_tips(Some("not json")), Err(ToolError::Parse)));
}

#[test]
fn tips_parse_reads_entries() {
    let text = "{\"1_Alice_A\":{\"whom\":\"Alice\",\"day\":1,\"team_1\":\"A\",\
                 \"team_1_goals\":2,\"team_2_goals\":1}}";
    let store = parse_tips(text).unwrap();
    assert_eq!(store.entries.len(), 1);
    let tip = store.get(&"1_Alice_A".to_string()).unwrap();
    assert_eq!(tip.whom, "Alice");
    assert_eq!(tip.day, 1);
    assert_eq!(tip.team_1, "A");
    assert_eq!(tip.team_1_goals, 2);
    assert_eq!(tip.team_2_goals, 1);
    // an entry missing a field is a parse error
    let bad = "{\"1_Alice_A\":{\"whom\":\"Alice\"}}";
    assert_eq!(parse_tips(bad).err(), Some(ToolError::Parse));
}

fn tip(whom: &str, day: u32, team_1: &str, g1: u32, g2: u32) -> Tip {
    Tip {
        whom: whom.to_string(),
        day,
        team_1: team_1.to_string(),
        team_1_goals: g1,
        team_2_goals: g2,
    }
}

#[test]
fn upsert_overwrites_same_key() {
    let mut store = TipStore::new();
    store.upsert(tip("Alice", 1, "A", 2, 1));
    assert_eq!(store.entries.len(), 1);
    store.upsert(tip("Alice", 1, "A", 3, 0));
    assert_eq!(store.entries.len(), 1);
    assert_eq!(store.entries[0].key, "1_Alice_A");
    let t = store.get(&"1_Alice_A".to_string()).unwrap();
    assert_eq!(t.team_1_goals, 3);
    assert_eq!(t.team_2_goals, 0);
    store.upsert(tip("Bob", 1, "A", 1, 1));
    assert_eq!(store.entries.len(), 2);
}

#[test]
fn tips_document_round_trip() {
    let mut store = TipStore::new();
    store.upsert(tip("Alice", 1, "A", 2, 1));
    store.upsert(tip("Bob", 2, "C", 0, 4));
    let doc = render_tips_document(&store);
    let again = parse_tips(&doc).unwrap();
    assert_eq!(again.entries.len(), 2);
    let a = again.get(&"1_Alice_A".to_string()).unwrap();
    assert_eq!((a.day, a.team_1_goals, a.team_2_goals), (1, 2, 1));
    let b = again.get(&"2_Bob_C".to_string()).unwrap();
    assert_eq!((b.day, b.team_1_goals, b.team_2_goals), (2, 0, 4));
}

#[test]
fn submit_fills_store_and_renders() {
    let mut store = TipStore::new();
    let submit = Submit {
        season: 2021,
        whom: Some("Alice".to_string()),
        day: Some(1),
        team_1: Some("A".to_string()),
        team_1_goals: Some(2),
        team_2_goals: Some(1),
    };
    let doc = do_submit(&submit, &mut store);
    assert_eq!(store.entries.len(), 1);
    assert_eq!(store.entries[0].key, "1_Alice_A");
    let again = parse_tips(&doc).unwrap();
    let t = again.get(&"1_Alice_A".to_string()).unwrap();
    assert_eq!((t.team_1_goals, t.team_2_goals), (2, 1));
    // resubmitting the same key overwrites, leaving one entry
    let submit2 = Submit {
        season: 2021,
        whom: Some("Alice".to_string()),
        day: Some(1),
        team_1: Some("A".to_string()),
        team_1_goals: Some(3),
        team_2_goals: Some(0),
    };
    do_submit(&submit2, &mut store);
    assert_eq!(store.entries.len(), 1);
    let t2 = store.get(&"1_Alice_A".to_string()).unwrap();
    assert_eq!((t2.team_1_goals, t2.team_2_goals), (3, 0));
}

#[test]
fn grid_cells_and_rows() {
    let mut store = TipStore::new();
    store.upsert(tip("Alice", 1, "A", 2, 1));
    assert_eq!(
        tip_cell(&store, 1, &"Alice".to_string(), &"A".to_string()),
        "2:1"
    );
    assert_eq!(
        tip_cell(&store, 2, &"Alice".to_string(), &"A".to_string()),
        "-"
    );
    assert_eq!(
        tip_cell(&store, 1, &"Bob".to_string(), &"A".to_string()),
        "-"
    );

    let names = players(&store);
    assert_eq!(names, vec!["Alice".to_string()]);

    let text = format!(
        "[{},{}]",
        sample_match(1, "A", "B", 2, 1, true),
        sample_match(2, "C", "D", 0, 0, false)
    );
    let ms: Vec<Match> = parse_season(&text).unwrap();
    let lines = tip_grid(&ms, &store);
    assert_eq!(lines.len(), 3);
    assert_eq!(lines[0], format!("Day | {:30} | {:10} | ", "Game", "Alice"));
    assert_eq!(
        lines[1],
        format!("{:3} | {:30} | {:10} | ", 1, "A vs. B", "2:1")
    );
    assert_eq!(
        lines[2],
        format!("{:3} | {:30} | {:10} | ", 2, "C vs. D", "-")
    );
}

#[test]
fn error_messages() {
    assert_eq!(ToolError::NotFound.message(), "not found");
    assert_eq!(ToolError::Parse.message(), "parse error");
    assert_eq!(ToolError::Network.message(), "network error");
    assert_eq!(ToolError::InvalidInput.message(), "invalid input");
}
