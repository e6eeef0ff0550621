use d3270::b3270::indication::{
    Change, Connection, ConnectionState, CountOrText, Cursor, Erase, OiaField, OiaFieldName, Row,
    RunResult, Screen, ScreenMode, Scroll, Setting, Tls,
};
use d3270::b3270::types::{Color, GraphicRendition, PackedAttr, GR_HIGHLIGHT};
use d3270::b3270::{Indication, InitializeIndication};
use d3270::tracker::{CharCell, Disposition, Tracker};

fn mode_24x80() -> ScreenMode {
    ScreenMode { model: 2, rows: 24, columns: 80, color: true, oversize: false, extended: true }
}

fn feed(t: &mut Tracker, ind: Indication) -> Disposition {
    let mut ind = ind;
    t.handle_indication(&mut ind)
}

fn text_change(column: u8, text: &str, fg: Option<Color>) -> Change {
    Change { column, change: CountOrText::Text(text.to_string()), fg, bg: None, gr: None }
}

fn blank_start() -> Tracker {
    let mut t = Tracker::default();
    assert_eq!(feed(&mut t, Indication::ScreenMode(mode_24x80())), Disposition::Broadcast);
    t
}

fn with_hi() -> Tracker {
    let mut t = blank_start();
    let screen = Screen {
        cursor: None,
        rows: vec![Row { row: 1, changes: vec![text_change(1, "HI", Some(Color::Red))] }],
    };
    feed(&mut t, Indication::Screen(screen));
    t
}

fn initialize_payload(snapshot: &[Indication]) -> &Vec<InitializeIndication> {
    match &snapshot[0] {
        Indication::Initialize(items) => items,
        other => panic!("expected Initialize, got {other:?}"),
    }
}

#[test]
fn fresh_tracker_is_blank_80_by_43() {
    let t = Tracker::default();
    let blank = u32::c_pack(Color::NeutralWhite, Color::NeutralBlack, GraphicRendition::empty());
    assert_eq!(t.get_screen().len(), 43);
    for row in t.get_screen() {
        assert_eq!(row.len(), 80);
        assert!(row.iter().all(|c| *c == CharCell { ch: ' ', attr: blank }));
    }
    assert!(t.get_oia().iter().all(|f| f.is_none()));
    assert!(!t.get_cursor().enabled);
    assert_eq!(t.get_connection().state, ConnectionState::NotConnected);
    assert!(!t.get_cursor().enabled);
}

#[test]
fn blank_start_scenario() {
    let t = blank_start();
    let screen = t.get_screen();
    assert_eq!(screen.len(), 24);
    let blank = u32::c_pack(Color::NeutralWhite, Color::NeutralBlack, GraphicRendition::empty());
    for row in screen {
        assert_eq!(row.len(), 80);
        for cell in row {
            assert_eq!(*cell, CharCell { ch: ' ', attr: blank });
        }
    }
    let snap = t.get_init_indication();
    let items = initialize_payload(&snap);
    assert!(items.contains(&InitializeIndication::ScreenMode(mode_24x80())));
    assert!(items.contains(&InitializeIndication::Erase(Erase {
        logical_rows: Some(24),
        logical_cols: Some(80),
        fg: Some(Color::NeutralWhite),
        bg: Some(Color::NeutralBlack),
    })));
}

#[test]
fn single_text_change_scenario() {
    let t = with_hi();
    let screen = t.get_screen();
    let hi = u32::c_pack(Color::Red, Color::NeutralBlack, GraphicRendition::empty());
    let blank = u32::c_pack(Color::NeutralWhite, Color::NeutralBlack, GraphicRendition::empty());
    assert_eq!(screen[0][0], CharCell { ch: 'H', attr: hi });
    assert_eq!(screen[0][1], CharCell { ch: 'I', attr: hi });
    assert_eq!(screen[0][2], CharCell { ch: ' ', attr: blank });
    assert_eq!(screen[1][0], CharCell { ch: ' ', attr: blank });
    let snap = t.get_init_indication();
    let rows = match &snap[2] {
        Indication::Screen(s) => &s.rows,
        other => panic!("expected Screen, got {other:?}"),
    };
    assert_eq!(rows.len(), 24);
    assert_eq!(rows[0].row, 1);
    assert_eq!(
        rows[0].changes,
        vec![
            Change {
                column: 1,
                change: CountOrText::Text("HI".to_string()),
                fg: Some(Color::Red),
                bg: Some(Color::NeutralBlack),
                gr: Some(GraphicRendition::empty()),
            },
            Change {
                column: 3,
                change: CountOrText::Text(" ".repeat(78)),
                fg: Some(Color::NeutralWhite),
                bg: Some(Color::NeutralBlack),
                gr: Some(GraphicRendition::empty()),
            },
        ]
    );
    assert_eq!(rows[23].row, 24);
    assert_eq!(rows[23].changes.len(), 1);
}

#[test]
fn count_change_keeps_characters() {
    let mut t = with_hi();
    let gr = GraphicRendition::from_bits_truncate(GR_HIGHLIGHT);
    let change = Change {
        column: 2,
        change: CountOrText::Count(3),
        fg: None,
        bg: Some(Color::Blue),
        gr: Some(gr),
    };
    feed(&mut t, Indication::Screen(Screen { cursor: None, rows: vec![Row { row: 1, changes: vec![change] }] }));
    let screen = t.get_screen();
    assert_eq!(screen[0][0].attr, u32::c_pack(Color::Red, Color::NeutralBlack, GraphicRendition::empty()));
    assert_eq!(screen[0][1], CharCell { ch: 'I', attr: u32::c_pack(Color::Red, Color::Blue, gr) });
    assert_eq!(screen[0][3].ch, ' ');
    assert_eq!(screen[0][3].attr, u32::c_pack(Color::NeutralWhite, Color::Blue, gr));
    assert_eq!(screen[0][4].attr, u32::c_pack(Color::NeutralWhite, Color::NeutralBlack, GraphicRendition::empty()));
}

#[test]
fn out_of_range_rows_and_columns_are_ignored() {
    let mut t = with_hi();
    let before: Vec<Vec<CharCell>> = t.get_screen().clone();
    let screen = Screen {
        cursor: None,
        rows: vec![
            Row { row: 0, changes: vec![text_change(1, "X", None)] },
            Row { row: 25, changes: vec![text_change(1, "X", None)] },
            Row { row: 2, changes: vec![text_change(0, "X", None)] },
        ],
    };
    feed(&mut t, Indication::Screen(screen));
    assert_eq!(t.get_screen(), &before);
    let screen = Screen { cursor: None, rows: vec![Row { row: 2, changes: vec![text_change(79, "XYZ", None)] }] };
    feed(&mut t, Indication::Screen(screen));
    assert_eq!(t.get_screen()[1][78].ch, 'X');
    assert_eq!(t.get_screen()[1][79].ch, 'Y');
    assert_eq!(t.get_screen()[1].len(), 80);
}

#[test]
fn scroll_scenario() {
    let mut t = with_hi();
    let old_row1: Vec<CharCell> = t.get_screen()[1].clone();
    assert_eq!(feed(&mut t, Indication::Scroll(Scroll { fg: None, bg: None })), Disposition::Broadcast);
    let screen = t.get_screen();
    assert_eq!(screen.len(), 24);
    assert_eq!(screen[0], old_row1);
    let blank = u32::c_pack(Color::NeutralWhite, Color::NeutralBlack, GraphicRendition::empty());
    assert_eq!(screen[23].len(), 80);
    assert!(screen[23].iter().all(|c| *c == CharCell { ch: ' ', attr: blank }));
}

#[test]
fn scroll_takes_its_own_colors() {
    let mut t = with_hi();
    feed(&mut t, Indication::Scroll(Scroll { fg: Some(Color::Green), bg: Some(Color::Yellow) }));
    let attr = u32::c_pack(Color::Green, Color::Yellow, GraphicRendition::empty());
    assert!(t.get_screen()[23].iter().all(|c| c.attr == attr));
}

#[test]
fn oia_and_resync_scenario() {
    let mut t = blank_start();
    feed(&mut t, Indication::Oia(OiaField::Lock { value: Some("X SYSTEM".to_string()) }));
    assert_eq!(t.get_oia_state().lock, Some("X SYSTEM".to_string()));
    let snap = t.get_init_indication();
    let oias: Vec<&OiaField> = initialize_payload(&snap)
        .iter()
        .filter_map(|i| match i {
            InitializeIndication::Oia(f) => Some(f),
            _ => None,
        })
        .collect();
    assert_eq!(oias, vec![&OiaField::Lock { value: Some("X SYSTEM".to_string()) }]);
}

#[test]
fn oia_projection_rules() {
    let mut t = blank_start();
    feed(&mut t, Indication::Oia(OiaField::Lu { value: "LU1".to_string(), lu: Some("PRT".to_string()) }));
    feed(&mut t, Indication::Oia(OiaField::Insert { value: true }));
    feed(&mut t, Indication::Oia(OiaField::Compose { value: true, char: None, type_: None }));
    let st = t.get_oia_state();
    assert_eq!(st.lu, Some("LU1".to_string()));
    assert_eq!(st.printer_lu, Some("PRT".to_string()));
    assert!(st.insert);
    assert_eq!(st.compose, None);
    assert_eq!(t.get_oia()[OiaFieldName::Insert.index()], Some(OiaField::Insert { value: true }));
    assert_eq!(OiaField::Insert { value: true }.field_name(), OiaFieldName::Insert);
}

#[test]
fn erase_is_completed_in_place() {
    let mut t = blank_start();
    let mut ind = Indication::Erase(Erase { logical_rows: Some(10), logical_cols: None, fg: Some(Color::Green), bg: None });
    assert_eq!(t.handle_indication(&mut ind), Disposition::Broadcast);
    assert_eq!(
        ind,
        Indication::Erase(Erase {
            logical_rows: Some(10),
            logical_cols: Some(80),
            fg: Some(Color::Green),
            bg: Some(Color::NeutralBlack),
        })
    );
    assert_eq!(t.get_screen().len(), 10);
    assert_eq!(t.get_screen()[9].len(), 80);
}

#[test]
fn run_results_are_directed_or_dropped() {
    let mut t = blank_start();
    let rr = RunResult { r_tag: Some("t1".to_string()), success: true, text: vec![], abort: None, time_bits: 0 };
    assert_eq!(feed(&mut t, Indication::RunResult(rr)), Disposition::Direct("t1".to_string()));
    let rr = RunResult { r_tag: None, success: false, text: vec![], abort: None, time_bits: 0 };
    assert_eq!(feed(&mut t, Indication::RunResult(rr)), Disposition::Drop);
    assert_eq!(feed(&mut t, Indication::Bell {}), Disposition::Broadcast);
}

#[test]
fn settings_are_upserted_by_name() {
    let mut t = blank_start();
    let s1 = Setting { name: "a".to_string(), value: Some(serde_json::Value::from(1)), cause: None };
    let s2 = Setting { name: "b".to_string(), value: None, cause: None };
    let s3 = Setting { name: "a".to_string(), value: Some(serde_json::Value::from(2)), cause: None };
    feed(&mut t, Indication::Setting(s1));
    feed(&mut t, Indication::Setting(s2.clone()));
    feed(&mut t, Indication::Setting(s3.clone()));
    let snap = t.get_init_indication();
    let settings: Vec<&Setting> = initialize_payload(&snap)
        .iter()
        .filter_map(|i| match i {
            InitializeIndication::Setting(s) => Some(s),
            _ => None,
        })
        .collect();
    assert_eq!(settings, vec![&s3, &s2]);
}

#[test]
fn initialize_splits_static_and_tracked_elements() {
    let mut t = Tracker::default();
    let init = vec![
        InitializeIndication::Prefixes { value: "abc".to_string() },
        InitializeIndication::ScreenMode(mode_24x80()),
        InitializeIndication::Connection(Connection {
            state: ConnectionState::ConnectedTn3270e,
            host: Some("host".to_string()),
            cause: None,
        }),
    ];
    feed(&mut t, Indication::Initialize(init));
    assert_eq!(t.get_screen().len(), 24);
    assert_eq!(t.get_connection().state, ConnectionState::ConnectedTn3270e);
    let snap = t.get_init_indication();
    assert_eq!(initialize_payload(&snap)[0], InitializeIndication::Prefixes { value: "abc".to_string() });
}

#[test]
fn snapshot_replay_rebuilds_the_tracker() {
    let mut t = with_hi();
    feed(&mut t, Indication::Oia(OiaField::Lock { value: Some("X SYSTEM".to_string()) }));
    feed(&mut t, Indication::Setting(Setting { name: "s".to_string(), value: Some(serde_json::Value::from(true)), cause: None }));
    feed(&mut t, Indication::Connection(Connection { state: ConnectionState::Connected3270, host: Some("h".to_string()), cause: None }));
    feed(&mut t, Indication::Formatted { state: true });
    let cursor = Cursor { enabled: true, row: Some(3), column: Some(4) };
    let gr = GraphicRendition::from_bits_truncate(GR_HIGHLIGHT);
    let change = Change { column: 5, change: CountOrText::Text("abc".to_string()), fg: Some(Color::Pink), bg: Some(Color::Gray), gr: Some(gr) };
    feed(&mut t, Indication::Screen(Screen { cursor: Some(cursor), rows: vec![Row { row: 7, changes: vec![change] }] }));
    feed(&mut t, Indication::Scroll(Scroll { fg: Some(Color::Purple), bg: None }));

    let mut fresh = Tracker::default();
    for ind in t.get_init_indication() {
        feed(&mut fresh, ind);
    }
    assert_eq!(fresh.get_screen(), t.get_screen());
    assert_eq!(fresh.get_oia(), t.get_oia());
    assert_eq!(fresh.get_cursor(), t.get_cursor());
    assert_eq!(fresh.get_connection(), t.get_connection());
    assert_eq!(fresh.get_init_indication(), t.get_init_indication());
}

#[test]
fn tls_travels_as_a_static_element() {
    let mut t = blank_start();
    let tls = Tls { secure: true, verified: Some(true), session: None, host_cert: None };
    feed(&mut t, Indication::Tls(tls.clone()));
    let snap = t.get_init_indication();
    assert_eq!(initialize_payload(&snap).last(), Some(&InitializeIndication::Tls(tls)));
}

#[test]
fn change_lengths() {
    assert_eq!(CountOrText::Count(7).len(), 7);
    assert_eq!(CountOrText::Text("héllo".to_string()).len(), 5);
    assert_eq!(CountOrText::Text(String::new()).len(), 0);
}

#[test]
fn snapshot_carries_cursor_only_when_enabled() {
    let mut t = blank_start();
    let shown = Cursor { enabled: true, row: Some(2), column: Some(9) };
    feed(&mut t, Indication::Screen(Screen { cursor: Some(shown), rows: vec![] }));
    match &t.get_init_indication()[2] {
        Indication::Screen(s) => assert_eq!(s.cursor, Some(shown)),
        other => panic!("expected Screen, got {other:?}"),
    }
    let hidden = Cursor { enabled: false, row: None, column: None };
    feed(&mut t, Indication::Screen(Screen { cursor: Some(hidden), rows: vec![] }));
    match &t.get_init_indication()[2] {
        Indication::Screen(s) => assert_eq!(s.cursor, None),
        other => panic!("expected Screen, got {other:?}"),
    }
}

#[test]
fn snapshot_ends_with_formatted_and_trace_file() {
    let mut t = blank_start();
    feed(&mut t, Indication::Formatted { state: true });
    assert_eq!(t.get_init_indication().len(), 4);
    assert_eq!(t.get_init_indication()[3], Indication::Formatted { state: true });
    feed(&mut t, Indication::TraceFile(d3270::b3270::indication::TraceFile { name: Some("x.trc".to_string()) }));
    let snap = t.get_init_indication();
    assert_eq!(snap.len(), 5);
    assert_eq!(
        snap[4],
        Indication::TraceFile(d3270::b3270::indication::TraceFile { name: Some("x.trc".to_string()) })
    );
}

#[test]
fn fresh_tracker_snapshot_replays_to_the_same_screen() {
    let t = Tracker::default();
    let mut fresh = Tracker::default();
    for ind in t.get_init_indication() {
        feed(&mut fresh, ind);
    }
    assert_eq!(fresh.get_screen(), t.get_screen());
    assert_eq!(fresh.get_connection(), t.get_connection());
}

#[test]
fn scrolled_fresh_tracker_replays_to_the_same_screen() {
    let mut t = Tracker::default();
    let screen = Screen { cursor: None, rows: vec![Row { row: 43, changes: vec![text_change(80, "Z", None)] }] };
    feed(&mut t, Indication::Screen(screen));
    feed(&mut t, Indication::Scroll(Scroll { fg: None, bg: None }));
    let mut fresh = Tracker::default();
    for ind in t.get_init_indication() {
        feed(&mut fresh, ind);
    }
    assert_eq!(fresh.get_screen(), t.get_screen());
    assert_eq!(t.get_screen()[41][79].ch, 'Z');
}
