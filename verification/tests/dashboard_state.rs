use corvus_tui::feed::Inbox;
use corvus_tui::model::{
    Alert, AlertSeverity, FingerprintEvent, Ja4Fields, MatchHit, MatchReport, MatchStrength,
    Observation, StreamEvent, Verdict,
};
use corvus_tui::state::{
    AppState, BUCKET_NANOS, Focus, Key, MAX_ALERTS, MAX_DIVERGENCE, MAX_ROWS, RATE_BUCKETS,
    STAR_TTL_NANOS, Tone, best_label, handle_key,
};

fn client_hello(ja3: &str, ja4: &str) -> StreamEvent {
    StreamEvent::ClientHello {
        ja3: ja3.to_string(),
        ja4: Ja4Fields {
            hash: ja4.to_string(),
            raw: "t13d1516h2_002f,0035_0005,000a".to_string(),
        },
        sni: Some("example.com".to_string()),
        alpn: Some("h2".to_string()),
    }
}

fn observe(event: StreamEvent, reports: Vec<MatchReport>, alerts: Vec<Alert>) -> Observation {
    Observation {
        event: FingerprintEvent {
            ts_nanos: 7,
            src: "10.0.0.1:5000".to_string(),
            dst: "10.0.0.2:443".to_string(),
            event,
        },
        reports,
        alerts,
    }
}

fn syn(n: usize) -> Observation {
    observe(
        StreamEvent::TcpSyn {
            ja4t: format!("syn-{n}"),
        },
        vec![],
        vec![],
    )
}

fn report(verdict: Verdict, hits: &[(&str, MatchStrength)]) -> MatchReport {
    MatchReport {
        verdict,
        hits: hits
            .iter()
            .map(|(label, strength)| MatchHit {
                label: label.to_string(),
                strength: *strength,
            })
            .collect(),
    }
}

fn alert(title: &str) -> Alert {
    Alert {
        rule: "known_bad".to_string(),
        severity: AlertSeverity::High,
        ip: None,
        title: title.to_string(),
    }
}

#[test]
fn a_new_dashboard_is_empty_with_full_rate_history() {
    let app = AppState::new();
    assert!(app.rows.is_empty());
    assert!(app.alerts.is_empty());
    assert!(app.stars.is_empty());
    assert!(app.divergence.is_empty());
    assert_eq!(app.rate.len(), RATE_BUCKETS);
    assert!(app.rate.iter().all(|r| *r == 0));
    assert_eq!(app.selected, 0);
    assert_eq!(app.focus, Focus::Stream);
    assert!(!app.paused && !app.source_done);
    assert_eq!(app.total, 0);
    assert_eq!(app.distinct_ja3(), 0);
    assert!(app.current().is_none());
}

#[test]
fn a_client_hello_becomes_a_row_and_a_star() {
    let mut app = AppState::new();
    app.fold_at(
        observe(
            client_hello("ja3-a", "t13d1516h2_8daaf6152771_e5627efa2ab1"),
            vec![report(Verdict::Suspicious, &[("curl", MatchStrength::CipherOnly)])],
            vec![],
        ),
        42,
    );
    assert_eq!(app.total, 1);
    let row = app.current().unwrap();
    assert_eq!(row.kind, "client_hello");
    assert_eq!(row.fingerprint, "t13d1516h2_8daaf6152771_e5627efa2ab1");
    assert_eq!(row.ja3.as_deref(), Some("ja3-a"));
    assert_eq!(row.raw.as_deref(), Some("t13d1516h2_002f,0035_0005,000a"));
    assert_eq!(row.sni.as_deref(), Some("example.com"));
    assert_eq!(row.alpn.as_deref(), Some("h2"));
    assert_eq!(row.src, "10.0.0.1:5000");
    assert_eq!(row.label.as_deref(), Some("curl"));
    assert!(row.fuzzy);
    assert_eq!(row.tone, Tone::Suspicious);
    assert_eq!(app.stars.len(), 1);
    assert_eq!(app.stars[0].ciphers, 15);
    assert_eq!(app.stars[0].extensions, 16);
    assert_eq!(app.stars[0].born, 42);
    assert_eq!(app.stars[0].tone, Tone::Suspicious);
    assert_eq!(app.distinct_ja3(), 1);
    assert_eq!(app.distinct_ja4(), 1);
}

#[test]
fn a_malformed_ja4_is_not_plotted() {
    let mut app = AppState::new();
    app.fold_at(observe(client_hello("a", "t13dxxxxh2_a_b"), vec![], vec![]), 0);
    assert!(app.stars.is_empty());
    assert_eq!(app.rows.len(), 1);
}

#[test]
fn other_events_fill_their_own_columns() {
    let mut app = AppState::new();
    app.fold_at(
        observe(
            StreamEvent::HttpRequest {
                ja4h: Ja4Fields {
                    hash: "ge11nn05enus_x".to_string(),
                    raw: "ge11_raw".to_string(),
                },
                host: Some("host.example".to_string()),
                user_agent: Some("curl/8".to_string()),
            },
            vec![],
            vec![],
        ),
        0,
    );
    let row = &app.rows[0];
    assert_eq!(row.kind, "http");
    assert_eq!(row.sni.as_deref(), Some("host.example"));
    assert_eq!(row.user_agent.as_deref(), Some("curl/8"));
    assert!(row.ja3.is_none());
    assert!(row.label.is_none());
    assert!(!row.fuzzy);
    assert_eq!(row.tone, Tone::Unknown);
    assert_eq!(app.distinct_ja3(), 0);

    app.fold_at(
        observe(
            StreamEvent::ServerHello {
                ja3s: "s3".to_string(),
                ja4s: Ja4Fields {
                    hash: "t130200_1301_x".to_string(),
                    raw: "r".to_string(),
                },
            },
            vec![],
            vec![],
        ),
        0,
    );
    assert_eq!(app.rows[0].kind, "server_hello");
    assert_eq!(app.rows[0].ja3.as_deref(), Some("s3"));
    app.fold_at(observe(StreamEvent::Certificate { ja4x: "x".into() }, vec![], vec![]), 0);
    assert_eq!(app.rows[0].kind, "certificate");
    app.fold_at(observe(StreamEvent::TcpSynAck { ja4ts: "ts".into() }, vec![], vec![]), 0);
    assert_eq!(app.rows[0].kind, "syn_ack");
    assert_eq!(app.rows[0].fingerprint, "ts");
    assert!(app.stars.is_empty());
}

#[test]
fn repeated_hashes_are_counted_once() {
    let mut app = AppState::new();
    app.fold_at(observe(client_hello("a", "h1"), vec![], vec![]), 0);
    app.fold_at(observe(client_hello("b", "h1"), vec![], vec![]), 0);
    app.fold_at(observe(client_hello("a", "h1"), vec![], vec![]), 0);
    assert_eq!(app.distinct_ja3(), 2);
    assert_eq!(app.distinct_ja4(), 1);
    assert_eq!(app.total, 3);
}

#[test]
fn rows_are_capped_newest_first() {
    let mut app = AppState::new();
    for n in 0..MAX_ROWS + 5 {
        app.fold_at(syn(n), 0);
    }
    assert_eq!(app.rows.len(), MAX_ROWS);
    assert_eq!(app.rows[0].fingerprint, format!("syn-{}", MAX_ROWS + 4));
    assert_eq!(app.rows[MAX_ROWS - 1].fingerprint, "syn-5");
}

#[test]
fn alerts_arrive_last_first_and_are_capped() {
    let mut app = AppState::new();
    app.fold_at(observe(syn(0).event.event, vec![], vec![alert("one"), alert("two")]), 0);
    assert_eq!(app.alerts[0].title, "two");
    assert_eq!(app.alerts[1].title, "one");
    for n in 0..MAX_ALERTS {
        app.fold_at(observe(syn(n).event.event, vec![], vec![alert("later")]), 0);
    }
    assert_eq!(app.alerts.len(), MAX_ALERTS);
    assert!(app.alerts.iter().all(|a| a.title == "later"));
}

#[test]
fn the_cursor_follows_its_row_as_rows_arrive() {
    let mut app = AppState::new();
    for n in 0..5 {
        app.fold_at(syn(n), 0);
    }
    app.scroll(2);
    assert_eq!(app.current().unwrap().fingerprint, "syn-2");
    app.fold_at(syn(5), 0);
    assert_eq!(app.selected, 3);
    assert_eq!(app.current().unwrap().fingerprint, "syn-2");
    // At the top the cursor stays on the newest row.
    app.selected = 0;
    app.fold_at(syn(6), 0);
    assert_eq!(app.selected, 0);
    assert_eq!(app.current().unwrap().fingerprint, "syn-6");
}

#[test]
fn scrolling_stops_at_both_ends() {
    let mut app = AppState::new();
    app.scroll(5);
    assert_eq!(app.selected, 0);
    for n in 0..4 {
        app.fold_at(syn(n), 0);
    }
    app.scroll(20);
    assert_eq!(app.selected, 3);
    app.scroll(-1);
    assert_eq!(app.selected, 2);
    app.scroll(-20);
    assert_eq!(app.selected, 0);
    app.scroll(isize::MIN);
    assert_eq!(app.selected, 0);
    app.scroll(isize::MAX);
    assert_eq!(app.selected, 3);
}

#[test]
fn a_tick_closes_a_bucket_only_after_a_second() {
    let mut app = AppState::new();
    app.fold_at(observe(client_hello("a", "t13d0102h2_x_y"), vec![], vec![]), 0);
    app.fold_at(observe(client_hello("b", "t13d0102h2_x_y"), vec![], vec![]), 0);
    app.tick_at(BUCKET_NANOS - 1);
    assert_eq!(app.rate.back(), Some(&0));
    assert!(app.divergence.is_empty());
    app.tick_at(BUCKET_NANOS);
    assert_eq!(app.rate.len(), RATE_BUCKETS);
    assert_eq!(app.rate.back(), Some(&2));
    assert_eq!(app.divergence.back(), Some(&(2, 1)));
    app.tick_at(BUCKET_NANOS + 10);
    assert_eq!(app.divergence.len(), 1);
    app.tick_at(2 * BUCKET_NANOS + 10);
    assert_eq!(app.rate.back(), Some(&0));
    assert_eq!(app.divergence.len(), 2);
}

#[test]
fn divergence_history_is_capped() {
    let mut app = AppState::new();
    for n in 1..=(MAX_DIVERGENCE as u64 + 10) {
        app.tick_at(n * BUCKET_NANOS);
    }
    assert_eq!(app.divergence.len(), MAX_DIVERGENCE);
    assert_eq!(app.rate.len(), RATE_BUCKETS);
}

#[test]
fn stars_fade_out_after_their_time() {
    let mut app = AppState::new();
    app.fold_at(observe(client_hello("a", "t13d0102h2_x_y"), vec![], vec![]), 0);
    app.fold_at(observe(client_hello("b", "t13d0304h2_x_y"), vec![], vec![]), 5);
    app.tick_at(STAR_TTL_NANOS - 1);
    assert_eq!(app.stars.len(), 2);
    app.tick_at(STAR_TTL_NANOS);
    assert_eq!(app.stars.len(), 1);
    assert_eq!(app.stars[0].ciphers, 3);
    app.tick_at(STAR_TTL_NANOS + 5);
    assert!(app.stars.is_empty());
}

#[test]
fn the_most_alarming_verdict_sets_the_tone() {
    assert_eq!(Tone::from_reports(&[]), Tone::Unknown);
    assert_eq!(
        Tone::from_reports(&[report(Verdict::Benign, &[])]),
        Tone::Benign
    );
    assert_eq!(
        Tone::from_reports(&[
            report(Verdict::Suspicious, &[]),
            report(Verdict::Malicious, &[]),
            report(Verdict::Benign, &[]),
        ]),
        Tone::Malicious
    );
    assert_eq!(
        Tone::from_reports(&[report(Verdict::Unknown, &[]), report(Verdict::Benign, &[])]),
        Tone::Unknown
    );
}

#[test]
fn the_strongest_label_wins_and_later_ties_win() {
    assert_eq!(best_label(&[]), (None, false));
    let reports = [
        report(
            Verdict::Benign,
            &[("first", MatchStrength::CipherOnly), ("exact", MatchStrength::Exact)],
        ),
        report(
            Verdict::Benign,
            &[("prefix", MatchStrength::CipherAndPrefix), ("exact-later", MatchStrength::Exact)],
        ),
    ];
    assert_eq!(best_label(&reports), (Some("exact-later".to_string()), false));
    let fuzzy = [report(
        Verdict::Benign,
        &[("a", MatchStrength::CipherAndPrefix), ("b", MatchStrength::CipherOnly)],
    )];
    assert_eq!(best_label(&fuzzy), (Some("a".to_string()), true));
}

#[test]
fn keys_switch_panes_pause_and_quit() {
    let mut app = AppState::new();
    assert!(handle_key(Key::Enter, &mut app));
    assert_eq!(app.focus, Focus::Inspector);
    assert!(handle_key(Key::Esc, &mut app));
    assert_eq!(app.focus, Focus::Stream);
    assert!(!handle_key(Key::Esc, &mut app));
    assert!(handle_key(Key::Char(' '), &mut app));
    assert!(app.paused);
    assert!(handle_key(Key::Char(' '), &mut app));
    assert!(!app.paused);
    assert!(!handle_key(Key::Char('q'), &mut app));
    assert!(!handle_key(Key::Char('Q'), &mut app));
    assert!(handle_key(Key::Char('x'), &mut app));
    assert!(handle_key(Key::Other, &mut app));
}

#[test]
fn keys_move_the_cursor() {
    let mut app = AppState::new();
    for n in 0..30 {
        app.fold_at(syn(n), 0);
    }
    handle_key(Key::Down, &mut app);
    handle_key(Key::Char('j'), &mut app);
    assert_eq!(app.selected, 2);
    handle_key(Key::Char('k'), &mut app);
    assert_eq!(app.selected, 1);
    handle_key(Key::PageDown, &mut app);
    assert_eq!(app.selected, 21);
    handle_key(Key::PageDown, &mut app);
    assert_eq!(app.selected, 29);
    handle_key(Key::PageUp, &mut app);
    assert_eq!(app.selected, 9);
    handle_key(Key::Up, &mut app);
    assert_eq!(app.selected, 8);
    handle_key(Key::Home, &mut app);
    assert_eq!(app.selected, 0);
}

#[test]
fn receiving_folds_stops_and_notes_the_end() {
    let mut app = AppState::new();
    assert!(app.receive(Inbox::Arrived(syn(0))));
    assert_eq!(app.total, 1);
    assert!(!app.receive(Inbox::Empty));
    assert_eq!(app.total, 1);
    assert!(!app.source_done);
    assert!(!app.receive(Inbox::Closed));
    assert!(app.source_done);
    assert_eq!(app.total, 1);
}

#[test]
fn draining_takes_at_most_a_frame_and_nothing_while_paused() {
    let (tx, rx) = flume::unbounded();
    for n in 0..600 {
        tx.send(syn(n)).unwrap();
    }
    let mut app = AppState::new();
    app.paused = true;
    app.drain(&rx);
    assert_eq!(app.total, 0);
    app.paused = false;
    app.drain(&rx);
    assert_eq!(app.total, 512);
    app.drain(&rx);
    assert_eq!(app.total, 600);
    assert!(!app.source_done);
    drop(tx);
    app.drain(&rx);
    assert!(app.source_done);
    assert_eq!(app.total, 600);
}
