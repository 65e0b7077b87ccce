use corvus_tui::model::AlertSeverity;
use corvus_tui::state::{Focus, Row, Tone};
use corvus_tui::view::{
    Paint, extension_color, first_visible, footer_keys, footer_status, label_of, severity_color,
    tone_color,
};

fn row(label: Option<&str>, fuzzy: bool, tone: Tone) -> Row {
    Row {
        ts_nanos: 0,
        src: String::new(),
        dst: String::new(),
        kind: "syn",
        fingerprint: String::new(),
        ja3: None,
        raw: None,
        sni: None,
        alpn: None,
        user_agent: None,
        label: label.map(str::to_string),
        fuzzy,
        tone,
    }
}

#[test]
fn tones_and_severities_pick_their_colours() {
    assert_eq!(tone_color(Tone::Benign), Paint::BlueDeep);
    assert_eq!(tone_color(Tone::Unknown), Paint::Text);
    assert_eq!(tone_color(Tone::Suspicious), Paint::Warn);
    assert_eq!(tone_color(Tone::Malicious), Paint::Alert);
    assert_eq!(severity_color(AlertSeverity::Critical), Paint::Alert);
    assert_eq!(severity_color(AlertSeverity::High), Paint::Alert);
    assert_eq!(severity_color(AlertSeverity::Medium), Paint::Warn);
    assert_eq!(severity_color(AlertSeverity::Low), Paint::Warn);
    assert_eq!(severity_color(AlertSeverity::Info), Paint::BlueDeep);
    assert_eq!(Paint::Pink.rgb(), (0xFF, 0x5F, 0xD7));
    assert_eq!(Paint::Alert.rgb(), (0xAF, 0x37, 0x00));
}

#[test]
fn the_identity_cell_marks_fuzzy_matches() {
    assert_eq!(
        label_of(&row(Some("Cobalt Strike"), true, Tone::Malicious)),
        ("~Cobalt Strike".to_string(), Paint::Alert)
    );
    assert_eq!(
        label_of(&row(Some("a label longer than seventeen"), false, Tone::Benign)),
        ("a label longer t\u{2026}".to_string(), Paint::BlueDeep)
    );
    assert_eq!(label_of(&row(None, true, Tone::Malicious)), ("-".to_string(), Paint::Dim));
}

#[test]
fn extension_bars_split_on_the_leading_zeros() {
    assert_eq!(extension_color("0005"), Paint::Blue);
    assert_eq!(extension_color("ff01"), Paint::PinkDim);
    assert_eq!(extension_color("0"), Paint::PinkDim);
}

#[test]
fn the_cursor_is_kept_half_a_pane_down() {
    assert_eq!(first_visible(0, 10), 0);
    assert_eq!(first_visible(4, 10), 0);
    assert_eq!(first_visible(5, 10), 0);
    assert_eq!(first_visible(12, 10), 7);
    assert_eq!(first_visible(3, 0), 3);
}

#[test]
fn the_footer_reports_keys_and_status() {
    assert_eq!(footer_keys(Focus::Inspector), "  esc back   q quit");
    assert!(footer_keys(Focus::Stream).contains("enter inspect"));
    assert_eq!(footer_status(false, false), ("running", Paint::BlueDim));
    assert_eq!(footer_status(true, false), ("paused", Paint::Warn));
    assert_eq!(footer_status(true, true), ("source finished", Paint::Warn));
    assert_eq!(footer_status(false, true), ("source finished", Paint::BlueDim));
}
