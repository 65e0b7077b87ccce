//! The decisions the renderer takes: which palette entry paints what, what
//! a cell says, which rows are on screen. Drawing them is left to the
//! terminal front end.

use vstd::prelude::*;
use vstd::string::*;

use crate::model::AlertSeverity;
use crate::state::{Focus, Row, Tone};
use crate::text::{truncate, truncated};

verus! {

/// The dashboard palette. Blue is the field, pink is what is alive, and
/// orange is reserved: it appears only for a warning or an error, so that
/// when it does appear it reads instantly. Nothing is fully saturated.
#[derive(Debug, Clone, Copy, PartialEq, Eq, Structural)]
pub enum Paint {
    /// Structure: borders, headings, axis labels.
    Blue,
    /// Grid lines, axes, inactive chrome.
    BlueDeep,
    /// The faintest structural blue, for rules and separators.
    BlueDim,
    /// The live accent: selection, cursor, the JA4 series.
    Pink,
    /// Secondary series, the JA3 line, decaying points.
    PinkDim,
    /// Body text.
    Text,
    /// Decay tails, disabled rows, secondary labels.
    Dim,
    /// The constellation lattice, felt as structure rather than read as data.
    Grid,
    /// Warnings only: a suspicious verdict, a rotation, a mismatch.
    Warn,
    /// Errors only: a known-bad hit, a malicious verdict.
    Alert,
}

pub open spec fn paint_rgb(paint: Paint) -> (u8, u8, u8) {
    match paint {
        Paint::Blue => (0x87, 0xD7, 0xFF),
        Paint::BlueDeep => (0x00, 0x87, 0xD7),
        Paint::BlueDim => (0x00, 0x5F, 0x87),
        Paint::Pink => (0xFF, 0x5F, 0xD7),
        Paint::PinkDim => (0xD7, 0x5F, 0xAF),
        Paint::Text => (0xC6, 0xC6, 0xC6),
        Paint::Dim => (0x58, 0x58, 0x58),
        Paint::Grid => (0x00, 0x2B, 0x40),
        Paint::Warn => (0xD7, 0x5F, 0x00),
        Paint::Alert => (0xAF, 0x37, 0x00),
    }
}

impl Paint {
    /// The colour as red, green, blue.
    pub fn rgb(self) -> (c: (u8, u8, u8))
        ensures
            c == paint_rgb(self),
    {
        match self {
            Paint::Blue => (0x87, 0xD7, 0xFF),
            Paint::BlueDeep => (0x00, 0x87, 0xD7),
            Paint::BlueDim => (0x00, 0x5F, 0x87),
            Paint::Pink => (0xFF, 0x5F, 0xD7),
            Paint::PinkDim => (0xD7, 0x5F, 0xAF),
            Paint::Text => (0xC6, 0xC6, 0xC6),
            Paint::Dim => (0x58, 0x58, 0x58),
            Paint::Grid => (0x00, 0x2B, 0x40),
            Paint::Warn => (0xD7, 0x5F, 0x00),
            Paint::Alert => (0xAF, 0x37, 0x00),
        }
    }
}

pub open spec fn tone_paint(tone: Tone) -> Paint {
    match tone {
        Tone::Benign => Paint::BlueDeep,
        Tone::Unknown => Paint::Text,
        Tone::Suspicious => Paint::Warn,
        Tone::Malicious => Paint::Alert,
    }
}

/// The colour a row, point, or label is painted with.
pub fn tone_color(tone: Tone) -> (paint: Paint)
    ensures
        paint == tone_paint(tone),
{
    match tone {
        Tone::Benign => Paint::BlueDeep,
        Tone::Unknown => Paint::Text,
        Tone::Suspicious => Paint::Warn,
        Tone::Malicious => Paint::Alert,
    }
}

/// The colour an alert's rule name is painted with: the error colour for
/// critical and high, the warning colour for medium and low, structure blue
/// for information.
pub fn severity_color(severity: AlertSeverity) -> (paint: Paint)
    ensures
        paint == match severity {
            AlertSeverity::Critical | AlertSeverity::High => Paint::Alert,
            AlertSeverity::Medium | AlertSeverity::Low => Paint::Warn,
            AlertSeverity::Info => Paint::BlueDeep,
        },
{
    match severity {
        AlertSeverity::Critical | AlertSeverity::High => Paint::Alert,
        AlertSeverity::Medium | AlertSeverity::Low => Paint::Warn,
        AlertSeverity::Info => Paint::BlueDeep,
    }
}

/// The identity column of a row: `~` before the label when the match was
/// fuzzy, the label cut to seventeen characters, in the row's tone; a dim
/// `-` when nothing matched.
pub fn label_of(row: &Row) -> (cell: (String, Paint))
    ensures
        match row.label {
            Some(label) => cell.0@ == (if row.fuzzy {
                seq!['~']
            } else {
                Seq::<char>::empty()
            }) + truncated(label@, 17) && cell.1 == tone_paint(row.tone),
            None => cell.0@ == seq!['-'] && cell.1 == Paint::Dim,
        },
{
    match &row.label {
        Some(label) => {
            let cut = truncate(label.as_str(), 17);
            let mut text = if row.fuzzy {
                String::from_str("~")
            } else {
                String::new()
            };
            proof {
                reveal_strlit("~");
            }
            text.append(cut.as_str());
            (text, tone_color(row.tone))
        },
        None => {
            proof {
                reveal_strlit("-");
            }
            (String::from_str("-"), Paint::Dim)
        },
    }
}

/// The colour of one extension's bar in the barcode: structure blue for the
/// IANA range written `00..`, the dim pink for everything else.
pub fn extension_color(extension: &str) -> (paint: Paint)
    ensures
        paint == (if extension.spec_bytes().len() >= 2 && extension.spec_bytes()[0] == 48
            && extension.spec_bytes()[1] == 48 {
            Paint::Blue
        } else {
            Paint::PinkDim
        }),
{
    let b = extension.as_bytes();
    if b.len() >= 2 && b[0] == 48 && b[1] == 48 {
        Paint::Blue
    } else {
        Paint::PinkDim
    }
}

/// The first stream row on screen: the list scrolls so that the cursor sits
/// half a pane down once it is that far from the top.
pub fn first_visible(selected: usize, height: usize) -> (first: usize)
    ensures
        first == (if selected >= height / 2 {
            selected - height / 2
        } else {
            0
        }),
        first <= selected,
        height > 0 ==> selected < first + height,
{
    if selected >= height / 2 {
        selected - height / 2
    } else {
        0
    }
}

/// The key hints for the footer: the inspector offers only going back and
/// quitting.
pub fn footer_keys(focus: Focus) -> (hint: &'static str)
    ensures
        hint@ == (if focus == Focus::Inspector {
            "  esc back   q quit"@
        } else {
            "  \u{2191}\u{2193} / jk select   enter inspect   space pause   q quit"@
        }),
{
    if focus == Focus::Inspector {
        "  esc back   q quit"
    } else {
        "  \u{2191}\u{2193} / jk select   enter inspect   space pause   q quit"
    }
}

/// The footer's status word and its colour: a finished source is reported
/// before a pause, and only a pause is painted as a warning.
pub fn footer_status(paused: bool, source_done: bool) -> (status: (&'static str, Paint))
    ensures
        status.0@ == (if source_done {
            "source finished"@
        } else if paused {
            "paused"@
        } else {
            "running"@
        }),
        status.1 == (if paused {
            Paint::Warn
        } else {
            Paint::BlueDim
        }),
{
    let word = if source_done {
        "source finished"
    } else if paused {
        "paused"
    } else {
        "running"
    };
    (word, if paused {
        Paint::Warn
    } else {
        Paint::BlueDim
    })
}

} // verus!
