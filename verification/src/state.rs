//! Everything the dashboard draws is derived from this. The producer thread
//! sends `Observation`s; the render thread folds them in here and never touches
//! the pipeline or the database itself.

use std::collections::VecDeque;
use std::time::{Duration, Instant};
use vstd::prelude::*;
use vstd::utf8::*;

use crate::ja4::{counts_of, ja4_counts};
use crate::model::{
    Alert, FingerprintEvent, MatchHit, MatchReport, MatchStrength, Observation, StreamEvent,
    Verdict,
};
use crate::feed::{try_receive, Inbox};
use crate::time::{duration_nanos, elapsed_since, instant_now};

verus! {

/// How many stream rows are retained for scrollback.
pub const MAX_ROWS: usize = 1000;

/// How many alerts are retained.
pub const MAX_ALERTS: usize = 200;

/// How many one-second buckets of throughput history are kept. The sparkline
/// slices the most recent screenful out of this, so it needs to be wider than
/// any terminal rather than a fixed display length.
pub const RATE_BUCKETS: usize = 600;

/// How many divergence samples the JA3/JA4 chart shows.
pub const MAX_DIVERGENCE: usize = 240;

/// How long a constellation point takes to fade out, in nanoseconds.
pub const STAR_TTL_NANOS: u64 = 12_000_000_000;

/// The length of one throughput bucket, in nanoseconds.
pub const BUCKET_NANOS: u64 = 1_000_000_000;

/// The severity a row is painted with, collapsed from the intel verdict.
#[derive(Debug, Clone, Copy, PartialEq, Eq, Structural)]
pub enum Tone {
    Benign,
    Unknown,
    Suspicious,
    Malicious,
}

/// How many observations are folded in per frame, so a fast replay cannot
/// starve rendering.
pub const DRAIN_PER_FRAME: usize = 512;

/// The keys the dashboard answers to; every other key is `Other`.
#[derive(Debug, Clone, Copy, PartialEq, Eq, Structural)]
pub enum Key {
    Char(char),
    Esc,
    Enter,
    Down,
    Up,
    PageDown,
    PageUp,
    Home,
    Other,
}

/// Which pane has the keyboard.
#[derive(Debug, Clone, Copy, PartialEq, Eq, Structural)]
pub enum Focus {
    Stream,
    Inspector,
}

/// The tone a single verdict paints.
pub open spec fn verdict_tone(v: Verdict) -> Tone {
    match v {
        Verdict::Malicious => Tone::Malicious,
        Verdict::Suspicious => Tone::Suspicious,
        Verdict::Benign => Tone::Benign,
        Verdict::Unknown => Tone::Unknown,
    }
}

/// How alarming a tone is; the most alarming one wins.
pub open spec fn tone_rank(t: Tone) -> int {
    match t {
        Tone::Malicious => 3,
        Tone::Suspicious => 2,
        Tone::Unknown => 1,
        Tone::Benign => 0,
    }
}

/// The most alarming tone among the verdicts of `reports`, none when empty.
pub open spec fn strongest_tone(reports: Seq<MatchReport>) -> Option<Tone>
    decreases reports.len(),
{
    if reports.len() == 0 {
        None
    } else {
        let t = verdict_tone(reports.last().verdict);
        match strongest_tone(reports.drop_last()) {
            None => Some(t),
            Some(best) => if tone_rank(t) >= tone_rank(best) {
                Some(t)
            } else {
                Some(best)
            },
        }
    }
}

/// The tone for a set of reports: the most alarming verdict, and `Unknown`
/// when there are no reports at all.
pub open spec fn tone_of(reports: Seq<MatchReport>) -> Tone {
    match strongest_tone(reports) {
        Some(t) => t,
        None => Tone::Unknown,
    }
}

/// The rank of a match strength: exact above cipher-and-prefix above
/// cipher-only.
pub open spec fn strength_rank(s: MatchStrength) -> int {
    match s {
        MatchStrength::Exact => 2,
        MatchStrength::CipherAndPrefix => 1,
        MatchStrength::CipherOnly => 0,
    }
}

/// Every hit of every report, in order.
pub open spec fn all_hits(reports: Seq<MatchReport>) -> Seq<MatchHit>
    decreases reports.len(),
{
    if reports.len() == 0 {
        seq![]
    } else {
        all_hits(reports.drop_last()) + reports.last().hits@
    }
}

/// The strongest hit; among equally strong hits, the last one.
pub open spec fn strongest_hit(hits: Seq<MatchHit>) -> Option<MatchHit>
    decreases hits.len(),
{
    if hits.len() == 0 {
        None
    } else {
        match strongest_hit(hits.drop_last()) {
            None => Some(hits.last()),
            Some(best) => if strength_rank(hits.last().strength) >= strength_rank(best.strength) {
                Some(hits.last())
            } else {
                Some(best)
            },
        }
    }
}

/// The label of the strongest hit across all reports, and whether that hit
/// was fuzzy (anything but exact).
pub open spec fn label_of_reports(reports: Seq<MatchReport>) -> (Option<String>, bool) {
    match strongest_hit(all_hits(reports)) {
        Some(hit) => (Some(hit.label), hit.strength != MatchStrength::Exact),
        None => (None, false),
    }
}


/// Whether some report carries verdict `v`.
pub open spec fn has_verdict(reports: Seq<MatchReport>, v: Verdict) -> bool {
    exists|i: int| 0 <= i < reports.len() && #[trigger] reports[i].verdict == v
}

/// The row tone named directly by the verdicts present: malicious if any
/// report says so, else suspicious if any does, else unknown if any does,
/// else benign if there are reports at all, and unknown when there are none.
pub open spec fn most_alarming(reports: Seq<MatchReport>) -> Tone {
    if has_verdict(reports, Verdict::Malicious) {
        Tone::Malicious
    } else if has_verdict(reports, Verdict::Suspicious) {
        Tone::Suspicious
    } else if has_verdict(reports, Verdict::Unknown) {
        Tone::Unknown
    } else if reports.len() > 0 {
        Tone::Benign
    } else {
        Tone::Unknown
    }
}

proof fn lemma_has_verdict_last(reports: Seq<MatchReport>, v: Verdict)
    requires
        reports.len() > 0,
    ensures
        has_verdict(reports, v) == (has_verdict(reports.drop_last(), v) || reports.last().verdict
            == v),
{
    if has_verdict(reports, v) {
        let i = choose|i: int| 0 <= i < reports.len() && #[trigger] reports[i].verdict == v;
        if i < reports.len() - 1 {
            assert(reports.drop_last()[i].verdict == v);
        }
    }
    if has_verdict(reports.drop_last(), v) {
        let i = choose|i: int|
            0 <= i < reports.drop_last().len() && #[trigger] reports.drop_last()[i].verdict == v;
        assert(reports[i].verdict == v);
    }
    if reports.last().verdict == v {
        assert(reports[reports.len() - 1].verdict == v);
    }
}

/// A row's tone is the most alarming verdict among its reports, in the
/// order malicious, suspicious, unknown, benign; a row with no reports at
/// all is painted unknown.
pub proof fn lemma_tone_is_most_alarming(reports: Seq<MatchReport>)
    ensures
        tone_of(reports) == most_alarming(reports),
        strongest_tone(reports) is None <==> reports.len() == 0,
    decreases reports.len(),
{
    if reports.len() > 0 {
        let rest = reports.drop_last();
        lemma_tone_is_most_alarming(rest);
        lemma_has_verdict_last(reports, Verdict::Malicious);
        lemma_has_verdict_last(reports, Verdict::Suspicious);
        lemma_has_verdict_last(reports, Verdict::Unknown);
        lemma_has_verdict_last(reports, Verdict::Benign);
        if rest.len() > 0 {
            let r = rest.last();
            assert(rest[rest.len() - 1] == r);
            match r.verdict {
                Verdict::Malicious => assert(has_verdict(rest, Verdict::Malicious)),
                Verdict::Suspicious => assert(has_verdict(rest, Verdict::Suspicious)),
                Verdict::Unknown => assert(has_verdict(rest, Verdict::Unknown)),
                Verdict::Benign => {},
            }
        }
    }
}

/// The last hit of strength `s`, if there is one.
pub open spec fn last_of_strength(hits: Seq<MatchHit>, s: MatchStrength) -> Option<MatchHit>
    decreases hits.len(),
{
    if hits.len() == 0 {
        None
    } else if hits.last().strength == s {
        Some(hits.last())
    } else {
        last_of_strength(hits.drop_last(), s)
    }
}

/// The hit that wins, named by strength alone: the last exact hit; with none,
/// the last cipher-and-prefix hit; with none of those either, the last
/// cipher-only hit.
pub open spec fn winning_hit(hits: Seq<MatchHit>) -> Option<MatchHit> {
    match last_of_strength(hits, MatchStrength::Exact) {
        Some(h) => Some(h),
        None => match last_of_strength(hits, MatchStrength::CipherAndPrefix) {
            Some(h) => Some(h),
            None => last_of_strength(hits, MatchStrength::CipherOnly),
        },
    }
}

/// A hit of strength `s` is found exactly when there is one, and it is one
/// of the hits, of that strength.
pub proof fn lemma_last_of_strength(hits: Seq<MatchHit>, s: MatchStrength)
    ensures
        last_of_strength(hits, s) is Some <==> exists|i: int|
            0 <= i < hits.len() && #[trigger] hits[i].strength == s,
        last_of_strength(hits, s) matches Some(h) ==> h.strength == s && hits.contains(h),
    decreases hits.len(),
{
    if hits.len() > 0 {
        let rest = hits.drop_last();
        lemma_last_of_strength(rest, s);
        if hits.last().strength == s {
            assert(hits[hits.len() - 1].strength == s);
            assert(hits[hits.len() - 1] == hits.last());
        } else {
            if exists|i: int| 0 <= i < hits.len() && #[trigger] hits[i].strength == s {
                let i = choose|i: int| 0 <= i < hits.len() && #[trigger] hits[i].strength == s;
                assert(i < hits.len() - 1);
                assert(rest[i].strength == s);
            }
            if exists|i: int| 0 <= i < rest.len() && #[trigger] rest[i].strength == s {
                let i = choose|i: int| 0 <= i < rest.len() && #[trigger] rest[i].strength == s;
                assert(hits[i].strength == s);
            }
            if last_of_strength(hits, s) is Some {
                let h = last_of_strength(hits, s)->0;
                let i = choose|i: int| 0 <= i < rest.len() && rest[i] == h;
                assert(hits[i] == h);
            }
        }
    }
}

/// The strongest hit is the last exact hit, else the last cipher-and-prefix
/// hit, else the last cipher-only hit: an exact match outranks every fuzzy
/// one, and cipher-and-prefix outranks cipher-only.
pub proof fn lemma_strongest_hit_by_strength(hits: Seq<MatchHit>)
    ensures
        strongest_hit(hits) == winning_hit(hits),
    decreases hits.len(),
{
    if hits.len() > 0 {
        let rest = hits.drop_last();
        lemma_strongest_hit_by_strength(rest);
        lemma_last_of_strength(rest, MatchStrength::Exact);
        lemma_last_of_strength(rest, MatchStrength::CipherAndPrefix);
        lemma_last_of_strength(rest, MatchStrength::CipherOnly);
    }
}

/// With an exact hit anywhere among the reports, the label is that of an
/// exact hit (the last one) and it is not fuzzy; with only fuzzy hits the
/// label is marked fuzzy; with no hits there is no label.
pub proof fn lemma_exact_hit_wins(reports: Seq<MatchReport>)
    ensures
        (exists|i: int|
            0 <= i < all_hits(reports).len() && #[trigger] all_hits(reports)[i].strength
                == MatchStrength::Exact) ==> {
            &&& label_of_reports(reports).1 == false
            &&& exists|h: MatchHit|
                all_hits(reports).contains(h) && h.strength == MatchStrength::Exact
                    && label_of_reports(reports).0 == Some(h.label)
        },
        (forall|i: int|
            0 <= i < all_hits(reports).len() ==> #[trigger] all_hits(reports)[i].strength
                != MatchStrength::Exact) && all_hits(reports).len() > 0 ==> label_of_reports(
            reports,
        ).1 == true && label_of_reports(reports).0 is Some,
        all_hits(reports).len() == 0 ==> label_of_reports(reports) == (None::<String>, false),
{
    let hits = all_hits(reports);
    lemma_strongest_hit_by_strength(hits);
    lemma_last_of_strength(hits, MatchStrength::Exact);
    lemma_last_of_strength(hits, MatchStrength::CipherAndPrefix);
    lemma_last_of_strength(hits, MatchStrength::CipherOnly);
    if hits.len() > 0 && last_of_strength(hits, MatchStrength::Exact) is None {
        let h = hits[0];
        if h.strength == MatchStrength::CipherAndPrefix {
            assert(last_of_strength(hits, MatchStrength::CipherAndPrefix) is Some);
        } else if h.strength == MatchStrength::CipherOnly {
            assert(last_of_strength(hits, MatchStrength::CipherOnly) is Some);
        } else {
            assert(last_of_strength(hits, MatchStrength::Exact) is Some);
        }
    }
}

impl Tone {
    /// The most severe verdict among `reports`, `Unknown` when there are none.
    pub fn from_reports(reports: &[MatchReport]) -> (tone: Self)
        ensures
            tone == tone_of(reports@),
            tone == most_alarming(reports@),
    {
        proof {
            lemma_tone_is_most_alarming(reports@);
        }
        let mut best: Option<Tone> = None;
        let mut i: usize = 0;
        while i < reports.len()
            invariant
                i <= reports@.len(),
                best == strongest_tone(reports@.take(i as int)),
            decreases reports@.len() - i,
        {
            let t = match reports[i].verdict {
                Verdict::Malicious => Tone::Malicious,
                Verdict::Suspicious => Tone::Suspicious,
                Verdict::Benign => Tone::Benign,
                Verdict::Unknown => Tone::Unknown,
            };
            proof {
                assert(reports@.take(i + 1).drop_last() =~= reports@.take(i as int));
            }
            best = match best {
                None => Some(t),
                Some(b) => if rank_of_tone(t) >= rank_of_tone(b) {
                    Some(t)
                } else {
                    Some(b)
                },
            };
            i = i + 1;
        }
        proof {
            assert(reports@.take(reports@.len() as int) =~= reports@);
        }
        match best {
            Some(t) => t,
            None => Tone::Unknown,
        }
    }
}

fn rank_of_tone(t: Tone) -> (r: u8)
    ensures
        r == tone_rank(t),
{
    match t {
        Tone::Malicious => 3,
        Tone::Suspicious => 2,
        Tone::Unknown => 1,
        Tone::Benign => 0,
    }
}

fn rank_of_strength(s: MatchStrength) -> (r: u8)
    ensures
        r == strength_rank(s),
{
    match s {
        MatchStrength::Exact => 2,
        MatchStrength::CipherAndPrefix => 1,
        MatchStrength::CipherOnly => 0,
    }
}

proof fn lemma_all_hits_step(reports: Seq<MatchReport>, i: int)
    requires
        0 <= i < reports.len(),
    ensures
        all_hits(reports.take(i + 1)) == all_hits(reports.take(i)) + reports[i].hits@,
{
    assert(reports.take(i + 1).drop_last() =~= reports.take(i));
}

/// The strongest intel label across a set of reports, and whether the match
/// that produced it was fuzzy.
pub fn best_label(reports: &[MatchReport]) -> (res: (Option<String>, bool))
    ensures
        res == label_of_reports(reports@),
        res == match winning_hit(all_hits(reports@)) {
            Some(hit) => (Some(hit.label), hit.strength != MatchStrength::Exact),
            None => (None, false),
        },
{
    proof {
        lemma_strongest_hit_by_strength(all_hits(reports@));
    }
    // Where the strongest hit so far sits: report index, hit index.
    let mut best: Option<(usize, usize)> = None;
    let mut i: usize = 0;
    while i < reports.len()
        invariant
            i <= reports@.len(),
            match best {
                None => strongest_hit(all_hits(reports@.take(i as int))) is None,
                Some((a, b)) => a < reports@.len() && b < reports@[a as int].hits@.len()
                    && strongest_hit(all_hits(reports@.take(i as int))) == Some(
                    reports@[a as int].hits@[b as int],
                ),
            },
        decreases reports@.len() - i,
    {
        let hits = &reports[i].hits;
        let ghost prefix = all_hits(reports@.take(i as int));
        let mut j: usize = 0;
        while j < hits.len()
            invariant
                i < reports@.len(),
                hits@ == reports@[i as int].hits@,
                j <= hits@.len(),
                match best {
                    None => strongest_hit(prefix + hits@.take(j as int)) is None,
                    Some((a, b)) => a < reports@.len() && b < reports@[a as int].hits@.len()
                        && strongest_hit(prefix + hits@.take(j as int)) == Some(
                        reports@[a as int].hits@[b as int],
                    ),
                },
            decreases hits@.len() - j,
        {
            proof {
                assert((prefix + hits@.take(j + 1)).drop_last() =~= prefix + hits@.take(j as int));
                assert((prefix + hits@.take(j + 1)).last() == hits@[j as int]);
            }
            let take = match best {
                None => true,
                Some((a, b)) => rank_of_strength(hits[j].strength) >= rank_of_strength(
                    reports[a].hits[b].strength,
                ),
            };
            if take {
                best = Some((i, j));
            }
            j = j + 1;
        }
        proof {
            assert(hits@.take(hits@.len() as int) =~= hits@);
            lemma_all_hits_step(reports@, i as int);
        }
        i = i + 1;
    }
    proof {
        assert(reports@.take(reports@.len() as int) =~= reports@);
    }
    match best {
        Some((a, b)) => {
            let hit = &reports[a].hits[b];
            let fuzzy = match hit.strength {
                MatchStrength::Exact => false,
                _ => true,
            };
            (Some(hit.label.clone()), fuzzy)
        },
        None => (None, false),
    }
}


/// A single line in the live stream pane.
#[derive(Debug)]
pub struct Row {
    pub ts_nanos: u64,
    pub src: String,
    pub dst: String,
    /// `client_hello`, `server_hello`, and so on, shortened for the column.
    pub kind: &'static str,
    /// The headline fingerprint for this event kind.
    pub fingerprint: String,
    /// The JA3 hash, where the event has one.
    pub ja3: Option<String>,
    /// The pre-hash JA4 field list, which the inspector decodes.
    pub raw: Option<String>,
    pub sni: Option<String>,
    pub alpn: Option<String>,
    pub user_agent: Option<String>,
    /// The best intel label, if the fingerprint matched anything.
    pub label: Option<String>,
    /// True when the intel hit was fuzzy rather than exact.
    pub fuzzy: bool,
    pub tone: Tone,
}

/// A point on the constellation, with the moment it arrived (nanoseconds
/// since the dashboard started) so it can decay.
#[derive(Debug, Clone, Copy, PartialEq, Eq, Structural)]
pub struct Star {
    pub ciphers: u16,
    pub extensions: u16,
    pub tone: Tone,
    pub born: u64,
}

/// The row an event becomes, given the tone and label its reports earned.
pub open spec fn row_for(event: FingerprintEvent, tone: Tone, label: Option<String>, fuzzy: bool) -> Row {
    let (kind, fingerprint, ja3, raw, sni, alpn, user_agent): (
        &'static str,
        String,
        Option<String>,
        Option<String>,
        Option<String>,
        Option<String>,
        Option<String>,
    ) = match event.event {
        StreamEvent::ClientHello { ja3, ja4, sni, alpn } => (
            "client_hello",
            ja4.hash,
            Some(ja3),
            Some(ja4.raw),
            sni,
            alpn,
            None,
        ),
        StreamEvent::ServerHello { ja3s, ja4s } => (
            "server_hello",
            ja4s.hash,
            Some(ja3s),
            Some(ja4s.raw),
            None,
            None,
            None,
        ),
        StreamEvent::Certificate { ja4x } => ("certificate", ja4x, None, None, None, None, None),
        StreamEvent::HttpRequest { ja4h, host, user_agent } => (
            "http",
            ja4h.hash,
            None,
            Some(ja4h.raw),
            host,
            None,
            user_agent,
        ),
        StreamEvent::TcpSyn { ja4t } => ("syn", ja4t, None, None, None, None, None),
        StreamEvent::TcpSynAck { ja4ts } => ("syn_ack", ja4ts, None, None, None, None, None),
    };
    Row {
        ts_nanos: event.ts_nanos,
        src: event.src,
        dst: event.dst,
        kind,
        fingerprint,
        ja3,
        raw,
        sni,
        alpn,
        user_agent,
        label,
        fuzzy,
        tone,
    }
}


/// `s` after pushing onto its front and then dropping from its back until
/// at most `n` remain.
pub open spec fn keep_front<T>(s: Seq<T>, n: nat) -> Seq<T> {
    if s.len() > n {
        s.take(n as int)
    } else {
        s
    }
}

/// `s` after pushing onto its back and then dropping from its front until
/// at most `n` remain.
pub open spec fn keep_back<T>(s: Seq<T>, n: nat) -> Seq<T> {
    if s.len() > n {
        s.skip(s.len() - n)
    } else {
        s
    }
}

/// The text of each string.
pub open spec fn texts(v: Seq<String>) -> Seq<Seq<char>> {
    v.map_values(|t: String| t@)
}

/// `s` with `x` added at the end unless it is already there.
pub open spec fn with_new(s: Seq<Seq<char>>, x: Seq<char>) -> Seq<Seq<char>> {
    if s.contains(x) {
        s
    } else {
        s.push(x)
    }
}

/// `a - b`, or zero when `b` is the later one.
pub open spec fn since(a: u64, b: u64) -> u64 {
    if a >= b {
        (a - b) as u64
    } else {
        0
    }
}

/// A star still shows at `now` while it is younger than the fade-out time.
pub open spec fn glowing(star: Star, now: u64) -> bool {
    since(now, star.born) < STAR_TTL_NANOS
}

/// The stars of `s` that still show at `now`, in order.
pub open spec fn live_stars(s: Seq<Star>, now: u64) -> Seq<Star> {
    s.filter(|x: Star| glowing(x, now))
}

/// Where a cursor at `selected` lands after moving by `delta` over `len`
/// rows: nowhere new when there are no rows; upward it stops at the top,
/// downward at the last row.
pub open spec fn scrolled(selected: usize, len: nat, delta: int) -> usize {
    if len == 0 {
        selected
    } else if delta < 0 {
        if selected + delta >= 0 {
            (selected + delta) as usize
        } else {
            0
        }
    } else if selected + delta <= len - 1 {
        (selected + delta) as usize
    } else {
        (len - 1) as usize
    }
}

/// Drops elements from the back of `v` until at most `n` remain.
fn trim_back<T>(v: &mut VecDeque<T>, n: usize)
    ensures
        final(v)@ == keep_front(old(v)@, n as nat),
{
    let ghost s = v@;
    while v.len() > n
        invariant
            v@.len() <= s.len(),
            v@ == s.take(v@.len() as int),
            s.len() > n ==> v@.len() >= n,
            s.len() <= n ==> v@ == s,
        decreases v@.len(),
    {
        v.pop_back();
    }
    proof {
        assert(s.take(s.len() as int) =~= s);
    }
}

/// Drops elements from the front of `v` until at most `n` remain.
fn trim_front<T>(v: &mut VecDeque<T>, n: usize)
    ensures
        final(v)@ == keep_back(old(v)@, n as nat),
{
    let ghost s = v@;
    while v.len() > n
        invariant
            v@.len() <= s.len(),
            v@ == s.skip(s.len() - v@.len()),
            s.len() > n ==> v@.len() >= n,
            s.len() <= n ==> v@.len() == s.len(),
        decreases v@.len(),
    {
        let ghost before = v@;
        v.pop_front();
        proof {
            assert(v@ =~= s.skip(s.len() - v@.len()));
        }
    }
    proof {
        assert(s.skip(0) =~= s);
    }
}

/// Pushes each element of `items`, in order, onto the front of `v`, so the
/// last of them ends up first.
fn push_each_front<T>(v: &mut VecDeque<T>, items: Vec<T>)
    ensures
        final(v)@ == items@.reverse() + old(v)@,
{
    let count = items.len();
    let ghost orig = v@;
    let ghost all = items@;
    let mut rest = items;
    let mut m: usize = 0;
    while rest.len() > 0
        invariant
            m <= all.len(),
            all.len() <= usize::MAX,
            rest@ == all.skip(m as int),
            v@ == all.take(m as int).reverse() + orig,
        decreases rest@.len(),
    {
        let item = rest.remove(0);
        v.push_front(item);
        proof {
            assert(all.take(m + 1).reverse() =~= seq![all[m as int]] + all.take(m as int).reverse());
            assert(v@ =~= all.take(m + 1).reverse() + orig);
            assert(rest@ =~= all.skip(m + 1));
        }
        m = m + 1;
    }
    proof {
        assert(all.take(m as int) =~= all);
    }
}

/// Records `text` in `seen` unless it is already there.
fn remember(seen: &mut Vec<String>, text: String)
    ensures
        texts(final(seen)@) == with_new(texts(old(seen)@), text@),
{
    let mut i: usize = 0;
    while i < seen.len()
        invariant
            i <= seen@.len(),
            forall|j: int| 0 <= j < i ==> seen@[j]@ != text@,
        decreases seen@.len() - i,
    {
        if seen[i] == text {
            proof {
                assert(texts(seen@)[i as int] == text@);
            }
            return;
        }
        i = i + 1;
    }
    proof {
        assert forall|j: int| 0 <= j < texts(seen@).len() implies texts(seen@)[j] != text@ by {
            assert(texts(seen@)[j] == seen@[j]@);
        }
    }
    let ghost before = seen@;
    seen.push(text);
    proof {
        assert(texts(seen@) =~= texts(before).push(text@));
    }
}

/// The stars of `stars` that still show at `now`.
fn keep_glowing(stars: &Vec<Star>, now: u64) -> (kept: Vec<Star>)
    ensures
        kept@ == live_stars(stars@, now),
{
    let mut kept: Vec<Star> = Vec::new();
    let mut i: usize = 0;
    while i < stars.len()
        invariant
            i <= stars@.len(),
            kept@ == live_stars(stars@.take(i as int), now),
        decreases stars@.len() - i,
    {
        let star = stars[i];
        proof {
            assert(stars@.take(i + 1).drop_last() =~= stars@.take(i as int));
        }
        let age = if now >= star.born {
            now - star.born
        } else {
            0
        };
        proof {
            reveal(Seq::filter);
            let t = stars@.take(i + 1);
            assert(t.last() == star);
            assert(live_stars(t, now) == (if glowing(star, now) {
                live_stars(stars@.take(i as int), now).push(star)
            } else {
                live_stars(stars@.take(i as int), now)
            }));
        }
        if age < STAR_TTL_NANOS {
            kept.push(star);
        }
        i = i + 1;
    }
    proof {
        assert(stars@.take(stars@.len() as int) =~= stars@);
    }
    kept
}

pub struct AppState {
    pub rows: VecDeque<Row>,
    pub alerts: VecDeque<Alert>,
    pub stars: Vec<Star>,
    /// One sample per second: distinct JA3 hashes and distinct JA4 hashes seen.
    pub divergence: VecDeque<(usize, usize)>,
    /// Handshakes per second, most recent last.
    pub rate: VecDeque<u64>,
    ja3_seen: Vec<String>,
    ja4_seen: Vec<String>,
    pub selected: usize,
    pub focus: Focus,
    pub paused: bool,
    pub total: u64,
    pub started: Instant,
    /// When the current throughput bucket opened, in nanoseconds since `started`.
    bucket_started: u64,
    bucket_count: u64,
    /// The latest clock reading the state has been moved to, in nanoseconds
    /// since `started`.
    latest: u64,
    /// Set when the producer thread has finished and will send nothing more.
    pub source_done: bool,
}

/// The dashboard state as the contracts speak of it: every pane as a
/// sequence, the distinct-hash sets as the texts seen (in first-seen order),
/// and the clock readings in nanoseconds since `started`.
#[verifier::ext_equal]
pub ghost struct AppView {
    pub rows: Seq<Row>,
    pub alerts: Seq<Alert>,
    pub stars: Seq<Star>,
    pub divergence: Seq<(usize, usize)>,
    pub rate: Seq<u64>,
    pub ja3_seen: Seq<Seq<char>>,
    pub ja4_seen: Seq<Seq<char>>,
    pub selected: usize,
    pub focus: Focus,
    pub paused: bool,
    pub total: u64,
    pub started: Instant,
    pub bucket_started: u64,
    pub bucket_count: u64,
    pub latest: u64,
    pub source_done: bool,
}

impl View for AppState {
    type V = AppView;

    closed spec fn view(&self) -> AppView {
        AppView {
            rows: self.rows@,
            alerts: self.alerts@,
            stars: self.stars@,
            divergence: self.divergence@,
            rate: self.rate@,
            ja3_seen: texts(self.ja3_seen@),
            ja4_seen: texts(self.ja4_seen@),
            selected: self.selected,
            focus: self.focus,
            paused: self.paused,
            total: self.total,
            started: self.started,
            bucket_started: self.bucket_started,
            bucket_count: self.bucket_count,
            latest: self.latest,
            source_done: self.source_done,
        }
    }
}

impl AppView {
    /// The state's invariant: every pane within its retention bound, the
    /// throughput history exactly full, the cursor on a row (or at the top of
    /// an empty stream), each distinct hash recorded once, and the open bucket
    /// counting no more handshakes than were ever seen.
    pub open spec fn wf(self) -> bool {
        &&& self.rows.len() <= MAX_ROWS
        &&& self.alerts.len() <= MAX_ALERTS
        &&& self.rate.len() == RATE_BUCKETS
        &&& self.divergence.len() <= MAX_DIVERGENCE
        &&& (self.rows.len() == 0 ==> self.selected == 0)
        &&& (self.rows.len() > 0 ==> self.selected < self.rows.len())
        &&& self.ja3_seen.no_duplicates()
        &&& self.ja4_seen.no_duplicates()
        &&& self.bucket_count <= self.total
    }

    /// The state after folding `obs` in at `now` (nanoseconds since start).
    pub open spec fn folded(self, obs: Observation, now: u64) -> AppView {
        let tone = tone_of(obs.reports@);
        let label = label_of_reports(obs.reports@);
        let rows = keep_front(
            seq![row_for(obs.event, tone, label.0, label.1)] + self.rows,
            MAX_ROWS as nat,
        );
        let selected = if self.selected > 0 {
            if self.selected + 1 <= rows.len() - 1 {
                (self.selected + 1) as usize
            } else {
                (rows.len() - 1) as usize
            }
        } else {
            self.selected
        };
        let (ja3_seen, ja4_seen, stars) = match obs.event.event {
            StreamEvent::ClientHello { ja3, ja4, .. } => (
                with_new(self.ja3_seen, ja3@),
                with_new(self.ja4_seen, ja4.hash@),
                match counts_of(encode_utf8(ja4.hash@)) {
                    Some((c, e)) => self.stars.push(
                        Star { ciphers: c, extensions: e, tone, born: now },
                    ),
                    None => self.stars,
                },
            ),
            _ => (self.ja3_seen, self.ja4_seen, self.stars),
        };
        AppView {
            total: (self.total + 1) as u64,
            bucket_count: (self.bucket_count + 1) as u64,
            latest: later_of(self.latest, now),
            rows,
            selected,
            alerts: keep_front(obs.alerts@.reverse() + self.alerts, MAX_ALERTS as nat),
            ja3_seen,
            ja4_seen,
            stars,
            ..self
        }
    }

    /// The state after a tick at `now` (nanoseconds since start): when a
    /// second or more has passed since the open bucket began, its count and
    /// the distinct-hash counts are recorded and a new bucket opens at `now`;
    /// either way the faded stars go.
    pub open spec fn ticked(self, now: u64) -> AppView {
        let aged = if since(now, self.bucket_started) >= BUCKET_NANOS {
            AppView {
                rate: keep_back(self.rate.push(self.bucket_count), RATE_BUCKETS as nat),
                divergence: keep_back(
                    self.divergence.push(
                        (self.ja3_seen.len() as usize, self.ja4_seen.len() as usize),
                    ),
                    MAX_DIVERGENCE as nat,
                ),
                bucket_count: 0,
                bucket_started: now,
                ..self
            }
        } else {
            self
        };
        AppView { stars: live_stars(self.stars, now), latest: later_of(self.latest, now), ..aged }
    }

    /// The state after `key` is pressed, and whether the dashboard keeps
    /// running: `q`/`Q` quit; `Esc` leaves the inspector, or quits from the
    /// stream; `Enter` switches panes; space pauses and resumes; the arrows
    /// and `j`/`k` move by one row, page keys by twenty; `Home` goes to the top.
    pub open spec fn after_key(self, key: Key) -> (AppView, bool) {
        match key {
            Key::Char(c) => if c == 'q' || c == 'Q' {
                (self, false)
            } else if c == ' ' {
                (AppView { paused: !self.paused, ..self }, true)
            } else if c == 'j' {
                (self.scrolled_by(1), true)
            } else if c == 'k' {
                (self.scrolled_by(-1), true)
            } else {
                (self, true)
            },
            Key::Esc => if self.focus == Focus::Inspector {
                (AppView { focus: Focus::Stream, ..self }, true)
            } else {
                (self, false)
            },
            Key::Enter => (
                AppView {
                    focus: if self.focus == Focus::Inspector {
                        Focus::Stream
                    } else {
                        Focus::Inspector
                    },
                    ..self
                },
                true,
            ),
            Key::Down => (self.scrolled_by(1), true),
            Key::Up => (self.scrolled_by(-1), true),
            Key::PageDown => (self.scrolled_by(20), true),
            Key::PageUp => (self.scrolled_by(-20), true),
            Key::Home => (AppView { selected: 0, ..self }, true),
            Key::Other => (self, true),
        }
    }

    /// The state after the cursor moves by `delta` rows.
    pub open spec fn scrolled_by(self, delta: int) -> AppView {
        AppView { selected: scrolled(self.selected, self.rows.len(), delta), ..self }
    }
}

/// The later of two clock readings.
pub open spec fn later_of(a: u64, b: u64) -> u64 {
    if a >= b {
        a
    } else {
        b
    }
}

/// The moments at which the observations among `looks` were folded in are
/// in clock order, none earlier than the reading `from`.
pub open spec fn in_clock_order(from: u64, looks: Seq<Inbox>, moments: Seq<u64>) -> bool {
    &&& forall|k: int| 0 <= k < looks.len() && #[trigger] looks[k] is Arrived ==> from <= moments[k]
    &&& forall|k: int, j: int|
        0 <= k < j < looks.len() && #[trigger] looks[k] is Arrived && #[trigger] looks[j] is Arrived
            ==> moments[k] <= moments[j]
}

/// The state after taking in each look at the channel in `looks`, in order,
/// an observation found by look `k` folded in at `moments[k]`.
pub open spec fn taken_in(v: AppView, looks: Seq<Inbox>, moments: Seq<u64>) -> AppView
    decreases looks.len(),
{
    if looks.len() == 0 {
        v
    } else {
        let prior = taken_in(v, looks.drop_last(), moments.drop_last());
        match looks.last() {
            Inbox::Arrived(observation) => prior.folded(observation, moments.last()),
            Inbox::Empty => prior,
            Inbox::Closed => AppView { source_done: true, ..prior },
        }
    }
}

/// The looks one frame's draining takes: observations only, stopping at the
/// first look that finds nothing, or after [`DRAIN_PER_FRAME`] observations.
pub open spec fn drain_run(looks: Seq<Inbox>) -> bool {
    &&& looks.len() <= DRAIN_PER_FRAME
    &&& forall|k: int| 0 <= k < looks.len() - 1 ==> #[trigger] looks[k] is Arrived
    &&& looks.len() < DRAIN_PER_FRAME ==> looks.len() > 0 && !(looks.last() is Arrived)
}

impl AppState {
    pub fn new() -> (s: Self)
        ensures
            s@.wf(),
            s@.rows == Seq::<Row>::empty(),
            s@.alerts == Seq::<Alert>::empty(),
            s@.stars == Seq::<Star>::empty(),
            s@.divergence == Seq::<(usize, usize)>::empty(),
            s@.rate == Seq::new(RATE_BUCKETS as nat, |i: int| 0u64),
            s@.ja3_seen == Seq::<Seq<char>>::empty(),
            s@.ja4_seen == Seq::<Seq<char>>::empty(),
            s@.selected == 0,
            s@.focus == Focus::Stream,
            !s@.paused,
            s@.total == 0,
            s@.bucket_started == 0,
            s@.bucket_count == 0,
            s@.latest == 0,
            !s@.source_done,
    {
        let now = instant_now();
        let mut rate: VecDeque<u64> = VecDeque::with_capacity(RATE_BUCKETS);
        let mut i: usize = 0;
        while i < RATE_BUCKETS
            invariant
                i <= RATE_BUCKETS,
                rate@ == Seq::new(i as nat, |k: int| 0u64),
            decreases RATE_BUCKETS - i,
        {
            rate.push_back(0);
            proof {
                assert(rate@ =~= Seq::new((i + 1) as nat, |k: int| 0u64));
            }
            i = i + 1;
        }
        let s = Self {
            rows: VecDeque::with_capacity(MAX_ROWS),
            alerts: VecDeque::with_capacity(MAX_ALERTS),
            stars: Vec::new(),
            divergence: VecDeque::with_capacity(MAX_DIVERGENCE),
            rate,
            ja3_seen: Vec::new(),
            ja4_seen: Vec::new(),
            selected: 0,
            focus: Focus::Stream,
            paused: false,
            total: 0,
            started: now,
            bucket_started: 0,
            bucket_count: 0,
            latest: 0,
            source_done: false,
        };
        proof {
            assert(s@.ja3_seen =~= Seq::<Seq<char>>::empty());
            assert(s@.ja4_seen =~= Seq::<Seq<char>>::empty());
        }
        s
    }

    /// Time since the dashboard started.
    pub fn uptime(&self) -> Duration {
        elapsed_since(&self.started)
    }

    /// Nanoseconds since the dashboard started, the clock that stars and
    /// throughput buckets are timed on; it stops at `u64::MAX`, some 584
    /// years in.
    pub fn now_nanos(&self) -> u64 {
        let up = self.uptime();
        let nanos = duration_nanos(&up);
        if nanos > 0xffff_ffff_ffff_ffff {
            0xffff_ffff_ffff_ffff
        } else {
            nanos as u64
        }
    }

    /// The row under the cursor, if the stream is not empty.
    pub fn current(&self) -> (row: Option<&Row>)
        ensures
            row == (if self@.selected < self@.rows.len() {
                Some(&self@.rows[self@.selected as int])
            } else {
                None
            }),
    {
        if self.selected < self.rows.len() {
            Some(&self.rows[self.selected])
        } else {
            None
        }
    }

    /// Folds one observation in, timing any constellation point it makes at
    /// `now` nanoseconds since start.
    pub fn fold_at(&mut self, observation: Observation, now: u64)
        requires
            old(self)@.total < u64::MAX,
            old(self)@.bucket_count < u64::MAX,
            old(self)@.selected < usize::MAX,
        ensures
            final(self)@ == old(self)@.folded(observation, now),
    {
        let ghost obs = observation;
        self.total = self.total + 1;
        self.bucket_count = self.bucket_count + 1;
        if now > self.latest {
            self.latest = now;
        }

        let Observation { event, reports, alerts } = observation;
        let tone = Tone::from_reports(reports.as_slice());
        let (label, fuzzy) = best_label(reports.as_slice());
        let FingerprintEvent { ts_nanos, src, dst, event: stream } = event;

        let mut ja3: Option<String> = None;
        let mut raw: Option<String> = None;
        let mut sni: Option<String> = None;
        let mut alpn: Option<String> = None;
        let mut user_agent: Option<String> = None;

        let (kind, fingerprint): (&'static str, String) = match stream {
            StreamEvent::ClientHello { ja3: hash, ja4, sni: server_name, alpn: proto } => {
                remember(&mut self.ja3_seen, hash.clone());
                remember(&mut self.ja4_seen, ja4.hash.clone());
                match ja4_counts(ja4.hash.as_str()) {
                    Some((ciphers, extensions)) => {
                        self.stars.push(Star { ciphers, extensions, tone, born: now });
                    },
                    None => {},
                }
                ja3 = Some(hash);
                raw = Some(ja4.raw);
                sni = server_name;
                alpn = proto;
                ("client_hello", ja4.hash)
            },
            StreamEvent::ServerHello { ja3s, ja4s } => {
                ja3 = Some(ja3s);
                raw = Some(ja4s.raw);
                ("server_hello", ja4s.hash)
            },
            StreamEvent::Certificate { ja4x } => ("certificate", ja4x),
            StreamEvent::HttpRequest { ja4h, host, user_agent: ua } => {
                raw = Some(ja4h.raw);
                sni = host;
                user_agent = ua;
                ("http", ja4h.hash)
            },
            StreamEvent::TcpSyn { ja4t } => ("syn", ja4t),
            StreamEvent::TcpSynAck { ja4ts } => ("syn_ack", ja4ts),
        };

        let row = Row {
            ts_nanos,
            src,
            dst,
            kind,
            fingerprint,
            ja3,
            raw,
            sni,
            alpn,
            user_agent,
            label,
            fuzzy,
            tone,
        };
        assert(row == row_for(obs.event, tone, label, fuzzy));
        self.rows.push_front(row);
        trim_back(&mut self.rows, MAX_ROWS);

        // Keep the cursor on whatever the user was looking at as rows arrive
        // above it, rather than letting the selection drift.
        if self.selected > 0 {
            let last = self.rows.len() - 1;
            self.selected = if self.selected + 1 <= last {
                self.selected + 1
            } else {
                last
            };
        }

        push_each_front(&mut self.alerts, alerts);
        trim_back(&mut self.alerts, MAX_ALERTS);
    }

    /// Folds one observation in, as it arrives now.
    pub fn fold(&mut self, observation: Observation)
        requires
            old(self)@.total < u64::MAX,
            old(self)@.bucket_count < u64::MAX,
            old(self)@.selected < usize::MAX,
        ensures
            exists|now: u64|
                now >= old(self)@.latest && final(self)@ == old(self)@.folded(observation, now),
    {
        let now = self.reading();
        self.fold_at(observation, now);
    }

    /// The clock now, as the state's moment: a reading of the clock, which
    /// the monotonic `Instant` keeps no earlier than any reading before it,
    /// so the later of the two is that reading.
    fn reading(&self) -> (now: u64)
        ensures
            now >= self@.latest,
    {
        let read = self.now_nanos();
        if read >= self.latest {
            read
        } else {
            self.latest
        }
    }

    /// Advances the one-second aggregates and expires faded constellation
    /// points, as of `now` nanoseconds since start.
    pub fn tick_at(&mut self, now: u64)
        ensures
            final(self)@ == old(self)@.ticked(now),
    {
        let elapsed = if now >= self.bucket_started {
            now - self.bucket_started
        } else {
            0
        };
        if elapsed >= BUCKET_NANOS {
            self.rate.push_back(self.bucket_count);
            trim_front(&mut self.rate, RATE_BUCKETS);
            self.divergence.push_back((self.ja3_seen.len(), self.ja4_seen.len()));
            trim_front(&mut self.divergence, MAX_DIVERGENCE);
            self.bucket_count = 0;
            self.bucket_started = now;
        }
        self.stars = keep_glowing(&self.stars, now);
        if now > self.latest {
            self.latest = now;
        }
    }

    /// Advances the one-second aggregates and expires faded constellation
    /// points, as of now.
    pub fn tick(&mut self)
        ensures
            exists|now: u64| now >= old(self)@.latest && final(self)@ == old(self)@.ticked(now),
    {
        let now = self.reading();
        self.tick_at(now);
    }

    /// How many distinct JA3 hashes have been seen.
    pub fn distinct_ja3(&self) -> (n: usize)
        ensures
            n == self@.ja3_seen.len(),
    {
        self.ja3_seen.len()
    }

    /// How many distinct JA4 hashes have been seen.
    pub fn distinct_ja4(&self) -> (n: usize)
        ensures
            n == self@.ja4_seen.len(),
    {
        self.ja4_seen.len()
    }

    /// Takes in one look at the channel: an observation is folded in (and
    /// more may follow); an empty channel ends this frame's draining; a
    /// closed one also marks the source finished.
    pub fn receive(&mut self, message: Inbox) -> (more: bool)
        requires
            old(self)@.total < u64::MAX,
            old(self)@.bucket_count < u64::MAX,
            old(self)@.selected < usize::MAX,
        ensures
            match message {
                Inbox::Arrived(observation) => more && exists|now: u64|
                    now >= old(self)@.latest && final(self)@ == old(self)@.folded(observation, now),
                Inbox::Empty => !more && final(self)@ == old(self)@,
                Inbox::Closed => !more && final(self)@ == (AppView {
                    source_done: true,
                    ..old(self)@
                }),
            },
    {
        match message {
            Inbox::Arrived(observation) => {
                self.fold(observation);
                true
            },
            Inbox::Empty => false,
            Inbox::Closed => {
                self.source_done = true;
                false
            },
        }
    }

    /// Folds in whatever the producer has sent, at most [`DRAIN_PER_FRAME`]
    /// observations, unless the dashboard is paused. A closed channel marks
    /// the source finished.
    ///
    /// Unpaused, the state is what taking in the looks at the channel gives,
    /// in order: each observation found is folded in (at some moment of its
    /// own), and the looks stop at the first one that finds the channel empty
    /// or closed, or after [`DRAIN_PER_FRAME`] observations.
    pub fn drain(&mut self, rx: &flume::Receiver<Observation>)
        requires
            old(self)@.wf(),
            old(self)@.total <= u64::MAX - DRAIN_PER_FRAME,
        ensures
            final(self)@.wf(),
            old(self)@.paused ==> final(self)@ == old(self)@,
            !old(self)@.paused ==> exists|looks: Seq<Inbox>, moments: Seq<u64>|
                #![trigger taken_in(old(self)@, looks, moments)]
                drain_run(looks) && moments.len() == looks.len() && in_clock_order(
                    old(self)@.latest,
                    looks,
                    moments,
                ) && final(self)@.total == old(self)@.total + arrivals(looks) && final(self)@ == taken_in(
                    old(self)@,
                    looks,
                    moments,
                ),
            old(self)@.total <= final(self)@.total <= old(self)@.total + DRAIN_PER_FRAME,
            final(self)@.focus == old(self)@.focus,
            final(self)@.paused == old(self)@.paused,
            old(self)@.source_done ==> final(self)@.source_done,
    {
        if self.paused {
            return;
        }
        let ghost start = self@;
        let ghost mut looks: Seq<Inbox> = Seq::empty();
        let ghost mut moments: Seq<u64> = Seq::empty();
        let mut taken: usize = 0;
        loop
            invariant_except_break
                taken <= DRAIN_PER_FRAME,
                looks.len() == taken,
                forall|k: int| 0 <= k < looks.len() ==> #[trigger] looks[k] is Arrived,
            invariant
                self@.wf(),
                start.total <= u64::MAX - DRAIN_PER_FRAME,
                start.total <= self@.total <= start.total + looks.len(),
                self@.focus == start.focus,
                self@.paused == start.paused,
                start.source_done ==> self@.source_done,
                moments.len() == looks.len(),
                self@ == taken_in(start, looks, moments),
                start.latest <= self@.latest,
                in_clock_order(start.latest, looks, moments),
                forall|k: int|
                    0 <= k < looks.len() && #[trigger] looks[k] is Arrived ==> moments[k]
                        <= self@.latest,
            ensures
                drain_run(looks),
                looks.len() <= DRAIN_PER_FRAME,
            decreases DRAIN_PER_FRAME - taken,
        {
            if taken >= DRAIN_PER_FRAME {
                break;
            }
            let message = try_receive(rx);
            let ghost seen = message;
            let ghost before = self@;
            proof {
                lemma_wf_counters(before);
            }
            let more = self.receive(message);
            proof {
                let prior_looks = looks;
                let prior_moments = moments;
                let moment = match seen {
                    Inbox::Arrived(observation) => {
                        let now = choose|now: u64|
                            now >= before.latest && self@ == before.folded(observation, now);
                        lemma_folded_keeps_wf(before, observation, now);
                        now
                    },
                    _ => 0,
                };
                looks = looks.push(seen);
                moments = moments.push(moment);
                assert(looks.drop_last() =~= prior_looks);
                assert(moments.drop_last() =~= prior_moments);
                assert(self@ == taken_in(start, looks, moments));
            }
            if !more {
                break;
            }
            taken = taken + 1;
        }
        proof {
            lemma_every_arrival_is_folded(start, looks, moments);
        }
    }

    /// Moves the cursor by `delta` rows, stopping at the first and last row.
    pub fn scroll(&mut self, delta: isize)
        ensures
            final(self)@ == old(self)@.scrolled_by(delta as int),
    {
        if self.rows.len() == 0 {
            return;
        }
        let last = self.rows.len() - 1;
        if delta < 0 {
            let magnitude: usize = ((-(delta + 1)) as usize) + 1;
            self.selected = if self.selected >= magnitude {
                self.selected - magnitude
            } else {
                0
            };
        } else {
            let magnitude: usize = delta as usize;
            self.selected = if self.selected > last || last - self.selected < magnitude {
                last
            } else {
                self.selected + magnitude
            };
        }
    }
}

/// Acts on one key press; returns false when the dashboard should exit.
pub fn handle_key(code: Key, app: &mut AppState) -> (keep: bool)
    ensures
        (final(app)@, keep) == old(app)@.after_key(code),
{
    match code {
        Key::Char(c) => {
            if c == 'q' || c == 'Q' {
                return false;
            } else if c == ' ' {
                app.paused = !app.paused;
            } else if c == 'j' {
                app.scroll(1);
            } else if c == 'k' {
                app.scroll(-1);
            }
        },
        Key::Esc => {
            if app.focus == Focus::Inspector {
                app.focus = Focus::Stream;
            } else {
                return false;
            }
        },
        Key::Enter => {
            app.focus = if app.focus == Focus::Inspector {
                Focus::Stream
            } else {
                Focus::Inspector
            };
        },
        Key::Down => app.scroll(1),
        Key::Up => app.scroll(-1),
        Key::PageDown => app.scroll(20),
        Key::PageUp => app.scroll(-20),
        Key::Home => app.selected = 0,
        Key::Other => {},
    }
    true
}

/// What a well-formed state says of its bucket counter and its cursor.
proof fn lemma_wf_counters(v: AppView)
    requires
        v.wf(),
    ensures
        v.bucket_count <= v.total,
        v.rows.len() > 0 ==> v.selected < v.rows.len(),
        v.rows.len() == 0 ==> v.selected == 0,
        v.selected < MAX_ROWS,
{
}

/// Adding a text that is not yet present keeps a sequence free of repeats.
proof fn lemma_with_new_no_duplicates(s: Seq<Seq<char>>, x: Seq<char>)
    requires
        s.no_duplicates(),
    ensures
        with_new(s, x).no_duplicates(),
        with_new(s, x).to_set() == s.to_set().insert(x),
{
    broadcast use vstd::seq_lib::group_seq_properties;
    if !s.contains(x) {
        assert forall|i: int, j: int|
            0 <= i < s.push(x).len() && 0 <= j < s.push(x).len() && i != j implies s.push(x)[i]
            != s.push(x)[j] by {
            if i == s.len() as int {
                assert(s.push(x)[j] == s[j]);
            } else if j == s.len() as int {
                assert(s.push(x)[i] == s[i]);
            }
        }
    } else {
        assert(s.to_set().insert(x) =~= s.to_set());
    }
}

/// Folding an observation in keeps the state well formed: every pane stays
/// within its bound, the cursor stays on a row, and each distinct hash is
/// still recorded once.
pub proof fn lemma_folded_keeps_wf(v: AppView, obs: Observation, now: u64)
    requires
        v.wf(),
        v.total < u64::MAX,
    ensures
        v.folded(obs, now).wf(),
{
    match obs.event.event {
        StreamEvent::ClientHello { ja3, ja4, .. } => {
            lemma_with_new_no_duplicates(v.ja3_seen, ja3@);
            lemma_with_new_no_duplicates(v.ja4_seen, ja4.hash@);
        },
        _ => {},
    }
}


/// As rows arrive above it, the cursor stays on the row the user was looking
/// at, as long as that row is still retained.
pub proof fn lemma_fold_keeps_cursor_on_row(v: AppView, obs: Observation, now: u64)
    requires
        0 < v.selected,
        v.selected + 1 < v.folded(obs, now).rows.len(),
    ensures
        v.folded(obs, now).rows[v.folded(obs, now).selected as int] == v.rows[v.selected as int],
{
}

/// The newest observation is the first row, and every row retained before
/// it moves one place down.
pub proof fn lemma_fold_puts_newest_first(v: AppView, obs: Observation, now: u64)
    ensures
        v.folded(obs, now).rows[0] == row_for(
            obs.event,
            tone_of(obs.reports@),
            label_of_reports(obs.reports@).0,
            label_of_reports(obs.reports@).1,
        ),
        forall|i: int|
            0 <= i < v.rows.len() && i + 1 < MAX_ROWS ==> v.folded(obs, now).rows[i + 1]
                == v.rows[i],
{
}

/// In a well-formed state the distinct-hash counts are the sizes of the sets
/// of hashes seen.
pub proof fn lemma_distinct_counts(v: AppView)
    requires
        v.wf(),
    ensures
        v.ja3_seen.len() == v.ja3_seen.to_set().len(),
        v.ja4_seen.len() == v.ja4_seen.to_set().len(),
{
    v.ja3_seen.unique_seq_to_set();
    v.ja4_seen.unique_seq_to_set();
}

/// A ClientHello adds its JA3 and JA4 hashes to the sets of hashes seen;
/// no other event changes them.
pub proof fn lemma_fold_records_hashes(v: AppView, obs: Observation, now: u64)
    requires
        v.wf(),
    ensures
        match obs.event.event {
            StreamEvent::ClientHello { ja3, ja4, .. } => {
                &&& v.folded(obs, now).ja3_seen.to_set() == v.ja3_seen.to_set().insert(ja3@)
                &&& v.folded(obs, now).ja4_seen.to_set() == v.ja4_seen.to_set().insert(ja4.hash@)
            },
            _ => {
                &&& v.folded(obs, now).ja3_seen.to_set() == v.ja3_seen.to_set()
                &&& v.folded(obs, now).ja4_seen.to_set() == v.ja4_seen.to_set()
            },
        },
{
    match obs.event.event {
        StreamEvent::ClientHello { ja3, ja4, .. } => {
            lemma_with_new_no_duplicates(v.ja3_seen, ja3@);
            lemma_with_new_no_duplicates(v.ja4_seen, ja4.hash@);
        },
        _ => {},
    }
}

/// After a tick, exactly the stars younger than the fade-out time remain,
/// in their order.
pub proof fn lemma_tick_expires_stars(v: AppView, now: u64)
    ensures
        forall|i: int|
            0 <= i < v.ticked(now).stars.len() ==> glowing(#[trigger] v.ticked(now).stars[i], now),
        forall|i: int|
            0 <= i < v.stars.len() && glowing(v.stars[i], now) ==> v.ticked(now).stars.contains(
                #[trigger] v.stars[i],
            ),
        v.ticked(now).stars.len() <= v.stars.len(),
{
    broadcast use vstd::seq_lib::group_filter_ensures;
    let pred = |x: Star| glowing(x, now);
    assert(v.ticked(now).stars == v.stars.filter(pred));
    assert forall|i: int|
        0 <= i < v.ticked(now).stars.len() implies glowing(#[trigger] v.ticked(now).stars[i], now) by {
        v.stars.lemma_filter_pred(pred, i);
    }
    assert forall|i: int|
        0 <= i < v.stars.len() && glowing(v.stars[i], now) implies v.ticked(now).stars.contains(
        #[trigger] v.stars[i],
    ) by {
        v.stars.lemma_filter_contains(pred, i);
    }
    v.stars.lemma_filter_len(pred);
}

/// A tick that closes a bucket records exactly the handshakes counted in it
/// as the newest throughput sample.
pub proof fn lemma_tick_records_bucket(v: AppView, now: u64)
    requires
        v.wf(),
        since(now, v.bucket_started) >= BUCKET_NANOS,
    ensures
        v.ticked(now).rate.last() == v.bucket_count,
        v.ticked(now).divergence.last() == (v.ja3_seen.len() as usize, v.ja4_seen.len() as usize),
        v.ticked(now).bucket_count == 0,
{
}

/// Pressing Enter twice returns to the pane that had focus, and pressing
/// space twice to the pause state, changing nothing else.
pub proof fn lemma_toggles_undo(v: AppView)
    ensures
        v.after_key(Key::Enter).0.after_key(Key::Enter) == (v, true),
        v.after_key(Key::Char(' ')).0.after_key(Key::Char(' ')) == (v, true),
{
    assert(v.after_key(Key::Enter).0.after_key(Key::Enter).0 =~= v);
    assert(v.after_key(Key::Char(' ')).0.after_key(Key::Char(' ')).0 =~= v);
}

/// `q` quits from anywhere without changing anything; `Esc` quits only from
/// the stream, and from the inspector returns to the stream.
pub proof fn lemma_quit_keys(v: AppView)
    ensures
        v.after_key(Key::Char('q')) == (v, false),
        v.after_key(Key::Char('Q')) == (v, false),
        v.focus == Focus::Stream ==> v.after_key(Key::Esc) == (v, false),
        v.focus == Focus::Inspector ==> v.after_key(Key::Esc).1 && v.after_key(Key::Esc).0.focus
            == Focus::Stream,
{
}

/// Scrolling never moves the cursor off the rows of a non-empty stream, and
/// moving down then up by the same amount from within the rows returns to
/// where it started when there is room below.
pub proof fn lemma_scroll_stays_on_rows(v: AppView, delta: int)
    requires
        v.wf(),
    ensures
        v.rows.len() > 0 ==> v.scrolled_by(delta).selected < v.rows.len(),
        0 <= delta && v.selected + delta < v.rows.len() ==> v.scrolled_by(delta).scrolled_by(
            -delta,
        ).selected == v.selected,
{
}


/// The state's clock only moves forward: folding in or ticking at a moment
/// leaves the latest reading at that moment or later, never earlier than
/// before.
pub proof fn lemma_clock_moves_forward(v: AppView, obs: Observation, now: u64)
    ensures
        v.folded(obs, now).latest >= v.latest,
        v.folded(obs, now).latest >= now,
        v.ticked(now).latest >= v.latest,
        v.ticked(now).latest >= now,
        now >= v.latest ==> v.folded(obs, now).latest == now && v.ticked(now).latest == now,
{
}

/// A ClientHello whose JA4 counts parse puts a star on the constellation,
/// born at the moment it was folded in; a tick at any later moment keeps it
/// while it is younger than the fade-out time and drops it once it is not.
pub proof fn lemma_star_lives_for_its_time(v: AppView, obs: Observation, now: u64, later: u64)
    requires
        obs.event.event is ClientHello,
        counts_of(encode_utf8(obs.event.event->ja4.hash@)) is Some,
        now <= later,
    ensures
        ({
            let (c, e) = counts_of(encode_utf8(obs.event.event->ja4.hash@))->0;
            let star = Star { ciphers: c, extensions: e, tone: tone_of(obs.reports@), born: now };
            &&& v.folded(obs, now).stars.last() == star
            &&& later - now < STAR_TTL_NANOS ==> v.folded(obs, now).ticked(later).stars.contains(
                star,
            )
            &&& later - now >= STAR_TTL_NANOS ==> !v.folded(obs, now).ticked(later).stars.contains(
                star,
            )
        }),
{
    broadcast use vstd::seq_lib::group_filter_ensures;

    let (c, e) = counts_of(encode_utf8(obs.event.event->ja4.hash@))->0;
    let star = Star { ciphers: c, extensions: e, tone: tone_of(obs.reports@), born: now };
    let f = v.folded(obs, now);
    let pred = |x: Star| glowing(x, later);
    assert(f.stars[f.stars.len() - 1] == star);
    assert(f.ticked(later).stars == f.stars.filter(pred));
    if later - now < STAR_TTL_NANOS {
        f.stars.lemma_filter_contains(pred, f.stars.len() - 1);
    } else {
        if f.ticked(later).stars.contains(star) {
            let i = choose|i: int|
                0 <= i < f.ticked(later).stars.len() && f.ticked(later).stars[i] == star;
            f.stars.lemma_filter_pred(pred, i);
        }
    }
}


/// How many of `looks` found an observation.
pub open spec fn arrivals(looks: Seq<Inbox>) -> nat
    decreases looks.len(),
{
    if looks.len() == 0 {
        0
    } else {
        arrivals(looks.drop_last()) + if looks.last() is Arrived {
            1nat
        } else {
            0nat
        }
    }
}

/// Every observation a run of looks takes in is folded in: the handshake
/// count grows by exactly the number of observations found, and the newest
/// row is the last observation found.
pub proof fn lemma_every_arrival_is_folded(v: AppView, looks: Seq<Inbox>, moments: Seq<u64>)
    requires
        v.total + looks.len() <= u64::MAX,
        moments.len() == looks.len(),
    ensures
        taken_in(v, looks, moments).total == v.total + arrivals(looks),
        arrivals(looks) <= looks.len(),
        looks.len() > 0 && looks.last() is Arrived ==> taken_in(v, looks, moments).rows[0]
            == row_for(
            looks.last()->0.event,
            tone_of(looks.last()->0.reports@),
            label_of_reports(looks.last()->0.reports@).0,
            label_of_reports(looks.last()->0.reports@).1,
        ),
    decreases looks.len(),
{
    if looks.len() > 0 {
        lemma_every_arrival_is_folded(v, looks.drop_last(), moments.drop_last());
    }
}

/// A tick keeps the state well formed; in particular the throughput history
/// stays exactly [`RATE_BUCKETS`] long.
pub proof fn lemma_ticked_keeps_wf(v: AppView, now: u64)
    requires
        v.wf(),
    ensures
        v.ticked(now).wf(),
{
}

/// Any key press keeps the state well formed; in particular the cursor
/// never leaves the rows.
pub proof fn lemma_after_key_keeps_wf(v: AppView, key: Key)
    requires
        v.wf(),
    ensures
        v.after_key(key).0.wf(),
{
}

} // verus!
