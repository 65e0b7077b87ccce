//! Reading the partly human-readable parts of a JA4 fingerprint.
//!
//! A JA4 hash such as `t13d1516h2_8daaf6152771_e5627efa2ab1` carries, in its
//! first section, the cipher count and the extension count as two decimal
//! digits each. The pre-hash field list (`t13d1516h2_002f,0035_0005,000a`)
//! carries the cipher and extension lists themselves, comma separated.
//!
//! All statements here are made over the UTF-8 bytes of the text, which is
//! what the separators and digit positions are defined on.

use vstd::prelude::*;
use vstd::string::*;
use vstd::utf8::*;

verus! {

broadcast use encode_utf8_valid_utf8;

/// The index of the first `sep` in `b`, or `b.len()` when there is none.
pub open spec fn find_byte(b: Seq<u8>, sep: u8) -> nat
    decreases b.len(),
{
    if b.len() == 0 {
        0
    } else if b[0] == sep {
        0
    } else {
        1 + find_byte(b.drop_first(), sep)
    }
}

/// The `n`-th section of `b` when it is split at every `sep`
/// (counting from zero), or `None` when there are fewer sections.
pub open spec fn field(b: Seq<u8>, sep: u8, n: nat) -> Option<Seq<u8>>
    decreases b.len(),
{
    let k = find_byte(b, sep);
    if k < b.len() {
        if n == 0 {
            Some(b.take(k as int))
        } else {
            field(b.skip(k + 1int), sep, (n - 1) as nat)
        }
    } else if n == 0 {
        Some(b)
    } else {
        None
    }
}

/// The non-empty sections of `b` when it is split at every `sep`, in order.
pub open spec fn pieces(b: Seq<u8>, sep: u8) -> Seq<Seq<u8>>
    decreases b.len(),
{
    let k = find_byte(b, sep);
    if k < b.len() {
        let rest = pieces(b.skip(k + 1int), sep);
        if k > 0 {
            seq![b.take(k as int)] + rest
        } else {
            rest
        }
    } else if b.len() > 0 {
        seq![b]
    } else {
        seq![]
    }
}

/// The UTF-8 bytes of each string slice in `s`.
pub open spec fn bytes_of(s: Seq<&str>) -> Seq<Seq<u8>> {
    s.map_values(|p: &str| p.spec_bytes())
}

pub open spec fn is_digit(c: u8) -> bool {
    48 <= c <= 57
}

/// What `str::parse::<u16>` gives for the two-byte text `b0 b1`: two decimal
/// digits, or a `+` sign followed by one digit; anything else is refused.
pub open spec fn two_digits(b0: u8, b1: u8) -> Option<u16> {
    if is_digit(b0) && is_digit(b1) {
        Some(((b0 - 48) * 10 + (b1 - 48)) as u16)
    } else if b0 == 43 && is_digit(b1) {
        Some((b1 - 48) as u16)
    } else {
        None
    }
}

/// The cipher and extension counts of a JA4 hash given as bytes: the two
/// two-digit numbers at offsets 4 and 6 of the section before the first `_`.
pub open spec fn counts_of(b: Seq<u8>) -> Option<(u16, u16)> {
    let prefix = field(b, 95, 0).unwrap();
    if prefix.len() >= 8 {
        match (two_digits(prefix[4], prefix[5]), two_digits(prefix[6], prefix[7])) {
            (Some(c), Some(e)) => Some((c, e)),
            _ => None,
        }
    } else {
        None
    }
}

/// The non-empty comma-separated entries of section `n` of a `_`-separated
/// field list, empty when the list has no such section.
pub open spec fn list_entries(b: Seq<u8>, n: nat) -> Seq<Seq<u8>> {
    match field(b, 95, n) {
        Some(section) => pieces(section, 44),
        None => seq![],
    }
}

proof fn lemma_find_byte(b: Seq<u8>, sep: u8)
    ensures
        find_byte(b, sep) <= b.len(),
        forall|j: int| 0 <= j < find_byte(b, sep) ==> b[j] != sep,
        find_byte(b, sep) < b.len() ==> b[find_byte(b, sep) as int] == sep,
    decreases b.len(),
{
    if b.len() > 0 && b[0] != sep {
        lemma_find_byte(b.drop_first(), sep);
        assert forall|j: int| 0 <= j < find_byte(b, sep) implies b[j] != sep by {
            if j > 0 {
                assert(b[j] == b.drop_first()[j - 1]);
            }
        }
    }
}

/// Every entry of a split list is non-empty and holds no separator.
pub proof fn lemma_pieces_are_clean(b: Seq<u8>, sep: u8)
    ensures
        forall|i: int|
            0 <= i < pieces(b, sep).len() ==> #[trigger] pieces(b, sep)[i].len() > 0 && forall|
                j: int,
            |
                0 <= j < pieces(b, sep)[i].len() ==> pieces(b, sep)[i][j] != sep,
    decreases b.len(),
{
    lemma_find_byte(b, sep);
    let k = find_byte(b, sep);
    if k < b.len() {
        let rest = b.skip(k + 1int);
        lemma_pieces_are_clean(rest, sep);
        let head = b.take(k as int);
        assert forall|j: int| 0 <= j < head.len() implies head[j] != sep by {
            assert(head[j] == b[j]);
        }
        if k > 0 {
            assert forall|i: int| 0 <= i < pieces(b, sep).len() implies #[trigger] pieces(
                b,
                sep,
            )[i].len() > 0 && forall|j: int|
                0 <= j < pieces(b, sep)[i].len() ==> pieces(b, sep)[i][j] != sep by {
                if i > 0 {
                    assert(pieces(b, sep)[i] == pieces(rest, sep)[i - 1]);
                }
            }
        }
    }
}

/// The counts read from a JA4 hash are two-digit numbers.
pub proof fn lemma_counts_below_hundred(b: Seq<u8>)
    ensures
        counts_of(b) matches Some((c, e)) ==> c < 100 && e < 100,
{
}

/// The first position of `sep` in `b` (or `b.len()`), found by a scan.
fn scan_for(b: &[u8], sep: u8) -> (k: usize)
    ensures
        k == find_byte(b@, sep),
{
    let mut i: usize = 0;
    while i < b.len() && b[i] != sep
        invariant
            i <= b@.len(),
            forall|j: int| 0 <= j < i ==> b@[j] != sep,
        decreases b@.len() - i,
    {
        i = i + 1;
    }
    proof {
        lemma_find_byte(b@, sep);
    }
    i
}

/// Splits `s` at its first `sep` (an ASCII byte): the text before it, and,
/// when there is one, the text after it.
fn split_once<'a>(s: &'a str, sep: u8) -> (res: (&'a str, Option<&'a str>))
    requires
        sep < 128,
    ensures
        res.0.spec_bytes() == s.spec_bytes().take(find_byte(s.spec_bytes(), sep) as int),
        (find_byte(s.spec_bytes(), sep) < s.spec_bytes().len()) == res.1 is Some,
        res.1 matches Some(rest) ==> rest.spec_bytes() == s.spec_bytes().skip(
            find_byte(s.spec_bytes(), sep) + 1int,
        ),
{
    let b = s.as_bytes();
    let k = scan_for(b, sep);
    proof {
        lemma_find_byte(b@, sep);
    }
    if k < b.len() {
        let ghost sb = s.spec_bytes();
        proof {
            is_char_boundary_iff_not_is_continuation_byte(sb, k as int);
        }
        let (head, tail) = s.split_at(k);
        let ghost tb = tail.spec_bytes();
        proof {
            assert(tb[0] == sep);
            assert(valid_utf8(tb));
            reveal_with_fuel(is_char_boundary, 2);
            assert(is_char_boundary(tb, 1));
        }
        let (_, rest) = tail.split_at(1);
        proof {
            assert(head.spec_bytes() =~= sb.take(k as int));
            assert(rest.spec_bytes() =~= sb.skip(k + 1int));
        }
        (head, Some(rest))
    } else {
        proof {
            assert(s.spec_bytes().take(k as int) =~= s.spec_bytes());
        }
        (s, None)
    }
}


/// `b0 b1` read as a decimal number the way `str::parse::<u16>` reads it.
fn parse_two(b0: u8, b1: u8) -> (res: Option<u16>)
    ensures
        res == two_digits(b0, b1),
{
    if 48 <= b0 && b0 <= 57 && 48 <= b1 && b1 <= 57 {
        Some(((b0 - 48) as u16) * 10 + ((b1 - 48) as u16))
    } else if b0 == 43 && 48 <= b1 && b1 <= 57 {
        Some((b1 - 48) as u16)
    } else {
        None
    }
}

/// Pull the cipher and extension counts out of a JA4 hash's readable prefix.
///
/// `t13d1516h2_…` is transport `t`, TLS 1.3, SNI present, **15** ciphers,
/// **16** extensions, ALPN `h2`. Those two counts are the constellation's
/// coordinates. The counts are the two-character slices at byte offsets 4..6
/// and 6..8 of the section before the first `_`; when either is missing or is
/// not a number, there are no counts.
pub fn ja4_counts(hash: &str) -> (res: Option<(u16, u16)>)
    ensures
        res == counts_of(hash.spec_bytes()),
{
    let b = hash.as_bytes();
    let k = scan_for(b, 95);
    proof {
        lemma_find_byte(b@, 95);
        assert(b@.take(b@.len() as int) =~= b@);
        assert(field(b@, 95, 0) == Some(b@.take(k as int)));
    }
    if k < 8 {
        return None;
    }
    let ciphers = match parse_two(b[4], b[5]) {
        Some(c) => c,
        None => return None,
    };
    let extensions = match parse_two(b[6], b[7]) {
        Some(e) => e,
        None => return None,
    };
    Some((ciphers, extensions))
}

/// Section `n` of `s` split at every `_`, when there is one.
fn section<'a>(s: &'a str, n: usize) -> (res: Option<&'a str>)
    ensures
        match res {
            Some(part) => field(s.spec_bytes(), 95, n as nat) == Some(part.spec_bytes()),
            None => field(s.spec_bytes(), 95, n as nat) is None,
        },
{
    let mut cur = s;
    let mut i: usize = 0;
    while i < n
        invariant
            i <= n,
            field(s.spec_bytes(), 95, n as nat) == field(cur.spec_bytes(), 95, (n - i) as nat),
        decreases n - i,
    {
        let (_, rest) = split_once(cur, 95);
        match rest {
            Some(r) => {
                cur = r;
                i = i + 1;
            },
            None => {
                return None;
            },
        }
    }
    let (head, _) = split_once(cur, 95);
    proof {
        let cb = cur.spec_bytes();
        lemma_find_byte(cb, 95);
        assert(cb.take(cb.len() as int) =~= cb);
    }
    Some(head)
}

/// The non-empty pieces of `s` split at every `sep`, as slices of `s`.
fn split_nonempty<'a>(s: &'a str, sep: u8) -> (res: Vec<&'a str>)
    requires
        sep < 128,
    ensures
        bytes_of(res@) == pieces(s.spec_bytes(), sep),
{
    let mut out: Vec<&'a str> = Vec::new();
    let mut cur = s;
    loop
        invariant
            sep < 128,
            pieces(s.spec_bytes(), sep) == bytes_of(out@) + pieces(
                cur.spec_bytes(),
                sep,
            ),
        decreases cur.spec_bytes().len(),
    {
        let ghost before = bytes_of(out@);
        let ghost cb = cur.spec_bytes();
        let (head, rest) = split_once(cur, sep);
        let ghost k = find_byte(cb, sep);
        proof {
            lemma_find_byte(cb, sep);
        }
        // The byte length, read off the bytes themselves.
        let head_len = head.as_bytes().len();
        if head_len > 0 {
            out.push(head);
            assert(bytes_of(out@) =~= before.push(head.spec_bytes()));
        } else {
            assert(bytes_of(out@) =~= before);
        }
        let ghost first: Seq<Seq<u8>> = if k > 0 {
            seq![cb.take(k as int)]
        } else {
            seq![]
        };
        proof {
            if k > 0 {
                assert(before.push(head.spec_bytes()) =~= before + first);
            } else {
                assert(before =~= before + first);
            }
        }
        assert(bytes_of(out@) =~= before + first);
        match rest {
            Some(r) => {
                proof {
                    assert(pieces(cb, sep) == first + pieces(r.spec_bytes(), sep));
                    assert(before + first + pieces(r.spec_bytes(), sep) =~= before + (first
                        + pieces(r.spec_bytes(), sep)));
                }
                cur = r;
            },
            None => {
                proof {
                    assert(cb.take(cb.len() as int) =~= cb);
                    assert(pieces(cb, sep) =~= first);
                }
                return out;
            },
        }
    }
}

/// The entries of section `n` of a `_`-separated field list, split at commas
/// with empty entries dropped; empty when the list has no section `n`.
fn entries_of<'a>(raw: &'a str, n: usize) -> (res: Vec<&'a str>)
    ensures
        bytes_of(res@) == list_entries(raw.spec_bytes(), n as nat),
{
    match section(raw, n) {
        Some(part) => split_nonempty(part, 44),
        None => {
            let v: Vec<&'a str> = Vec::new();
            proof {
                assert(bytes_of(v@) =~= Seq::<Seq<u8>>::empty());
            }
            v
        },
    }
}

/// The comma-separated extension list from a JA4 raw string, for the barcode:
/// the non-empty entries of its third `_`-separated section.
pub fn extensions_of(raw: &str) -> (res: Vec<&str>)
    ensures
        bytes_of(res@) == list_entries(raw.spec_bytes(), 2),
{
    entries_of(raw, 2)
}

/// The comma-separated cipher list from a JA4 raw string: the non-empty
/// entries of its second `_`-separated section.
pub fn ciphers_of(raw: &str) -> (res: Vec<&str>)
    ensures
        bytes_of(res@) == list_entries(raw.spec_bytes(), 1),
{
    entries_of(raw, 1)
}

} // verus!
