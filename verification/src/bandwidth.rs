//! Bandwidths as operators write them: a number and a unit.

use vstd::prelude::*;

use crate::config::BandwidthUnit;

verus! {

/// Whether a character has the Unicode property Alphabetic.
pub uninterp spec fn alphabetic(c: char) -> bool;

/// The ASCII letters.
pub open spec fn ascii_letter(c: char) -> bool {
    'a' <= c <= 'z' || 'A' <= c <= 'Z'
}

/// Whether a character is a letter: among the ASCII characters, the ASCII letters;
/// beyond them, those with the Unicode property Alphabetic.
pub open spec fn letter(c: char) -> bool {
    if c <= '\u{7f}' {
        ascii_letter(c)
    } else {
        alphabetic(c)
    }
}

/// Whether a character has the Unicode property White_Space.
pub open spec fn white_space(c: char) -> bool {
    ||| '\u{9}' <= c <= '\u{d}'
    ||| c == '\u{20}' || c == '\u{85}' || c == '\u{a0}' || c == '\u{1680}'
    ||| '\u{2000}' <= c <= '\u{200a}'
    ||| c == '\u{2028}' || c == '\u{2029}' || c == '\u{202f}' || c == '\u{205f}'
    ||| c == '\u{3000}'
}

/// Calls `char::is_alphabetic`: the result is a function of the character alone, and
/// among the ASCII characters it holds of the letters.
#[verifier::external_body]
fn char_is_alphabetic(c: char) -> (r: bool)
    ensures
        r == alphabetic(c),
        c <= '\u{7f}' ==> r == ascii_letter(c),
{
    c.is_alphabetic()
}

/// Calls `char::is_whitespace`: it holds of the characters with the Unicode property
/// White_Space.
#[verifier::external_body]
fn char_is_whitespace(c: char) -> (r: bool)
    ensures
        r == white_space(c),
{
    c.is_whitespace()
}

/// A text without the white space before it.
pub open spec fn trim_front(s: Seq<char>) -> Seq<char>
    decreases s.len(),
{
    if s.len() > 0 && white_space(s[0]) {
        trim_front(s.skip(1))
    } else {
        s
    }
}

/// A text without the white space behind it.
pub open spec fn trim_back(s: Seq<char>) -> Seq<char>
    decreases s.len(),
{
    if s.len() > 0 && white_space(s.last()) {
        trim_back(s.drop_last())
    } else {
        s
    }
}

/// A text without the white space around it.
pub open spec fn trimmed(s: Seq<char>) -> Seq<char> {
    trim_back(trim_front(s))
}

fn trim(s: &str) -> (r: String)
    ensures
        r@ == trimmed(s@),
{
    let n: usize = s.unicode_len();
    let mut lo: usize = 0;
    assert(s@.skip(0) =~= s@);
    while lo < n && char_is_whitespace(s.get_char(lo))
        invariant
            lo <= n,
            n == s@.len(),
            trim_front(s@) == trim_front(s@.skip(lo as int)),
        ensures
            lo <= n,
            trim_front(s@) == s@.skip(lo as int),
        decreases n - lo,
    {
        assert(s@.skip(lo as int).skip(1) =~= s@.skip(lo + 1));
        lo = lo + 1;
    }
    let mut hi: usize = n;
    assert(s@.skip(lo as int) =~= s@.subrange(lo as int, n as int));
    while hi > lo && char_is_whitespace(s.get_char(hi - 1))
        invariant
            lo <= hi <= n,
            n == s@.len(),
            trim_back(s@.skip(lo as int)) == trim_back(s@.subrange(lo as int, hi as int)),
        ensures
            lo <= hi <= n,
            trim_back(s@.skip(lo as int)) == s@.subrange(lo as int, hi as int),
        decreases hi,
    {
        assert(s@.subrange(lo as int, hi as int).drop_last() =~= s@.subrange(lo as int, hi - 1));
        hi = hi - 1;
    }
    s.substring_char(lo, hi).to_owned()
}

/// A bandwidth as written: the whole text, the number and the unit.
#[derive(Debug)]
pub struct BandwidthText {
    pub whole: String,
    pub number: String,
    pub unit: String,
}

/// The unit starts at the first letter of the text.
pub open spec fn unit_starts_at(s: Seq<char>, pos: int) -> bool {
    &&& 0 <= pos < s.len()
    &&& letter(s[pos])
    &&& forall|j: int| 0 <= j < pos ==> !letter(#[trigger] s[j])
}

/// Splits a bandwidth into its number and its unit, without the white space around
/// them.
pub fn split_bandwidth(text: &str) -> (r: Result<BandwidthText, String>)
    ensures
        ({
            let s = trimmed(text@);
            match r {
                Ok(b) => {
                    &&& b.whole@ == s
                    &&& exists|pos: int| #[trigger]
                        unit_starts_at(s, pos) && b.number@ == trimmed(s.take(pos)) && b.unit@
                            == trimmed(s.skip(pos))
                },
                Err(e) => {
                    &&& forall|j: int| 0 <= j < s.len() ==> !letter(#[trigger] s[j])
                    &&& e@ == "missing unit in '"@ + s + "' — use Kbps, Mbps, Gbps"@
                },
            }
        }),
{
    let whole: String = trim(text);
    let n: usize = whole.as_str().unicode_len();
    let mut pos: usize = 0;
    while pos < n
        invariant
            pos <= n,
            n == whole@.len(),
            whole@ == trimmed(text@),
            forall|j: int| 0 <= j < pos ==> !letter(#[trigger] whole@[j]),
        decreases n - pos,
    {
        if char_is_alphabetic(whole.as_str().get_char(pos)) {
            let number: String = trim(whole.as_str().substring_char(0, pos));
            let unit: String = trim(whole.as_str().substring_char(pos, n));
            proof {
                assert(whole@.subrange(0, pos as int) =~= whole@.take(pos as int));
                assert(whole@.subrange(pos as int, n as int) =~= whole@.skip(pos as int));
                assert(unit_starts_at(whole@, pos as int));
            }
            return Ok(BandwidthText { whole, number, unit });
        }
        pos = pos + 1;
    }
    let mut e: String = "missing unit in '".to_owned();
    e.append(whole.as_str());
    e.append("' — use Kbps, Mbps, Gbps");
    Err(e)
}

/// The letters `bps` in either case, behind a first letter.
pub open spec fn per_second(unit: Seq<char>, lower: char, upper: char) -> bool {
    &&& unit.len() == 4
    &&& unit[0] == lower || unit[0] == upper
    &&& unit[1] == 'b' || unit[1] == 'B'
    &&& unit[2] == 'p' || unit[2] == 'P'
    &&& unit[3] == 's' || unit[3] == 'S'
}

/// The unit that a text names, in either case.
pub open spec fn unit_named(unit: Seq<char>) -> Option<BandwidthUnit> {
    if per_second(unit, 'k', 'K') {
        Some(BandwidthUnit::Kbps)
    } else if per_second(unit, 'm', 'M') {
        Some(BandwidthUnit::Mbps)
    } else if per_second(unit, 'g', 'G') {
        Some(BandwidthUnit::Gbps)
    } else {
        None
    }
}

fn unit_from_text(unit: &str) -> (r: Option<BandwidthUnit>)
    ensures
        r == unit_named(unit@),
{
    if unit.unicode_len() != 4 {
        return None;
    }
    let b: char = unit.get_char(1);
    let p: char = unit.get_char(2);
    let s: char = unit.get_char(3);
    if !((b == 'b' || b == 'B') && (p == 'p' || p == 'P') && (s == 's' || s == 'S')) {
        return None;
    }
    let first: char = unit.get_char(0);
    if first == 'k' || first == 'K' {
        Some(BandwidthUnit::Kbps)
    } else if first == 'm' || first == 'M' {
        Some(BandwidthUnit::Mbps)
    } else if first == 'g' || first == 'G' {
        Some(BandwidthUnit::Gbps)
    } else {
        None
    }
}

/// The complaint about a bandwidth that is not greater than zero.
pub open spec fn not_positive(whole: Seq<char>) -> Seq<char> {
    "bandwidth must be greater than zero, got '"@ + whole + "'"@
}

fn not_positive_text(whole: &str) -> (r: String)
    ensures
        r@ == not_positive(whole@),
{
    let mut e: String = "bandwidth must be greater than zero, got '".to_owned();
    e.append(whole);
    e.append("'");
    e
}

/// What is wrong with a bandwidth, if anything: its number is none, its unit is
/// unknown, or it is not greater than zero, in this order.
pub open spec fn bandwidth_fault(
    whole: Seq<char>,
    number: Seq<char>,
    unit: Seq<char>,
    is_number: bool,
    is_positive: bool,
) -> Option<Seq<char>> {
    if !is_number {
        Some("invalid number '"@ + number + "'"@)
    } else if unit_named(unit) is None {
        Some("unknown unit '"@ + unit + "' — use Kbps, Mbps, Gbps"@)
    } else if !is_positive {
        Some(not_positive(whole))
    } else {
        None
    }
}

/// Checks a bandwidth, given whether its number is one and whether that is greater than
/// zero: the unit to multiply it with, or what is wrong.
pub fn check_bandwidth(b: &BandwidthText, is_number: bool, is_positive: bool) -> (r: Result<
    BandwidthUnit,
    String,
>)
    ensures
        match r {
            Ok(u) => bandwidth_fault(b.whole@, b.number@, b.unit@, is_number, is_positive) is None
                && unit_named(b.unit@) == Some(u),
            Err(e) => bandwidth_fault(b.whole@, b.number@, b.unit@, is_number, is_positive)
                == Some(e@),
        },
{
    if !is_number {
        let mut e: String = "invalid number '".to_owned();
        e.append(b.number.as_str());
        e.append("'");
        return Err(e);
    }
    match unit_from_text(b.unit.as_str()) {
        None => {
            let mut e: String = "unknown unit '".to_owned();
            e.append(b.unit.as_str());
            e.append("' — use Kbps, Mbps, Gbps");
            Err(e)
        },
        Some(u) => {
            if !is_positive {
                return Err(not_positive_text(b.whole.as_str()));
            }
            Ok(u)
        },
    }
}

/// Takes the bits per second that a bandwidth comes to: a fraction of a bit is none,
/// and a bandwidth of none is refused.
pub fn bandwidth_bps(b: &BandwidthText, bps: u64) -> (r: Result<u64, String>)
    ensures
        match r {
            Ok(v) => v == bps && bps > 0,
            Err(e) => bps == 0 && e@ == not_positive(b.whole@),
        },
{
    if bps == 0 {
        Err(not_positive_text(b.whole.as_str()))
    } else {
        Ok(bps)
    }
}

// ---------------------------------------------------------------------------
// Laws
// ---------------------------------------------------------------------------

/// All characters are white space.
pub open spec fn blank(s: Seq<char>) -> bool {
    forall|i: int| 0 <= i < s.len() ==> white_space(#[trigger] s[i])
}

proof fn lemma_trim_front(s: Seq<char>) -> (n: int)
    ensures
        0 <= n <= s.len(),
        blank(s.take(n)),
        trim_front(s) == s.skip(n),
        n < s.len() ==> !white_space(s[n]),
    decreases s.len(),
{
    if s.len() > 0 && white_space(s[0]) {
        let n = lemma_trim_front(s.skip(1));
        assert(s.skip(1).skip(n) =~= s.skip(n + 1));
        assert forall|i: int| 0 <= i < n + 1 implies white_space(#[trigger] s.take(n + 1)[i]) by {
            if i > 0 {
                assert(s.skip(1).take(n)[i - 1] == s[i]);
            }
        }
        n + 1
    } else {
        assert(s.skip(0) =~= s);
        0
    }
}

proof fn lemma_trim_back(s: Seq<char>) -> (n: int)
    ensures
        0 <= n <= s.len(),
        blank(s.skip(n)),
        trim_back(s) == s.take(n),
        n > 0 ==> !white_space(s[n - 1]),
    decreases s.len(),
{
    if s.len() > 0 && white_space(s.last()) {
        let d = s.drop_last();
        let n = lemma_trim_back(d);
        assert(d.take(n) =~= s.take(n));
        assert forall|i: int| 0 <= i < s.len() - n implies white_space(#[trigger] s.skip(n)[i]) by {
            if n + i < d.len() {
                assert(d.skip(n)[i] == s[n + i]);
            }
        }
        n
    } else {
        assert(s.take(s.len() as int) =~= s);
        s.len() as int
    }
}

/// Trimming takes away white space in front and behind, all of it, and nothing else.
pub proof fn law_trimming_takes_the_white_space_around(s: Seq<char>) -> (r: (Seq<char>, Seq<char>))
    ensures
        blank(r.0),
        blank(r.1),
        s == r.0 + trimmed(s) + r.1,
        trimmed(s).len() > 0 ==> !white_space(trimmed(s)[0]) && !white_space(trimmed(s).last()),
{
    let n = lemma_trim_front(s);
    let f = s.skip(n);
    let m = lemma_trim_back(f);
    assert(s =~= s.take(n) + f.take(m) + f.skip(m));
    if m > 0 {
        assert(f.take(m)[0] == s[n]);
        assert(f.take(m).last() == f[m - 1]);
    }
    (s.take(n), f.skip(m))
}

/// The lower-case form of an ASCII letter; any other character as it is.
pub open spec fn lower(c: char) -> int {
    if 'A' <= c <= 'Z' {
        c as int + 32
    } else {
        c as int
    }
}

/// A text reads as another one when case does not matter.
pub open spec fn reads_as(s: Seq<char>, t: Seq<char>) -> bool {
    &&& s.len() == t.len()
    &&& forall|i: int| 0 <= i < s.len() ==> lower(#[trigger] s[i]) == lower(t[i])
}

/// Exactly the three units are known, in upper or lower case, each by its own name.
pub proof fn law_units_are_named(unit: Seq<char>)
    ensures
        unit_named(unit) == Some(BandwidthUnit::Kbps) <==> reads_as(unit, "Kbps"@),
        unit_named(unit) == Some(BandwidthUnit::Mbps) <==> reads_as(unit, "Mbps"@),
        unit_named(unit) == Some(BandwidthUnit::Gbps) <==> reads_as(unit, "Gbps"@),
{
    reveal_strlit("Kbps");
    reveal_strlit("Mbps");
    reveal_strlit("Gbps");
    if unit.len() == 4 {
        lemma_letters(unit[0]);
        lemma_letters(unit[1]);
        lemma_letters(unit[2]);
        lemma_letters(unit[3]);
        let k = "Kbps"@;
        let m = "Mbps"@;
        let g = "Gbps"@;
        if per_second(unit, 'k', 'K') {
            assert forall|i: int| 0 <= i < 4 implies lower(#[trigger] unit[i]) == lower(k[i]) by {}
        }
        if per_second(unit, 'm', 'M') {
            assert forall|i: int| 0 <= i < 4 implies lower(#[trigger] unit[i]) == lower(m[i]) by {}
        }
        if per_second(unit, 'g', 'G') {
            assert forall|i: int| 0 <= i < 4 implies lower(#[trigger] unit[i]) == lower(g[i]) by {}
        }
        if reads_as(unit, k) {
            assert(lower(unit[0]) == lower(k[0]) && lower(unit[1]) == lower(k[1]));
            assert(lower(unit[2]) == lower(k[2]) && lower(unit[3]) == lower(k[3]));
        }
        if reads_as(unit, m) {
            assert(lower(unit[0]) == lower(m[0]) && lower(unit[1]) == lower(m[1]));
            assert(lower(unit[2]) == lower(m[2]) && lower(unit[3]) == lower(m[3]));
        }
        if reads_as(unit, g) {
            assert(lower(unit[0]) == lower(g[0]) && lower(unit[1]) == lower(g[1]));
            assert(lower(unit[2]) == lower(g[2]) && lower(unit[3]) == lower(g[3]));
        }
    }
}

proof fn lemma_letters(c: char)
    ensures
        lower(c) == lower('K') <==> c == 'k' || c == 'K',
        lower(c) == lower('M') <==> c == 'm' || c == 'M',
        lower(c) == lower('G') <==> c == 'g' || c == 'G',
        lower(c) == lower('b') <==> c == 'b' || c == 'B',
        lower(c) == lower('p') <==> c == 'p' || c == 'P',
        lower(c) == lower('s') <==> c == 's' || c == 'S',
{
}

/// A bandwidth is accepted exactly when its number is one that is greater than zero and
/// its unit is known.
pub proof fn law_sound_bandwidths_are_accepted(
    whole: Seq<char>,
    number: Seq<char>,
    unit: Seq<char>,
    is_number: bool,
    is_positive: bool,
)
    ensures
        bandwidth_fault(whole, number, unit, is_number, is_positive) is None <==> is_number
            && is_positive && (reads_as(unit, "Kbps"@) || reads_as(unit, "Mbps"@) || reads_as(
            unit,
            "Gbps"@,
        )),
{
    law_units_are_named(unit);
    match unit_named(unit) {
        Some(BandwidthUnit::Kbps) => {},
        Some(BandwidthUnit::Mbps) => {},
        Some(BandwidthUnit::Gbps) => {},
        None => {},
    }
}

} // verus!
