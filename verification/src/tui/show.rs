//! Texts and numbers as they are shown.

use vstd::prelude::*;
use vstd::string::StringExecFns;

use crate::decimal;
use crate::json;
use crate::json::{Json, JsonView};
use crate::text;
use crate::tui::styled;
use crate::tui::styled::{push_piece, push_text, text_of, Piece, PieceView};

verus! {

/// What stands for a value that is not known.
pub const UNKNOWN: &'static str = "-";

/// How a date is written.
pub const EPOCH_FORMAT: &'static str = "%Y-%m-%d %H:%M:%S UTC";

pub open spec fn or_unknown(s: Option<Seq<char>>) -> Seq<char> {
    match s {
        Some(s) => s,
        None => UNKNOWN@,
    }
}

/// An optional text, or the sign for an unknown one.
pub fn text_or_unknown(s: &Option<String>) -> (r: String)
    ensures
        r@ == or_unknown(s.deep_view()),
{
    match s {
        Some(s) => s.clone(),
        None => UNKNOWN.to_owned(),
    }
}

/// A text on one line: its words with single spaces between them.
pub open spec fn on_one_line(s: Seq<char>) -> Seq<char> {
    text::joined(text::words(s), seq![' '])
}

proof fn lemma_joined_extended(parts: Seq<Seq<char>>, sep: Seq<char>, c: char)
    requires
        parts.len() > 0,
    ensures
        text::joined(parts.drop_last().push(parts.last().push(c)), sep) == text::joined(
            parts,
            sep,
        ).push(c),
{
    let longer = parts.drop_last().push(parts.last().push(c));
    assert(longer.drop_last() =~= parts.drop_last());
    assert(text::joined(longer, sep) =~= text::joined(parts, sep).push(c));
}

proof fn lemma_joined_pushed(parts: Seq<Seq<char>>, sep: Seq<char>, part: Seq<char>)
    ensures
        text::joined(parts.push(part), sep) == if parts.len() == 0 {
            part
        } else {
            text::joined(parts, sep) + sep + part
        },
{
    assert(parts.push(part).drop_last() =~= parts);
}

/// A text on one line.
pub fn single_line(s: &str) -> (r: String)
    ensures
        r@ == on_one_line(s@),
{
    let chars = text::chars_of(s);
    let ghost sep = seq![' '];
    let mut r = String::new();
    let mut started = false;
    let mut i: usize = 0;
    assert(chars@.take(0) =~= seq![]);
    assert(r@ =~= text::joined(text::words(chars@.take(0)), sep));
    while i < chars.len()
        invariant
            i <= chars@.len(),
            sep == seq![' '],
            started == (text::words(chars@.take(i as int)).len() > 0),
            r@ == text::joined(text::words(chars@.take(i as int)), sep),
        decreases chars@.len() - i,
    {
        let ghost before = chars@.take(i as int);
        let ghost words = text::words(before);
        let c = chars[i];
        assert(chars@.take(i + 1).drop_last() =~= before);
        if !c.is_whitespace() {
            if i > 0 && !chars[i - 1].is_whitespace() {
                proof {
                    assert(before.last() == chars@[i - 1]);
                    text::lemma_open_word(before);
                    lemma_joined_extended(words, sep, c);
                }
                r.push(c);
            } else {
                proof {
                    lemma_joined_pushed(words, sep, seq![c]);
                }
                if started {
                    r.push(' ');
                }
                r.push(c);
                started = true;
                assert(text::words(chars@.take(i + 1)) == words.push(seq![c]));
                assert(r@ =~= text::joined(words.push(seq![c]), sep));
            }
        }
        i += 1;
    }
    assert(chars@.take(i as int) =~= chars@);
    r
}

/// A text shortened to a number of characters, an ellipsis in place of what is cut off.
pub open spec fn shortened(s: Seq<char>, max: int) -> Seq<char> {
    if s.len() <= max {
        s
    } else {
        s.take(if max > 0 {
            max - 1
        } else {
            0
        }).push('\u{2026}')
    }
}

/// A text shortened to a number of characters.
pub fn truncate(s: &str, max: usize) -> (r: String)
    ensures
        r@ == shortened(s@, max as int),
{
    let chars = text::chars_of(s);
    if chars.len() <= max {
        s.to_owned()
    } else {
        let keep: usize = if max > 0 {
            max - 1
        } else {
            0
        };
        let mut t = text::string_of(chars.as_slice(), 0, keep);
        assert(chars@.subrange(0, keep as int) =~= chars@.take(keep as int));
        t.push('\u{2026}');
        t
    }
}

/// A text on one line, shortened.
pub fn preview(s: &str, max: usize) -> (r: String)
    ensures
        r@ == shortened(on_one_line(s@), max as int),
{
    truncate(single_line(s).as_str(), max)
}

/// A text with blanks for the letter T.
pub open spec fn blanked(s: Seq<char>) -> Seq<char> {
    Seq::new(
        s.len(),
        |i: int|
            if s[i] == 'T' {
                ' '
            } else {
                s[i]
            },
    )
}

/// A text without the letters Z at its end.
pub open spec fn without_zone(s: Seq<char>) -> Seq<char>
    decreases s.len(),
{
    if s.len() > 0 && s.last() == 'Z' {
        without_zone(s.drop_last())
    } else {
        s
    }
}

/// A text up to its first dot.
pub open spec fn before_dot(s: Seq<char>) -> Seq<char>
    decreases s.len(),
{
    if s.len() == 0 || s[0] == '.' {
        seq![]
    } else {
        seq![s[0]] + before_dot(s.skip(1))
    }
}

/// A timestamp for reading: no T between date and time, no zone, no fractions of a second.
pub open spec fn readable_time(s: Option<Seq<char>>) -> Seq<char> {
    if s is Some && s->0.len() > 0 {
        before_dot(without_zone(blanked(s->0)))
    } else {
        UNKNOWN@
    }
}

proof fn lemma_before_dot(s: Seq<char>, n: int)
    requires
        0 <= n <= s.len(),
        forall|k: int| 0 <= k < n ==> #[trigger] s[k] != '.',
        n < s.len() ==> s[n] == '.',
    ensures
        before_dot(s) == s.take(n),
    decreases n,
{
    if n > 0 {
        let rest = s.skip(1);
        assert(s[0] != '.');
        assert forall|k: int| 0 <= k < n - 1 implies #[trigger] rest[k] != '.' by {
            assert(s[k + 1] != '.');
        }
        lemma_before_dot(rest, n - 1);
        assert(seq![s[0]] + rest.take(n - 1) =~= s.take(n));
    } else {
        assert(s.take(0) =~= seq![]);
    }
}

/// A timestamp for reading, or the sign for an unknown one.
pub fn fmt_iso(v: &Option<String>) -> (r: String)
    ensures
        r@ == readable_time(v.deep_view()),
{
    match v {
        Some(s) => if s.as_str().is_empty() {
            UNKNOWN.to_owned()
        } else {
            shorten_time(s.as_str())
        },
        None => UNKNOWN.to_owned(),
    }
}

fn shorten_time(s: &str) -> (r: String)
    ensures
        r@ == before_dot(without_zone(blanked(s@))),
{
    let chars = text::chars_of(s);
    let ghost all = blanked(s@);
    let mut blank: Vec<char> = Vec::new();
    let mut i: usize = 0;
    while i < chars.len()
        invariant
            i <= chars@.len(),
            chars@ == s@,
            all == blanked(s@),
            blank@ == all.take(i as int),
        decreases chars@.len() - i,
    {
        let c = chars[i];
        blank.push(if c == 'T' {
            ' '
        } else {
            c
        });
        assert(all.take(i + 1) =~= all.take(i as int).push(all[i as int]));
        i += 1;
    }
    assert(blank@ =~= all);
    let mut end: usize = blank.len();
    assert(all.take(end as int) =~= all);
    while end > 0 && blank[end - 1] == 'Z'
        invariant
            end <= blank@.len(),
            blank@ == all,
            without_zone(all) == without_zone(all.take(end as int)),
        ensures
            end == 0 || all[end - 1] != 'Z',
        decreases end,
    {
        assert(all.take(end as int).drop_last() =~= all.take(end - 1));
        end -= 1;
    }
    let ghost kept = all.take(end as int);
    assert(without_zone(all) == kept);
    let mut dot: usize = 0;
    while dot < end && blank[dot] != '.'
        invariant
            dot <= end <= blank@.len(),
            blank@ == all,
            kept == all.take(end as int),
            forall|k: int| 0 <= k < dot ==> #[trigger] kept[k] != '.',
        ensures
            dot == end || kept[dot as int] == '.',
        decreases end - dot,
    {
        dot += 1;
    }
    proof {
        lemma_before_dot(kept, dot as int);
        assert(kept.take(dot as int) =~= all.subrange(0, dot as int));
    }
    text::string_of(blank.as_slice(), 0, dot)
}

/// A count: exact below a thousand, else in thousands or millions with one decimal.
pub open spec fn count(n: u64) -> Seq<PieceView> {
    if n >= 1_000_000 {
        seq![PieceView::Quotient { value: n, divisor: 1_000_000 }, PieceView::Text("m"@)]
    } else if n >= 1000 {
        seq![PieceView::Quotient { value: n, divisor: 1000 }, PieceView::Text("k"@)]
    } else {
        styled::chars(decimal::digits(n as nat))
    }
}

fn scaled(value: u64, divisor: u64, unit: &str) -> (r: Vec<Piece>)
    ensures
        r.deep_view() == seq![PieceView::Quotient { value, divisor }, PieceView::Text(unit@)],
{
    let mut r: Vec<Piece> = Vec::new();
    push_piece(&mut r, Piece::Quotient { value, divisor });
    push_text(&mut r, unit);
    assert(r.deep_view() =~= seq![PieceView::Quotient { value, divisor }, PieceView::Text(unit@)]);
    r
}

/// A count.
pub fn format_count(n: u64) -> (r: Vec<Piece>)
    ensures
        r.deep_view() == count(n),
{
    if n >= 1_000_000 {
        scaled(n, 1_000_000, "m")
    } else if n >= 1000 {
        scaled(n, 1000, "k")
    } else {
        text_of(decimal::decimal(n))
    }
}

/// A count, or the sign for an unknown one.
pub open spec fn count_or_unknown(n: Option<u64>) -> Seq<PieceView> {
    match n {
        Some(n) => count(n),
        None => styled::chars(UNKNOWN@),
    }
}

/// A count, or the sign for an unknown one.
pub fn format_optional_count(n: Option<u64>) -> (r: Vec<Piece>)
    ensures
        r.deep_view() == count_or_unknown(n),
{
    match n {
        Some(n) => format_count(n),
        None => text_of(UNKNOWN.to_owned()),
    }
}

/// A duration in milliseconds: from a second on in seconds with one decimal.
pub open spec fn duration(ms: Option<u64>) -> Seq<PieceView> {
    match ms {
        Some(ms) => if ms >= 1000 {
            seq![PieceView::Quotient { value: ms, divisor: 1000 }, PieceView::Text("s"@)]
        } else {
            styled::chars(decimal::digits(ms as nat) + "ms"@)
        },
        None => styled::chars(UNKNOWN@),
    }
}

/// A duration in milliseconds.
pub fn fmt_duration_ms(ms: Option<u64>) -> (r: Vec<Piece>)
    ensures
        r.deep_view() == duration(ms),
{
    match ms {
        Some(ms) => if ms >= 1000 {
            scaled(ms, 1000, "s")
        } else {
            text_of(text::cat(decimal::decimal(ms).as_str(), "ms"))
        },
        None => text_of(UNKNOWN.to_owned()),
    }
}

/// What `chrono` writes of a Unix time in a format, where the time is in its range.
pub uninterp spec fn utc_text(secs: i64, format: Seq<char>) -> Option<Seq<char>>;

/// `chrono::DateTime::from_timestamp`, then `DateTime::format`: the time alone decides whether it
/// is in the range of dates, and with the format what is written.
#[verifier::external_body]
fn write_utc(secs: i64, format: &str) -> (r: Option<String>)
    requires
        format@ == EPOCH_FORMAT@,
    ensures
        r.deep_view() == utc_text(secs, format@),
{
    chrono::DateTime::<chrono::Utc>::from_timestamp(secs, 0).map(|dt| dt.format(format).to_string())
}

/// An unsigned number of seconds as a signed one; large ones wrap around.
pub open spec fn signed_seconds(secs: u64) -> int {
    if secs <= i64::MAX {
        secs as int
    } else {
        secs - 0x1_0000_0000_0000_0000
    }
}

fn wrap_to_signed(secs: u64) -> (r: i64)
    ensures
        r == signed_seconds(secs),
{
    assert(secs > 0x7fff_ffff_ffff_ffff ==> secs as i64 == secs - 0x1_0000_0000_0000_0000)
        by (bit_vector);
    secs as i64
}

/// A Unix time as a date.
pub open spec fn date(secs: Option<u64>) -> Seq<char> {
    match secs {
        Some(s) => or_unknown(utc_text(signed_seconds(s) as i64, EPOCH_FORMAT@)),
        None => UNKNOWN@,
    }
}

/// A Unix time as a date.
pub fn fmt_epoch(secs: Option<u64>) -> (r: String)
    ensures
        r@ == date(secs),
{
    match secs {
        Some(s) => text_or_unknown(&write_utc(wrap_to_signed(s), EPOCH_FORMAT)),
        None => UNKNOWN.to_owned(),
    }
}

/// A signed number.
pub open spec fn signed_digits(n: int) -> Seq<char> {
    if n < 0 {
        seq!['-'] + decimal::digits((-n) as nat)
    } else {
        decimal::digits(n as nat)
    }
}

/// A signed number.
pub fn signed_decimal(n: i32) -> (r: String)
    ensures
        r@ == signed_digits(n as int),
{
    if n < 0 {
        let mut r = String::new();
        r.push('-');
        let magnitude: u64 = (-(n as i64)) as u64;
        let ds = decimal::decimal(magnitude);
        r.append(ds.as_str());
        assert(r@ =~= signed_digits(n as int));
        r
    } else {
        decimal::decimal(n as u64)
    }
}

/// An optional number with the name of its variant.
pub open spec fn debug_number(n: Option<u64>) -> Seq<char> {
    match n {
        Some(n) => "Some("@ + decimal::digits(n as nat) + ")"@,
        None => "None"@,
    }
}

/// An optional number with the name of its variant.
pub fn fmt_debug_number(n: Option<u64>) -> (r: String)
    ensures
        r@ == debug_number(n),
{
    match n {
        Some(n) => text::cat3("Some(", decimal::decimal(n).as_str(), ")"),
        None => "None".to_owned(),
    }
}

/// What the `Debug` of `str` writes.
pub uninterp spec fn quoted(s: Seq<char>) -> Seq<char>;

/// The `Debug` of `str` writes the text in quotes, with escapes, as the text alone decides.
#[verifier::external_body]
fn quote(s: &str) -> (r: String)
    ensures
        r@ == quoted(s@),
{
    format!("{:?}", s)
}

/// An optional text with the name of its variant.
pub open spec fn debug_text(s: Option<Seq<char>>) -> Seq<char> {
    match s {
        Some(s) => "Some("@ + quoted(s) + ")"@,
        None => "None"@,
    }
}

/// An optional text with the name of its variant.
pub fn fmt_debug_text(s: &Option<String>) -> (r: String)
    ensures
        r@ == debug_text(s.deep_view()),
{
    match s {
        Some(s) => text::cat3("Some(", quote(s.as_str()).as_str(), ")"),
        None => "None".to_owned(),
    }
}

/// A JSON value for reading, unless there is nothing in it.
pub open spec fn pretty(v: JsonView) -> Option<Seq<char>> {
    match v {
        JsonView::Null => None,
        JsonView::Object(members) => if members.len() == 0 {
            None
        } else {
            Some(json::pretty_text(json::kept(v)))
        },
        _ => Some(json::pretty_text(json::kept(v))),
    }
}

/// A JSON value for reading, unless there is nothing in it.
pub fn pretty_json(v: &Json) -> (r: Option<String>)
    ensures
        r.deep_view() == pretty(v.deep_view()),
{
    match v {
        Json::Null => None,
        Json::Object(members) => {
            if members.len() == 0 {
                None
            } else {
                v.pretty()
            }
        },
        _ => v.pretty(),
    }
}

/// A text for reading: as JSON where it is.
pub open spec fn pretty_where_json(s: Seq<char>) -> Seq<char> {
    match json::parsed(s) {
        Some(v) => json::pretty_text(v),
        None => s,
    }
}

/// A text for reading: as JSON where it is.
pub fn maybe_pretty(s: &str) -> (r: String)
    ensures
        r@ == pretty_where_json(s@),
{
    match json::read_value(s) {
        Some(v) => match json::write_pretty(&v) {
            Some(pretty) => pretty,
            None => s.to_owned(),
        },
        None => s.to_owned(),
    }
}

} // verus!
