//! The cameras: which there are, and when each last completed a frame.

use std::path::PathBuf;

use vstd::prelude::*;

use crate::domain::{CameraObservation, CameraSnapshot, STATE_VERSION};
use crate::text;
use crate::text::{before_char, characters, find, lines, parse_unsigned, split, starts_with, trim};
use crate::text_map::TextMap;

verus! {

/// How often the state is published at least, in nanoseconds.
pub const HEARTBEAT_INTERVAL: u64 = 1_000_000_000;

/// A path in the file system, `std::path::PathBuf`: carried through, and opaque.
#[verifier::external_type_specification]
#[verifier::external_body]
pub struct ExPathBuf(std::path::PathBuf);

/// Where the monitor reads frames from and where it publishes what it sees.
#[derive(Debug)]
pub struct CameraMonitor {
    pub tracefs: PathBuf,
    pub state_file: PathBuf,
}

impl CameraMonitor {
    pub fn new(tracefs: PathBuf, state_file: PathBuf) -> (r: Self)
        ensures
            r == (CameraMonitor { tracefs, state_file }),
    {
        CameraMonitor { tracefs, state_file }
    }
}

// ---- trace lines ----

/// What stands behind the first `field` of a line: up to the next `field`, and
/// of that up to a comma.
pub open spec fn value_of(line: Seq<char>, field: Seq<char>) -> Option<Seq<char>> {
    match text::find_from(line, field, 0) {
        None => None,
        Some(at) => {
            let rest = line.skip(at + field.len());
            let piece = match text::find_from(rest, field, 0) {
                None => rest,
                Some(end) => rest.take(end),
            };
            Some(text::until(piece, ','))
        },
    }
}

/// What stands behind the first `field` of a line, up to a comma.
fn field_value<'a>(line: &'a str, field: &str) -> (r: Option<&'a str>)
    requires
        field@.len() > 0,
    ensures
        match r {
            Some(value) => value_of(line@, field@) == Some(value@),
            None => value_of(line@, field@) is None,
        },
{
    let line_chars = characters(line);
    let field_chars = characters(field);
    match find(&line_chars, &field_chars, 0) {
        None => None,
        Some(at) => {
            let end: usize = line_chars.len();
            let start: usize = at + field_chars.len();
            let rest = line.substring_char(start, end);
            assert(rest@ =~= line@.skip(start as int));
            let piece = match find(&characters(rest), &field_chars, 0) {
                None => rest,
                Some(end) => {
                    let piece = rest.substring_char(0, end);
                    assert(piece@ =~= rest@.take(end as int));
                    piece
                },
            };
            Some(before_char(piece, ','))
        },
    }
}

/// The minor of the device that completed a frame, where a trace line tells of
/// one: a dequeued capture buffer that is not empty.
pub open spec fn completed_minor(line: Seq<char>) -> Option<nat> {
    if !text::has_text(line, "v4l2_dqbuf:"@) || !text::has_text(line, "type = VIDEO_CAPTURE"@)
        || text::has_text(line, "bytesused = 0,"@) {
        None
    } else {
        match value_of(line, "bytesused = "@) {
            None => None,
            Some(bytes) => match text::unsigned_value(bytes, u64::MAX as nat) {
                None => None,
                Some(count) => if count == 0 {
                    None
                } else {
                    match value_of(line, "minor = "@) {
                        None => None,
                        Some(minor) => text::unsigned_value(minor, u32::MAX as nat),
                    }
                },
            },
        }
    }
}

/// The minor of the device that completed a frame, where a trace line tells of
/// one.
pub fn completed_capture_minor(line: &str) -> (r: Option<u32>)
    ensures
        match r {
            Some(minor) => completed_minor(line@) == Some(minor as nat),
            None => completed_minor(line@) is None,
        },
{
    proof {
        reveal_strlit("bytesused = ");
        reveal_strlit("minor = ");
    }
    if !text::contains(line, "v4l2_dqbuf:") || !text::contains(line, "type = VIDEO_CAPTURE")
        || text::contains(line, "bytesused = 0,") {
        return None;
    }
    let bytes = field_value(line, "bytesused = ")?;
    let count: u64 = parse_unsigned(bytes, u64::MAX)?;
    if count == 0 {
        return None;
    }
    let minor = field_value(line, "minor = ")?;
    let number: u64 = parse_unsigned(minor, u32::MAX as u64)?;
    Some(number as u32)
}

// ---- what trace lines tell ----

/// A text that holds the first character of a pattern nowhere, or never with the
/// second behind it, holds no beginning of the pattern.
proof fn plain_text_holds_no_beginning(s: Seq<char>, rest: Seq<char>, pattern: Seq<char>)
    requires
        pattern.len() >= 2,
        forall|k: int|
            0 <= k < s.len() ==> (#[trigger] s[k] != pattern[0] || (k + 1 < s.len() && s[k + 1]
                != pattern[1])),
    ensures
        forall|j: int| #[trigger]
            text::occurs_at(s + rest, pattern, j) ==> j >= s.len() && text::occurs_at(
                rest,
                pattern,
                j - s.len(),
            ),
{
    assert forall|j: int| #[trigger] text::occurs_at(s + rest, pattern, j) implies j >= s.len()
        && text::occurs_at(rest, pattern, j - s.len()) by {
        text::occurrences_are_by_character(s + rest, pattern, j);
        text::occurrences_are_by_character(rest, pattern, j - s.len());
        let first = pattern[0];
        let second = pattern[1];
        assert((s + rest)[j + 0] == first);
        assert((s + rest)[j + 1] == second);
        if j < s.len() {
            assert((s + rest)[j] == s[j]);
            if j + 1 < s.len() {
                assert((s + rest)[j + 1] == s[j + 1]);
            }
        } else {
            assert forall|k: int| 0 <= k < pattern.len() implies rest[j - s.len() + k]
                == #[trigger] pattern[k] by {
                assert((s + rest)[j + k] == rest[j - s.len() + k]);
            }
        }
    }
}

/// A text without a pattern, before one that begins with a character that the
/// pattern does not hold, holds no beginning of the pattern.
proof fn other_text_holds_no_beginning(s: Seq<char>, rest: Seq<char>, pattern: Seq<char>)
    requires
        pattern.len() >= 2,
        !text::has_text(s, pattern),
        rest.len() > 0,
        !pattern.contains(rest[0]),
    ensures
        forall|j: int| #[trigger]
            text::occurs_at(s + rest, pattern, j) ==> j >= s.len() && text::occurs_at(
                rest,
                pattern,
                j - s.len(),
            ),
{
    assert forall|j: int| #[trigger] text::occurs_at(s + rest, pattern, j) implies j >= s.len()
        && text::occurs_at(rest, pattern, j - s.len()) by {
        text::occurrences_are_by_character(s + rest, pattern, j);
        text::occurrences_are_by_character(rest, pattern, j - s.len());
        text::occurrences_are_by_character(s, pattern, j);
        if j >= s.len() {
            assert forall|k: int| 0 <= k < pattern.len() implies rest[j - s.len() + k]
                == #[trigger] pattern[k] by {
                assert((s + rest)[j + k] == rest[j - s.len() + k]);
            }
        } else if j + pattern.len() <= s.len() {
            assert forall|k: int| 0 <= k < pattern.len() implies s[j + k] == #[trigger] pattern[k] by {
                assert((s + rest)[j + k] == s[j + k]);
            }
            assert(text::occurs_at(s, pattern, j));
        } else {
            let k = s.len() - j;
            assert(pattern[k] == (s + rest)[j + k]);
            assert((s + rest)[j + k] == rest[0]);
            assert(pattern.contains(pattern[k]));
        }
    }
}

/// A pattern whose first character it holds once, before a text without it,
/// stands at the beginning alone.
proof fn leading_pattern_stands_once(pattern: Seq<char>, rest: Seq<char>)
    requires
        pattern.len() >= 2,
        forall|k: int| 0 < k < pattern.len() ==> #[trigger] pattern[k] != pattern[0],
        !text::has_text(rest, pattern),
    ensures
        forall|j: int| #[trigger] text::occurs_at(pattern + rest, pattern, j) ==> j == 0,
{
    assert forall|j: int| #[trigger] text::occurs_at(pattern + rest, pattern, j) implies j == 0 by {
        text::occurrences_are_by_character(pattern + rest, pattern, j);
        text::occurrences_are_by_character(rest, pattern, j - pattern.len());
        let first = pattern[0];
        assert((pattern + rest)[j + 0] == first);
        if 0 < j < pattern.len() {
            assert((pattern + rest)[j] == pattern[j]);
        } else if j >= pattern.len() {
            assert forall|k: int| 0 <= k < pattern.len() implies rest[j - pattern.len() + k]
                == #[trigger] pattern[k] by {
                assert((pattern + rest)[j + k] == rest[j - pattern.len() + k]);
            }
            assert(text::occurs_at(rest, pattern, j - pattern.len()));
        }
    }
}

/// The value of a field that a line holds once is what stands behind the field,
/// up to a comma or the end.
pub proof fn values_stand_behind_their_field(
    head: Seq<char>,
    field: Seq<char>,
    value: Seq<char>,
    tail: Seq<char>,
)
    requires
        field.len() > 0,
        forall|j: int|
            #[trigger] text::occurs_at(head + field + value + tail, field, j) ==> j == head.len(),
        !value.contains(','),
        tail.len() == 0 || tail[0] == ',',
    ensures
        value_of(head + field + value + tail, field) == Some(value),
{
    let line = head + field + value + tail;
    let at = head.len() as int;
    text::occurrences_are_by_character(line, field, at);
    text::the_first_occurrence_is_found(line, field, 0);
    assert(text::occurs_at(line, field, at));
    assert(text::find_from(line, field, 0) == Some(at));
    let rest = line.skip(at + field.len());
    assert(rest =~= value + tail);
    text::the_first_occurrence_is_found(rest, field, 0);
    if let Some(end) = text::find_from(rest, field, 0) {
        let there = at + field.len() + end;
        text::occurrences_are_by_character(rest, field, end);
        text::occurrences_are_by_character(line, field, there);
        assert forall|k: int| 0 <= k < field.len() implies line[there + k] == #[trigger] field[k] by {
            assert(rest[end + k] == line[there + k]);
        }
        assert(text::occurs_at(line, field, there));
    }
    text::the_part_before_is_what_was_put_there(value, ',', tail);
}

/// Where a line names a field again, the value of the field ends there, if not at a
/// comma before.
pub proof fn values_end_at_the_next_field(
    head: Seq<char>,
    field: Seq<char>,
    value: Seq<char>,
    tail: Seq<char>,
)
    requires
        field.len() > 0,
        forall|j: int|
            0 <= j < head.len() ==> !#[trigger] text::occurs_at(
                head + field + (value + field + tail),
                field,
                j,
            ),
        forall|j: int|
            0 <= j < value.len() ==> !#[trigger] text::occurs_at(value + field + tail, field, j),
    ensures
        value_of(head + field + (value + field + tail), field) == Some(text::until(value, ',')),
{
    let rest = value + field + tail;
    let line = head + field + rest;
    let at = head.len() as int;
    let end = value.len() as int;
    text::the_first_occurrence_is_found(line, field, 0);
    text::occurrences_are_by_character(line, field, at);
    assert(text::occurs_at(line, field, at));
    assert(line.skip(at + field.len()) =~= rest);
    text::the_first_occurrence_is_found(rest, field, 0);
    text::occurrences_are_by_character(rest, field, end);
    assert(text::occurs_at(rest, field, end));
    assert(rest.take(end) =~= value);
}

/// Whether a text names neither a minor nor a number of bytes.
pub open spec fn names_nothing(s: Seq<char>) -> bool {
    !text::has_text(s, "minor = "@) && !text::has_text(s, "bytesused = "@)
}

spec fn is_number(s: Seq<char>) -> bool {
    s.len() > 0 && forall|k: int| 0 <= k < s.len() ==> text::is_digit(#[trigger] s[k])
}

proof fn no_minor_behind(
    m: Seq<char>,
    a: Seq<char>,
    b: Seq<char>,
    n: Seq<char>,
    after: Seq<char>,
)
    requires
        names_nothing(a),
        names_nothing(b),
        names_nothing(after),
        is_number(m),
        is_number(n),
    ensures
        !text::has_text(
            m + (a + (", type = VIDEO_CAPTURE"@ + (b + (", bytesused = "@ + (n + (","@ + after)))))),
            "minor = "@,
        ),
{
    reveal_strlit("minor = ");
    reveal_strlit(", bytesused = ");
    reveal_strlit(", type = VIDEO_CAPTURE");
    reveal_strlit(",");
    let kind = ", type = VIDEO_CAPTURE"@;
    let used = ", bytesused = "@;
    let f = "minor = "@;
    let l1 = ","@ + after;
    let l2 = n + l1;
    let l3 = used + l2;
    let l4 = b + l3;
    let l5 = kind + l4;
    let l6 = a + l5;
    let l7 = m + l6;
    assert(l3[0] == ',' && l5[0] == ',');
    assert forall|j: int| !text::occurs_at(l7, f, j) by {
        if text::occurs_at(l7, f, j) {
            let j6 = j - m.len();
            let j5 = j6 - a.len();
            let j4 = j5 - kind.len();
            let j3 = j4 - b.len();
            let j2 = j3 - used.len();
            let j1 = j2 - n.len();
            plain_text_holds_no_beginning(m, l6, f);
            assert(text::occurs_at(l6, f, j6));
            other_text_holds_no_beginning(a, l5, f);
            assert(text::occurs_at(l5, f, j5));
            plain_text_holds_no_beginning(kind, l4, f);
            assert(text::occurs_at(l4, f, j4));
            other_text_holds_no_beginning(b, l3, f);
            assert(text::occurs_at(l3, f, j3));
            plain_text_holds_no_beginning(used, l2, f);
            assert(text::occurs_at(l2, f, j2));
            plain_text_holds_no_beginning(n, l1, f);
            assert(text::occurs_at(l1, f, j1));
            plain_text_holds_no_beginning(","@, after, f);
            assert(text::occurs_at(after, f, j1 - 1));
        }
    }
}

proof fn minor_of_a_dequeue(before: Seq<char>, m: Seq<char>, tail: Seq<char>)
    requires
        names_nothing(before),
        is_number(m),
        !text::has_text(m + tail, "minor = "@),
        tail.len() > 0,
        tail[0] == ',',
    ensures
        value_of(before + "v4l2_dqbuf: minor = "@ + m + tail, "minor = "@) == Some(m),
{
    reveal_strlit("minor = ");
    reveal_strlit("v4l2_dqbuf: minor = ");
    let event = "v4l2_dqbuf: minor = "@;
    let f = "minor = "@;
    let event_head = event.take(12);
    let f7 = f + (m + tail);
    let l8 = event_head + f7;
    let line = before + event + m + tail;
    assert(event =~= event_head + f);
    assert(line =~= before + l8);
    assert(l8[0] == 'v');
    leading_pattern_stands_once(f, m + tail);
    plain_text_holds_no_beginning(event_head, f7, f);
    other_text_holds_no_beginning(before, l8, f);
    let head = before + event_head;
    assert(line =~= head + f + m + tail);
    assert forall|j: int| #[trigger] text::occurs_at(head + f + m + tail, f, j) implies j
        == head.len() by {
        assert(text::occurs_at(before + l8, f, j));
        assert(text::occurs_at(l8, f, j - before.len()));
        assert(text::occurs_at(f7, f, j - before.len() - 12));
    }
    assert forall|k: int| 0 <= k < m.len() implies m[k] != ',' by {
        assert(text::is_digit(m[k]));
    }
    values_stand_behind_their_field(head, f, m, tail);
}

proof fn bytes_stand_once(
    before: Seq<char>,
    m: Seq<char>,
    a: Seq<char>,
    b: Seq<char>,
    n: Seq<char>,
    after: Seq<char>,
    j: int,
)
    requires
        names_nothing(before),
        names_nothing(a),
        names_nothing(b),
        names_nothing(after),
        is_number(m),
        is_number(n),
        text::occurs_at(
            before + ("v4l2_dqbuf: minor = "@ + (m + (a + (", type = VIDEO_CAPTURE"@ + (b + (", "@ + (
            "bytesused = "@ + (n + (","@ + after))))))))),
            "bytesused = "@,
            j,
        ),
    ensures
        j == before.len() + 20 + m.len() + a.len() + 22 + b.len() + 2,
{
    reveal_strlit("bytesused = ");
    reveal_strlit(", ");
    reveal_strlit(", type = VIDEO_CAPTURE");
    reveal_strlit("v4l2_dqbuf: minor = ");
    reveal_strlit(",");
    let event = "v4l2_dqbuf: minor = "@;
    let kind = ", type = VIDEO_CAPTURE"@;
    let g = "bytesused = "@;
    let l1 = ","@ + after;
    let l2 = n + l1;
    let g2 = g + l2;
    let l3 = ", "@ + g2;
    let l4 = b + l3;
    let l5 = kind + l4;
    let l6 = a + l5;
    let l7 = m + l6;
    let l8 = event + l7;
    assert(l3[0] == ',' && l5[0] == ',' && l8[0] == 'v');
    assert forall|i: int| !text::occurs_at(l2, g, i) by {
        if text::occurs_at(l2, g, i) {
            plain_text_holds_no_beginning(n, l1, g);
            assert(text::occurs_at(l1, g, i - n.len()));
            plain_text_holds_no_beginning(","@, after, g);
            assert(text::occurs_at(after, g, i - n.len() - 1));
        }
    }
    let j8 = j - before.len();
    let j7 = j8 - event.len();
    let j6 = j7 - m.len();
    let j5 = j6 - a.len();
    let j4 = j5 - kind.len();
    let j3 = j4 - b.len();
    other_text_holds_no_beginning(before, l8, g);
    assert(text::occurs_at(l8, g, j8));
    plain_text_holds_no_beginning(event, l7, g);
    assert(text::occurs_at(l7, g, j7));
    plain_text_holds_no_beginning(m, l6, g);
    assert(text::occurs_at(l6, g, j6));
    other_text_holds_no_beginning(a, l5, g);
    assert(text::occurs_at(l5, g, j5));
    plain_text_holds_no_beginning(kind, l4, g);
    assert(text::occurs_at(l4, g, j4));
    other_text_holds_no_beginning(b, l3, g);
    assert(text::occurs_at(l3, g, j3));
    plain_text_holds_no_beginning(", "@, g2, g);
    assert(text::occurs_at(g2, g, j3 - 2));
    leading_pattern_stands_once(g, l2);
}

proof fn bytes_of_a_dequeue(
    before: Seq<char>,
    m: Seq<char>,
    a: Seq<char>,
    b: Seq<char>,
    n: Seq<char>,
    after: Seq<char>,
)
    requires
        names_nothing(before),
        names_nothing(a),
        names_nothing(b),
        names_nothing(after),
        is_number(m),
        is_number(n),
    ensures
        ({
            let line = before + "v4l2_dqbuf: minor = "@ + m + a + ", type = VIDEO_CAPTURE"@ + b
                + ", bytesused = "@ + n + ","@ + after;
            &&& value_of(line, "bytesused = "@) == Some(n)
            &&& n[0] as int != 48 ==> !text::has_text(line, "bytesused = 0,"@)
        }),
{
    reveal_strlit("bytesused = ");
    reveal_strlit("bytesused = 0,");
    reveal_strlit(", bytesused = ");
    reveal_strlit(", ");
    reveal_strlit(",");
    reveal_strlit(", type = VIDEO_CAPTURE");
    reveal_strlit("v4l2_dqbuf: minor = ");
    let event = "v4l2_dqbuf: minor = "@;
    let kind = ", type = VIDEO_CAPTURE"@;
    let g = "bytesused = "@;
    let l1 = ","@ + after;
    let line = before + event + m + a + kind + b + ", bytesused = "@ + n + ","@ + after;
    let nested = before + (event + (m + (a + (kind + (b + (", "@ + (g + (n + l1))))))));
    let lead = before + event + m + a + kind + b + ", "@;
    assert(", bytesused = "@ =~= ", "@ + g);
    assert(line =~= nested);
    assert(line =~= lead + g + n + l1);
    assert forall|j: int| #[trigger] text::occurs_at(lead + g + n + l1, g, j) implies j
        == lead.len() by {
        bytes_stand_once(before, m, a, b, n, after, j);
    }
    assert forall|k: int| 0 <= k < n.len() implies n[k] != ',' by {
        assert(text::is_digit(n[k]));
    }
    values_stand_behind_their_field(lead, g, n, l1);
    let none = "bytesused = 0,"@;
    if n[0] as int != 48 && text::has_text(line, none) {
        let j = choose|j: int| text::occurs_at(line, none, j);
        text::occurrences_are_by_character(line, none, j);
        text::occurrences_are_by_character(line, g, j);
        assert forall|k: int| 0 <= k < g.len() implies line[j + k] == #[trigger] g[k] by {
            assert(none[k] == g[k]);
        }
        assert(text::occurs_at(lead + g + n + l1, g, j));
        assert(line[j + 12] == none[12]);
        assert((lead + g + n + l1)[lead.len() as int + 12] == n[0]);
    }
}

proof fn dequeue_is_told(before: Seq<char>, m: Seq<char>, a: Seq<char>, tail: Seq<char>)
    ensures
        ({
            let line = before + "v4l2_dqbuf: minor = "@ + m + a + ", type = VIDEO_CAPTURE"@ + tail;
            &&& text::has_text(line, "v4l2_dqbuf:"@)
            &&& text::has_text(line, "type = VIDEO_CAPTURE"@)
        }),
{
    reveal_strlit(", type = VIDEO_CAPTURE");
    reveal_strlit("type = VIDEO_CAPTURE");
    reveal_strlit("v4l2_dqbuf: minor = ");
    reveal_strlit("v4l2_dqbuf:");
    let event = "v4l2_dqbuf: minor = "@;
    let kind = ", type = VIDEO_CAPTURE"@;
    let line = before + event + m + a + kind + tail;
    text::texts_hold_what_they_are_made_of(line, "v4l2_dqbuf:"@);
    assert(event =~= "v4l2_dqbuf:"@ + event.skip(11));
    assert(line =~= before + "v4l2_dqbuf:"@ + (event.skip(11) + m + a + kind + tail));
    text::texts_hold_what_they_are_made_of(line, "type = VIDEO_CAPTURE"@);
    assert(kind =~= kind.take(2) + "type = VIDEO_CAPTURE"@);
    assert(line =~= (before + event + m + a + kind.take(2)) + "type = VIDEO_CAPTURE"@ + tail);
}

proof fn dequeue_line_regrouped(
    before: Seq<char>,
    m: Seq<char>,
    a: Seq<char>,
    b: Seq<char>,
    n: Seq<char>,
    after: Seq<char>,
)
    ensures
        ({
            let event = "v4l2_dqbuf: minor = "@;
            let kind = ", type = VIDEO_CAPTURE"@;
            let used = ", bytesused = "@;
            let line = before + event + m + a + kind + b + used + n + ","@ + after;
            let tail = a + (kind + (b + (used + (n + (","@ + after)))));
            let rest = b + used + n + ","@ + after;
            &&& line == before + event + m + tail
            &&& line == before + event + m + a + kind + rest
            &&& tail.len() > 0
            &&& a.len() == 0 || a[0] == ',' ==> tail[0] == ','
        }),
{
    reveal_strlit(", type = VIDEO_CAPTURE");
    let event = "v4l2_dqbuf: minor = "@;
    let kind = ", type = VIDEO_CAPTURE"@;
    let used = ", bytesused = "@;
    let line = before + event + m + a + kind + b + used + n + ","@ + after;
    let tail = a + (kind + (b + (used + (n + (","@ + after)))));
    let rest = b + used + n + ","@ + after;
    assert(line =~= before + event + m + tail);
    assert(line =~= before + event + m + a + kind + rest);
}

/// A line that tells of a dequeued capture buffer gives the minor of its device
/// where the buffer is not empty, whatever stands ahead of the event, between its
/// parts and behind them.
pub proof fn dequeued_frames_give_their_minor(
    before: Seq<char>,
    minor: nat,
    a: Seq<char>,
    b: Seq<char>,
    bytes: nat,
    after: Seq<char>,
)
    requires
        minor <= u32::MAX,
        bytes <= u64::MAX,
        names_nothing(before),
        names_nothing(a),
        names_nothing(b),
        names_nothing(after),
        a.len() == 0 || a[0] == ',',
    ensures
        ({
            let line = before + "v4l2_dqbuf: minor = "@ + text::decimal_text(minor) + a
                + ", type = VIDEO_CAPTURE"@ + b + ", bytesused = "@ + text::decimal_text(bytes)
                + ","@ + after;
            completed_minor(line) == if bytes > 0 {
                Some(minor)
            } else {
                None
            }
        }),
{
    let m = text::decimal_text(minor);
    let n = text::decimal_text(bytes);
    let kind = ", type = VIDEO_CAPTURE"@;
    let used = ", bytesused = "@;
    let tail = a + (kind + (b + (used + (n + (","@ + after)))));
    let rest = b + used + n + ","@ + after;
    text::decimal_text_is_digits(minor);
    text::decimal_text_is_digits(bytes);
    text::numbers_are_written_without_leading_zeros(bytes);
    assert(is_number(m) && is_number(n));
    dequeue_line_regrouped(before, m, a, b, n, after);
    no_minor_behind(m, a, b, n, after);
    minor_of_a_dequeue(before, m, tail);
    bytes_of_a_dequeue(before, m, a, b, n, after);
    dequeue_is_told(before, m, a, rest);
    text::decimal_round_trip(minor, u32::MAX as nat);
    text::decimal_round_trip(bytes, u64::MAX as nat);
}

/// A line as the kernel writes it, with anything ahead of the event.
pub proof fn kernel_lines_give_their_minor(before: Seq<char>, minor: nat, bytes: nat)
    requires
        minor <= u32::MAX,
        bytes <= u64::MAX,
        !text::has_text(before, "minor = "@),
        !text::has_text(before, "bytesused = "@),
    ensures
        ({
            let line = before + "v4l2_dqbuf: minor = "@ + text::decimal_text(minor)
                + ", type = VIDEO_CAPTURE, bytesused = "@ + text::decimal_text(bytes)
                + ", sequence = 1"@;
            completed_minor(line) == if bytes > 0 {
                Some(minor)
            } else {
                None
            }
        }),
{
    let none = Seq::<char>::empty();
    let after = " sequence = 1"@;
    let m = text::decimal_text(minor);
    let n = text::decimal_text(bytes);
    reveal_strlit("minor = ");
    reveal_strlit("bytesused = ");
    reveal_strlit(" sequence = 1");
    reveal_strlit(", sequence = 1");
    reveal_strlit(", type = VIDEO_CAPTURE");
    reveal_strlit(", type = VIDEO_CAPTURE, bytesused = ");
    reveal_strlit(", bytesused = ");
    reveal_strlit(",");
    assert forall|s: Seq<char>|
        s == none || s == after implies #[trigger] names_nothing(s) by {
        if s == none || s == after {
            plain_text_holds_no_beginning(s, none, "minor = "@);
            plain_text_holds_no_beginning(s, none, "bytesused = "@);
            assert(s + none =~= s);
            assert forall|j: int| !text::occurs_at(s, "minor = "@, j) && !text::occurs_at(
                s,
                "bytesused = "@,
                j,
            ) by {
                text::occurrences_are_by_character(none, "minor = "@, j - s.len());
                text::occurrences_are_by_character(none, "bytesused = "@, j - s.len());
            }
        }
    }
    dequeued_frames_give_their_minor(before, minor, none, none, bytes, after);
    assert(", type = VIDEO_CAPTURE, bytesused = "@ =~= ", type = VIDEO_CAPTURE"@
        + ", bytesused = "@);
    assert(", sequence = 1"@ =~= ","@ + after);
    assert(before + "v4l2_dqbuf: minor = "@ + m + ", type = VIDEO_CAPTURE, bytesused = "@ + n
        + ", sequence = 1"@ =~= before + "v4l2_dqbuf: minor = "@ + m + none
        + ", type = VIDEO_CAPTURE"@ + none + ", bytesused = "@ + n + ","@ + after);
}

/// A line that tells of a dequeued capture buffer and nowhere of no bytes gives the
/// number behind the minor's name where the number behind that of the bytes is not
/// zero.
pub proof fn frames_are_told_by_their_fields(line: Seq<char>, bytes: Seq<char>, minor: Seq<char>)
    requires
        text::has_text(line, "v4l2_dqbuf:"@),
        text::has_text(line, "type = VIDEO_CAPTURE"@),
        !text::has_text(line, "bytesused = 0,"@),
        value_of(line, "bytesused = "@) == Some(bytes),
        value_of(line, "minor = "@) == Some(minor),
    ensures
        ({
            let count = text::unsigned_value(bytes, 0xffff_ffff_ffff_ffff);
            completed_minor(line) == if count is Some && count->0 > 0 {
                text::unsigned_value(minor, 0xffff_ffff)
            } else {
                None
            }
        }),
{
}

/// A line tells of a frame only where it tells of a dequeued capture buffer, of
/// its bytes, which are not none, and of the minor, which is the number behind
/// its name.
pub proof fn other_lines_tell_of_no_frame(line: Seq<char>)
    ensures
        completed_minor(line) is Some ==> {
            &&& text::has_text(line, "v4l2_dqbuf:"@)
            &&& text::has_text(line, "type = VIDEO_CAPTURE"@)
            &&& text::has_text(line, "bytesused = "@)
            &&& !text::has_text(line, "bytesused = 0,"@)
            &&& completed_minor(line)->0 <= u32::MAX
            &&& exists|x: Seq<char>, digits: Seq<char>, y: Seq<char>|
                line == #[trigger] (x + "minor = "@ + digits + y) && text::unsigned_value(
                    digits,
                    u32::MAX as nat,
                ) == completed_minor(line)
        },
{
    if completed_minor(line) is Some {
        let f = "minor = "@;
        let g = "bytesused = "@;
        text::the_first_occurrence_is_found(line, g, 0);
        text::the_first_occurrence_is_found(line, f, 0);
        let at = text::find_from(line, f, 0)->0;
        text::occurrences_are_by_character(line, f, at);
        let rest = line.skip(at + f.len());
        text::the_first_occurrence_is_found(rest, f, 0);
        let piece = match text::find_from(rest, f, 0) {
            None => rest,
            Some(end) => rest.take(end),
        };
        text::the_part_before_ends_at_the_first(piece, ',');
        let digits = text::until(piece, ',');
        if let Some(end) = text::find_from(rest, f, 0) {
            text::occurrences_are_by_character(rest, f, end);
        }
        let x = line.take(at);
        let y = rest.skip(digits.len() as int);
        assert(line =~= x + f + digits + y);
    }
}

// ---- properties ----

/// The property that a line of the device database tells.
pub open spec fn property_in(line: Seq<char>) -> Option<(Seq<char>, Seq<char>)> {
    if !"E:"@.is_prefix_of(line) {
        None
    } else {
        let rest = line.skip(2);
        let key = text::until(rest, '=');
        if key.len() >= rest.len() {
            None
        } else {
            Some((key, rest.skip(key.len() as int + 1)))
        }
    }
}

/// The properties that the lines tell; of two with one key the later counts.
pub open spec fn properties_in(lines: Seq<Seq<char>>) -> Map<Seq<char>, Seq<char>>
    decreases lines.len(),
{
    if lines.len() == 0 {
        Map::empty()
    } else {
        let head = properties_in(lines.drop_last());
        match property_in(lines.last()) {
            Some((key, value)) => head.insert(key, value),
            None => head,
        }
    }
}

/// What a map of texts holds.
pub open spec fn held_texts(map: TextMap<String>) -> Map<Seq<char>, Seq<char>> {
    map@.map_values(|s: String| s@)
}

fn parse_property(line: &str) -> (r: Option<(String, String)>)
    ensures
        match r {
            Some((key, value)) => property_in(line@) == Some((key@, value@)),
            None => property_in(line@) is None,
        },
{
    proof {
        reveal_strlit("E:");
    }
    if !starts_with(line, "E:") {
        return None;
    }
    let length: usize = line.unicode_len();
    let rest = line.substring_char(2, length);
    assert(rest@ =~= line@.skip(2));
    let key = before_char(rest, '=');
    let key_length: usize = key.unicode_len();
    if key_length >= length - 2 {
        return None;
    }
    let value = rest.substring_char(key_length + 1, length - 2);
    assert(value@ =~= rest@.skip(key@.len() as int + 1));
    Some((key.to_owned(), value.to_owned()))
}

/// The properties that the device database tells of a device.
pub fn parse_udev_properties(contents: &str) -> (r: TextMap<String>)
    ensures
        r.wf(),
        held_texts(r) == properties_in(text::text_lines(contents@)),
{
    let rows = lines(contents);
    let ghost all = text::texts(rows@);
    let mut properties: TextMap<String> = TextMap::new();
    let mut i: usize = 0;
    assert(held_texts(properties) =~= properties_in(all.take(0)));
    while i < rows.len()
        invariant
            i <= rows@.len(),
            all == text::texts(rows@),
            properties.wf(),
            held_texts(properties) == properties_in(all.take(i as int)),
        decreases rows@.len() - i,
    {
        assert(all.take(i + 1).drop_last() =~= all.take(i as int));
        assert(all[i as int] == rows@[i as int]@);
        let ghost before = held_texts(properties);
        if let Some((key, value)) = parse_property(rows[i].as_str()) {
            let ghost k = key@;
            let ghost v = value@;
            properties.insert(key, value);
            assert(held_texts(properties) =~= before.insert(k, v));
        }
        i += 1;
    }
    assert(all.take(i as int) =~= all);
    properties
}

// ---- the cameras that there are ----

/// A camera, with the devices through which it is used.
#[derive(Debug)]
pub struct CameraDevice {
    pub id: String,
    pub name: String,
    pub devices: Vec<String>,
    pub minors: Vec<u32>,
    pub last_frame_ms: Option<u64>,
}

/// What a [`CameraDevice`] tells.
pub struct Camera {
    pub id: Seq<char>,
    pub name: Seq<char>,
    pub devices: Seq<Seq<char>>,
    pub minors: Seq<u32>,
    pub last_frame_ms: Option<u64>,
}

impl CameraDevice {
    pub open spec fn view(&self) -> Camera {
        Camera {
            id: self.id@,
            name: self.name@,
            devices: text::texts(self.devices@),
            minors: self.minors@,
            last_frame_ms: self.last_frame_ms,
        }
    }
}

/// The cameras that a map holds.
pub open spec fn held_cameras(map: TextMap<CameraDevice>) -> Map<Seq<char>, Camera> {
    map@.map_values(|c: CameraDevice| c@)
}

/// Why the cameras cannot be listed.
#[derive(Debug)]
pub enum CameraError {
    UnreadableEntry,
    /// The device has no name that is a text.
    NoName,
    UnreadableNumber { device: String },
    NoMinor,
    BadMinor,
    /// The camera has nothing that tells it apart.
    NoIdentity,
}

/// What a [`CameraError`] says.
pub enum CameraFault {
    UnreadableEntry,
    NoName,
    UnreadableNumber { device: Seq<char> },
    NoMinor,
    BadMinor,
    NoIdentity,
}

impl CameraFault {
    /// The fault in words.
    pub open spec fn words(self) -> Seq<char> {
        match self {
            CameraFault::UnreadableEntry => "read video device entry"@,
            CameraFault::NoName => "video device has no valid name"@,
            CameraFault::UnreadableNumber { device } => "read device number for "@ + device,
            CameraFault::NoMinor => "video device number has no minor"@,
            CameraFault::BadMinor => "parse video device minor"@,
            CameraFault::NoIdentity => "camera has no stable identity"@,
        }
    }
}

impl CameraError {
    pub open spec fn view(&self) -> CameraFault {
        match *self {
            CameraError::UnreadableEntry => CameraFault::UnreadableEntry,
            CameraError::NoName => CameraFault::NoName,
            CameraError::UnreadableNumber { device } => CameraFault::UnreadableNumber {
                device: device@,
            },
            CameraError::NoMinor => CameraFault::NoMinor,
            CameraError::BadMinor => CameraFault::BadMinor,
            CameraError::NoIdentity => CameraFault::NoIdentity,
        }
    }

    /// The error in words.
    pub fn message(&self) -> (r: String)
        ensures
            r@ == self@.words(),
    {
        match self {
            CameraError::UnreadableEntry => "read video device entry".to_owned(),
            CameraError::NoName => "video device has no valid name".to_owned(),
            CameraError::UnreadableNumber { device } => "read device number for ".to_owned().concat(
                device.as_str(),
            ),
            CameraError::NoMinor => "video device number has no minor".to_owned(),
            CameraError::BadMinor => "parse video device minor".to_owned(),
            CameraError::NoIdentity => "camera has no stable identity".to_owned(),
        }
    }
}

/// The identity of a camera: its serial, else its path, else its place in the
/// device tree.
pub open spec fn identity_of(
    properties: Map<Seq<char>, Seq<char>>,
    canonical: Option<Seq<char>>,
) -> Option<Seq<char>> {
    if properties.contains_key("ID_SERIAL"@) {
        Some("serial:"@ + properties["ID_SERIAL"@])
    } else if properties.contains_key("ID_PATH"@) {
        Some("path:"@ + properties["ID_PATH"@])
    } else {
        match canonical {
            Some(path) => Some("sysfs:"@ + path),
            None => None,
        }
    }
}

/// A text that may be missing.
pub open spec fn text_of(s: Option<String>) -> Option<Seq<char>> {
    match s {
        Some(s) => Some(s@),
        None => None,
    }
}

/// The identity of a camera. `canonical` is its place in the device tree, where
/// that can be told.
pub fn camera_identity(properties: &TextMap<String>, canonical: &Option<String>) -> (r: Result<
    String,
    CameraError,
>)
    requires
        properties.wf(),
    ensures
        match (r, identity_of(held_texts(*properties), text_of(*canonical))) {
            (Ok(id), Some(identity)) => id@ == identity,
            (Err(e), None) => e@ == CameraFault::NoIdentity,
            _ => false,
        },
{
    if let Some(serial) = properties.get("ID_SERIAL") {
        return Ok("serial:".to_owned().concat(serial.as_str()));
    }
    if let Some(path) = properties.get("ID_PATH") {
        return Ok("path:".to_owned().concat(path.as_str()));
    }
    match canonical {
        Some(path) => Ok("sysfs:".to_owned().concat(path.as_str())),
        None => Err(CameraError::NoIdentity),
    }
}

/// What the system tells of a video device; a file that could not be read is
/// missing.
#[derive(Debug)]
pub struct VideoNode {
    pub name: Option<String>,
    pub index: Option<String>,
    pub number: Option<String>,
    pub properties: Option<String>,
    pub label: Option<String>,
    pub canonical: Option<String>,
}

/// An entry among the video devices.
#[derive(Debug)]
pub enum VideoEntry {
    Unreadable,
    Node { node: VideoNode },
}

/// What an entry comes to.
pub enum Finding {
    /// Not the first interface of its device.
    Passed,
    Refused(CameraFault),
    Found { id: Seq<char>, name: Seq<char>, device: Seq<char>, minor: u32 },
}

/// The file of the device database that tells of the device with this number.
pub fn udev_file(number: &str) -> (r: String)
    ensures
        r@ == "c"@ + text::trimmed(number@),
{
    "c".to_owned().concat(trim(number))
}

/// A text that counts as empty where it is missing.
pub open spec fn or_empty(s: Option<String>) -> Seq<char> {
    match s {
        Some(s) => s@,
        None => Seq::empty(),
    }
}

impl VideoNode {
    /// The properties that the device database tells.
    pub open spec fn known(self) -> Map<Seq<char>, Seq<char>> {
        properties_in(text::text_lines(or_empty(self.properties)))
    }

    /// The name that a camera is shown under: the product's, else the device's
    /// own, else that of its file.
    pub open spec fn shown_name(self, device: Seq<char>) -> Seq<char> {
        if self.known().contains_key("ID_V4L_PRODUCT"@) {
            self.known()["ID_V4L_PRODUCT"@]
        } else {
            match self.label {
                Some(label) => text::trimmed(label@),
                None => device,
            }
        }
    }

    /// What the node comes to.
    pub open spec fn finding(self) -> Finding {
        if text::trimmed(or_empty(self.index)) != "0"@ {
            Finding::Passed
        } else {
            match (self.name, self.number) {
                (None, _) => Finding::Refused(CameraFault::NoName),
                (Some(name), None) => Finding::Refused(
                    CameraFault::UnreadableNumber { device: "/dev/"@ + name@ },
                ),
                (Some(name), Some(number)) => {
                    let device = "/dev/"@ + name@;
                    let parts = text::pieces(text::trimmed(number@), ':');
                    if parts.len() < 2 {
                        Finding::Refused(CameraFault::NoMinor)
                    } else {
                        match text::unsigned_value(parts[1], u32::MAX as nat) {
                            None => Finding::Refused(CameraFault::BadMinor),
                            Some(minor) => match identity_of(
                                self.known(),
                                text_of(self.canonical),
                            ) {
                                None => Finding::Refused(CameraFault::NoIdentity),
                                Some(id) => Finding::Found {
                                    id,
                                    name: self.shown_name(device),
                                    device,
                                    minor: minor as u32,
                                },
                            },
                        }
                    }
                },
            }
        }
    }
}

impl VideoEntry {
    /// What the entry comes to.
    pub open spec fn finding(self) -> Finding {
        match self {
            VideoEntry::Unreadable => Finding::Refused(CameraFault::UnreadableEntry),
            VideoEntry::Node { node } => node.finding(),
        }
    }
}

/// The camera with one device more. Interfaces with one identity are one camera,
/// under the name of the first.
pub open spec fn joined(
    cameras: Map<Seq<char>, Camera>,
    id: Seq<char>,
    name: Seq<char>,
    device: Seq<char>,
    minor: u32,
) -> Camera {
    if cameras.contains_key(id) {
        Camera {
            devices: cameras[id].devices.push(device),
            minors: cameras[id].minors.push(minor),
            ..cameras[id]
        }
    } else {
        Camera { id, name, devices: seq![device], minors: seq![minor], last_frame_ms: None }
    }
}

/// The cameras that the entries tell of, by identity.
pub open spec fn cameras_in(entries: Seq<VideoEntry>) -> Result<Map<Seq<char>, Camera>, CameraFault>
    decreases entries.len(),
{
    if entries.len() == 0 {
        Ok(Map::empty())
    } else {
        match cameras_in(entries.drop_last()) {
            Err(fault) => Err(fault),
            Ok(cameras) => match entries.last().finding() {
                Finding::Passed => Ok(cameras),
                Finding::Refused(fault) => Err(fault),
                Finding::Found { id, name, device, minor } => Ok(
                    cameras.insert(id, joined(cameras, id, name, device, minor)),
                ),
            },
        }
    }
}

/// A camera's device, as it was found.
#[derive(Debug)]
struct FoundDevice {
    id: String,
    name: String,
    device: String,
    minor: u32,
}

fn text_or_empty(s: &Option<String>) -> (r: &str)
    ensures
        r@ == or_empty(*s),
{
    match s {
        Some(s) => s.as_str(),
        None => {
            proof {
                reveal_strlit("");
            }
            assert(""@ =~= Seq::<char>::empty());
            ""
        },
    }
}

fn parse_minor(number: &str) -> (r: Result<u32, CameraError>)
    ensures
        ({
            let parts = text::pieces(text::trimmed(number@), ':');
            match r {
                Ok(minor) => parts.len() >= 2 && text::unsigned_value(parts[1], u32::MAX as nat)
                    == Some(minor as nat),
                Err(e) => if parts.len() < 2 {
                    e@ == CameraFault::NoMinor
                } else {
                    e@ == CameraFault::BadMinor && text::unsigned_value(
                        parts[1],
                        u32::MAX as nat,
                    ) is None
                },
            }
        }),
{
    let parts = split(trim(number), ':');
    let ghost texts = text::texts(parts@);
    if parts.len() < 2 {
        return Err(CameraError::NoMinor);
    }
    assert(texts[1] == parts@[1]@);
    match parse_unsigned(parts[1].as_str(), u32::MAX as u64) {
        Some(minor) => Ok(minor as u32),
        None => Err(CameraError::BadMinor),
    }
}

impl VideoNode {
    fn display(&self, properties: &TextMap<String>, device: &str) -> (r: String)
        requires
            properties.wf(),
            held_texts(*properties) == self.known(),
        ensures
            r@ == self.shown_name(device@),
    {
        match properties.get("ID_V4L_PRODUCT") {
            Some(product) => product.clone(),
            None => match &self.label {
                Some(label) => trim(label.as_str()).to_owned(),
                None => device.to_owned(),
            },
        }
    }

    fn examine(&self) -> (r: Result<Option<FoundDevice>, CameraError>)
        ensures
            match (r, self.finding()) {
                (Ok(None), Finding::Passed) => true,
                (Ok(Some(found)), Finding::Found { id, name, device, minor }) => found.id@ == id
                    && found.name@ == name && found.device@ == device && found.minor == minor,
                (Err(e), Finding::Refused(fault)) => e@ == fault,
                _ => false,
            },
    {
        if !text::same(trim(text_or_empty(&self.index)), "0") {
            return Ok(None);
        }
        let name = match &self.name {
            Some(name) => name,
            None => {
                return Err(CameraError::NoName);
            },
        };
        let device = "/dev/".to_owned().concat(name.as_str());
        let number = match &self.number {
            Some(number) => number,
            None => {
                return Err(CameraError::UnreadableNumber { device });
            },
        };
        let minor: u32 = match parse_minor(number.as_str()) {
            Ok(minor) => minor,
            Err(e) => {
                return Err(e);
            },
        };
        let properties = parse_udev_properties(text_or_empty(&self.properties));
        let shown = self.display(&properties, device.as_str());
        match camera_identity(&properties, &self.canonical) {
            Ok(id) => Ok(Some(FoundDevice { id, name: shown, device, minor })),
            Err(e) => Err(e),
        }
    }
}

fn join_device(cameras: &mut TextMap<CameraDevice>, found: FoundDevice)
    requires
        old(cameras).wf(),
    ensures
        final(cameras).wf(),
        held_cameras(*final(cameras)) == held_cameras(*old(cameras)).insert(
            found.id@,
            joined(
                held_cameras(*old(cameras)),
                found.id@,
                found.name@,
                found.device@,
                found.minor,
            ),
        ),
{
    let ghost before = held_cameras(*cameras);
    let FoundDevice { id, name, device, minor } = found;
    let key = id.clone();
    let ghost whole = joined(before, id@, name@, device@, minor);
    let camera = match cameras.remove(key.as_str()) {
        Some(mut camera) => {
            proof {
                text::texts_push(camera.devices@, device);
            }
            camera.devices.push(device);
            camera.minors.push(minor);
            camera
        },
        None => {
            let mut devices: Vec<String> = Vec::new();
            let mut minors: Vec<u32> = Vec::new();
            proof {
                text::texts_push(devices@, device);
            }
            devices.push(device);
            minors.push(minor);
            assert(text::texts(devices@) =~= seq![device@]);
            assert(minors@ =~= seq![minor]);
            CameraDevice { id, name, devices, minors, last_frame_ms: None }
        },
    };
    assert(camera@ == whole);
    let ghost k = key@;
    cameras.insert(key, camera);
    assert(held_cameras(*cameras) =~= before.insert(k, whole));
}

/// The cameras that the entries among the video devices tell of, by identity.
pub fn scan_cameras(entries: &Vec<VideoEntry>) -> (r: Result<TextMap<CameraDevice>, CameraError>)
    ensures
        match (r, cameras_in(entries@)) {
            (Ok(cameras), Ok(found)) => cameras.wf() && held_cameras(cameras) == found,
            (Err(e), Err(fault)) => e@ == fault,
            _ => false,
        },
{
    let mut cameras: TextMap<CameraDevice> = TextMap::new();
    let mut i: usize = 0;
    assert(held_cameras(cameras) =~= Map::<Seq<char>, Camera>::empty());
    while i < entries.len()
        invariant
            i <= entries@.len(),
            cameras.wf(),
            cameras_in(entries@.take(i as int)) == Ok::<Map<Seq<char>, Camera>, CameraFault>(
                held_cameras(cameras),
            ),
        decreases entries@.len() - i,
    {
        assert(entries@.take(i + 1).drop_last() =~= entries@.take(i as int));
        let outcome = match &entries[i] {
            VideoEntry::Unreadable => Err(CameraError::UnreadableEntry),
            VideoEntry::Node { node } => node.examine(),
        };
        match outcome {
            Err(e) => {
                proof {
                    faults_last(entries@, i + 1);
                }
                return Err(e);
            },
            Ok(None) => {},
            Ok(Some(found)) => {
                join_device(&mut cameras, found);
            },
        }
        i += 1;
    }
    assert(entries@.take(i as int) =~= entries@);
    Ok(cameras)
}

/// What the first entries are refused for, all of them are.
proof fn faults_last(entries: Seq<VideoEntry>, until: int)
    requires
        0 <= until <= entries.len(),
        cameras_in(entries.take(until)) is Err,
    ensures
        cameras_in(entries) == cameras_in(entries.take(until)),
    decreases entries.len() - until,
{
    if until == entries.len() {
        assert(entries.take(until) =~= entries);
    } else {
        assert(entries.take(until + 1).drop_last() =~= entries.take(until));
        faults_last(entries, until + 1);
    }
}

/// The cameras of a new scan, each with the last frame that was seen of it.
pub open spec fn merged(
    previous: Map<Seq<char>, Camera>,
    current: Map<Seq<char>, Camera>,
) -> Map<Seq<char>, Camera> {
    Map::new(
        |id: Seq<char>| current.contains_key(id),
        |id: Seq<char>|
            Camera {
                last_frame_ms: if previous.contains_key(id) {
                    previous[id].last_frame_ms
                } else {
                    None
                },
                ..current[id]
            },
    )
}

/// Takes over a new scan, and the last frames that were seen from before.
pub fn merge_scan(previous: &TextMap<CameraDevice>, current: TextMap<CameraDevice>) -> (r: TextMap<
    CameraDevice,
>)
    requires
        previous.wf(),
        current.wf(),
    ensures
        r.wf(),
        held_cameras(r) == merged(held_cameras(*previous), held_cameras(current)),
{
    let ghost was = held_cameras(*previous);
    let ghost now = held_cameras(current);
    let ghost keys = current.keys();
    let ids = current.key_list();
    let mut out = current;
    let mut i: usize = 0;
    proof {
        crate::text_map::keys_are_the_domain(current);
        assert(text::texts(ids@) == keys);
        assert(held_cameras(out) =~= now);
    }
    while i < ids.len()
        invariant
            previous.wf(),
            was == held_cameras(*previous),
            out.wf(),
            i <= ids@.len(),
            text::texts(ids@) == keys,
            forall|id: Seq<char>| now.contains_key(id) <==> keys.contains(id),
            crate::text_map::increasing(keys),
            forall|id: Seq<char>| #[trigger]
                held_cameras(out).contains_key(id) <==> now.contains_key(id),
            forall|j: int|
                0 <= j < i ==> held_cameras(out)[#[trigger] keys[j]] == merged(was, now)[keys[j]],
            forall|j: int|
                i <= j < keys.len() ==> held_cameras(out)[#[trigger] keys[j]] == now[keys[j]],
        decreases ids@.len() - i,
    {
        let id = ids[i].clone();
        let ghost before = held_cameras(out);
        let ghost k = keys[i as int];
        assert(id@ == k);
        assert(keys.contains(k));
        assert(before.contains_key(k));
        let last = match previous.get(id.as_str()) {
            Some(camera) => camera.last_frame_ms,
            None => None,
        };
        if let Some(mut camera) = out.remove(id.as_str()) {
            camera.last_frame_ms = last;
            let ghost value = camera@;
            out.insert(id, camera);
            assert(held_cameras(out) =~= before.insert(k, value));
            assert(value == merged(was, now)[k]);
        }
        assert forall|j: int| 0 <= j < keys.len() && j != i implies #[trigger] keys[j] != k by {
            text::before_is_irreflexive(k);
        }
        i += 1;
    }
    proof {
        assert forall|id: Seq<char>| #[trigger] held_cameras(out).contains_key(id) implies held_cameras(
            out,
        )[id] == merged(was, now)[id] by {
            assert(keys.contains(id));
            let j = keys.index_of(id);
            assert(keys[j] == id);
        }
        assert(held_cameras(out) =~= merged(was, now));
    }
    out
}

/// The first camera, from place `from` on, that is used through `minor`.
pub open spec fn camera_with(cameras: Seq<CameraDevice>, minor: u32, from: int) -> Option<int>
    decreases cameras.len() - from,
{
    if from < 0 || from >= cameras.len() {
        None
    } else if cameras[from].minors@.contains(minor) {
        Some(from)
    } else {
        camera_with(cameras, minor, from + 1)
    }
}

fn uses_minor(camera: &CameraDevice, minor: u32) -> (r: bool)
    ensures
        r == camera.minors@.contains(minor),
{
    let mut i: usize = 0;
    while i < camera.minors.len()
        invariant
            i <= camera.minors@.len(),
            forall|j: int| 0 <= j < i ==> camera.minors@[j] != minor,
        decreases camera.minors@.len() - i,
    {
        if camera.minors[i] == minor {
            return true;
        }
        i += 1;
    }
    false
}

fn find_camera(cameras: &TextMap<CameraDevice>, minor: u32) -> (r: Option<usize>)
    requires
        cameras.wf(),
    ensures
        match r {
            Some(at) => camera_with(cameras.values(), minor, 0) == Some(at as int) && at
                < cameras.keys().len(),
            None => camera_with(cameras.values(), minor, 0) is None,
        },
{
    let count: usize = cameras.len();
    let mut i: usize = 0;
    while i < count
        invariant
            cameras.wf(),
            i <= count == cameras.values().len(),
            camera_with(cameras.values(), minor, 0) == camera_with(
                cameras.values(),
                minor,
                i as int,
            ),
        decreases count - i,
    {
        if uses_minor(cameras.value(i), minor) {
            return Some(i);
        }
        i += 1;
    }
    None
}

/// What a completed frame came to: nothing, where no camera is used through the
/// device, else whether it is the first that was seen of its camera.
#[derive(Clone, Copy, Debug, PartialEq, Eq, Structural)]
pub enum Sighting {
    Unknown,
    Seen { first: bool },
}

/// Takes note of a frame that the device with this minor completed.
pub fn record_frame(cameras: &mut TextMap<CameraDevice>, minor: u32, now_ms: u64) -> (r: Sighting)
    requires
        old(cameras).wf(),
    ensures
        final(cameras).wf(),
        match camera_with(old(cameras).values(), minor, 0) {
            None => r == Sighting::Unknown && held_cameras(*final(cameras)) == held_cameras(
                *old(cameras),
            ),
            Some(at) => {
                let id = old(cameras).keys()[at];
                let camera = old(cameras).values()[at]@;
                &&& r == (Sighting::Seen { first: camera.last_frame_ms is None })
                &&& held_cameras(*final(cameras)) == held_cameras(*old(cameras)).insert(
                    id,
                    Camera { last_frame_ms: Some(now_ms), ..camera },
                )
            },
        },
{
    let ghost before = *cameras;
    match find_camera(cameras, minor) {
        None => Sighting::Unknown,
        Some(at) => {
            let id = cameras.key(at).to_string();
            proof {
                crate::text_map::entry_is_held(*cameras, at as int);
            }
            let mut first = false;
            if let Some(mut camera) = cameras.remove(id.as_str()) {
                first = camera.last_frame_ms.is_none();
                camera.last_frame_ms = Some(now_ms);
                let ghost k = id@;
                let ghost value = camera@;
                cameras.insert(id, camera);
                assert(held_cameras(*cameras) =~= held_cameras(before).insert(k, value));
            }
            Sighting::Seen { first }
        },
    }
}

/// Whether the state has to be published again, with a new scan.
pub fn heartbeat_due(last_publish: Option<u64>, now: u64) -> (r: bool)
    ensures
        r == (match last_publish {
            Some(last) => now - last >= HEARTBEAT_INTERVAL,
            None => true,
        }),
        r <==> last_publish is None || now >= last_publish->0 + 1_000_000_000,
{
    match last_publish {
        Some(last) => now >= last && now - last >= HEARTBEAT_INTERVAL,
        None => true,
    }
}

/// What the monitor goes by: the cameras, when their state was last published,
/// and whether something changed since.
#[derive(Debug)]
pub struct Monitoring {
    pub cameras: TextMap<CameraDevice>,
    pub last_publish: Option<u64>,
    pub changed: bool,
}

impl Monitoring {
    pub open spec fn wf(self) -> bool {
        self.cameras.wf()
    }

    /// Monitoring begins, with the cameras of a first scan.
    pub fn new(cameras: TextMap<CameraDevice>) -> (r: Self)
        requires
            cameras.wf(),
        ensures
            r == (Monitoring { cameras, last_publish: None, changed: false }),
            r.wf(),
    {
        Monitoring { cameras, last_publish: None, changed: false }
    }

    /// Takes note of a frame that the device with this minor completed.
    pub fn see_frame(&mut self, minor: u32, now_ms: u64) -> (r: Sighting)
        requires
            old(self).wf(),
        ensures
            final(self).wf(),
            final(self).last_publish == old(self).last_publish,
            final(self).changed == (old(self).changed || r is Seen),
            match camera_with(old(self).cameras.values(), minor, 0) {
                None => {
                    &&& r == Sighting::Unknown
                    &&& held_cameras(final(self).cameras) == held_cameras(old(self).cameras)
                },
                Some(at) => {
                    let id = old(self).cameras.keys()[at];
                    let camera = old(self).cameras.values()[at]@;
                    &&& r == (Sighting::Seen { first: camera.last_frame_ms is None })
                    &&& held_cameras(final(self).cameras) == held_cameras(
                        old(self).cameras,
                    ).insert(id, Camera { last_frame_ms: Some(now_ms), ..camera })
                },
            },
    {
        let sighting = record_frame(&mut self.cameras, minor, now_ms);
        if let Sighting::Seen { .. } = sighting {
            self.changed = true;
        }
        sighting
    }

    /// Whether the cameras have to be scanned again.
    pub fn scan_due(&self, now: u64) -> (r: bool)
        ensures
            r == (match self.last_publish {
                Some(last) => now - last >= HEARTBEAT_INTERVAL,
                None => true,
            }),
    {
        heartbeat_due(self.last_publish, now)
    }

    /// Takes over a new scan. It is published even where nothing else changed:
    /// that is the heartbeat.
    pub fn take_scan(&mut self, scan: TextMap<CameraDevice>)
        requires
            old(self).wf(),
            scan.wf(),
        ensures
            final(self).wf(),
            final(self).last_publish == old(self).last_publish,
            final(self).changed,
            held_cameras(final(self).cameras) == merged(
                held_cameras(old(self).cameras),
                held_cameras(scan),
            ),
    {
        self.cameras = merge_scan(&self.cameras, scan);
        self.changed = true;
    }

    /// Whether the state has to be published now; if so, it counts as published.
    pub fn take_publish(&mut self, now: u64) -> (r: bool)
        requires
            old(self).wf(),
        ensures
            final(self).wf(),
            r == old(self).changed,
            final(self).cameras == old(self).cameras,
            !final(self).changed,
            final(self).last_publish == (if r {
                Some(now)
            } else {
                old(self).last_publish
            }),
    {
        let due = self.changed;
        if due {
            self.last_publish = Some(now);
            self.changed = false;
        }
        due
    }
}

/// What is published of a camera.
pub open spec fn is_observation(observation: CameraObservation, camera: CameraDevice) -> bool {
    &&& observation.id@ == camera.id@
    &&& observation.name@ == camera.name@
    &&& text::texts(observation.devices@) == text::texts(camera.devices@)
    &&& observation.last_frame_ms == camera.last_frame_ms
}

fn copied_texts(list: &Vec<String>) -> (r: Vec<String>)
    ensures
        text::texts(r@) == text::texts(list@),
{
    let mut out: Vec<String> = Vec::new();
    let mut i: usize = 0;
    while i < list.len()
        invariant
            i <= list@.len(),
            text::texts(out@) =~= text::texts(list@).take(i as int),
        decreases list@.len() - i,
    {
        let item = list[i].clone();
        proof {
            text::texts_push(out@, item);
        }
        out.push(item);
        i += 1;
    }
    assert(text::texts(list@).take(i as int) =~= text::texts(list@));
    out
}

/// What is published of the cameras, in the order of their identities.
pub fn snapshot(cameras: &TextMap<CameraDevice>, heartbeat_ms: u64) -> (r: CameraSnapshot)
    requires
        cameras.wf(),
    ensures
        r.version == STATE_VERSION,
        r.version == 2,
        r.heartbeat_ms == heartbeat_ms,
        r.cameras@.len() == cameras.values().len(),
        forall|i: int|
            0 <= i < r.cameras@.len() ==> is_observation(
                #[trigger] r.cameras@[i],
                cameras.values()[i],
            ),
        forall|i: int|
            0 <= i < r.cameras@.len() ==> (#[trigger] r.cameras@[i]).id@ == cameras.values()[i].id@
                && r.cameras@[i].name@ == cameras.values()[i].name@
                && r.cameras@[i].last_frame_ms == cameras.values()[i].last_frame_ms
                && text::texts(r.cameras@[i].devices@) == text::texts(
                cameras.values()[i].devices@,
            ),
{
    let mut out: Vec<CameraObservation> = Vec::new();
    let mut i: usize = 0;
    let count: usize = cameras.len();
    while i < count
        invariant
            cameras.wf(),
            i <= count == cameras.values().len(),
            out@.len() == i,
            forall|j: int|
                0 <= j < i ==> is_observation(#[trigger] out@[j], cameras.values()[j]),
        decreases count - i,
    {
        let camera = cameras.value(i);
        out.push(
            CameraObservation {
                id: camera.id.clone(),
                name: camera.name.clone(),
                devices: copied_texts(&camera.devices),
                last_frame_ms: camera.last_frame_ms,
            },
        );
        i += 1;
    }
    CameraSnapshot { version: STATE_VERSION, heartbeat_ms, cameras: out }
}

// ---- what holds of the cameras ----

/// Every camera of a scan stands under its own identity, with as many minors as
/// devices, at least one of each, and with no frame seen yet.
pub proof fn scanned_cameras_are_sound(entries: Seq<VideoEntry>, id: Seq<char>)
    requires
        cameras_in(entries) is Ok,
        cameras_in(entries)->Ok_0.contains_key(id),
    ensures
        ({
            let camera = cameras_in(entries)->Ok_0[id];
            &&& camera.id == id
            &&& camera.devices.len() == camera.minors.len() > 0
            &&& camera.last_frame_ms is None
        }),
    decreases entries.len(),
{
    let before = cameras_in(entries.drop_last());
    if entries.len() > 0 && before is Ok && before->Ok_0.contains_key(id) {
        scanned_cameras_are_sound(entries.drop_last(), id);
    }
}

/// Interfaces with one serial are one camera: a device that is found with the
/// identity of a camera joins it, and no other camera changes.
pub proof fn interfaces_share_a_camera(entries: Seq<VideoEntry>, more: VideoEntry, other: Seq<char>)
    requires
        cameras_in(entries) is Ok,
        more.finding() is Found,
        cameras_in(entries)->Ok_0.contains_key(more.finding()->id),
        other != more.finding()->id,
    ensures
        ({
            let id = more.finding()->id;
            let before = cameras_in(entries)->Ok_0;
            let after = cameras_in(entries.push(more));
            &&& after is Ok
            &&& after->Ok_0.dom() == before.dom()
            &&& after->Ok_0[id].name == before[id].name
            &&& after->Ok_0[id].devices == before[id].devices.push(more.finding()->device)
            &&& after->Ok_0[id].minors == before[id].minors.push(more.finding()->minor)
            &&& after->Ok_0[other] == before[other]
        }),
{
    assert(entries.push(more).drop_last() =~= entries);
    let id = more.finding()->id;
    let before = cameras_in(entries)->Ok_0;
    let after = cameras_in(entries.push(more))->Ok_0;
    assert(after.dom() =~= before.dom());
}

/// A new scan forgets no frame of a camera that is still there, and makes none
/// up for one that is new.
pub proof fn rescans_keep_frames(
    previous: Map<Seq<char>, Camera>,
    current: Map<Seq<char>, Camera>,
    id: Seq<char>,
)
    requires
        current.contains_key(id),
    ensures
        merged(previous, current).contains_key(id),
        merged(previous, current)[id].id == current[id].id,
        merged(previous, current)[id].name == current[id].name,
        merged(previous, current)[id].devices == current[id].devices,
        merged(previous, current)[id].minors == current[id].minors,
        merged(previous, current)[id].last_frame_ms == (if previous.contains_key(id) {
            previous[id].last_frame_ms
        } else {
            None
        }),
{
}

/// A frame makes its camera active, where the camera counts, at once and until
/// its timeout has passed.
pub proof fn frames_make_cameras_active(
    camera: CameraObservation,
    config: crate::config::CameraConfig,
    frame_ms: u64,
    now_ms: u64,
)
    requires
        camera.last_frame_ms == Some(frame_ms),
        crate::domain::timeout_of(config, camera.id@) is Some,
        now_ms <= frame_ms + crate::domain::timeout_of(config, camera.id@)->0 * 1000,
    ensures
        camera.is_active(now_ms, config),
{
}

/// A camera that a new scan does not find is gone.
pub proof fn rescans_forget_cameras_that_are_gone(
    previous: Map<Seq<char>, Camera>,
    current: Map<Seq<char>, Camera>,
    id: Seq<char>,
)
    requires
        !current.contains_key(id),
    ensures
        !merged(previous, current).contains_key(id),
{
}

/// A camera shows what its fields hold.
pub proof fn cameras_show_their_fields(camera: CameraDevice)
    ensures
        camera@.id == camera.id@,
        camera@.name == camera.name@,
        camera@.minors == camera.minors@,
        camera@.last_frame_ms == camera.last_frame_ms,
        camera@.devices.len() == camera.devices@.len(),
        forall|i: int|
            0 <= i < camera.devices@.len() ==> #[trigger] camera@.devices[i] == camera.devices@[i]@,
{
}

/// A line of the device database tells a property where it is `E:`, a name without
/// an equals sign, an equals sign and the value; no other line tells one.
pub proof fn properties_are_told_by_their_lines(key: Seq<char>, value: Seq<char>, line: Seq<char>)
    ensures
        !key.contains('=') ==> property_in("E:"@ + key + "="@ + value) == Some((key, value)),
        property_in(line) matches Some((k, v)) ==> line == "E:"@ + k + "="@ + v && !k.contains('='),
{
    reveal_strlit("E:");
    reveal_strlit("=");
    if !key.contains('=') {
        let whole = "E:"@ + key + "="@ + value;
        let rest = whole.skip(2);
        assert(rest =~= key + ("="@ + value));
        text::the_part_before_is_what_was_put_there(key, '=', "="@ + value);
        assert("E:"@.is_prefix_of(whole)) by {
            assert(whole.take(2) =~= "E:"@);
        }
        assert(rest.skip(key.len() as int + 1) =~= value);
    }
    if let Some((k, v)) = property_in(line) {
        let rest = line.skip(2);
        text::the_part_before_ends_at_the_first(rest, '=');
        assert(line =~= "E:"@ + rest);
        assert(rest =~= k + "="@ + v);
        assert("E:"@ + rest =~= "E:"@ + k + "="@ + v);
    }
}

/// A line more tells one property more, or a new value of one; lines that tell
/// none change nothing.
pub proof fn later_properties_override(lines: Seq<Seq<char>>, line: Seq<char>, other: Seq<char>)
    ensures
        properties_in(Seq::empty()) == Map::<Seq<char>, Seq<char>>::empty(),
        property_in(line) is None ==> properties_in(lines.push(line)) == properties_in(lines),
        property_in(line) matches Some((key, value)) ==> {
            &&& properties_in(lines.push(line)).contains_key(key)
            &&& properties_in(lines.push(line))[key] == value
            &&& other != key ==> {
                &&& properties_in(lines.push(line)).contains_key(other) <==> properties_in(
                    lines,
                ).contains_key(other)
                &&& properties_in(lines.push(line))[other] == properties_in(lines)[other]
            }
        },
{
    assert(lines.push(line).drop_last() =~= lines);
}

/// A camera is known by its serial where it has one, else by its path, else by its
/// place in the device tree, each behind its own word; with none of them it is not
/// known.
pub proof fn cameras_are_known_by_the_best_that_there_is(
    properties: Map<Seq<char>, Seq<char>>,
    canonical: Option<Seq<char>>,
)
    ensures
        properties.contains_key("ID_SERIAL"@) ==> identity_of(properties, canonical) == Some(
            "serial:"@ + properties["ID_SERIAL"@],
        ),
        !properties.contains_key("ID_SERIAL"@) && properties.contains_key("ID_PATH"@)
            ==> identity_of(properties, canonical) == Some("path:"@ + properties["ID_PATH"@]),
        !properties.contains_key("ID_SERIAL"@) && !properties.contains_key("ID_PATH"@)
            && canonical is Some ==> identity_of(properties, canonical) == Some(
            "sysfs:"@ + canonical->0,
        ),
        !properties.contains_key("ID_SERIAL"@) && !properties.contains_key("ID_PATH"@)
            && canonical is None ==> identity_of(properties, canonical) is None,
{
}

/// What is told of a video device: its properties are those of its database file,
/// it is shown under the name of the product, else its label without white space
/// around it, else its file, and only the interface with index zero counts.
pub proof fn nodes_are_shown_by_their_best_name(node: VideoNode, device: Seq<char>)
    ensures
        node.properties is None ==> node.known() == Map::<Seq<char>, Seq<char>>::empty(),
        node.properties matches Some(properties) ==> node.known() == properties_in(
            text::text_lines(properties@),
        ),
        node.known().contains_key("ID_V4L_PRODUCT"@) ==> node.shown_name(device)
            == node.known()["ID_V4L_PRODUCT"@],
        !node.known().contains_key("ID_V4L_PRODUCT"@) ==> (node.label matches Some(label)
            ==> node.shown_name(device) == text::trimmed(label@)),
        !node.known().contains_key("ID_V4L_PRODUCT"@) && node.label is None ==> node.shown_name(
            device,
        ) == device,
        node.finding() is Passed <==> node.index is None || text::trimmed(node.index->0@)
            != "0"@,
{
    reveal_strlit("0");
    reveal_with_fuel(text::trimmed_start, 2);
    let none = Seq::<char>::empty();
    text::trimming_drops_outer_white_space(none);
    assert(text::trimmed(none) != "0"@) by {
        assert(text::trimmed(none).len() == 0);
    }
    assert(text::text_lines(none) =~= Seq::<Seq<char>>::empty());
}

/// A device whose number is a major and a minor with a colon between them, and
/// perhaps more behind another, is found under its identity and with that minor, as
/// the file `/dev/` and its name; where the minor is no number the device is refused
/// for that.
pub proof fn numbered_devices_are_found(
    node: VideoNode,
    major: Seq<char>,
    word: Seq<char>,
    more: Seq<char>,
    minor: nat,
)
    requires
        node.index is Some,
        text::trimmed(node.index->0@) == "0"@,
        node.name is Some,
        node.number is Some,
        !major.contains(':'),
        !word.contains(':'),
        more.len() == 0 || more[0] == ':',
        text::trimmed(node.number->0@) == major + ":"@ + word + more,
        minor <= u32::MAX,
    ensures
        text::unsigned_value(word, u32::MAX as nat) is None ==> node.finding()
            == Finding::Refused(CameraFault::BadMinor),
        word == text::decimal_text(minor) ==> match identity_of(node.known(), text_of(node.canonical)) {
            None => node.finding() == Finding::Refused(CameraFault::NoIdentity),
            Some(identity) => node.finding() matches Finding::Found { id, name, device, minor: m }
                && id == identity && device == "/dev/"@ + node.name->0@ && m == minor && name
                == node.shown_name("/dev/"@ + node.name->0@),
        },
{
    reveal_strlit(":");
    text::decimal_round_trip(minor, u32::MAX as nat);
    assert(major + ":"@ + word + more =~= major + seq![':'] + (word + more));
    text::pieces_stand_between_separators(major, ':', word + more);
    if more.len() == 0 {
        assert(word + more =~= word);
        text::pieces_stand_between_separators(word, ':', word);
    } else {
        assert(word + more =~= word + seq![':'] + more.skip(1));
        text::pieces_stand_between_separators(word, ':', more.skip(1));
    }
}

/// What a device is refused for: no name, then a number that cannot be read, then
/// one without a colon, then a minor that is no number, then no identity.
pub proof fn nameless_devices_are_refused(node: VideoNode)
    requires
        node.index is Some,
        text::trimmed(node.index->0@) == "0"@,
    ensures
        node.name is None ==> node.finding() == Finding::Refused(CameraFault::NoName),
        node.name is Some && node.number is None ==> node.finding() == Finding::Refused(
            CameraFault::UnreadableNumber { device: "/dev/"@ + node.name->0@ },
        ),
        node.name is Some && node.number is Some && !text::trimmed(node.number->0@).contains(':')
            ==> node.finding() == Finding::Refused(CameraFault::NoMinor),
        node.finding() matches Finding::Refused(CameraFault::BadMinor) ==> text::trimmed(
            node.number->0@,
        ).contains(':'),
{
    if let Some(number) = node.number {
        let whole = text::trimmed(number@);
        if !whole.contains(':') {
            text::pieces_stand_between_separators(whole, ':', whole);
        }
    }
}

/// A scan goes through the entries in turn: one that cannot be read ends it with
/// that fault, whatever follows; one that is passed over changes nothing; a device
/// with a new identity is a new camera, with that device alone and no frame seen.
pub proof fn scans_take_one_entry_after_the_other(entries: Seq<VideoEntry>, more: VideoEntry)
    ensures
        cameras_in(Seq::empty()) == Ok::<Map<Seq<char>, Camera>, CameraFault>(Map::empty()),
        cameras_in(entries) is Err ==> cameras_in(entries.push(more)) == cameras_in(entries),
        cameras_in(entries) is Ok && more is Unreadable ==> cameras_in(entries.push(more)) == Err::<
            Map<Seq<char>, Camera>,
            CameraFault,
        >(CameraFault::UnreadableEntry),
        cameras_in(entries) is Ok ==> (more matches VideoEntry::Node { node }
            ==> match node.finding() {
            Finding::Passed => cameras_in(entries.push(more)) == cameras_in(entries),
            Finding::Refused(fault) => cameras_in(entries.push(more)) == Err::<
                Map<Seq<char>, Camera>,
                CameraFault,
            >(fault),
            Finding::Found { id, name, device, minor } => {
                let before = cameras_in(entries)->Ok_0;
                let after = cameras_in(entries.push(more))->Ok_0;
                &&& cameras_in(entries.push(more)) is Ok
                &&& after.dom() == before.dom().insert(id)
                &&& forall|other: Seq<char>| other != id ==> #[trigger] after[other]
                    == before[other]
                &&& !before.contains_key(id) ==> {
                    &&& after[id].id == id
                    &&& after[id].name == name
                    &&& after[id].devices == seq![device]
                    &&& after[id].minors == seq![minor]
                    &&& after[id].last_frame_ms is None
                }
            },
        }),
{
    assert(entries.push(more).drop_last() =~= entries);
    assert(entries.push(more).last() == more);
    if cameras_in(entries.push(more)) is Ok {
        let after = cameras_in(entries.push(more))->Ok_0;
        let before = cameras_in(entries)->Ok_0;
        if let Finding::Found { id, name, device, minor } = more.finding() {
            assert(after.dom() =~= before.dom().insert(id));
        }
    }
}

/// A frame counts for the first camera that is used through the device, and for
/// none where no camera is.
pub proof fn frames_count_for_the_first_user(cameras: Seq<CameraDevice>, minor: u32, from: int)
    requires
        0 <= from <= cameras.len(),
    ensures
        match camera_with(cameras, minor, from) {
            Some(at) => {
                &&& from <= at < cameras.len()
                &&& cameras[at].minors@.contains(minor)
                &&& forall|j: int| from <= j < at ==> !(#[trigger] cameras[j]).minors@.contains(minor)
            },
            None => forall|j: int|
                from <= j < cameras.len() ==> !(#[trigger] cameras[j]).minors@.contains(minor),
        },
    decreases cameras.len() - from,
{
    if from < cameras.len() && !cameras[from].minors@.contains(minor) {
        frames_count_for_the_first_user(cameras, minor, from + 1);
    }
}

/// What the faults say.
pub proof fn faults_in_words(device: Seq<char>)
    ensures
        CameraFault::UnreadableEntry.words() == "read video device entry"@,
        CameraFault::NoName.words() == "video device has no valid name"@,
        (CameraFault::UnreadableNumber { device }).words() == "read device number for "@ + device,
        CameraFault::NoMinor.words() == "video device number has no minor"@,
        CameraFault::BadMinor.words() == "parse video device minor"@,
        CameraFault::NoIdentity.words() == "camera has no stable identity"@,
{
}

/// An error shows the fault of its own name.
pub proof fn errors_show_their_fault(device: String)
    ensures
        CameraError::UnreadableEntry@ == CameraFault::UnreadableEntry,
        CameraError::NoName@ == CameraFault::NoName,
        (CameraError::UnreadableNumber { device })@ == (CameraFault::UnreadableNumber {
            device: device@,
        }),
        CameraError::NoMinor@ == CameraFault::NoMinor,
        CameraError::BadMinor@ == CameraFault::BadMinor,
        CameraError::NoIdentity@ == CameraFault::NoIdentity,
{
}

/// What a map holds is what its values show, and a text that is there is itself.
pub proof fn maps_hold_what_their_values_show(
    texts: TextMap<String>,
    cameras: TextMap<CameraDevice>,
    key: Seq<char>,
    s: String,
)
    ensures
        held_texts(texts).contains_key(key) <==> texts@.contains_key(key),
        texts@.contains_key(key) ==> held_texts(texts)[key] == texts@[key]@,
        held_cameras(cameras).contains_key(key) <==> cameras@.contains_key(key),
        cameras@.contains_key(key) ==> held_cameras(cameras)[key] == cameras@[key]@,
        text_of(Some(s)) == Some(s@),
        text_of(None) is None,
        or_empty(Some(s)) == s@,
        or_empty(None).len() == 0,
{
}

} // verus!
