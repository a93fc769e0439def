//! Text handled one character at a time.
//!
//! The specification functions speak of sequences of characters; the
//! executable functions compute them on `&str`.

use vstd::prelude::*;

verus! {

/// `String::push` appends the given character to the end of the string.
pub assume_specification[ String::push ](s: &mut String, c: char)
    ensures
        final(s)@ == old(s)@.push(c),
;

/// The characters with the Unicode property `White_Space`.
pub open spec fn white_space(c: char) -> bool {
    let u = c as int;
    ||| 0x9 <= u <= 0xd
    ||| u == 0x20
    ||| u == 0x85
    ||| u == 0xa0
    ||| u == 0x1680
    ||| 0x2000 <= u <= 0x200a
    ||| u == 0x2028
    ||| u == 0x2029
    ||| u == 0x202f
    ||| u == 0x205f
    ||| u == 0x3000
}

/// `s` without the white space at its start.
pub open spec fn trimmed_start(s: Seq<char>) -> Seq<char>
    decreases s.len(),
{
    if s.len() > 0 && white_space(s[0]) {
        trimmed_start(s.drop_first())
    } else {
        s
    }
}

/// `s` without the white space at its end.
pub open spec fn trimmed_end(s: Seq<char>) -> Seq<char>
    decreases s.len(),
{
    if s.len() > 0 && white_space(s.last()) {
        trimmed_end(s.drop_last())
    } else {
        s
    }
}

/// `s` without the white space around it.
pub open spec fn trimmed(s: Seq<char>) -> Seq<char> {
    trimmed_end(trimmed_start(s))
}

/// Whether nothing but white space stands in `s`.
pub open spec fn blank(s: Seq<char>) -> bool {
    trimmed(s).len() == 0
}

/// `s` without the run of `c` at its end.
pub open spec fn without_trailing(s: Seq<char>, c: char) -> Seq<char>
    decreases s.len(),
{
    if s.len() > 0 && s.last() == c {
        without_trailing(s.drop_last(), c)
    } else {
        s
    }
}

/// Whether `pattern` stands in `s` at position `at`.
pub open spec fn occurs_at(s: Seq<char>, pattern: Seq<char>, at: int) -> bool {
    &&& 0 <= at
    &&& at + pattern.len() <= s.len()
    &&& s.subrange(at, at + pattern.len()) == pattern
}

/// The first position from `from` on at which `pattern` stands in `s`.
pub open spec fn find_from(s: Seq<char>, pattern: Seq<char>, from: int) -> Option<int>
    decreases s.len() + 1 - from,
{
    if from < 0 || from + pattern.len() > s.len() {
        None
    } else if occurs_at(s, pattern, from) {
        Some(from)
    } else {
        find_from(s, pattern, from + 1)
    }
}

/// Whether `pattern` stands anywhere in `s`.
pub open spec fn has_text(s: Seq<char>, pattern: Seq<char>) -> bool {
    exists|at: int| occurs_at(s, pattern, at)
}

/// The part of `s` before the first `c`, or all of `s`.
pub open spec fn until(s: Seq<char>, c: char) -> Seq<char>
    decreases s.len(),
{
    if s.len() == 0 || s[0] == c {
        Seq::empty()
    } else {
        seq![s[0]] + until(s.drop_first(), c)
    }
}

/// The pieces of `s` between the occurrences of `c`.
pub open spec fn pieces(s: Seq<char>, c: char) -> Seq<Seq<char>>
    decreases s.len(),
{
    let head = until(s, c);
    if head.len() >= s.len() {
        seq![s]
    } else {
        seq![head] + pieces(s.skip(head.len() as int + 1), c)
    }
}

/// `s` without one carriage return at its end.
pub open spec fn without_carriage_return(s: Seq<char>) -> Seq<char> {
    if s.len() > 0 && s.last() == '\r' {
        s.drop_last()
    } else {
        s
    }
}

/// The lines of `s`: each ends with a line feed, before which one carriage
/// return is dropped, or with the text.
pub open spec fn text_lines(s: Seq<char>) -> Seq<Seq<char>>
    decreases s.len(),
{
    if s.len() == 0 {
        Seq::empty()
    } else {
        let head = until(s, '\n');
        if head.len() >= s.len() {
            seq![s]
        } else {
            seq![without_carriage_return(head)] + text_lines(s.skip(head.len() as int + 1))
        }
    }
}

pub open spec fn is_digit(c: char) -> bool {
    48 <= c as int <= 57
}

/// The number that a sequence of decimal digits writes.
pub open spec fn digits_value(s: Seq<char>) -> nat
    decreases s.len(),
{
    if s.len() == 0 {
        0
    } else {
        digits_value(s.drop_last()) * 10 + (s.last() as int - 48) as nat
    }
}

/// Whether `s` holds digits alone, and at least one.
pub open spec fn all_digits(s: Seq<char>) -> bool {
    &&& s.len() > 0
    &&& forall|i: int| 0 <= i < s.len() ==> is_digit(#[trigger] s[i])
}

/// The unsigned number of at most `max` that `s` writes in decimal: digits,
/// after a plus sign or none.
pub open spec fn unsigned_value(s: Seq<char>, max: nat) -> Option<nat> {
    let body = if s.len() > 0 && s[0] == '+' {
        s.drop_first()
    } else {
        s
    };
    if !all_digits(body) {
        None
    } else if digits_value(body) > max {
        None
    } else {
        Some(digits_value(body))
    }
}

/// The character that writes the digit `d`.
pub open spec fn digit_char(d: nat) -> char {
    (48 + d) as char
}

/// `n` written in decimal.
pub open spec fn decimal_text(n: nat) -> Seq<char>
    decreases n,
{
    if n < 10 {
        seq![digit_char(n)]
    } else {
        decimal_text(n / 10).push(digit_char(n % 10))
    }
}

/// `c` with the lower case ASCII letters raised.
pub open spec fn upper_char(c: char) -> char {
    if 97 <= c as int <= 122 {
        (c as int - 32) as char
    } else {
        c
    }
}

/// `s` with the lower case ASCII letters raised.
pub open spec fn upper_text(s: Seq<char>) -> Seq<char> {
    s.map_values(|c: char| upper_char(c))
}

/// Whether `a` comes before `b` in the dictionary order of code points.
pub open spec fn before(a: Seq<char>, b: Seq<char>) -> bool
    decreases a.len(),
{
    if b.len() == 0 {
        false
    } else if a.len() == 0 {
        true
    } else if a[0] == b[0] {
        before(a.drop_first(), b.drop_first())
    } else {
        (a[0] as int) < (b[0] as int)
    }
}

/// The texts that a list of strings holds.
pub open spec fn texts(list: Seq<String>) -> Seq<Seq<char>> {
    list.map_values(|s: String| s@)
}

/// Adding a string adds its text.
pub proof fn texts_push(list: Seq<String>, s: String)
    ensures
        texts(list.push(s)) == texts(list).push(s@),
{
    assert(texts(list.push(s)) =~= texts(list).push(s@));
}

// ---- the order of texts ----

/// No text comes before itself.
pub proof fn before_is_irreflexive(a: Seq<char>)
    ensures
        !before(a, a),
    decreases a.len(),
{
    if a.len() > 0 {
        before_is_irreflexive(a.drop_first());
    }
}

/// The order of texts is transitive.
pub proof fn before_is_transitive(a: Seq<char>, b: Seq<char>, c: Seq<char>)
    requires
        before(a, b),
        before(b, c),
    ensures
        before(a, c),
    decreases a.len(),
{
    if a.len() > 0 && a[0] == b[0] && b[0] == c[0] {
        before_is_transitive(a.drop_first(), b.drop_first(), c.drop_first());
    }
}

/// Of two different texts one comes before the other.
pub proof fn before_is_total(a: Seq<char>, b: Seq<char>)
    ensures
        a == b || before(a, b) || before(b, a),
    decreases a.len(),
{
    if a.len() > 0 && b.len() > 0 {
        if a[0] == b[0] {
            before_is_total(a.drop_first(), b.drop_first());
            if a.drop_first() == b.drop_first() {
                assert(a =~= seq![a[0]] + a.drop_first());
                assert(b =~= seq![b[0]] + b.drop_first());
                assert(a == b);
            }
        } else {
            assert(a[0] as int != b[0] as int);
            assert(before(a, b) || before(b, a));
        }
    } else if a.len() == 0 && b.len() == 0 {
        assert(a =~= b);
    }
}

// ---- executable functions ----

/// The characters of `s`.
pub fn characters(s: &str) -> (r: Vec<char>)
    ensures
        r@ == s@,
{
    let mut out: Vec<char> = Vec::new();
    for c in it: s.chars()
        invariant
            out@ == it.seq().take(it.index() as int),
            it.seq() == s@,
    {
        out.push(c);
    }
    out
}


/// The code point of `c`.
fn code_point(c: char) -> (r: u32)
    ensures
        r == c as int,
{
    c as u32
}

/// Whether `c` is white space.
pub fn is_white_space(c: char) -> (r: bool)
    ensures
        r == white_space(c),
{
    let u: u32 = c as u32;
    (0x9 <= u && u <= 0xd) || u == 0x20 || u == 0x85 || u == 0xa0 || u == 0x1680 || (0x2000 <= u
        && u <= 0x200a) || u == 0x2028 || u == 0x2029 || u == 0x202f || u == 0x205f || u == 0x3000
}

/// `s` without the white space around it.
pub fn trim(s: &str) -> (r: &str)
    ensures
        r@ == trimmed(s@),
{
    let chars = characters(s);
    let n: usize = chars.len();
    let mut start: usize = 0;
    assert(s@ =~= s@.skip(0));
    while start < n && is_white_space(chars[start])
        invariant
            n == chars@.len(),
            chars@ == s@,
            start <= n,
            trimmed_start(s@) == trimmed_start(s@.skip(start as int)),
        decreases n - start,
    {
        assert(s@.skip(start as int).drop_first() =~= s@.skip(start + 1));
        start += 1;
    }
    let ghost rest = s@.skip(start as int);
    let mut end: usize = n;
    assert(rest =~= rest.take(end - start));
    while end > start && is_white_space(chars[end - 1])
        invariant
            n == chars@.len(),
            chars@ == s@,
            start <= end <= n,
            rest == s@.skip(start as int),
            trimmed_end(rest) == trimmed_end(rest.take(end - start)),
        decreases end,
    {
        assert(rest.take(end - start).drop_last() =~= rest.take(end - start - 1));
        end -= 1;
    }
    assert(s@.subrange(start as int, end as int) =~= rest.take(end - start));
    s.substring_char(start, end)
}

/// Whether nothing but white space stands in `s`.
pub fn is_blank(s: &str) -> (r: bool)
    ensures
        r == blank(s@),
{
    trim(s).is_empty()
}

/// `s` without the run of `c` at its end.
pub fn trim_trailing(s: &str, c: char) -> (r: &str)
    ensures
        r@ == without_trailing(s@, c),
{
    let chars = characters(s);
    let mut end: usize = chars.len();
    assert(s@ =~= s@.take(end as int));
    while end > 0 && chars[end - 1] == c
        invariant
            chars@ == s@,
            end <= chars@.len(),
            without_trailing(s@, c) == without_trailing(s@.take(end as int), c),
        decreases end,
    {
        assert(s@.take(end as int).drop_last() =~= s@.take(end - 1));
        end -= 1;
    }
    s.substring_char(0, end)
}

/// Whether `pattern` stands in `s` at `at`.
fn stands_at(s: &Vec<char>, pattern: &Vec<char>, at: usize) -> (r: bool)
    requires
        at + pattern@.len() <= s@.len(),
    ensures
        r == occurs_at(s@, pattern@, at as int),
{
    let n: usize = s.len();
    let mut i: usize = 0;
    while i < pattern.len()
        invariant
            n == s@.len(),
            i <= pattern@.len(),
            at + pattern@.len() <= n,
            forall|j: int| 0 <= j < i ==> s@[at + j] == pattern@[j],
        decreases pattern@.len() - i,
    {
        if s[at + i] != pattern[i] {
            proof {
                let part = s@.subrange(at as int, at + pattern@.len());
                assert(part[i as int] == s@[at + i]);
            }
            return false;
        }
        i += 1;
    }
    assert(s@.subrange(at as int, at + pattern@.len()) =~= pattern@);
    true
}

/// The first position from `from` on at which `pattern` stands in `s`.
pub fn find(s: &Vec<char>, pattern: &Vec<char>, from: usize) -> (r: Option<usize>)
    ensures
        match r {
            Some(at) => find_from(s@, pattern@, from as int) == Some(at as int) && occurs_at(
                s@,
                pattern@,
                at as int,
            ),
            None => find_from(s@, pattern@, from as int) is None,
        },
{
    let n: usize = s.len();
    let m: usize = pattern.len();
    let mut at: usize = from;
    while at <= n && m <= n - at
        invariant
            n == s@.len(),
            m == pattern@.len(),
            find_from(s@, pattern@, from as int) == find_from(s@, pattern@, at as int),
        decreases n + 1 - at,
    {
        if stands_at(s, pattern, at) {
            return Some(at);
        }
        if at == n {
            assert(find_from(s@, pattern@, at + 1) is None);
            return None;
        }
        at += 1;
    }
    None
}

/// `find_from` finds an occurrence wherever there is one.
proof fn find_from_is_complete(s: Seq<char>, pattern: Seq<char>, from: int, at: int)
    requires
        0 <= from <= at,
        occurs_at(s, pattern, at),
    ensures
        find_from(s, pattern, from) is Some,
    decreases at - from,
{
    if from < at && !occurs_at(s, pattern, from) {
        find_from_is_complete(s, pattern, from + 1, at);
    }
}

/// Whether `pattern` stands anywhere in `s`.
pub fn contains(s: &str, pattern: &str) -> (r: bool)
    ensures
        r == has_text(s@, pattern@),
{
    let found = find(&characters(s), &characters(pattern), 0).is_some();
    proof {
        if has_text(s@, pattern@) {
            let at = choose|at: int| occurs_at(s@, pattern@, at);
            find_from_is_complete(s@, pattern@, 0, at);
        }
    }
    found
}

/// Whether `c` stands anywhere in `s`.
pub fn contains_char(s: &str, c: char) -> (r: bool)
    ensures
        r == s@.contains(c),
{
    let chars = characters(s);
    let mut i: usize = 0;
    while i < chars.len()
        invariant
            chars@ == s@,
            i <= chars@.len(),
            forall|j: int| 0 <= j < i ==> s@[j] != c,
        decreases chars@.len() - i,
    {
        if chars[i] == c {
            assert(s@[i as int] == c);
            return true;
        }
        i += 1;
    }
    false
}

/// Whether `s` begins with `prefix`.
pub fn starts_with(s: &str, prefix: &str) -> (r: bool)
    ensures
        r == prefix@.is_prefix_of(s@),
{
    let text = characters(s);
    let start = characters(prefix);
    if start.len() > text.len() {
        return false;
    }
    let r = stands_at(&text, &start, 0);
    assert(s@.subrange(0, prefix@.len() as int) == prefix@ <==> prefix@.is_prefix_of(s@));
    r
}

/// `until` is the part before the first `c`.
proof fn until_is_prefix(s: Seq<char>, c: char, n: int)
    requires
        0 <= n <= s.len(),
        forall|j: int| 0 <= j < n ==> s[j] != c,
        n < s.len() ==> s[n] == c,
    ensures
        until(s, c) == s.take(n),
    decreases s.len(),
{
    if n == 0 {
        assert(s.take(0) =~= Seq::empty());
    } else {
        let rest = s.drop_first();
        assert forall|j: int| 0 <= j < n - 1 implies rest[j] != c by {
            assert(rest[j] == s[j + 1]);
        }
        until_is_prefix(rest, c, n - 1);
        assert(s.take(n) =~= seq![s[0]] + rest.take(n - 1));
    }
}

/// The end of the piece of `s` that begins at `from`: the position of the
/// next `c`, or the end of `s`.
fn piece_end(s: &Vec<char>, c: char, from: usize) -> (r: usize)
    requires
        from <= s@.len(),
    ensures
        from <= r <= s@.len(),
        until(s@.skip(from as int), c) == s@.subrange(from as int, r as int),
        r < s@.len() ==> s@[r as int] == c,
{
    let mut at: usize = from;
    while at < s.len() && s[at] != c
        invariant
            from <= at <= s@.len(),
            forall|j: int| from <= j < at ==> s@[j] != c,
        decreases s@.len() - at,
    {
        at += 1;
    }
    proof {
        let rest = s@.skip(from as int);
        assert forall|j: int| 0 <= j < at - from implies rest[j] != c by {
            assert(rest[j] == s@[from + j]);
        }
        until_is_prefix(rest, c, at - from);
        assert(rest.take(at - from) =~= s@.subrange(from as int, at as int));
    }
    at
}

/// The part of `s` before the first `c`, or all of `s`.
pub fn before_char(s: &str, c: char) -> (r: &str)
    ensures
        r@ == until(s@, c),
{
    let chars = characters(s);
    let end = piece_end(&chars, c, 0);
    assert(s@.skip(0) =~= s@);
    s.substring_char(0, end)
}

/// The pieces of `s` between the occurrences of `c`.
pub fn split(s: &str, c: char) -> (r: Vec<String>)
    ensures
        texts(r@) == pieces(s@, c),
{
    let chars = characters(s);
    let mut out: Vec<String> = Vec::new();
    let mut from: usize = 0;
    assert(s@.skip(0) =~= s@);
    assert(texts(out@) + pieces(s@, c) =~= pieces(s@, c));
    loop
        invariant
            chars@ == s@,
            from <= chars@.len(),
            texts(out@) + pieces(s@.skip(from as int), c) == pieces(s@, c),
        decreases chars@.len() - from,
    {
        let end = piece_end(&chars, c, from);
        let piece = s.substring_char(from, end);
        let ghost done = out@;
        out.push(piece.to_owned());
        assert(texts(out@) =~= texts(done).push(piece@));
        let ghost rest = s@.skip(from as int);
        if end == chars.len() {
            assert(rest =~= piece@);
            assert(texts(out@) =~= texts(done) + seq![piece@]);
            return out;
        }
        assert(rest.skip(piece@.len() as int + 1) =~= s@.skip(end + 1));
        assert(texts(out@) + pieces(s@.skip(end + 1), c) =~= texts(done) + (seq![piece@] + pieces(
            s@.skip(end + 1),
            c,
        )));
        from = end + 1;
    }
}

/// The lines of `s`.
pub fn lines(s: &str) -> (r: Vec<String>)
    ensures
        texts(r@) == text_lines(s@),
{
    let chars = characters(s);
    let mut out: Vec<String> = Vec::new();
    let mut from: usize = 0;
    assert(s@.skip(0) =~= s@);
    assert(texts(out@) + text_lines(s@) =~= text_lines(s@));
    while from < chars.len()
        invariant
            chars@ == s@,
            from <= chars@.len(),
            texts(out@) + text_lines(s@.skip(from as int)) == text_lines(s@),
        decreases chars@.len() - from,
    {
        let end = piece_end(&chars, '\n', from);
        let ghost done = out@;
        let ghost rest = s@.skip(from as int);
        let ghost head = s@.subrange(from as int, end as int);
        if end == chars.len() {
            let line = s.substring_char(from, end);
            out.push(line.to_owned());
            assert(rest =~= line@);
            assert(texts(out@) =~= texts(done) + seq![line@]);
            return out;
        }
        let stop: usize = if end > from && chars[end - 1] == '\r' { end - 1 } else { end };
        let line = s.substring_char(from, stop);
        out.push(line.to_owned());
        assert(line@ =~= without_carriage_return(head));
        assert(rest.skip(head.len() as int + 1) =~= s@.skip(end + 1));
        assert(texts(out@) + text_lines(s@.skip(end + 1)) =~= texts(done) + (seq![line@]
            + text_lines(s@.skip(end + 1))));
        from = end + 1;
    }
    assert(s@.skip(from as int) =~= Seq::empty());
    assert(texts(out@) + text_lines(s@.skip(from as int)) =~= texts(out@));
    out
}

/// The value of a prefix of digits is at most the value of the whole.
proof fn digits_value_of_prefix(s: Seq<char>, n: int)
    requires
        0 <= n <= s.len(),
    ensures
        digits_value(s.take(n)) <= digits_value(s),
    decreases s.len() - n,
{
    if n == s.len() {
        assert(s.take(n) =~= s);
    } else {
        assert(s.take(n + 1).drop_last() =~= s.take(n));
        digits_value_of_prefix(s, n + 1);
    }
}

/// The unsigned number of at most `max` that `s` writes in decimal.
pub fn parse_unsigned(s: &str, max: u64) -> (r: Option<u64>)
    ensures
        match r {
            Some(n) => unsigned_value(s@, max as nat) == Some(n as nat),
            None => unsigned_value(s@, max as nat) is None,
        },
{
    let chars = characters(s);
    let start: usize = if chars.len() > 0 && chars[0] == '+' { 1 } else { 0 };
    let ghost body = s@.skip(start as int);
    assert(s@.skip(0) =~= s@);
    if start == chars.len() {
        return None;
    }
    let mut value: u64 = 0;
    let mut at: usize = start;
    assert(body.take(0) =~= Seq::empty());
    while at < chars.len()
        invariant
            chars@ == s@,
            start <= at <= chars@.len(),
            start < chars@.len(),
            start == (if s@.len() > 0 && s@[0] == '+' { 1int } else { 0 }),
            body == s@.skip(start as int),
            body == (if s@.len() > 0 && s@[0] == '+' { s@.drop_first() } else { s@ }),
            forall|j: int| 0 <= j < at - start ==> is_digit(body[j]),
            value == digits_value(body.take(at - start)),
            value <= max,
        decreases chars@.len() - at,
    {
        let digit: char = chars[at];
        let c: u32 = code_point(digit);
        let ghost k = at - start;
        assert(body[k] == s@[at as int]);
        if c < 48 || c > 57 {
            assert(!is_digit(body[k]));
            return None;
        }
        assert(body.take(k + 1).drop_last() =~= body.take(k));
        assert(body.take(k + 1).last() == body[k]);
        let next: u128 = value as u128 * 10 + (c - 48) as u128;
        if next > max as u128 {
            proof {
                digits_value_of_prefix(body, k + 1);
            }
            return None;
        }
        value = next as u64;
        at += 1;
    }
    assert(body.take(body.len() as int) =~= body);
    Some(value)
}

/// `n` written in decimal.
pub fn decimal(n: u64) -> (r: String)
    ensures
        r@ == decimal_text(n as nat),
    decreases n,
{
    let mut out = if n < 10 { String::new() } else { decimal(n / 10) };
    let digit: u8 = (n % 10) as u8;
    let c: char = (48 + digit) as char;
    let ghost head = out@;
    out.push(c);
    assert(head.push(c) =~= decimal_text(n as nat));
    out
}

/// Reading back a number written in decimal gives the number.
pub proof fn decimal_round_trip(n: nat, max: nat)
    requires
        n <= max,
    ensures
        unsigned_value(decimal_text(n), max) == Some(n),
{
    decimal_text_is_digits(n);
    let s = decimal_text(n);
    assert(is_digit(s[0]));
}

/// A number is written in decimal with digits alone, whose value it is.
pub proof fn decimal_text_is_digits(n: nat)
    ensures
        decimal_text(n).len() > 0,
        forall|i: int| 0 <= i < decimal_text(n).len() ==> is_digit(decimal_text(n)[i]),
        digits_value(decimal_text(n)) == n,
    decreases n,
{
    let s = decimal_text(n);
    if n >= 10 {
        decimal_text_is_digits(n / 10);
        assert(s.drop_last() =~= decimal_text(n / 10));
    } else {
        assert(s.drop_last() =~= Seq::empty());
        assert(digits_value(s.drop_last()) == 0);
    }
}

/// `s` with the lower case ASCII letters raised.
pub fn uppercase(s: &str) -> (r: String)
    ensures
        r@ == upper_text(s@),
{
    let chars = characters(s);
    let mut out = String::new();
    let mut i: usize = 0;
    while i < chars.len()
        invariant
            chars@ == s@,
            i <= chars@.len(),
            out@ == upper_text(s@.take(i as int)),
        decreases chars@.len() - i,
    {
        let c = chars[i];
        let u: u32 = code_point(c);
        let raised: char = if 97 <= u && u <= 122 { (u as u8 - 32) as char } else { c };
        assert(raised == upper_char(c));
        out.push(raised);
        assert(s@.take(i + 1) =~= s@.take(i as int).push(c));
        assert(upper_text(s@.take(i + 1)) =~= upper_text(s@.take(i as int)).push(raised));
        i += 1;
    }
    assert(s@.take(i as int) =~= s@);
    out
}

/// How two texts stand to each other.
#[derive(Clone, Copy, Debug, PartialEq, Eq, Structural)]
pub enum Placement {
    Before,
    Same,
    After,
}

/// Where `a` stands relative to `b` in the order of texts.
pub fn place(a: &str, b: &str) -> (r: Placement)
    ensures
        match r {
            Placement::Before => before(a@, b@),
            Placement::Same => a@ == b@,
            Placement::After => before(b@, a@),
        },
{
    let left = characters(a);
    let right = characters(b);
    let mut i: usize = 0;
    assert(a@.skip(0) =~= a@ && b@.skip(0) =~= b@);
    while i < left.len() && i < right.len()
        invariant
            left@ == a@,
            right@ == b@,
            i <= left@.len(),
            i <= right@.len(),
            a@.take(i as int) == b@.take(i as int),
            before(a@, b@) == before(a@.skip(i as int), b@.skip(i as int)),
            before(b@, a@) == before(b@.skip(i as int), a@.skip(i as int)),
        decreases left@.len() - i,
    {
        let left_char: char = left[i];
        let right_char: char = right[i];
        let x: u32 = code_point(left_char);
        let y: u32 = code_point(right_char);
        assert(a@.skip(i as int)[0] == a@[i as int]);
        assert(b@.skip(i as int)[0] == b@[i as int]);
        if x < y {
            return Placement::Before;
        }
        if y < x {
            return Placement::After;
        }
        assert(a@.skip(i as int).drop_first() =~= a@.skip(i + 1));
        assert(b@.skip(i as int).drop_first() =~= b@.skip(i + 1));
        assert(a@.take(i + 1) =~= a@.take(i as int).push(a@[i as int]));
        assert(b@.take(i + 1) =~= b@.take(i as int).push(b@[i as int]));
        i += 1;
    }
    if i < right.len() {
        Placement::Before
    } else if i < left.len() {
        Placement::After
    } else {
        assert(a@.take(i as int) =~= a@);
        assert(b@.take(i as int) =~= b@);
        Placement::Same
    }
}

/// Whether two texts are the same.
pub fn same(a: &str, b: &str) -> (r: bool)
    ensures
        r == (a@ == b@),
{
    let p = place(a, b);
    proof {
        before_is_irreflexive(a@);
    }
    match p {
        Placement::Same => true,
        _ => false,
    }
}

/// Whether `s` is among the strings of `list`.
pub fn listed(list: &Vec<String>, s: &str) -> (r: bool)
    ensures
        r == texts(list@).contains(s@),
{
    let mut i: usize = 0;
    while i < list.len()
        invariant
            i <= list@.len(),
            forall|j: int| 0 <= j < i ==> texts(list@)[j] != s@,
        decreases list@.len() - i,
    {
        if same(list[i].as_str(), s) {
            assert(texts(list@)[i as int] == s@);
            return true;
        }
        i += 1;
    }
    false
}

// ---- what holds of the parts of a text ----

/// White space is exactly these code points.
pub proof fn white_space_by_code_point(c: char)
    ensures
        white_space(c) <==> {
            let u = c as int;
            ||| u == 9 || u == 10 || u == 11 || u == 12 || u == 13
            ||| u == 32 || u == 133 || u == 160 || u == 5760
            ||| 8192 <= u && u <= 8202
            ||| u == 8232 || u == 8233 || u == 8239 || u == 8287 || u == 12288
        },
{
}

proof fn trimmed_start_is_a_tail(s: Seq<char>) -> (n: int)
    ensures
        0 <= n <= s.len(),
        trimmed_start(s) == s.skip(n),
        forall|k: int| 0 <= k < n ==> white_space(#[trigger] s[k]),
        n < s.len() ==> !white_space(s[n]),
    decreases s.len(),
{
    if s.len() > 0 && white_space(s[0]) {
        let rest = s.drop_first();
        let n = trimmed_start_is_a_tail(rest);
        assert(rest.skip(n) =~= s.skip(n + 1));
        assert forall|k: int| 0 <= k < n + 1 implies white_space(#[trigger] s[k]) by {
            if k > 0 {
                assert(rest[k - 1] == s[k]);
            }
        }
        n + 1
    } else {
        assert(s.skip(0) =~= s);
        0
    }
}

proof fn trimmed_end_is_a_head(s: Seq<char>) -> (n: int)
    ensures
        0 <= n <= s.len(),
        trimmed_end(s) == s.take(n),
        forall|k: int| n <= k < s.len() ==> white_space(#[trigger] s[k]),
        n > 0 ==> !white_space(s[n - 1]),
    decreases s.len(),
{
    if s.len() > 0 && white_space(s.last()) {
        let rest = s.drop_last();
        let n = trimmed_end_is_a_head(rest);
        assert(rest.take(n) =~= s.take(n));
        assert forall|k: int| n <= k < s.len() implies white_space(#[trigger] s[k]) by {
            if k < rest.len() {
                assert(rest[k] == s[k]);
            }
        }
        n
    } else {
        assert(s.take(s.len() as int) =~= s);
        s.len() as int
    }
}

/// Trimming keeps the part of a text that begins and ends with something other
/// than white space, and drops white space alone.
pub proof fn trimming_drops_outer_white_space(s: Seq<char>) -> (r: (int, int))
    ensures
        0 <= r.0 <= r.1 <= s.len(),
        trimmed(s) == s.subrange(r.0, r.1),
        forall|k: int| 0 <= k < r.0 || r.1 <= k < s.len() ==> white_space(#[trigger] s[k]),
        r.0 < r.1 ==> !white_space(s[r.0]) && !white_space(s[r.1 - 1]),
{
    let a = trimmed_start_is_a_tail(s);
    let tail = s.skip(a);
    let n = trimmed_end_is_a_head(tail);
    assert(tail.take(n) =~= s.subrange(a, a + n));
    assert forall|k: int| 0 <= k < a || a + n <= k < s.len() implies white_space(
        #[trigger] s[k],
    ) by {
        if k >= a + n {
            assert(tail[k - a] == s[k]);
        }
    }
    if n > 0 {
        assert(tail[n - 1] == s[a + n - 1]);
        assert(tail[0] == s[a]);
    }
    (a, a + n)
}

/// A text is blank exactly when it holds white space alone.
pub proof fn blank_is_white_space_alone(s: Seq<char>)
    ensures
        blank(s) <==> forall|k: int| 0 <= k < s.len() ==> white_space(#[trigger] s[k]),
{
    let (a, b) = trimming_drops_outer_white_space(s);
    if a < b {
        assert(!white_space(s[a]));
    }
}

/// A text is what is left of it without a trailing character, and a run of that
/// character; what is left does not end with it.
pub proof fn trailing_runs_are_dropped(s: Seq<char>, c: char)
    ensures
        without_trailing(s, c).len() <= s.len(),
        without_trailing(s, c) == s.take(without_trailing(s, c).len() as int),
        forall|k: int| without_trailing(s, c).len() <= k < s.len() ==> #[trigger] s[k] == c,
        without_trailing(s, c).len() > 0 ==> without_trailing(s, c).last() != c,
    decreases s.len(),
{
    if s.len() > 0 && s.last() == c {
        let rest = s.drop_last();
        trailing_runs_are_dropped(rest, c);
        let r = without_trailing(rest, c);
        assert(rest.take(r.len() as int) =~= s.take(r.len() as int));
        assert forall|k: int| r.len() <= k < s.len() implies #[trigger] s[k] == c by {
            if k < rest.len() {
                assert(rest[k] == s[k]);
            }
        }
    } else {
        assert(s.take(s.len() as int) =~= s);
    }
}

/// A pattern stands where its characters do.
pub proof fn occurrences_are_by_character(s: Seq<char>, pattern: Seq<char>, at: int)
    ensures
        occurs_at(s, pattern, at) <==> {
            &&& 0 <= at
            &&& at + pattern.len() <= s.len()
            &&& forall|k: int| 0 <= k < pattern.len() ==> s[at + k] == #[trigger] pattern[k]
        },
{
    if 0 <= at && at + pattern.len() <= s.len() {
        let part = s.subrange(at, at + pattern.len());
        if forall|k: int| 0 <= k < pattern.len() ==> s[at + k] == #[trigger] pattern[k] {
            assert(part =~= pattern);
        }
        if part == pattern {
            assert forall|k: int| 0 <= k < pattern.len() implies s[at + k] == #[trigger] pattern[k] by {
                assert(part[k] == s[at + k]);
            }
        }
    }
}

/// The search finds the first occurrence, and finds one where there is any.
pub proof fn the_first_occurrence_is_found(s: Seq<char>, pattern: Seq<char>, from: int)
    requires
        0 <= from,
    ensures
        match find_from(s, pattern, from) {
            Some(at) => {
                &&& from <= at
                &&& occurs_at(s, pattern, at)
                &&& forall|j: int| from <= j < at ==> !#[trigger] occurs_at(s, pattern, j)
            },
            None => forall|j: int| from <= j ==> !#[trigger] occurs_at(s, pattern, j),
        },
    decreases s.len() + 1 - from,
{
    if from + pattern.len() <= s.len() && !occurs_at(s, pattern, from) {
        the_first_occurrence_is_found(s, pattern, from + 1);
    }
}

/// A text holds a pattern exactly when it is something, the pattern, and
/// something more.
pub proof fn texts_hold_what_they_are_made_of(s: Seq<char>, pattern: Seq<char>)
    ensures
        has_text(s, pattern) <==> exists|a: Seq<char>, b: Seq<char>| s == #[trigger] (a + pattern + b),
{
    if has_text(s, pattern) {
        let at = choose|at: int| occurs_at(s, pattern, at);
        let a = s.take(at);
        let b = s.skip(at + pattern.len());
        occurrences_are_by_character(s, pattern, at);
        assert(s =~= a + pattern + b);
    }
    if exists|a: Seq<char>, b: Seq<char>| s == #[trigger] (a + pattern + b) {
        let (a, b) = choose|a: Seq<char>, b: Seq<char>| s == #[trigger] (a + pattern + b);
        assert(s.subrange(a.len() as int, a.len() as int + pattern.len()) =~= pattern);
        assert(occurs_at(s, pattern, a.len() as int));
    }
}

/// The part before a character holds none of it, and ends where the character
/// stands or where the text does.
pub proof fn the_part_before_ends_at_the_first(s: Seq<char>, c: char)
    ensures
        until(s, c).len() <= s.len(),
        until(s, c) == s.take(until(s, c).len() as int),
        !until(s, c).contains(c),
        until(s, c).len() < s.len() ==> s[until(s, c).len() as int] == c,
    decreases s.len(),
{
    if s.len() > 0 && s[0] != c {
        let rest = s.drop_first();
        let r = until(rest, c);
        the_part_before_ends_at_the_first(rest, c);
        let whole = until(s, c);
        assert(whole =~= s.take(whole.len() as int)) by {
            assert forall|k: int| 0 <= k < whole.len() implies whole[k] == s[k] by {
                if k > 0 {
                    assert(whole[k] == r[k - 1]);
                    assert(rest.take(r.len() as int)[k - 1] == rest[k - 1]);
                }
            }
        }
        if whole.contains(c) {
            let k = whole.index_of(c);
            assert(k > 0);
            assert(r[k - 1] == c);
        }
    } else {
        assert(s.take(0) =~= until(s, c));
    }
}

/// A text up to a character that it does not hold before is that text.
pub proof fn the_part_before_is_what_was_put_there(a: Seq<char>, c: char, b: Seq<char>)
    requires
        !a.contains(c),
        b.len() == 0 || b[0] == c,
    ensures
        until(a + b, c) == a,
    decreases a.len(),
{
    if a.len() > 0 {
        assert(a.contains(a[0]));
        let rest = a.drop_first();
        assert forall|k: int| 0 <= k < rest.len() implies rest[k] != c by {
            assert(a.contains(a[k + 1]));
        }
        the_part_before_is_what_was_put_there(rest, c, b);
        assert((a + b).drop_first() =~= rest + b);
        assert(seq![a[0]] + rest =~= a);
    } else {
        assert(a + b =~= b);
        assert(until(b, c) =~= a);
    }
}

/// A text without the separator is one piece; a text before a separator is a
/// piece, followed by the pieces of what is behind it.
pub proof fn pieces_stand_between_separators(a: Seq<char>, c: char, b: Seq<char>)
    requires
        !a.contains(c),
    ensures
        pieces(a, c) == seq![a],
        pieces(a + seq![c] + b, c) == seq![a] + pieces(b, c),
{
    the_part_before_is_what_was_put_there(a, c, Seq::empty());
    assert(a + Seq::<char>::empty() =~= a);
    let s = a + seq![c] + b;
    assert(s =~= a + (seq![c] + b));
    the_part_before_is_what_was_put_there(a, c, seq![c] + b);
    assert(s.skip(a.len() as int + 1) =~= b);
}

/// A text without a line feed is one line, unless it is empty; a text before a
/// line feed is a line, without the carriage return that may end it, followed
/// by the lines of what is behind it.
pub proof fn lines_end_with_line_feeds(a: Seq<char>, b: Seq<char>)
    requires
        !a.contains('\n'),
    ensures
        text_lines(Seq::empty()) == Seq::<Seq<char>>::empty(),
        a.len() > 0 ==> text_lines(a) == seq![a],
        a.len() == 0 || a.last() != '\r' ==> text_lines(a + seq!['\n'] + b) == seq![a]
            + text_lines(b),
        text_lines(a + seq!['\r', '\n'] + b) == seq![a] + text_lines(b),
{
    the_part_before_is_what_was_put_there(a, '\n', Seq::empty());
    assert(a + Seq::<char>::empty() =~= a);
    let s = a + seq!['\n'] + b;
    assert(s =~= a + (seq!['\n'] + b));
    the_part_before_is_what_was_put_there(a, '\n', seq!['\n'] + b);
    assert(s.skip(a.len() as int + 1) =~= b);
    let e = a.push('\r');
    let t = a + seq!['\r', '\n'] + b;
    assert(t =~= e + (seq!['\n'] + b));
    assert forall|k: int| 0 <= k < e.len() implies e[k] != '\n' by {
        if k < a.len() {
            assert(a.contains(a[k]));
        }
    }
    the_part_before_is_what_was_put_there(e, '\n', seq!['\n'] + b);
    assert(t.skip(e.len() as int + 1) =~= b);
    assert(e.drop_last() =~= a);
}

proof fn digits_value_of_push(s: Seq<char>, c: char)
    ensures
        digits_value(s.push(c)) == digits_value(s) * 10 + (c as int - 48) as nat,
{
    assert(s.push(c).drop_last() =~= s);
}

/// Numbers are written in the decimal system: one digit is worth itself, a
/// further digit adds to ten times what stands before it, and a leading plus
/// sign changes nothing.
pub proof fn numbers_are_positional(s: Seq<char>, c: char, max: nat)
    requires
        s.len() > 0,
        forall|k: int| 0 <= k < s.len() ==> 48 <= #[trigger] s[k] as int && s[k] as int <= 57,
        48 <= c as int <= 57,
    ensures
        c as int - 48 <= max ==> unsigned_value(seq![c], max) == Some((c as int - 48) as nat),
        c as int - 48 > max ==> unsigned_value(seq![c], max) is None,
        unsigned_value(seq!['+'] + s, max) == unsigned_value(s, max),
        match unsigned_value(s, max) {
            Some(v) => if v * 10 + (c as int - 48) <= max {
                unsigned_value(s.push(c), max) == Some((v * 10 + (c as int - 48)) as nat)
            } else {
                unsigned_value(s.push(c), max) is None
            },
            None => unsigned_value(s.push(c), max) is None,
        },
{
    assert(seq![c].drop_last() =~= Seq::<char>::empty());
    assert(digits_value(Seq::<char>::empty()) == 0);
    assert(all_digits(seq![c]));
    assert(s[0] as int != '+' as int);
    assert((seq!['+'] + s).drop_first() =~= s);
    assert(all_digits(s));
    digits_value_of_push(s, c);
    assert(s.push(c)[0] == s[0]);
    assert forall|k: int| 0 <= k < s.push(c).len() implies is_digit(#[trigger] s.push(c)[k]) by {
        if k < s.len() {
            assert(s.push(c)[k] == s[k]);
        }
    }
}

/// A text that holds anything but digits, beside a leading plus sign, is not a
/// number, and neither is one without digits.
pub proof fn other_texts_are_no_numbers(s: Seq<char>, max: nat, k: int)
    requires
        s.len() == 0 || s == seq!['+'] || 0 <= k < s.len() && !(48 <= s[k] as int <= 57) && !(k == 0
            && s[k] == '+'),
    ensures
        unsigned_value(s, max) is None,
{
    let body = if s.len() > 0 && s[0] == '+' {
        s.drop_first()
    } else {
        s
    };
    if s.len() > 0 && s != seq!['+'] {
        if s[0] == '+' {
            assert(body[k - 1] == s[k]);
            assert(!is_digit(body[k - 1]));
        } else {
            assert(!is_digit(body[k]));
        }
    } else if s == seq!['+'] {
        assert(body.len() == 0);
    }
}

/// A number is written without leading zeros, and a single digit is written as
/// itself.
pub proof fn numbers_are_written_without_leading_zeros(n: nat)
    ensures
        n < 10 ==> decimal_text(n).len() == 1 && decimal_text(n)[0] as int == 48 + n,
        n >= 10 ==> decimal_text(n).len() == decimal_text(n / 10).len() + 1
            && decimal_text(n).last() as int == 48 + n % 10,
        n > 0 ==> decimal_text(n)[0] as int != 48,
    decreases n,
{
    decimal_text_is_digits(n);
    if n >= 10 {
        numbers_are_written_without_leading_zeros(n / 10);
        assert(decimal_text(n)[0] == decimal_text(n / 10)[0]);
    }
}

/// Raising a text raises the letters `a` to `z` and leaves everything else.
pub proof fn only_small_letters_are_raised(s: Seq<char>, k: int)
    requires
        0 <= k < s.len(),
    ensures
        upper_text(s).len() == s.len(),
        97 <= s[k] as int <= 122 ==> upper_text(s)[k] as int == s[k] as int - 32,
        !(97 <= s[k] as int <= 122) ==> upper_text(s)[k] == s[k],
{
}

/// The order of texts is that of a dictionary: the first difference decides, and
/// a text comes before what it is the beginning of.
pub proof fn texts_stand_as_in_a_dictionary(p: Seq<char>, x: char, a: Seq<char>, y: char, b: Seq<char>)
    ensures
        (x as int) < (y as int) ==> before(p + seq![x] + a, p + seq![y] + b),
        before(p, p + seq![y] + b),
    decreases p.len(),
{
    let s = p + seq![x] + a;
    let t = p + seq![y] + b;
    if p.len() > 0 {
        let q = p.drop_first();
        texts_stand_as_in_a_dictionary(q, x, a, y, b);
        assert(s.drop_first() =~= q + seq![x] + a);
        assert(t.drop_first() =~= q + seq![y] + b);
        assert(s[0] == p[0] && t[0] == p[0]);
    } else {
        assert(s[0] == x && t[0] == y);
    }
}

/// A plus sign ahead of a number counts for nothing.
pub proof fn a_leading_plus_counts_for_nothing(s: Seq<char>, max: nat)
    requires
        s.len() == 0 || s[0] != '+',
    ensures
        unsigned_value(seq!['+'] + s, max) == unsigned_value(s, max),
{
    assert((seq!['+'] + s).drop_first() =~= s);
}

} // verus!
