use vstd::prelude::*;

use crate::text::{chars_of, push_char, trim, trimmed};

verus! {

/// `2^n`.
pub open spec fn two_pow(n: nat) -> nat
    decreases n,
{
    if n == 0 {
        1
    } else {
        2 * two_pow((n - 1) as nat)
    }
}

/// Reconnect delay after `attempt` failures: `base_ms · 2^min(attempt, 10)`,
/// saturating at `u64::MAX`, capped at `max_ms`.
pub open spec fn backoff_delay(attempt: u32, base_ms: u64, max_ms: u64) -> u64 {
    let factor = two_pow(if attempt < 10 { attempt as nat } else { 10 });
    let scaled: u64 = if base_ms * factor > u64::MAX { u64::MAX } else { (base_ms * factor) as u64 };
    if scaled <= max_ms { scaled } else { max_ms }
}

/// Base delay between reconnect attempts of the serial and BLE managers, in ms.
pub const RECONNECT_BASE_MS: u64 = 500;

/// Longest delay between reconnect attempts, in ms.
pub const RECONNECT_MAX_MS: u64 = 10_000;

/// Exponential back-off: `min(base_ms · 2^min(attempt, 10), max_ms)`, the product saturating.
pub fn backoff_delay_ms(attempt: u32, base_ms: u64, max_ms: u64) -> (d: u64)
    ensures
        d == backoff_delay(attempt, base_ms, max_ms),
{
    let exponent: u32 = if attempt < 10 { attempt } else { 10 };
    let mut factor: u64 = 1;
    let mut k: u32 = 0;
    while k < exponent
        invariant
            k <= exponent <= 10,
            factor == two_pow(k as nat),
            factor <= 1024,
        decreases exponent - k,
    {
        proof {
            lemma_two_pow_bound((k + 1) as nat);
        }
        factor = factor * 2;
        k = k + 1;
    }
    let scaled: u64 = match base_ms.checked_mul(factor) {
        Some(v) => v,
        None => u64::MAX,
    };
    if scaled <= max_ms {
        scaled
    } else {
        max_ms
    }
}

proof fn lemma_two_pow_bound(n: nat)
    requires
        n <= 10,
    ensures
        two_pow(n) <= 1024,
        two_pow(n) >= 1,
    decreases n,
{
    if n > 0 {
        lemma_two_pow_bound((n - 1) as nat);
        lemma_two_pow_monotone((n - 1) as nat, 9);
        assert(two_pow(9) == 512) by {
            reveal_with_fuel(two_pow, 10);
        }
    }
}

proof fn lemma_two_pow_monotone(a: nat, b: nat)
    requires
        a <= b,
    ensures
        two_pow(a) <= two_pow(b),
    decreases b,
{
    if a < b {
        lemma_two_pow_monotone(a, (b - 1) as nat);
    }
}

/// The back-off only grows with the number of failed attempts.
pub proof fn lemma_backoff_monotone(a: u32, b: u32, base_ms: u64, max_ms: u64)
    requires
        a <= b,
    ensures
        backoff_delay(a, base_ms, max_ms) <= backoff_delay(b, base_ms, max_ms),
{
    let ea: nat = if a < 10 { a as nat } else { 10 };
    let eb: nat = if b < 10 { b as nat } else { 10 };
    lemma_two_pow_monotone(ea, eb);
    let fa = two_pow(ea);
    let fb = two_pow(eb);
    assert(base_ms * fa <= base_ms * fb) by (nonlinear_arith)
        requires
            fa <= fb,
            base_ms >= 0,
    ;
}

/// The back-off never exceeds its cap, and is at least the base delay as long
/// as the cap allows it.
pub proof fn lemma_backoff_bounds(attempt: u32, base_ms: u64, max_ms: u64)
    ensures
        backoff_delay(attempt, base_ms, max_ms) <= max_ms,
        base_ms <= max_ms ==> base_ms <= backoff_delay(attempt, base_ms, max_ms),
{
    let e: nat = if attempt < 10 { attempt as nat } else { 10 };
    lemma_two_pow_bound(e);
    let f = two_pow(e);
    assert(base_ms <= base_ms * f) by (nonlinear_arith)
        requires
            f >= 1,
            base_ms >= 0,
    ;
}

/// The reconnect delays the managers use, written out: after 0, 1, 2, 3 and 4
/// failed attempts they wait 500, 1000, 2000, 4000 and 8000 ms, after five or
/// more the cap of 10 000 ms.
pub proof fn lemma_reconnect_delays(attempt: u32)
    ensures
        RECONNECT_BASE_MS == 500,
        RECONNECT_MAX_MS == 10_000,
        backoff_delay(attempt, 500, 10_000) == (if attempt == 0 {
            500u64
        } else if attempt == 1 {
            1000u64
        } else if attempt == 2 {
            2000u64
        } else if attempt == 3 {
            4000u64
        } else if attempt == 4 {
            8000u64
        } else {
            10_000u64
        }),
{
    reveal_with_fuel(two_pow, 6);
    assert(two_pow(5) == 32);
    if attempt >= 5 {
        let e: nat = if attempt < 10 { attempt as nat } else { 10 };
        lemma_two_pow_monotone(5, e);
        lemma_two_pow_bound(e);
    }
}

/// Each failed attempt doubles the delay until the tenth; from then on the
/// delay stays at `base_ms · 1024`, as long as the cap and the range of `u64`
/// leave room for it.
pub proof fn lemma_backoff_doubles(attempt: u32, base_ms: u64, max_ms: u64)
    requires
        base_ms * 1024 <= max_ms,
    ensures
        attempt < 10 ==> backoff_delay((attempt + 1) as u32, base_ms, max_ms) == 2
            * backoff_delay(attempt, base_ms, max_ms),
        attempt >= 10 ==> backoff_delay(attempt, base_ms, max_ms) == base_ms * 1024,
        backoff_delay(0, base_ms, max_ms) == base_ms,
{
    reveal_with_fuel(two_pow, 11);
    assert(two_pow(10) == 1024);
    let e: nat = if attempt < 10 { attempt as nat } else { 10 };
    lemma_two_pow_bound(e);
    let f = two_pow(e);
    assert(base_ms * f <= base_ms * 1024) by (nonlinear_arith)
        requires
            f <= 1024,
            base_ms >= 0,
    ;
    assert(two_pow(0) == 1);
    assert(base_ms * 1 == base_ms);
    if attempt < 10 {
        let e1: nat = (e + 1) as nat;
        lemma_two_pow_bound(e1);
        assert(two_pow(e1) == 2 * f);
        let g = two_pow(e1);
        assert(base_ms * g == 2 * (base_ms * f) && base_ms * g <= base_ms * 1024) by (nonlinear_arith)
            requires
                g == 2 * f,
                g <= 1024,
                base_ms >= 0,
        ;
        let a1: u32 = (attempt + 1) as u32;
        assert(e1 == (if a1 < 10 { a1 as nat } else { 10 }));
    }
}

/// The reconnect decisions of the serial and BLE managers: how many attempts
/// have failed since the last successful connection, and how long to wait
/// before the next one.
pub struct ReconnectSchedule {
    pub attempt: u32,
}

impl ReconnectSchedule {
    /// A schedule with no failed attempt yet.
    pub fn new() -> (s: Self)
        ensures
            s.attempt == 0,
    {
        ReconnectSchedule { attempt: 0 }
    }

    /// A connection was opened: the next failure starts the back-off afresh.
    pub fn connected(&mut self)
        ensures
            final(self).attempt == 0,
    {
        self.attempt = 0;
    }

    /// The current connection ended or could not be opened: counts the attempt
    /// (saturating) and returns how long to wait before the next one.
    pub fn next_delay_ms(&mut self) -> (d: u64)
        ensures
            final(self).attempt == old(self).attempt.saturating_add(1),
            d == backoff_delay(final(self).attempt, RECONNECT_BASE_MS, RECONNECT_MAX_MS),
            RECONNECT_BASE_MS <= d <= RECONNECT_MAX_MS,
    {
        self.attempt = self.attempt.saturating_add(1);
        proof {
            lemma_backoff_bounds(self.attempt, RECONNECT_BASE_MS, RECONNECT_MAX_MS);
        }
        backoff_delay_ms(self.attempt, RECONNECT_BASE_MS, RECONNECT_MAX_MS)
    }
}


/// What to do with the serial link after its configuration changed.
#[derive(Debug, Clone)]
pub enum SerialStart {
    /// The link is switched off.
    Disabled,
    /// The link is switched on but no port is named.
    NoPort,
    /// Open the named port.
    Open { port: String },
}

/// The serial link is opened when it is enabled and a port is named.
pub fn plan_serial_start(enabled: bool, port: Option<String>) -> (p: SerialStart)
    ensures
        !enabled ==> p is Disabled,
        enabled && port is None ==> p is NoPort,
        enabled && port is Some ==> (p matches SerialStart::Open { port: q } && q == port.unwrap()),
{
    if !enabled {
        return SerialStart::Disabled;
    }
    match port {
        Some(port) => SerialStart::Open { port },
        None => SerialStart::NoPort,
    }
}

/// Position of the first line feed in `s`, or `s.len()` when there is none.
pub open spec fn newline_index(s: Seq<char>) -> nat
    decreases s.len(),
{
    if s.len() == 0 {
        0
    } else if s[0] == '\n' {
        0
    } else {
        1 + newline_index(s.drop_first())
    }
}

proof fn lemma_newline_index(s: Seq<char>)
    ensures
        newline_index(s) <= s.len(),
        newline_index(s) < s.len() ==> s[newline_index(s) as int] == '\n',
        forall|j: int| 0 <= j < newline_index(s) ==> s[j] != '\n',
    decreases s.len(),
{
    if s.len() > 0 && s[0] != '\n' {
        lemma_newline_index(s.drop_first());
        assert forall|j: int| 0 <= j < newline_index(s) implies s[j] != '\n' by {
            if j > 0 {
                assert(s[j] == s.drop_first()[j - 1]);
            }
        }
    }
}

proof fn lemma_newline_index_is(s: Seq<char>, e: int)
    requires
        0 <= e <= s.len(),
        forall|j: int| 0 <= j < e ==> s[j] != '\n',
        e < s.len() ==> s[e] == '\n',
    ensures
        newline_index(s) == e,
    decreases s.len(),
{
    if s.len() > 0 && e > 0 {
        lemma_newline_index_is(s.drop_first(), e - 1);
    }
}

/// A line that ended in a line feed, without a carriage return before it.
pub open spec fn without_cr(line: Seq<char>) -> Seq<char> {
    if line.len() > 0 && line.last() == '\r' {
        line.drop_last()
    } else {
        line
    }
}

/// The lines of a text as `str::lines` gives them: split at each line feed,
/// a carriage return before the line feed removed, and no empty line after a
/// final line feed.
pub open spec fn text_lines(s: Seq<char>) -> Seq<Seq<char>>
    decreases s.len(),
{
    if s.len() == 0 {
        Seq::empty()
    } else if newline_index(s) >= s.len() {
        seq![s]
    } else {
        let i = newline_index(s) as int;
        seq![without_cr(s.take(i))] + text_lines(s.skip(i + 1))
    }
}

/// The lines of data received on the serial link that are not blank, each
/// holding one JSON packet.
pub open spec fn nonblank_lines(s: Seq<char>) -> Seq<Seq<char>> {
    text_lines(s).filter(|l: Seq<char>| trimmed(l).len() > 0)
}

/// The next line of `s` starting at `pos`: its text and where the line after it
/// starts.
fn next_line(s: &Vec<char>, pos: usize) -> (r: (String, usize))
    requires
        pos < s@.len(),
    ensures
        pos < r.1 <= s@.len(),
        text_lines(s@.skip(pos as int)) == seq![r.0@] + text_lines(s@.skip(r.1 as int)),
{
    let n = s.len();
    let ghost rest = s@.skip(pos as int);
    let mut end = pos;
    while end < n && s[end] != '\n'
        invariant
            n == s@.len(),
            rest == s@.skip(pos as int),
            pos <= end <= n,
            forall|j: int| pos <= j < end ==> s@[j] != '\n',
        decreases n - end,
    {
        end = end + 1;
    }
    let mut stop = end;
    if end < n && end > pos && s[end - 1] == '\r' {
        stop = end - 1;
    }
    let mut line = String::new();
    let mut k = pos;
    while k < stop
        invariant
            pos <= k <= stop <= n,
            n == s@.len(),
            line@ == s@.subrange(pos as int, k as int),
        decreases stop - k,
    {
        push_char(&mut line, s[k]);
        assert(line@ =~= s@.subrange(pos as int, k + 1));
        k = k + 1;
    }
    let next = if end < n { end + 1 } else { n };
    proof {
        assert forall|j: int| 0 <= j < end - pos implies rest[j] != '\n' by {
            assert(rest[j] == s@[pos + j]);
        }
        if end < n {
            assert(rest[end - pos] == '\n');
        }
        lemma_newline_index_is(rest, end - pos);
        if end < n {
            assert(rest.take(end - pos) =~= s@.subrange(pos as int, end as int));
            assert(rest.skip(end - pos + 1) =~= s@.skip(end + 1));
            assert(line@ =~= without_cr(rest.take(end - pos)));
        } else {
            assert(rest =~= s@.subrange(pos as int, n as int));
            assert(line@ =~= rest);
            assert(s@.skip(n as int) =~= Seq::<char>::empty());
        }
    }
    (line, next)
}

/// The lines of data received on the serial link that are not blank, each
/// holding one JSON packet.
pub fn packet_lines(text: &str) -> (lines: Vec<String>)
    ensures
        lines@.len() == nonblank_lines(text@).len(),
        forall|k: int| 0 <= k < lines@.len() ==> #[trigger] lines@[k]@ == nonblank_lines(text@)[k],
{
    let ghost keep = |l: Seq<char>| trimmed(l).len() > 0;
    let s = chars_of(text);
    let n = s.len();
    let mut lines: Vec<String> = Vec::new();
    let ghost mut done: Seq<Seq<char>> = Seq::empty();
    let mut pos: usize = 0;
    assert(s@.skip(0) =~= s@);
    while pos < n
        invariant
            n == s@.len(),
            s@ == text@,
            keep == (|l: Seq<char>| trimmed(l).len() > 0),
            pos <= n,
            text_lines(s@) == done + text_lines(s@.skip(pos as int)),
            lines@.len() == done.filter(keep).len(),
            forall|k: int| 0 <= k < lines@.len() ==> #[trigger] lines@[k]@ == done.filter(keep)[k],
        decreases n - pos,
    {
        let (line, next) = next_line(&s, pos);
        let ghost seg = line@;
        proof {
            assert(done.push(seg) + text_lines(s@.skip(next as int)) =~= done + (seq![seg]
                + text_lines(s@.skip(next as int))));
            reveal_with_fuel(Seq::filter, 1);
            assert(done.push(seg).drop_last() =~= done);
        }
        let t = trim(line.as_str());
        if !t.is_empty() {
            lines.push(line);
        }
        proof {
            done = done.push(seg);
        }
        pos = next;
    }
    assert(s@.skip(n as int) =~= Seq::<char>::empty());
    assert(done + Seq::<Seq<char>>::empty() =~= done);
    lines
}

/// No line of a text holds a line feed.
pub proof fn lemma_lines_hold_no_line_feed(s: Seq<char>)
    ensures
        forall|i: int, j: int|
            0 <= i < text_lines(s).len() && 0 <= j < text_lines(s)[i].len() ==> #[trigger] text_lines(
                s,
            )[i][j] != '\n',
    decreases s.len(),
{
    lemma_newline_index(s);
    if s.len() > 0 && newline_index(s) < s.len() {
        let k = newline_index(s) as int;
        lemma_lines_hold_no_line_feed(s.skip(k + 1));
        let first = without_cr(s.take(k));
        let rest = text_lines(s.skip(k + 1));
        assert(text_lines(s) == seq![first] + rest);
        assert forall|i: int, j: int|
            0 <= i < text_lines(s).len() && 0 <= j < text_lines(s)[i].len() implies #[trigger] text_lines(
            s,
        )[i][j] != '\n' by {
            if i == 0 {
                assert(first[j] == s[j]);
            } else {
                assert(text_lines(s)[i] == rest[i - 1]);
            }
        }
    }
}

/// Each line that `packet_lines` hands on is a single line that is not blank.
pub proof fn lemma_packet_lines_are_single_nonblank(s: Seq<char>)
    ensures
        forall|k: int|
            0 <= k < nonblank_lines(s).len() ==> trimmed(#[trigger] nonblank_lines(s)[k]).len() > 0
                && !nonblank_lines(s)[k].contains('\n'),
{
    let keep = |l: Seq<char>| trimmed(l).len() > 0;
    lemma_lines_hold_no_line_feed(s);
    assert forall|k: int| 0 <= k < nonblank_lines(s).len() implies trimmed(
        #[trigger] nonblank_lines(s)[k],
    ).len() > 0 && !nonblank_lines(s)[k].contains('\n') by {
        let line = nonblank_lines(s)[k];
        text_lines(s).lemma_filter_pred(keep, k);
        assert(nonblank_lines(s).contains(line));
        text_lines(s).lemma_filter_contains_rev(keep, line);
        let i = choose|i: int| 0 <= i < text_lines(s).len() && text_lines(s)[i] == line;
        if line.contains('\n') {
            let j = choose|j: int| 0 <= j < line.len() && line[j] == '\n';
            assert(text_lines(s)[i][j] != '\n');
        }
    }
}

} // verus!
