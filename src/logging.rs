use vstd::prelude::*;
use crate::common::{digit_char, int_text, nat_text, nat_to_text, padded_text, padded_to_text};
use crate::sensor::{SensorError, Value};

verus! {

/// No line break anywhere in `s`.
pub open spec fn no_newline(s: Seq<char>) -> bool {
    forall|i: int| 0 <= i < s.len() ==> s[i] != '\n'
}

/// One complete log line: a line break at the end and nowhere else.
pub open spec fn is_line(l: Seq<char>) -> bool {
    l.len() > 0 && l.last() == '\n' && no_newline(l.drop_last())
}

/// A temperature in millionths of a degree as fixed-point text, six decimals.
pub open spec fn micro_text(v: int) -> Seq<char> {
    let m: nat = if v < 0 {
        (-v) as nat
    } else {
        v as nat
    };
    (if v < 0 {
        seq!['-']
    } else {
        seq![]
    }) + nat_text(m / 1_000_000) + seq!['.'] + padded_text(m % 1_000_000, 6)
}

pub open spec fn entry_text(v: Result<i128, SensorError>) -> Seq<char> {
    match v {
        Ok(x) => micro_text(x as int),
        Err(SensorError::SensorUnavailable) => "unavailable"@,
        Err(SensorError::MalformedSensorData) => "malformed"@,
    }
}

/// `,<entry>` for each value, in order.
pub open spec fn entries_text(vals: Seq<Result<i128, SensorError>>) -> Seq<char>
    decreases vals.len(),
{
    if vals.len() == 0 {
        seq![]
    } else {
        entries_text(vals.drop_last()) + seq![','] + entry_text(vals.last())
    }
}

/// The log line for a snapshot taken at `timestamp`.
pub open spec fn log_line(timestamp: int, vals: Seq<Result<i128, SensorError>>) -> Seq<char> {
    int_text(timestamp) + entries_text(vals) + seq!['\n']
}

pub open spec fn snapshot_values(values: Seq<Value>) -> Seq<Result<i128, SensorError>> {
    values.map_values(|v: Value| v.value)
}

/// The log file after appending `lines` in order.
pub open spec fn joined(lines: Seq<Seq<char>>) -> Seq<char>
    decreases lines.len(),
{
    if lines.len() == 0 {
        seq![]
    } else {
        joined(lines.drop_last()) + lines.last()
    }
}

pub open spec fn newline_count(s: Seq<char>) -> nat
    decreases s.len(),
{
    if s.len() == 0 {
        0
    } else {
        newline_count(s.drop_last()) + if s.last() == '\n' {
            1nat
        } else {
            0nat
        }
    }
}

proof fn lemma_nat_text_no_newline(n: nat)
    ensures
        no_newline(nat_text(n)),
    decreases n,
{
    if n >= 10 {
        lemma_nat_text_no_newline(n / 10);
        let d = (n % 10) as int;
        assert(digit_char(d) != '\n');
    } else {
        assert(digit_char(n as int) != '\n');
    }
}

proof fn lemma_padded_no_newline(n: nat, k: nat)
    ensures
        no_newline(padded_text(n, k)),
    decreases k,
{
    if k > 0 {
        lemma_padded_no_newline(n / 10, (k - 1) as nat);
        assert(digit_char((n % 10) as int) != '\n');
    }
}

proof fn lemma_concat_no_newline(a: Seq<char>, b: Seq<char>)
    requires
        no_newline(a),
        no_newline(b),
    ensures
        no_newline(a + b),
{
    assert forall|i: int| 0 <= i < (a + b).len() implies (a + b)[i] != '\n' by {
        if i < a.len() {
            assert((a + b)[i] == a[i]);
        } else {
            assert((a + b)[i] == b[i - a.len()]);
        }
    }
}

proof fn lemma_entries_no_newline(vals: Seq<Result<i128, SensorError>>)
    ensures
        no_newline(entries_text(vals)),
    decreases vals.len(),
{
    if vals.len() > 0 {
        lemma_entries_no_newline(vals.drop_last());
        let e = entry_text(vals.last());
        match vals.last() {
            Ok(x) => {
                let v = x as int;
                let m: nat = if v < 0 {
                    (-v) as nat
                } else {
                    v as nat
                };
                lemma_nat_text_no_newline(m / 1_000_000);
                lemma_padded_no_newline(m % 1_000_000, 6);
                let sign: Seq<char> = if v < 0 {
                    seq!['-']
                } else {
                    seq![]
                };
                lemma_concat_no_newline(sign, nat_text(m / 1_000_000));
                lemma_concat_no_newline(sign + nat_text(m / 1_000_000), seq!['.']);
                lemma_concat_no_newline(
                    sign + nat_text(m / 1_000_000) + seq!['.'],
                    padded_text(m % 1_000_000, 6),
                );
            },
            Err(SensorError::SensorUnavailable) => {
                reveal_strlit("unavailable");
            },
            Err(SensorError::MalformedSensorData) => {
                reveal_strlit("malformed");
            },
        }
        lemma_concat_no_newline(entries_text(vals.drop_last()), seq![',']);
        lemma_concat_no_newline(entries_text(vals.drop_last()) + seq![','], e);
    }
}

/// Every log line is one complete line.
pub proof fn lemma_log_line_is_line(timestamp: int, vals: Seq<Result<i128, SensorError>>)
    ensures
        is_line(log_line(timestamp, vals)),
{
    let body = int_text(timestamp) + entries_text(vals);
    lemma_entries_no_newline(vals);
    if timestamp < 0 {
        lemma_nat_text_no_newline((-timestamp) as nat);
        lemma_concat_no_newline(seq!['-'], nat_text((-timestamp) as nat));
    } else {
        lemma_nat_text_no_newline(timestamp as nat);
    }
    lemma_concat_no_newline(int_text(timestamp), entries_text(vals));
    assert(log_line(timestamp, vals).drop_last() =~= body);
}

proof fn lemma_newline_count_concat(a: Seq<char>, b: Seq<char>)
    ensures
        newline_count(a + b) == newline_count(a) + newline_count(b),
    decreases b.len(),
{
    if b.len() > 0 {
        assert((a + b).drop_last() =~= a + b.drop_last());
        lemma_newline_count_concat(a, b.drop_last());
    } else {
        assert(a + b =~= a);
    }
}

proof fn lemma_line_count_one(l: Seq<char>)
    requires
        is_line(l),
    ensures
        newline_count(l) == 1,
{
    lemma_no_newline_count(l.drop_last());
}

proof fn lemma_no_newline_count(s: Seq<char>)
    requires
        no_newline(s),
    ensures
        newline_count(s) == 0,
    decreases s.len(),
{
    if s.len() > 0 {
        assert(no_newline(s.drop_last()));
        lemma_no_newline_count(s.drop_last());
    }
}

/// Appending `k` complete lines to an empty log leaves exactly `k` lines in
/// it, and what the log held after any `j` of them is a prefix of what it
/// holds at the end: a reader never sees bytes that a later append changes.
pub proof fn lemma_appended_lines(lines: Seq<Seq<char>>, j: int)
    requires
        forall|i: int| 0 <= i < lines.len() ==> is_line(#[trigger] lines[i]),
        0 <= j <= lines.len(),
    ensures
        newline_count(joined(lines)) == lines.len(),
        joined(lines.take(j)).len() <= joined(lines).len(),
        joined(lines.take(j)) == joined(lines).take(joined(lines.take(j)).len() as int),
    decreases lines.len(),
{
    if lines.len() > 0 {
        let init = lines.drop_last();
        assert forall|i: int| 0 <= i < init.len() implies is_line(#[trigger] init[i]) by {
            assert(init[i] == lines[i]);
        }
        if j < lines.len() {
            assert(init.take(j) =~= lines.take(j));
            lemma_appended_lines(init, j);
            assert(joined(lines) == joined(init) + lines.last());
            assert(joined(init).take(joined(init.take(j)).len() as int) =~= joined(lines).take(
                joined(init.take(j)).len() as int,
            ));
        } else {
            lemma_appended_lines(init, 0);
            assert(lines.take(j) =~= lines);
            assert(joined(lines).take(joined(lines).len() as int) =~= joined(lines));
        }
        lemma_newline_count_concat(joined(init), lines.last());
        lemma_line_count_one(lines.last());
    } else {
        assert(lines.take(j) =~= lines);
        assert(joined(lines).take(0) =~= joined(lines));
    }
}

/// A temperature in millionths of a degree as text with six decimals.
pub fn micro_to_text(v: i128) -> (r: String)
    ensures
        r@ == micro_text(v as int),
{
    let m: u128 = if v < 0 {
        (-(v + 1)) as u128 + 1
    } else {
        v as u128
    };
    let mut s = if v < 0 {
        proof { reveal_strlit("-"); }
        String::from_str("-")
    } else {
        String::new()
    };
    let whole = nat_to_text(m / 1_000_000);
    s.append(whole.as_str());
    proof { reveal_strlit("."); }
    s.append(".");
    let frac = padded_to_text(m % 1_000_000, 6);
    s.append(frac.as_str());
    proof {
        let sign: Seq<char> = if v < 0 {
            seq!['-']
        } else {
            seq![]
        };
        assert(s@ =~= sign + nat_text((m / 1_000_000) as nat) + seq!['.'] + padded_text(
            (m % 1_000_000) as nat,
            6,
        ));
    }
    s
}

fn entry_to_text(v: Result<i128, SensorError>) -> (r: String)
    ensures
        r@ == entry_text(v),
{
    match v {
        Ok(x) => micro_to_text(x),
        Err(SensorError::SensorUnavailable) => String::from_str("unavailable"),
        Err(SensorError::MalformedSensorData) => String::from_str("malformed"),
    }
}

/// Render one log line: the timestamp, then `,` and each sensor's value in
/// order (six decimals, or the kind of error), then a line break.
pub fn format_log_line(timestamp: u64, values: &Vec<Value>) -> (r: String)
    ensures
        r@ == log_line(timestamp as int, snapshot_values(values@)),
        is_line(r@),
{
    let mut s = nat_to_text(timestamp as u128);
    let mut k: usize = 0;
    while k < values.len()
        invariant
            k <= values.len(),
            s@ == int_text(timestamp as int) + entries_text(
                snapshot_values(values@).take(k as int),
            ),
        decreases values.len() - k,
    {
        let ghost before = s@;
        proof { reveal_strlit(","); }
        s.append(",");
        let e = entry_to_text(values[k].value);
        s.append(e.as_str());
        proof {
            let vals = snapshot_values(values@);
            assert(vals.take(k + 1).drop_last() =~= vals.take(k as int));
            assert(vals.take(k + 1).last() == values@[k as int].value);
            assert(s@ =~= int_text(timestamp as int) + entries_text(vals.take(k + 1)));
        }
        k = k + 1;
    }
    proof { reveal_strlit("\n"); }
    s.append("\n");
    proof {
        let vals = snapshot_values(values@);
        assert(vals.take(k as int) =~= vals);
        assert(s@ =~= log_line(timestamp as int, vals));
        lemma_log_line_is_line(timestamp as int, vals);
    }
    s
}

/// What the logger does next.
#[derive(Clone, Copy, Debug, PartialEq, Eq, Structural)]
pub enum LoggerAction {
    /// Take a snapshot, append its line to the log, then wait one delay.
    Append,
    /// Leave the loop.
    Stop,
}

/// The logger's state: how many lines it has appended, and whether it was
/// asked to stop.
pub struct LoggerTask {
    pub cycles: u64,
    pub stopped: bool,
}

impl LoggerTask {
    pub fn new() -> (r: LoggerTask)
        ensures
            r.cycles == 0,
            !r.stopped,
    {
        LoggerTask { cycles: 0, stopped: false }
    }

    /// The decision at the start of a cycle. A cancellation stops the task
    /// for good; otherwise each cycle appends one line, until the count of
    /// cycles would overflow.
    pub fn next(&mut self, cancelled: bool) -> (r: LoggerAction)
        ensures
            r == (if old(self).stopped || cancelled || old(self).cycles == u64::MAX {
                LoggerAction::Stop
            } else {
                LoggerAction::Append
            }),
            final(self).stopped == (r == LoggerAction::Stop),
            final(self).cycles == old(self).cycles + if r == LoggerAction::Append {
                1int
            } else {
                0int
            },
    {
        if self.stopped || cancelled || self.cycles == u64::MAX {
            self.stopped = true;
            LoggerAction::Stop
        } else {
            self.cycles = self.cycles + 1;
            LoggerAction::Append
        }
    }
}

} // verus!
