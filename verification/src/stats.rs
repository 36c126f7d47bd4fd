//! One-shot run summary.
//!
//! A [`RunReporter`] is created at the start of a run and gives one [`RunSummary`] at its end,
//! for A/B comparisons of runs of known duration. How many records were uploaded comes from a
//! counter that an admin endpoint serves in the Prometheus text format; it is read at both ends
//! of the run.

use crate::decimal::saturated;
use crate::number::{count_reading, decimal_text, is_digit, law_written_counts_are_read_back, lemma_decimal_text, read_count, starts_with_char};
use crate::text::{chars_of, has_prefix, in_line, is_whitespace, law_text_without_gaps_is_one_word, law_white_space_parts_words, lemma_run_ends, lines, part, split_lines, split_words, whitespace, without_return, words};
use vstd::prelude::*;

verus! {

/// Where the brace stands that closes the labels which `s` begins inside of, and inside of a
/// quoted label value where `quoted` holds. A brace in a quoted value closes nothing, and a
/// backslash there takes the character behind it.
pub open spec fn closing_brace(s: Seq<char>, quoted: bool) -> Option<nat>
    decreases s.len(),
{
    if s.len() == 0 {
        None
    } else if !quoted && s[0] == '}' {
        Some(0)
    } else {
        let step: nat = if quoted && s[0] == '\\' && s.len() >= 2 {
            2
        } else {
            1
        };
        match closing_brace(s.skip(step as int), quoted != (s[0] == '"')) {
            None => None,
            Some(n) => Some(n + step),
        }
    }
}

/// What follows the labels of `line`, which stand behind the metric's name of `n` characters.
/// Nothing where there are no labels, or where they are not closed.
pub open spec fn behind_labels(line: Seq<char>, n: int) -> Option<Seq<char>> {
    if !starts_with_char(line.skip(n), '{') {
        None
    } else {
        match closing_brace(line.skip(n + 1), false) {
            None => None,
            Some(end) => Some(line.skip(n + 2 + end)),
        }
    }
}

/// Whether `tail` is what follows the labels of a sample line: `VALUE` or `VALUE TIMESTAMP`, with
/// white space before.
pub open spec fn is_sample_tail(tail: Seq<char>) -> bool {
    tail.len() > 0 && whitespace(tail[0]) && 1 <= words(tail).len() <= 2
}

/// The word of `line` that holds its value, where the metric's name has `n` characters.
///
/// In a line `NAME{labels} VALUE` or `NAME{labels} VALUE TIMESTAMP` it is the first word behind
/// the labels, whatever they hold. In any other line, such as one without labels, the words
/// alone tell: it is the one before the last of three or more, and the last of two.
pub open spec fn value_word(line: Seq<char>, n: int) -> Option<Seq<char>> {
    let all = words(line);
    match behind_labels(line, n) {
        Some(tail) if is_sample_tail(tail) => Some(words(tail)[0]),
        _ => if all.len() >= 3 {
            Some(all[all.len() - 2])
        } else if all.len() == 2 {
            Some(all[1])
        } else {
            None
        },
    }
}

/// Whether `line` begins with the metric `name` and either its labels or a space.
pub open spec fn names_metric(line: Seq<char>, name: Seq<char>) -> bool {
    let after = line.skip(name.len() as int);
    &&& name.is_prefix_of(line)
    &&& starts_with_char(after, '{') || starts_with_char(after, ' ')
}

/// The value that `line` gives for the metric `name`, if it gives one.
pub open spec fn sample(line: Seq<char>, name: Seq<char>) -> Option<u64> {
    if starts_with_char(line, '#') || !names_metric(line, name) {
        None
    } else {
        match value_word(line, name.len() as int) {
            None => None,
            Some(word) => count_reading(word),
        }
    }
}

/// The values that `lines` give for the metric `name`, in order.
pub open spec fn samples(lines: Seq<Seq<char>>, name: Seq<char>) -> Seq<u64>
    decreases lines.len(),
{
    if lines.len() == 0 {
        seq![]
    } else {
        let before = samples(lines.drop_last(), name);
        match sample(lines.last(), name) {
            None => before,
            Some(n) => before.push(n),
        }
    }
}

/// The sum of `values`.
pub open spec fn total(values: Seq<u64>) -> nat
    decreases values.len(),
{
    if values.len() == 0 {
        0
    } else {
        total(values.drop_last()) + values.last() as nat
    }
}

/// What `text` gives for the metric `name`: nothing, or the sum over all its label sets, cut to
/// what a `u64` holds.
pub open spec fn counter_reading(text: Seq<char>, name: Seq<char>) -> Option<u64> {
    let values = samples(lines(text), name);
    if values.len() == 0 {
        None
    } else {
        Some(saturated(total(values)))
    }
}

/// Where the brace stands that closes the labels which begin at `from`.
fn find_closing_brace(line: &Vec<char>, from: usize) -> (r: Option<usize>)
    requires
        from <= line@.len(),
    ensures
        match r {
            Some(at) => from <= at < line@.len() && closing_brace(line@.skip(from as int), false)
                == Some((at - from) as nat),
            None => closing_brace(line@.skip(from as int), false) is None,
        },
{
    let mut at: usize = from;
    let mut quoted: bool = false;
    while at < line.len()
        invariant
            from <= at <= line@.len(),
            closing_brace(line@.skip(from as int), false) == match closing_brace(
                line@.skip(at as int),
                quoted,
            ) {
                None => None,
                Some(n) => Some((n + (at - from)) as nat),
            },
        decreases line@.len() - at,
    {
        let ghost rest = line@.skip(at as int);
        let c: char = line[at];
        if !quoted && c == '}' {
            return Some(at);
        }
        let step: usize = if quoted && c == '\\' && line.len() - at >= 2 {
            2
        } else {
            1
        };
        assert(rest.skip(step as int) =~= line@.skip(at + step));
        quoted = quoted != (c == '"');
        at = at + step;
    }
    None
}

/// The words of what follows the labels, where that is as it should be in a sample line.
fn words_behind_labels(line: &Vec<char>, n: usize) -> (r: Option<Vec<Vec<char>>>)
    requires
        n < line@.len(),
    ensures
        match r {
            None => !(behind_labels(line@, n as int) matches Some(tail) && is_sample_tail(tail)),
            Some(found) => behind_labels(line@, n as int) matches Some(tail) && is_sample_tail(tail)
                && found@.map_values(|word: Vec<char>| word@) == words(tail),
        },
{
    let length: usize = line.len();
    if line[n] != '{' {
        return None;
    }
    match find_closing_brace(line, n + 1) {
        None => None,
        Some(at) => {
            let tail = part(line, at + 1, length);
            assert(tail@ =~= line@.skip(at + 1));
            if tail.len() == 0 || !is_whitespace(tail[0]) {
                return None;
            }
            let found = split_words(&tail);
            assert(found@.map_values(|word: Vec<char>| word@).len() == found@.len());
            if found.len() == 0 || found.len() > 2 {
                return None;
            }
            Some(found)
        },
    }
}

/// The value that `line` gives for the metric `name`, if it gives one.
fn read_sample(line: &Vec<char>, name: &Vec<char>) -> (r: Option<u64>)
    ensures
        r == sample(line@, name@),
{
    if line.len() > 0 && line[0] == '#' {
        return None;
    }
    if !has_prefix(line, name) {
        return None;
    }
    let n: usize = name.len();
    if n == line.len() || (line[n] != '{' && line[n] != ' ') {
        return None;
    }
    if let Some(found) = words_behind_labels(line, n) {
        assert(found@.map_values(|word: Vec<char>| word@)[0] == found@[0]@);
        return read_count(&found[0]);
    }
    let parts = split_words(line);
    let ghost ws = words(line@);
    assert(parts@.map_values(|word: Vec<char>| word@) == ws);
    assert(parts@.len() == ws.len());
    if parts.len() < 2 {
        return None;
    }
    let at: usize = if parts.len() >= 3 {
        parts.len() - 2
    } else {
        1
    };
    assert(parts@.map_values(|word: Vec<char>| word@)[at as int] == parts@[at as int]@);
    read_count(&parts[at])
}

/// Reads the counter `name` out of a text in the Prometheus format.
///
/// A line such as `log_records_uploaded{set="otap.exporter.geneva"} 31000 1777581738705` gives
/// the counter for one label set; the values of all label sets are summed.
pub fn parse_prom_counter(text: &str, name: &str) -> (r: Option<u64>)
    ensures
        r == counter_reading(text@, name@),
{
    let chars = chars_of(text);
    let name_chars = chars_of(name);
    let split = split_lines(&chars);
    let ghost ls = lines(text@);
    assert(split@.map_values(|line: Vec<char>| line@) == ls);
    assert(split@.len() == ls.len());
    let mut sum: u64 = 0;
    let mut found: bool = false;
    let mut i: usize = 0;
    assert(ls.take(0) =~= Seq::<Seq<char>>::empty());
    while i < split.len()
        invariant
            split@.map_values(|line: Vec<char>| line@) == ls,
            split@.len() == ls.len(),
            name_chars@ == name@,
            i <= split@.len(),
            sum == saturated(total(samples(ls.take(i as int), name@))),
            found == (samples(ls.take(i as int), name@).len() > 0),
        decreases split@.len() - i,
    {
        proof {
            assert(split@.map_values(|line: Vec<char>| line@)[i as int] == split@[i as int]@);
            assert(ls.take(i + 1).drop_last() =~= ls.take(i as int));
            assert(ls.take(i + 1).last() == split@[i as int]@);
            let before = samples(ls.take(i as int), name@);
            assert forall|n: u64| #[trigger] total(before.push(n)) == total(before) + n by {
                assert(before.push(n).drop_last() =~= before);
            }
        }
        if let Some(n) = read_sample(&split[i], &name_chars) {
            sum = sum.saturating_add(n);
            found = true;
        }
        i = i + 1;
    }
    assert(ls.take(i as int) =~= ls);
    if found {
        Some(sum)
    } else {
        None
    }
}

/// The path under which the admin endpoint serves its counters.
pub const METRICS_PATH: &'static str = "/api/v1/telemetry/metrics/aggregate";

/// The counter that tells how many records were uploaded.
pub const RECORDS_COUNTER: &'static str = "log_records_uploaded";

/// What ends the head of an HTTP response: an empty line.
pub open spec fn head_end() -> Seq<char> {
    seq!['\r', '\n', '\r', '\n']
}

/// The body of an HTTP response: what follows the first empty line.
pub open spec fn body_of(response: Seq<char>) -> Option<Seq<char>>
    decreases response.len(),
{
    if head_end().is_prefix_of(response) {
        Some(response.skip(4))
    } else if response.len() == 0 {
        None
    } else {
        body_of(response.skip(1))
    }
}

/// A GET request for `path` to the host `addr`.
pub open spec fn get_request(addr: Seq<char>, path: Seq<char>) -> Seq<char> {
    "GET "@ + path + " HTTP/1.0\r\nHost: "@ + addr
        + "\r\nUser-Agent: df_engine-stats\r\nConnection: close\r\nAccept: text/plain\r\n\r\n"@
}

/// Writes the GET request for `path` that is sent to `addr`.
pub fn http_request(addr: &str, path: &str) -> (r: String)
    ensures
        r@ == get_request(addr@, path@),
{
    let mut request = "GET ".to_owned();
    request.append(path);
    request.append(" HTTP/1.0\r\nHost: ");
    request.append(addr);
    request.append(
        "\r\nUser-Agent: df_engine-stats\r\nConnection: close\r\nAccept: text/plain\r\n\r\n",
    );
    request
}

/// The body of an HTTP response, if its head has come to an end.
pub fn response_body(response: &str) -> (r: Option<String>)
    ensures
        r is Some == body_of(response@) is Some,
        r matches Some(body) ==> body@ == body_of(response@)->0,
{
    let chars = chars_of(response);
    let mut i: usize = 0;
    assert(chars@.skip(0) =~= response@);
    while i < chars.len()
        invariant
            chars@ == response@,
            i <= chars@.len(),
            body_of(chars@.skip(i as int)) == body_of(response@),
        decreases chars@.len() - i,
    {
        let ghost rest = chars@.skip(i as int);
        assert(rest.skip(1) =~= chars@.skip(i + 1));
        if chars.len() - i >= 4 && chars[i] == '\r' && chars[i + 1] == '\n' && chars[i + 2] == '\r'
            && chars[i + 3] == '\n' {
            assert(rest.subrange(0, 4) =~= head_end());
            let body = response.substring_char(i + 4, chars.len());
            assert(body@ =~= rest.skip(4));
            return Some(body.to_owned());
        }
        proof {
            if head_end().is_prefix_of(rest) {
                let h = rest.subrange(0, 4);
                assert(h == head_end());
                assert(h[0] == rest[0] && h[1] == rest[1] && h[2] == rest[2] && h[3] == rest[3]);
            }
        }
        i = i + 1;
    }
    assert(chars@.skip(i as int) =~= Seq::<char>::empty());
    None
}

/// The number of records uploaded, out of the admin endpoint's response.
pub open spec fn records_in(response: Seq<char>) -> Option<u64> {
    match body_of(response) {
        None => None,
        Some(body) => counter_reading(body, RECORDS_COUNTER@),
    }
}

/// Reads the number of records uploaded out of the admin endpoint's response.
pub fn records_in_response(response: &str) -> (r: Option<u64>)
    ensures
        r == records_in(response@),
{
    match response_body(response) {
        None => None,
        Some(body) => parse_prom_counter(body.as_str(), RECORDS_COUNTER),
    }
}

/// The request that asks the admin endpoint at `addr` for its counters.
pub fn records_request(addr: &str) -> (r: String)
    ensures
        r@ == get_request(addr@, METRICS_PATH@),
{
    http_request(addr, METRICS_PATH)
}

/// Memory counters of the process, in bytes.
#[derive(Clone, Copy, Debug, PartialEq, Eq, Structural)]
pub struct MemorySnapshot {
    /// The working set when sampled.
    pub working_set: u64,
    /// The private working set when sampled.
    pub private_working_set: u64,
    /// The largest working set since the process started.
    pub peak_working_set: u64,
}

impl Default for MemorySnapshot {
    fn default() -> (r: Self)
        ensures
            r == (MemorySnapshot { working_set: 0, private_working_set: 0, peak_working_set: 0 }),
    {
        MemorySnapshot { working_set: 0, private_working_set: 0, peak_working_set: 0 }
    }
}

/// What the operating system reports of the process's memory.
#[derive(Clone, Copy, Debug, PartialEq, Eq, Structural)]
pub struct ReportedMemory {
    /// The largest working set since the process started.
    pub peak_working_set_size: usize,
    /// The working set.
    pub working_set_size: usize,
    /// The private working set.
    pub private_working_set_size: usize,
}

impl MemorySnapshot {
    /// The counters that were reported, or zeros where the operating system's call returned zero
    /// for a failure.
    pub fn from_report(returned: i32, report: &ReportedMemory) -> (r: Self)
        ensures
            returned == 0 ==> r == (MemorySnapshot {
                working_set: 0,
                private_working_set: 0,
                peak_working_set: 0,
            }),
            returned != 0 ==> r == (MemorySnapshot {
                working_set: report.working_set_size as u64,
                private_working_set: report.private_working_set_size as u64,
                peak_working_set: report.peak_working_set_size as u64,
            }),
    {
        if returned == 0 {
            MemorySnapshot::default()
        } else {
            MemorySnapshot {
                working_set: report.working_set_size as u64,
                private_working_set: report.private_working_set_size as u64,
                peak_working_set: report.peak_working_set_size as u64,
            }
        }
    }
}

/// What a run came to.
#[derive(Clone, Copy, Debug, PartialEq, Eq, Structural)]
pub struct RunSummary {
    /// How long the run took, in nanoseconds.
    pub wall_nanos: u128,
    /// The CPU time that it took, in nanoseconds.
    pub cpu_nanos: u128,
    /// The memory at its end.
    pub memory: MemorySnapshot,
    /// How many records it uploaded, where both readings of the counter allow to tell.
    pub records: Option<u64>,
}

/// How far the counter went from `start` to `end`: unknown where it was not read, or went back.
pub open spec fn records_between(start: Option<u64>, end: Option<u64>) -> Option<u64> {
    match (start, end) {
        (Some(s), Some(e)) => if e >= s {
            Some((e - s) as u64)
        } else {
            None
        },
        _ => None,
    }
}

/// Gives the summary of a run, once.
pub struct RunReporter {
    start_records: Option<u64>,
    admin_bind: String,
    printed: bool,
}

impl RunReporter {
    /// What the counter was at the start of the run.
    pub closed spec fn start_records(&self) -> Option<u64> {
        self.start_records
    }

    /// Where the admin endpoint listens.
    pub closed spec fn admin_bind(&self) -> Seq<char> {
        self.admin_bind@
    }

    /// Whether the summary has been given.
    pub closed spec fn printed(&self) -> bool {
        self.printed
    }

    /// Starts a run whose admin endpoint listens at `admin_bind`.
    ///
    /// `fetched` is what the counter was read as. At process start the endpoint does not listen
    /// yet, so that reading normally fails; the counter is zero at that moment, and a failed
    /// reading counts as zero.
    #[must_use]
    pub fn new(admin_bind: String, fetched: Option<u64>) -> (r: Self)
        ensures
            r.admin_bind() == admin_bind@,
            r.start_records() == Some(
                match fetched {
                    Some(n) => n,
                    None => 0u64,
                },
            ),
            !r.printed(),
    {
        let records: u64 = match fetched {
            Some(n) => n,
            None => 0,
        };
        Self { start_records: Some(records), admin_bind, printed: false }
    }

    /// Where the admin endpoint listens.
    pub fn address(&self) -> (r: &str)
        ensures
            r@ == self.admin_bind(),
    {
        self.admin_bind.as_str()
    }

    /// Writes the request that reads the counter.
    pub fn records_request(&self) -> (r: String)
        ensures
            r@ == get_request(self.admin_bind(), METRICS_PATH@),
    {
        records_request(self.admin_bind.as_str())
    }

    /// Takes the right to print the summary: the first call gets it, no later one does.
    pub fn claim(&mut self) -> (first: bool)
        ensures
            first == !old(self).printed(),
            final(self).printed(),
            final(self).start_records() == old(self).start_records(),
            final(self).admin_bind() == old(self).admin_bind(),
    {
        let first = !self.printed;
        self.printed = true;
        first
    }

    /// The summary of the run, which took `wall_nanos` and `cpu_nanos` and left the counter at
    /// `fetched`.
    pub fn summary(
        &self,
        wall_nanos: u128,
        cpu_nanos: u128,
        fetched: Option<u64>,
        memory: MemorySnapshot,
    ) -> (r: RunSummary)
        ensures
            r == (RunSummary {
                wall_nanos,
                cpu_nanos,
                memory,
                records: records_between(self.start_records(), fetched),
            }),
    {
        let records: Option<u64> = match (self.start_records, fetched) {
            (Some(s), Some(e)) => if e >= s {
                Some(e - s)
            } else {
                None
            },
            _ => None,
        };
        RunSummary { wall_nanos, cpu_nanos, memory, records }
    }
}

/// The values of one part of a text and those of the rest are the values of the whole.
pub proof fn lemma_samples_concat(a: Seq<Seq<char>>, b: Seq<Seq<char>>, name: Seq<char>)
    ensures
        samples(a + b, name) == samples(a, name) + samples(b, name),
    decreases b.len(),
{
    if b.len() == 0 {
        assert(a + b =~= a);
        assert(samples(a, name) + samples(b, name) =~= samples(a, name));
    } else {
        lemma_samples_concat(a, b.drop_last(), name);
        assert((a + b).drop_last() =~= a + b.drop_last());
        assert((a + b).last() == b.last());
        assert(samples(a + b, name) =~= samples(a, name) + samples(b, name));
    }
}

/// The sum of two lists of values together.
pub proof fn lemma_total_concat(a: Seq<u64>, b: Seq<u64>)
    ensures
        total(a + b) == total(a) + total(b),
    decreases b.len(),
{
    if b.len() == 0 {
        assert(a + b =~= a);
    } else {
        lemma_total_concat(a, b.drop_last());
        assert((a + b).drop_last() =~= a + b.drop_last());
    }
}

/// The lines of a text that is cut behind a line feed are those of its two parts.
pub proof fn lemma_lines_concat(a: Seq<char>, b: Seq<char>)
    requires
        a.len() == 0 || a.last() == '\n',
    ensures
        lines(a + b) == lines(a) + lines(b),
    decreases a.len(),
{
    if a.len() == 0 {
        assert(a + b =~= b);
        assert(lines(a) + lines(b) =~= lines(b));
    } else {
        let n = first_feed(a, 0);
        lemma_run_ends(a, in_line(), n as nat);
        lemma_run_ends(a + b, in_line(), n as nat);
        let rest = a.skip(n + 1);
        assert((a + b).take(n) =~= a.take(n));
        assert((a + b).skip(n + 1) =~= rest + b);
        lemma_lines_concat(rest, b);
        let first = without_return(a.take(n));
        assert(lines(a) == seq![first] + lines(rest));
        assert(lines(a + b) == seq![first] + lines(rest + b));
        assert(seq![first] + (lines(rest) + lines(b)) =~= (seq![first] + lines(rest)) + lines(b));
    }
}

/// Where the first line feed stands in a text that ends with one.
proof fn first_feed(a: Seq<char>, from: int) -> (n: int)
    requires
        0 <= from < a.len(),
        a.last() == '\n',
        forall|i: int| 0 <= i < from ==> a[i] != '\n',
    ensures
        from <= n < a.len(),
        a[n] == '\n',
        forall|i: int| 0 <= i < n ==> a[i] != '\n',
    decreases a.len() - from,
{
    if a[from] == '\n' {
        from
    } else {
        first_feed(a, from + 1)
    }
}

/// The counter of a text that is cut behind a line feed is the sum of the counters of its parts;
/// a part without the counter adds nothing.
pub proof fn law_counter_sums_parts(a: Seq<char>, b: Seq<char>, name: Seq<char>)
    requires
        a.len() == 0 || a.last() == '\n',
    ensures
        counter_reading(a + b, name) == match (counter_reading(a, name), counter_reading(b, name)) {
            (Some(x), Some(y)) => Some(saturated((x + y) as nat)),
            (Some(x), None) => Some(x),
            (None, y) => y,
        },
{
    lemma_lines_concat(a, b);
    lemma_samples_concat(lines(a), lines(b), name);
    lemma_total_concat(samples(lines(a), name), samples(lines(b), name));
    let va = samples(lines(a), name);
    let vb = samples(lines(b), name);
    if va.len() == 0 {
        assert(va + vb =~= vb);
    } else if vb.len() == 0 {
        assert(va + vb =~= va);
    }
}

/// A line and the line feed behind it are one line.
proof fn lemma_one_line(line: Seq<char>)
    requires
        forall|i: int| 0 <= i < line.len() ==> line[i] != '\n',
    ensures
        lines(line + seq!['\n']) == seq![without_return(line)],
{
    let ended = line + seq!['\n'];
    let n = line.len() as int;
    assert forall|i: int| 0 <= i < n implies in_line()(#[trigger] ended[i]) by {
        assert(ended[i] == line[i]);
    }
    lemma_run_ends(ended, in_line(), line.len());
    assert(ended.take(n) =~= line);
    assert(ended.skip(n + 1) =~= Seq::<char>::empty());
    assert(lines(ended.skip(n + 1)) =~= Seq::<Seq<char>>::empty());
    assert(lines(ended) == seq![without_return(ended.take(n))] + lines(ended.skip(n + 1)));
    assert(lines(ended) =~= seq![without_return(line)]);
}

/// A line that gives no value makes up no counter.
proof fn lemma_one_line_without_value(line: Seq<char>, name: Seq<char>)
    requires
        sample(line, name) is None,
    ensures
        samples(seq![line], name).len() == 0,
{
    let one = seq![line];
    assert(one.last() == line);
    assert(one.drop_last() =~= Seq::<Seq<char>>::empty());
    assert(samples(one.drop_last(), name).len() == 0);
}

/// A whole line that gives no value for the counter, such as a comment, does not change it,
/// wherever it is put between other lines.
pub proof fn law_other_lines_do_not_count(
    before: Seq<char>,
    line: Seq<char>,
    after: Seq<char>,
    name: Seq<char>,
)
    requires
        before.len() == 0 || before.last() == '\n',
        forall|i: int| 0 <= i < line.len() ==> line[i] != '\n',
        sample(without_return(line), name) is None,
    ensures
        counter_reading(before + line + seq!['\n'] + after, name) == counter_reading(
            before + after,
            name,
        ),
{
    let ended = line + seq!['\n'];
    assert(counter_reading(ended, name) is None) by {
        lemma_one_line(line);
        lemma_one_line_without_value(without_return(line), name);
    }
    assert(before + line + seq!['\n'] + after =~= before + (ended + after));
    law_counter_sums_parts(before, ended + after, name);
    law_counter_sums_parts(ended, after, name);
    law_counter_sums_parts(before, after, name);
}

/// A line gives the first word behind the metric's name and its labels, whatever they hold; a
/// timestamp may follow.
pub proof fn law_value_follows_the_labels(name: Seq<char>, labels: Seq<char>, tail: Seq<char>)
    requires
        !starts_with_char(name, '#'),
        closing_brace(labels + seq!['}'] + tail, false) == Some(labels.len()),
        is_sample_tail(tail),
    ensures
        sample(name + seq!['{'] + labels + seq!['}'] + tail, name) == count_reading(words(tail)[0]),
{
    let line = name + seq!['{'] + labels + seq!['}'] + tail;
    let n = name.len() as int;
    assert(line.skip(n)[0] == '{');
    assert(line.skip(n + 1) =~= labels + seq!['}'] + tail);
    assert(line.skip(n + 2 + labels.len()) =~= tail);
    assert(line.subrange(0, n) =~= name);
    assert(line[0] == if name.len() > 0 {
        name[0]
    } else {
        '{'
    });
}

/// What a line in that form gives does not depend on its labels.
pub proof fn law_labels_do_not_matter(
    name: Seq<char>,
    labels: Seq<char>,
    others: Seq<char>,
    tail: Seq<char>,
)
    requires
        !starts_with_char(name, '#'),
        closing_brace(labels + seq!['}'] + tail, false) == Some(labels.len()),
        closing_brace(others + seq!['}'] + tail, false) == Some(others.len()),
        is_sample_tail(tail),
    ensures
        sample(name + seq!['{'] + labels + seq!['}'] + tail, name) == sample(
            name + seq!['{'] + others + seq!['}'] + tail,
            name,
        ),
{
    law_value_follows_the_labels(name, labels, tail);
    law_value_follows_the_labels(name, others, tail);
}

/// A comment gives no value for any counter.
pub proof fn law_comments_give_no_value(line: Seq<char>, name: Seq<char>)
    requires
        starts_with_char(line, '#'),
    ensures
        sample(line, name) is None,
{
}

/// The response to a request, whatever its head, gives what its body gives, as long as the head
/// itself holds no empty line.
pub proof fn law_body_follows_head(head: Seq<char>, body: Seq<char>)
    requires
        forall|i: int|
            0 <= i < head.len() ==> !head_end().is_prefix_of(
                #[trigger] (head + head_end() + body).skip(i),
            ),
    ensures
        body_of(head + head_end() + body) == Some(body),
    decreases head.len(),
{
    let whole = head + head_end() + body;
    if head.len() == 0 {
        assert(whole.subrange(0, 4) =~= head_end());
        assert(whole.skip(4) =~= body);
    } else {
        assert(whole.skip(0) =~= whole);
        let rest = head.skip(1);
        assert(whole.skip(1) =~= rest + head_end() + body);
        assert forall|i: int| 0 <= i < rest.len() implies !head_end().is_prefix_of(
            #[trigger] (rest + head_end() + body).skip(i),
        ) by {
            assert((rest + head_end() + body).skip(i) =~= whole.skip(i + 1));
        }
        law_body_follows_head(rest, body);
    }
}

/// A counter that never goes back tells how many records were uploaded from any reading to any
/// later one, and readings in between add up.
pub proof fn law_uploads_add_up(start: u64, middle: u64, end: u64)
    requires
        start <= middle <= end,
    ensures
        records_between(Some(start), Some(end)) == Some((records_between(
            Some(start),
            Some(middle),
        )->0 + records_between(Some(middle), Some(end))->0) as u64),
{
}

/// Whether an empty line ends a head at `i`: two carriage returns with their line feeds.
spec fn empty_line_at(s: Seq<char>, i: int) -> bool {
    0 <= i && i + 4 <= s.len() && s[i] == '\r' && s[i + 1] == '\n' && s[i + 2] == '\r' && s[i + 3]
        == '\n'
}

/// Where an empty line is found.
proof fn lemma_empty_line(s: Seq<char>, i: int)
    requires
        0 <= i <= s.len(),
    ensures
        head_end().is_prefix_of(s.skip(i)) == empty_line_at(s, i),
{
    let t = s.skip(i);
    if head_end().is_prefix_of(t) {
        let h = t.subrange(0, 4);
        assert(h == head_end());
        assert(h[0] == s[i] && h[1] == s[i + 1] && h[2] == s[i + 2] && h[3] == s[i + 3]);
    }
    if empty_line_at(s, i) {
        assert(t.subrange(0, 4) =~= head_end());
    }
}

/// The body of a response is all that follows its first empty line, however long it is and
/// whatever it holds.
pub proof fn law_body_is_all_behind_the_head(
    response: &str,
    head: Seq<char>,
    body: Seq<char>,
    r: Option<String>,
)
    requires
        call_ensures(response_body, (response,), r),
        response@ == head + seq!['\r', '\n', '\r', '\n'] + body,
        forall|i: int|
            0 <= i < head.len() ==> !(#[trigger] response@[i] == '\r' && response@[i + 1] == '\n'
                && response@[i + 2] == '\r' && response@[i + 3] == '\n'),
    ensures
        r matches Some(text) && text@ == body,
{
    let whole = head + head_end() + body;
    assert(whole =~= response@);
    assert forall|i: int| 0 <= i < head.len() implies !head_end().is_prefix_of(
        #[trigger] whole.skip(i),
    ) by {
        lemma_empty_line(whole, i);
        assert(response@[i] == whole[i]);
    }
    law_body_follows_head(head, body);
}

/// A response without an empty line has no body, and no number of records.
pub proof fn law_no_body_without_an_empty_line(
    response: &str,
    r: Option<String>,
    records: Option<u64>,
)
    requires
        call_ensures(response_body, (response,), r),
        call_ensures(records_in_response, (response,), records),
        forall|i: int|
            0 <= i && i + 4 <= response@.len() ==> !(#[trigger] response@[i] == '\r' && response@[i
                + 1] == '\n' && response@[i + 2] == '\r' && response@[i + 3] == '\n'),
    ensures
        r is None,
        records is None,
{
    lemma_no_empty_line(response@, 0);
    assert(response@.skip(0) =~= response@);
}

/// The search for a body that is not there.
proof fn lemma_no_empty_line(s: Seq<char>, from: int)
    requires
        0 <= from <= s.len(),
        forall|i: int|
            0 <= i && i + 4 <= s.len() ==> !(#[trigger] s[i] == '\r' && s[i + 1] == '\n' && s[i + 2]
                == '\r' && s[i + 3] == '\n'),
    ensures
        body_of(s.skip(from)) is None,
    decreases s.len() - from,
{
    lemma_empty_line(s, from);
    if from < s.len() {
        assert(s.skip(from).skip(1) =~= s.skip(from + 1));
        lemma_no_empty_line(s, from + 1);
    }
}

/// The records that are read out of a response are the counter `log_records_uploaded` of all of
/// its body: what one call reads out of the response, another reads out of the body alone.
pub proof fn law_records_are_the_counter_of_the_body(
    response: &str,
    head: Seq<char>,
    body: &str,
    name: &str,
    r: Option<u64>,
    counter: Option<u64>,
)
    requires
        call_ensures(records_in_response, (response,), r),
        call_ensures(parse_prom_counter, (body, name), counter),
        name@ == "log_records_uploaded"@,
        response@ == head + seq!['\r', '\n', '\r', '\n'] + body@,
        forall|i: int|
            0 <= i < head.len() ==> !(#[trigger] response@[i] == '\r' && response@[i + 1] == '\n'
                && response@[i + 2] == '\r' && response@[i + 3] == '\n'),
    ensures
        r == counter,
{
    let whole = head + head_end() + body@;
    assert(whole =~= response@);
    assert forall|i: int| 0 <= i < head.len() implies !head_end().is_prefix_of(
        #[trigger] whole.skip(i),
    ) by {
        lemma_empty_line(whole, i);
        assert(response@[i] == whole[i]);
    }
    law_body_follows_head(head, body@);
}

/// The counter of two texts, the first of which ends a line, is the sum of both, cut to what a
/// `u64` holds: what a call reads out of the whole, two calls read out of the parts.
pub proof fn law_counters_add_up(
    a: &str,
    b: &str,
    whole: &str,
    name: &str,
    x: Option<u64>,
    y: Option<u64>,
    r: Option<u64>,
)
    requires
        a@.len() == 0 || a@.last() == '\n',
        whole@ == a@ + b@,
        call_ensures(parse_prom_counter, (a, name), x),
        call_ensures(parse_prom_counter, (b, name), y),
        call_ensures(parse_prom_counter, (whole, name), r),
    ensures
        x is None ==> r == y,
        y is None ==> r == x,
        x is Some && y is Some ==> (r matches Some(sum) && sum == if x->0 + y->0
            > 0xffff_ffff_ffff_ffff {
            0xffff_ffff_ffff_ffff
        } else {
            x->0 + y->0
        }),
{
    law_counter_sums_parts(a@, b@, name@);
}

/// A comment at the start of a text changes nothing, whatever it says.
pub proof fn law_comments_change_nothing(
    comment: Seq<char>,
    text: &str,
    whole: &str,
    name: &str,
    r: Option<u64>,
    s: Option<u64>,
)
    requires
        forall|i: int| 0 <= i < comment.len() ==> comment[i] != '\n',
        whole@ == seq!['#'] + comment + seq!['\n'] + text@,
        call_ensures(parse_prom_counter, (text, name), r),
        call_ensures(parse_prom_counter, (whole, name), s),
    ensures
        r == s,
{
    let line = seq!['#'] + comment;
    let none = Seq::<char>::empty();
    let stripped = without_return(line);
    assert(stripped[0] == '#') by {
        if comment.len() == 0 {
            assert(line.last() == '#');
        }
    }
    assert(sample(stripped, name@) is None);
    law_other_lines_do_not_count(none, line, text@, name@);
    assert(none + line + seq!['\n'] + text@ =~= whole@);
    assert(none + text@ =~= text@);
}

/// What a text of one whole line gives is what the line gives.
proof fn lemma_counter_of_one_line(line: Seq<char>, name: Seq<char>)
    requires
        line.len() > 0,
        line.last() != '\r',
        forall|i: int| 0 <= i < line.len() ==> line[i] != '\n',
    ensures
        counter_reading(line + seq!['\n'], name) == sample(line, name),
{
    lemma_one_line(line);
    let one = seq![line];
    assert(one.last() == line);
    assert(one.drop_last() =~= Seq::<Seq<char>>::empty());
    assert(samples(one.drop_last(), name) =~= Seq::<u64>::empty());
    if let Some(n) = sample(line, name) {
        let values = samples(one, name);
        assert(values =~= seq![n]);
        assert(values.drop_last() =~= Seq::<u64>::empty());
        assert(total(values.drop_last()) == 0);
    }
}

/// A line of another metric gives nothing: one that does not begin with the name, or goes on with
/// anything but labels or a space behind it.
pub proof fn law_other_metrics_give_nothing(
    line: Seq<char>,
    text: &str,
    name: &str,
    r: Option<u64>,
)
    requires
        line.len() > 0,
        line.last() != '\r',
        forall|i: int| 0 <= i < line.len() ==> line[i] != '\n',
        text@ == line + seq!['\n'],
        call_ensures(parse_prom_counter, (text, name), r),
        line.len() <= name@.len() || line.take(name@.len() as int) != name@ || (line[name@.len() as int]
            != '{' && line[name@.len() as int] != ' '),
    ensures
        r is None,
{
    lemma_counter_of_one_line(line, name@);
    let n = name@.len() as int;
    if name@.is_prefix_of(line) {
        assert(line.take(n) =~= line.subrange(0, n));
        if line.len() > n {
            assert(line.skip(n)[0] == line[n]);
        }
    }
}

/// A line with a label in quotes, whatever the label holds but a quote or a backslash, and a count
/// behind it gives that count; and so it does with a timestamp.
pub proof fn law_labelled_counts_are_read(
    name: Seq<char>,
    key: Seq<char>,
    label: Seq<char>,
    n: u64,
    stamp: u64,
)
    requires
        name.len() > 0,
        name[0] != '#',
        forall|i: int| 0 <= i < name.len() ==> name[i] != '\n',
        forall|i: int| 0 <= i < key.len() ==> key[i] != '"' && key[i] != '}' && key[i] != '\n',
        forall|i: int| 0 <= i < label.len() ==> label[i] != '"' && label[i] != '\\' && label[i] != '\n',
    ensures
        counter_reading(
            name + seq!['{'] + (key + seq!['"'] + label + seq!['"']) + seq!['}'] + (seq![' ']
                + decimal_text(n as nat)) + seq!['\n'],
            name,
        ) == Some(n),
        counter_reading(
            name + seq!['{'] + (key + seq!['"'] + label + seq!['"']) + seq!['}'] + (seq![' ']
                + decimal_text(n as nat) + seq![' '] + decimal_text(stamp as nat)) + seq!['\n'],
            name,
        ) == Some(n),
{
    let labels = key + seq!['"'] + label + seq!['"'];
    let value = decimal_text(n as nat);
    let time = decimal_text(stamp as nat);
    lemma_number_is_a_word(n);
    lemma_number_is_a_word(stamp);
    let gap = Seq::<char>::empty();
    let short = seq![' '] + value;
    assert(gap + seq![' '] + value =~= short);
    law_white_space_parts_words(gap, ' ', value);
    assert(words(gap) =~= Seq::<Seq<char>>::empty());
    assert(words(short) =~= seq![value]);
    let long = seq![' '] + value + seq![' '] + time;
    assert(long =~= short + seq![' '] + time);
    law_white_space_parts_words(short, ' ', time);
    assert(words(long) =~= seq![value, time]);
    law_written_counts_are_read_back(n);
    lemma_labelled_line(name, key, label, short);
    lemma_labelled_line(name, key, label, long);
}

/// A number is a word, and ends no line.
proof fn lemma_number_is_a_word(n: u64)
    ensures
        decimal_text(n as nat).len() > 0,
        forall|i: int|
            0 <= i < decimal_text(n as nat).len() ==> '0' <= #[trigger] decimal_text(n as nat)[i]
                <= '9',
        words(decimal_text(n as nat)) == seq![decimal_text(n as nat)],
{
    lemma_decimal_text(n as nat);
    let text = decimal_text(n as nat);
    assert forall|i: int| 0 <= i < text.len() implies !whitespace(#[trigger] text[i]) by {
        assert(is_digit(text[i]));
    }
    law_text_without_gaps_is_one_word(text);
    assert forall|i: int| 0 <= i < text.len() implies '0' <= #[trigger] text[i] <= '9' by {
        assert(is_digit(text[i]));
    }
}

/// A line with a label in quotes gives its first word behind them.
proof fn lemma_labelled_line(name: Seq<char>, key: Seq<char>, label: Seq<char>, tail: Seq<char>)
    requires
        name.len() > 0,
        name[0] != '#',
        forall|i: int| 0 <= i < name.len() ==> name[i] != '\n',
        forall|i: int| 0 <= i < key.len() ==> key[i] != '"' && key[i] != '}' && key[i] != '\n',
        forall|i: int| 0 <= i < label.len() ==> label[i] != '"' && label[i] != '\\' && label[i] != '\n',
        is_sample_tail(tail),
        forall|i: int| 0 <= i < tail.len() ==> #[trigger] tail[i] == ' ' || '0' <= tail[i] <= '9',
    ensures
        counter_reading(
            name + seq!['{'] + (key + seq!['"'] + label + seq!['"']) + seq!['}'] + tail + seq![
                '\n',
            ],
            name,
        ) == count_reading(words(tail)[0]),
{
    let labels = key + seq!['"'] + label + seq!['"'];
    lemma_quoted_label_closes(key, label, tail);
    law_value_follows_the_labels(name, labels, tail);
    let line = name + seq!['{'] + labels + seq!['}'] + tail;
    assert(line.last() == tail.last());
    assert(tail.last() == tail[tail.len() - 1]);
    assert forall|i: int| 0 <= i < line.len() implies line[i] != '\n' by {
        let n = name.len() as int;
        let k = key.len() as int;
        let l = label.len() as int;
        if i < n {
            assert(line[i] == name[i]);
        } else if n + 1 <= i < n + 1 + k {
            assert(line[i] == key[i - n - 1]);
        } else if n + k + 2 <= i < n + k + l + 2 {
            assert(line[i] == label[i - n - k - 2]);
        } else if i >= n + k + l + 4 {
            assert(line[i] == tail[i - (n + k + l + 4)]);
        }
    }
    lemma_counter_of_one_line(line, name);
}

/// The brace behind a quoted label closes the labels, whatever the label holds but a quote or a
/// backslash.
proof fn lemma_quoted_label_closes(key: Seq<char>, label: Seq<char>, tail: Seq<char>)
    requires
        forall|i: int| 0 <= i < key.len() ==> key[i] != '"' && key[i] != '}',
        forall|i: int| 0 <= i < label.len() ==> label[i] != '"' && label[i] != '\\',
    ensures
        closing_brace(key + seq!['"'] + label + seq!['"'] + seq!['}'] + tail, false) == Some(
            (key + seq!['"'] + label + seq!['"']).len(),
        ),
    decreases key.len() + label.len(),
{
    let s = key + seq!['"'] + label + seq!['"'] + seq!['}'] + tail;
    if key.len() > 0 {
        let rest = key.skip(1);
        assert(s[0] == key[0]);
        assert(s.skip(1) =~= rest + seq!['"'] + label + seq!['"'] + seq!['}'] + tail);
        lemma_quoted_label_closes(rest, label, tail);
    } else {
        assert(s[0] == '"');
        let inner = label + seq!['"'] + seq!['}'] + tail;
        assert(s.skip(1) =~= inner);
        lemma_label_ends(label, tail);
    }
}

/// A quoted label ends at the next quote.
proof fn lemma_label_ends(label: Seq<char>, tail: Seq<char>)
    requires
        forall|i: int| 0 <= i < label.len() ==> label[i] != '"' && label[i] != '\\',
    ensures
        closing_brace(label + seq!['"'] + seq!['}'] + tail, true) == Some(label.len() + 1),
    decreases label.len(),
{
    let s = label + seq!['"'] + seq!['}'] + tail;
    if label.len() > 0 {
        let rest = label.skip(1);
        assert(s[0] == label[0]);
        assert(s.skip(1) =~= rest + seq!['"'] + seq!['}'] + tail);
        lemma_label_ends(rest, tail);
    } else {
        assert(s[0] == '"');
        let t = s.skip(1);
        assert(t[0] == '}');
        assert(closing_brace(t, false) == Some(0nat));
    }
}

/// A line without labels gives the count behind the name, with or without a timestamp.
pub proof fn law_plain_counts_are_read(name: Seq<char>, n: u64, stamp: u64)
    requires
        name.len() > 0,
        name[0] != '#',
        forall|i: int| 0 <= i < name.len() ==> !whitespace(#[trigger] name[i]),
    ensures
        counter_reading(name + seq![' '] + decimal_text(n as nat) + seq!['\n'], name) == Some(n),
        counter_reading(
            name + seq![' '] + decimal_text(n as nat) + seq![' '] + decimal_text(stamp as nat)
                + seq!['\n'],
            name,
        ) == Some(n),
{
    let value = decimal_text(n as nat);
    let time = decimal_text(stamp as nat);
    lemma_number_is_a_word(n);
    lemma_number_is_a_word(stamp);
    law_written_counts_are_read_back(n);
    law_text_without_gaps_is_one_word(name);
    let short = name + seq![' '] + value;
    let long = short + seq![' '] + time;
    law_white_space_parts_words(name, ' ', value);
    law_white_space_parts_words(short, ' ', time);
    assert(words(short) =~= seq![name, value]);
    assert(words(long) =~= seq![name, value, time]);
    assert(short.take(name.len() as int) =~= name);
    assert(long.take(name.len() as int) =~= name);
    lemma_plain_line(name, short);
    lemma_plain_line(name, long);
    assert(short.last() == value.last());
    assert(long.last() == time.last());
    assert(value.last() == value[value.len() - 1]);
    assert(time.last() == time[time.len() - 1]);
    assert forall|i: int| 0 <= i < short.len() implies short[i] != '\n' by {
        if i < name.len() {
            assert(short[i] == name[i]);
            assert(!whitespace(name[i]));
        } else if i > name.len() {
            assert(short[i] == value[i - name.len() - 1]);
        }
    }
    assert forall|i: int| 0 <= i < long.len() implies long[i] != '\n' by {
        if i < short.len() {
            assert(long[i] == short[i]);
        } else if i > short.len() {
            assert(long[i] == time[i - short.len() - 1]);
        }
    }
    lemma_counter_of_one_line(short, name);
    lemma_counter_of_one_line(long, name);
}

/// A line with a space behind the name is read by its words.
proof fn lemma_plain_line(name: Seq<char>, line: Seq<char>)
    requires
        name.len() > 0,
        name[0] != '#',
        line.len() > name.len(),
        line.take(name.len() as int) == name,
        line[name.len() as int] == ' ',
    ensures
        names_metric(line, name),
        !starts_with_char(line, '#'),
        behind_labels(line, name.len() as int) is None,
{
    let n = name.len() as int;
    assert(line.take(n) =~= line.subrange(0, n));
    assert(line.skip(n)[0] == ' ');
    assert(line.take(n)[0] == line[0]);
}

/// The records of a run are how far the counter went: the reading at its end is the reading at
/// its start and the records. Where the counter was not read, or went back, they are not known.
pub proof fn law_records_are_the_difference(
    reporter: RunReporter,
    start: u64,
    wall_nanos: u128,
    cpu_nanos: u128,
    fetched: Option<u64>,
    memory: MemorySnapshot,
    r: RunSummary,
)
    requires
        reporter.start_records() == Some(start),
        call_ensures(
            RunReporter::summary,
            (&reporter, wall_nanos, cpu_nanos, fetched, memory),
            r,
        ),
    ensures
        fetched is None ==> r.records is None,
        fetched matches Some(end) ==> (end < start ==> r.records is None),
        fetched matches Some(end) ==> (end >= start ==> (r.records matches Some(n) && n + start
            == end)),
        r.wall_nanos == wall_nanos,
        r.cpu_nanos == cpu_nanos,
        r.memory == memory,
{
}

/// A run counts from the reading at its start, and from zero where that failed.
pub proof fn law_runs_start_at_their_reading(
    admin_bind: String,
    fetched: Option<u64>,
    r: RunReporter,
)
    requires
        call_ensures(RunReporter::new, (admin_bind, fetched), r),
    ensures
        fetched matches Some(n) ==> r.start_records() == Some(n),
        fetched is None ==> r.start_records() == Some(0u64),
        r.admin_bind() == admin_bind@,
        !r.printed(),
{
}

/// A request asks for its path from its host, line by line, and ends with an empty line.
pub proof fn law_request_line_by_line(addr: &str, path: &str, r: String)
    requires
        call_ensures(http_request, (addr, path), r),
    ensures
        r@ == "GET "@ + path@ + " HTTP/1.0"@ + seq!['\r', '\n'] + "Host: "@ + addr@ + seq!['\r', '\n']
            + "User-Agent: df_engine-stats"@ + seq!['\r', '\n'] + "Connection: close"@ + seq![
            '\r',
            '\n',
        ] + "Accept: text/plain"@ + seq!['\r', '\n', '\r', '\n'],
{
    reveal_strlit(" HTTP/1.0\r\nHost: ");
    reveal_strlit(
        "\r\nUser-Agent: df_engine-stats\r\nConnection: close\r\nAccept: text/plain\r\n\r\n",
    );
    reveal_strlit(" HTTP/1.0");
    reveal_strlit("Host: ");
    reveal_strlit("User-Agent: df_engine-stats");
    reveal_strlit("Connection: close");
    reveal_strlit("Accept: text/plain");
    let feed = seq!['\r', '\n'];
    assert(" HTTP/1.0\r\nHost: "@ =~= " HTTP/1.0"@ + feed + "Host: "@);
    assert("\r\nUser-Agent: df_engine-stats\r\nConnection: close\r\nAccept: text/plain\r\n\r\n"@
        =~= feed + "User-Agent: df_engine-stats"@ + feed + "Connection: close"@ + feed
        + "Accept: text/plain"@ + seq!['\r', '\n', '\r', '\n']);
    assert(r@ =~= "GET "@ + path@ + " HTTP/1.0"@ + feed + "Host: "@ + addr@ + feed
        + "User-Agent: df_engine-stats"@ + feed + "Connection: close"@ + feed
        + "Accept: text/plain"@ + seq!['\r', '\n', '\r', '\n']);
}

/// The counters are asked for under their path, by the address alone and by the reporter alike.
pub proof fn law_counters_are_asked_for(
    reporter: RunReporter,
    addr: &str,
    path: &str,
    r: String,
    asked: String,
    plain: String,
)
    requires
        reporter.admin_bind() == addr@,
        path@ == "/api/v1/telemetry/metrics/aggregate"@,
        call_ensures(records_request, (addr,), r),
        call_ensures(RunReporter::records_request, (&reporter,), asked),
        call_ensures(http_request, (addr, path), plain),
    ensures
        r@ == plain@,
        asked@ == plain@,
{
}

/// A report of the operating system is taken over counter by counter where its call succeeded,
/// and counts nothing where it failed.
pub proof fn law_reports_are_taken_over(returned: i32, report: ReportedMemory, r: MemorySnapshot)
    requires
        call_ensures(MemorySnapshot::from_report, (returned, &report), r),
    ensures
        returned != 0 ==> r.working_set == report.working_set_size && r.private_working_set
            == report.private_working_set_size && r.peak_working_set
            == report.peak_working_set_size,
        returned == 0 ==> r.working_set == 0 && r.private_working_set == 0 && r.peak_working_set
            == 0,
{
}

/// Lines end at line feeds: each ended line is a line, with the carriage return before the line
/// feed taken off, a rest without a line feed is a line as it is, and nothing is no line.
pub proof fn law_lines_end_at_line_feeds(a: Seq<char>, line: Seq<char>)
    requires
        a.len() == 0 || a.last() == '\n',
        forall|i: int| 0 <= i < line.len() ==> line[i] != '\n',
        line.len() > 0,
        line.last() != '\r',
    ensures
        lines(Seq::<char>::empty()).len() == 0,
        lines(a + line) == lines(a).push(line),
        lines(a + (line + seq!['\n'])) == lines(a).push(line),
        lines(a + (line + seq!['\r', '\n'])) == lines(a).push(line),
{
    assert forall|i: int| 0 <= i < line.len() implies in_line()(#[trigger] line[i]) by {}
    lemma_run_ends(line, in_line(), line.len());
    lemma_lines_concat(a, line);
    assert(lines(a) + seq![line] =~= lines(a).push(line));
    lemma_one_line(line);
    lemma_lines_concat(a, line + seq!['\n']);
    let returned = line.push('\r');
    lemma_one_line(returned);
    assert(returned.drop_last() =~= line);
    assert(returned + seq!['\n'] =~= line + seq!['\r', '\n']);
    lemma_lines_concat(a, line + seq!['\r', '\n']);
}

/// A label in quotes, with what stands before it, is passed over whole: the labels are closed
/// where what follows it closes them. So it is for any number of labels.
pub proof fn law_quoted_labels_are_passed_over(key: Seq<char>, label: Seq<char>, rest: Seq<char>)
    requires
        forall|i: int| 0 <= i < key.len() ==> key[i] != '"' && key[i] != '}',
        forall|i: int| 0 <= i < label.len() ==> label[i] != '"' && label[i] != '\\',
    ensures
        closing_brace(key + seq!['"'] + label + seq!['"'] + rest, false) == match closing_brace(
            rest,
            false,
        ) {
            None => None,
            Some(n) => Some(n + key.len() + label.len() + 2),
        },
        closing_brace(key + seq!['}'] + rest, false) == Some(key.len()),
    decreases key.len(),
{
    let s = key + seq!['"'] + label + seq!['"'] + rest;
    let t = key + seq!['}'] + rest;
    if key.len() > 0 {
        let less = key.skip(1);
        assert(s[0] == key[0] && t[0] == key[0]);
        assert(s.skip(1) =~= less + seq!['"'] + label + seq!['"'] + rest);
        assert(t.skip(1) =~= less + seq!['}'] + rest);
        law_quoted_labels_are_passed_over(less, label, rest);
    } else {
        assert(s[0] == '"' && t[0] == '}');
        assert(s.skip(1) =~= label + seq!['"'] + rest);
        law_quotes_hide_everything(label, rest);
    }
}

/// Inside quotes everything up to the next quote is passed over.
pub proof fn law_quotes_hide_everything(label: Seq<char>, rest: Seq<char>)
    requires
        forall|i: int| 0 <= i < label.len() ==> label[i] != '"' && label[i] != '\\',
    ensures
        closing_brace(label + seq!['"'] + rest, true) == match closing_brace(rest, false) {
            None => None,
            Some(n) => Some(n + label.len() + 1),
        },
    decreases label.len(),
{
    let s = label + seq!['"'] + rest;
    if label.len() > 0 {
        let less = label.skip(1);
        law_quotes_hide_everything(less, rest);
        assert(s[0] == label[0]);
        assert(s.skip(1) =~= less + seq!['"'] + rest);
    } else {
        assert(s[0] == '"');
        assert(s.skip(1) =~= rest);
    }
}

/// Inside quotes a backslash takes the character behind it, be it a quote.
pub proof fn law_backslashes_take_a_character(label: Seq<char>, c: char, rest: Seq<char>)
    requires
        forall|i: int| 0 <= i < label.len() ==> label[i] != '"' && label[i] != '\\',
    ensures
        closing_brace(label + seq!['\\', c] + rest, true) == match closing_brace(rest, true) {
            None => None,
            Some(n) => Some(n + label.len() + 2),
        },
    decreases label.len(),
{
    let s = label + seq!['\\', c] + rest;
    if label.len() > 0 {
        let less = label.skip(1);
        law_backslashes_take_a_character(less, c, rest);
        assert(s[0] == label[0]);
        assert(s.skip(1) =~= less + seq!['\\', c] + rest);
    } else {
        assert(s[0] == '\\');
        assert(s.skip(2) =~= rest);
    }
}

/// It does not matter how a line ends: with a line feed, with a carriage return before it, or with
/// the text.
pub proof fn law_line_endings_do_not_matter(line: Seq<char>, name: Seq<char>)
    requires
        line.len() > 0,
        line.last() != '\r',
        forall|i: int| 0 <= i < line.len() ==> line[i] != '\n',
    ensures
        counter_reading(line, name) == counter_reading(line + seq!['\n'], name),
        counter_reading(line, name) == counter_reading(line + seq!['\r', '\n'], name),
{
    let none = Seq::<char>::empty();
    law_lines_end_at_line_feeds(none, line);
    assert(none + line =~= line);
    assert(none + (line + seq!['\n']) =~= line + seq!['\n']);
    assert(none + (line + seq!['\r', '\n']) =~= line + seq!['\r', '\n']);
}

/// A line without labels and with more words than a value and a timestamp behind the name gives
/// the word before its last.
pub proof fn law_long_lines_give_the_word_before_the_last(
    name: Seq<char>,
    between: Seq<char>,
    n: u64,
    last: u64,
)
    requires
        name.len() > 0,
        name[0] != '#',
        forall|i: int| 0 <= i < name.len() ==> !whitespace(#[trigger] name[i]),
    ensures
        sample(
            name + seq![' '] + between + seq![' '] + decimal_text(n as nat) + seq![' ']
                + decimal_text(last as nat),
            name,
        ) == Some(n),
{
    let value = decimal_text(n as nat);
    let time = decimal_text(last as nat);
    lemma_number_is_a_word(n);
    lemma_number_is_a_word(last);
    law_written_counts_are_read_back(n);
    law_text_without_gaps_is_one_word(name);
    let head = name + seq![' '] + between;
    let short = head + seq![' '] + value;
    let line = short + seq![' '] + time;
    law_white_space_parts_words(name, ' ', between);
    law_white_space_parts_words(head, ' ', value);
    law_white_space_parts_words(short, ' ', time);
    let all = words(line);
    assert(all =~= (seq![name] + words(between)).push(value).push(time));
    assert(line.take(name.len() as int) =~= name);
    lemma_plain_line(name, line);
}

/// Labels that are not closed are read as part of the first word: the count behind it is given.
pub proof fn law_open_labels_are_part_of_a_word(name: Seq<char>, open: Seq<char>, n: u64)
    requires
        name.len() > 0,
        name[0] != '#',
        forall|i: int| 0 <= i < name.len() ==> !whitespace(#[trigger] name[i]),
        forall|i: int| 0 <= i < open.len() ==> !whitespace(#[trigger] open[i]) && open[i] != '}',
    ensures
        sample(name + seq!['{'] + open + seq![' '] + decimal_text(n as nat), name) == Some(n),
{
    let value = decimal_text(n as nat);
    lemma_number_is_a_word(n);
    law_written_counts_are_read_back(n);
    let head = name + seq!['{'] + open;
    assert forall|i: int| 0 <= i < head.len() implies !whitespace(#[trigger] head[i]) by {
        if i < name.len() {
            assert(head[i] == name[i]);
        } else if i > name.len() {
            assert(head[i] == open[i - name.len() - 1]);
        }
    }
    law_text_without_gaps_is_one_word(head);
    law_white_space_parts_words(head, ' ', value);
    let line = head + seq![' '] + value;
    assert(words(line) =~= seq![head, value]);
    let k = name.len() as int;
    assert(line.subrange(0, k) =~= name);
    assert(line.skip(k)[0] == '{');
    assert(line[0] == name[0]);
    let rest = line.skip(k + 1);
    assert(rest =~= open + seq![' '] + value);
    assert forall|i: int| 0 <= i < rest.len() implies #[trigger] rest[i] != '}' by {
        if i < open.len() {
            assert(rest[i] == open[i]);
        } else if i > open.len() {
            assert(rest[i] == value[i - open.len() - 1]);
        }
    }
    lemma_nothing_closes(rest, false);
}

/// Without a closing brace no labels are closed.
proof fn lemma_nothing_closes(s: Seq<char>, quoted: bool)
    requires
        forall|i: int| 0 <= i < s.len() ==> #[trigger] s[i] != '}',
    ensures
        closing_brace(s, quoted) is None,
    decreases s.len(),
{
    if s.len() > 0 {
        let step: int = if quoted && s[0] == '\\' && s.len() >= 2 {
            2
        } else {
            1
        };
        let rest = s.skip(step);
        assert forall|i: int| 0 <= i < rest.len() implies #[trigger] rest[i] != '}' by {
            assert(rest[i] == s[i + step]);
        }
        lemma_nothing_closes(rest, quoted != (s[0] == '"'));
    }
}

} // verus!
