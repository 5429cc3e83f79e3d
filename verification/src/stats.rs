//! Statistics over the payloads of a topic: the values found at each key path
//! of the JSON payloads of one window, and one number for each path when the
//! window is closed.

use crate::clock::{more_than_seconds_between, whole_seconds_between, Moment};
use crate::file_manager::{joined, sanitized, topic_to_path};
use crate::json::{field_of, json_parse, parse_json, JsonValue};
use crate::message::{decode_payload, payload_of, utf8_text};
use crate::text::{ascending, ascending_place, chars_of, decimal, lex_le, push_decimal, same_text, views_of};
use crate::topic_map::TopicMap;
use vstd::prelude::*;
use vstd::string::{StrSliceExecFns, StringExecFns};
use vstd::utf8::{decode_utf8, valid_utf8};

verus! {

/// The values seen at one key path. The kind is that of the first value seen
/// there; values of another kind are dropped.
#[derive(Debug)]
pub enum JsonValueType {
    /// Numbers, each as the bits of a double.
    Number(Vec<u64>),
    String(Vec<String>),
    Boolean(Vec<bool>),
    /// A path whose first value was neither number, string nor boolean.
    Other,
}

/// The values seen at one key path, as plain values.
pub enum Samples {
    Number(Seq<u64>),
    Text(Seq<Seq<char>>),
    Boolean(Seq<bool>),
    Other,
}

impl View for JsonValueType {
    type V = Samples;

    open spec fn view(&self) -> Samples {
        match self {
            JsonValueType::Number(values) => Samples::Number(values@),
            JsonValueType::String(values) => Samples::Text(values@.map_values(|s: String| s@)),
            JsonValueType::Boolean(values) => Samples::Boolean(values@),
            JsonValueType::Other => Samples::Other,
        }
    }
}

/// The samples after `value` has arrived: one more where the value is of the
/// samples' kind, and the same samples otherwise.
pub open spec fn with_value(samples: Samples, value: JsonValue) -> Samples {
    match (samples, value) {
        (Samples::Number(values), JsonValue::Number(n)) => Samples::Number(values.push(n.bits)),
        (Samples::Text(values), JsonValue::String(s)) => Samples::Text(values.push(s@)),
        (Samples::Boolean(values), JsonValue::Bool(b)) => Samples::Boolean(values.push(b)),
        _ => samples,
    }
}

/// The empty samples of the kind of `value`.
pub open spec fn fresh_samples(value: JsonValue) -> Samples {
    match value {
        JsonValue::Number(_) => Samples::Number(Seq::empty()),
        JsonValue::String(_) => Samples::Text(Seq::empty()),
        JsonValue::Bool(_) => Samples::Boolean(Seq::empty()),
        _ => Samples::Other,
    }
}

/// The number that a window's samples at one path come to.
#[derive(Debug)]
pub enum Statistic {
    /// The population variance of these numbers, each given as the bits of a
    /// double.
    Variance(Vec<u64>),
    /// This many distinct values.
    Distinct(usize),
}

/// A statistic as plain values.
pub enum StatisticView {
    Variance(Seq<u64>),
    Distinct(nat),
}

impl View for Statistic {
    type V = StatisticView;

    open spec fn view(&self) -> StatisticView {
        match self {
            Statistic::Variance(values) => StatisticView::Variance(values@),
            Statistic::Distinct(n) => StatisticView::Distinct(*n as nat),
        }
    }
}

/// The statistic of `samples`: the variance of numbers, the count of distinct
/// strings or booleans, and none for a path of another kind.
pub open spec fn statistic_of(samples: Samples) -> Option<StatisticView> {
    match samples {
        Samples::Number(values) => Some(StatisticView::Variance(values)),
        Samples::Text(values) => Some(StatisticView::Distinct(values.to_set().len())),
        Samples::Boolean(values) => Some(StatisticView::Distinct(values.to_set().len())),
        Samples::Other => None,
    }
}

/// In a strictly ascending sequence no number stands at two places.
proof fn lemma_origin_ascends(origin: Seq<int>, a: int, b: int)
    requires
        0 <= a < origin.len(),
        0 <= b < origin.len(),
        a != b,
        forall|x: int, y: int| 0 <= x < y < origin.len() ==> origin[x] < origin[y],
    ensures
        origin[a] != origin[b],
{
    if a < b {
        assert(origin[a] < origin[b]);
    } else {
        assert(origin[b] < origin[a]);
    }
}

proof fn lemma_distinct_step<T>(s: Seq<T>, x: T)
    ensures
        s.to_set().finite(),
        s.push(x).to_set().len() == s.to_set().len() + if s.contains(x) {
            0nat
        } else {
            1nat
        },
        s.to_set().len() <= s.len(),
{
    vstd::seq_lib::seq_to_set_is_finite(s);
    s.lemma_push_to_set_commute(x);
    s.lemma_cardinality_of_set();
    if s.contains(x) {
        assert(s.to_set().contains(x));
        assert(s.to_set().insert(x) =~= s.to_set());
    } else {
        assert(!s.to_set().contains(x));
    }
}

/// Whether the text at place `j` also stands at one of the places `firsts`.
spec fn is_among(texts: Seq<Seq<char>>, firsts: Seq<usize>, j: int) -> bool {
    exists|m: int| 0 <= m < firsts.len() && texts[(#[trigger] firsts[m]) as int] == texts[j]
}

/// Counts the distinct texts among `values`. Each is held against the
/// distinct ones found before it, so that few distinct values make for few
/// comparisons.
fn distinct_texts(values: &Vec<String>) -> (count: usize)
    ensures
        count == values@.map_values(|s: String| s@).to_set().len(),
{
    let ghost texts = values@.map_values(|s: String| s@);
    let mut firsts: Vec<usize> = Vec::new();
    let mut i: usize = 0;
    assert(texts.take(0).to_set() =~= Set::<Seq<char>>::empty());
    while i < values.len()
        invariant
            i <= values.len(),
            texts == values@.map_values(|s: String| s@),
            firsts.len() == texts.take(i as int).to_set().len(),
            forall|k: int| 0 <= k < firsts.len() ==> (#[trigger] firsts@[k]) < i,
            forall|j: int| 0 <= j < i ==> is_among(texts, firsts@, j),
        decreases values.len() - i,
    {
        let mut seen = false;
        let mut k: usize = 0;
        while k < firsts.len() && !seen
            invariant
                k <= firsts.len(),
                i < values.len(),
                texts == values@.map_values(|s: String| s@),
                forall|m: int| 0 <= m < firsts.len() ==> (#[trigger] firsts@[m]) < i,
                seen ==> texts.take(i as int).contains(texts[i as int]),
                !seen ==> forall|m: int| 0 <= m < k ==> texts[(#[trigger] firsts@[m]) as int] != texts[i as int],
            decreases firsts.len() - k + if seen { 0int } else { 1int },
        {
            let first = firsts[k];
            if same_text(values[first].as_str(), values[i].as_str()) {
                seen = true;
                assert(texts.take(i as int)[first as int] == texts[i as int]);
            }
            k += 1;
        }
        proof {
            let before = texts.take(i as int);
            assert(texts.take(i + 1) =~= before.push(texts[i as int]));
            lemma_distinct_step(before, texts[i as int]);
            if !seen {
                assert forall|j: int| 0 <= j < i implies before[j] != texts[i as int] by {
                    assert(is_among(texts, firsts@, j));
                    let m = choose|m: int| 0 <= m < firsts.len() && texts[(#[trigger] firsts@[m]) as int] == texts[j];
                    assert(texts[firsts@[m] as int] != texts[i as int]);
                }
                assert(!before.contains(texts[i as int]));
            }
        }
        if !seen {
            let ghost found = firsts@;
            firsts.push(i);
            proof {
                assert forall|j: int| 0 <= j < i + 1 implies is_among(texts, firsts@, j) by {
                    if j < i {
                        assert(is_among(texts, found, j));
                        let m = choose|m: int| 0 <= m < found.len() && texts[(#[trigger] found[m]) as int] == texts[j];
                        assert(firsts@[m] == found[m]);
                    } else {
                        assert(firsts@[found.len() as int] == i);
                    }
                }
            }
        } else {
            proof {
                assert forall|j: int| 0 <= j < i + 1 implies is_among(texts, firsts@, j) by {
                    let before = texts.take(i as int);
                    let j0 = if j < i {
                        j
                    } else {
                        choose|j0: int| 0 <= j0 < before.len() && before[j0] == texts[i as int]
                    };
                    assert(before[j0] == texts[j0]);
                    assert(is_among(texts, firsts@, j0));
                    let m = choose|m: int| 0 <= m < firsts.len() && texts[(#[trigger] firsts@[m]) as int] == texts[j0];
                    assert(texts[firsts@[m] as int] == texts[j]);
                }
            }
        }
        i += 1;
    }
    assert(texts.take(values.len() as int) == texts);
    firsts.len()
}

/// Counts the distinct values among `values`.
fn distinct_flags(values: &Vec<bool>) -> (count: usize)
    ensures
        count == values@.to_set().len(),
{
    let mut seen_true = false;
    let mut seen_false = false;
    let mut i: usize = 0;
    while i < values.len()
        invariant
            i <= values.len(),
            seen_true == values@.take(i as int).contains(true),
            seen_false == values@.take(i as int).contains(false),
        decreases values.len() - i,
    {
        proof {
            let before = values@.take(i as int);
            let after = values@.take(i + 1);
            assert(after =~= before.push(values@[i as int]));
            assert(after[i as int] == values@[i as int]);
            assert forall|b: bool| after.contains(b) == (before.contains(b) || b == values@[i as int]) by {
                if before.contains(b) {
                    let j = choose|j: int| 0 <= j < before.len() && before[j] == b;
                    assert(after[j] == b);
                }
            }
        }
        if values[i] {
            seen_true = true;
        } else {
            seen_false = true;
        }
        i += 1;
    }
    proof {
        assert(values@.take(values.len() as int) == values@);
        let found = values@.to_set();
        let expected: Set<bool> = if seen_true && seen_false {
            set![true, false]
        } else if seen_true {
            set![true]
        } else if seen_false {
            set![false]
        } else {
            Set::empty()
        };
        assert(found =~= expected);
    }
    if seen_true && seen_false {
        2
    } else if seen_true || seen_false {
        1
    } else {
        0
    }
}

impl JsonValueType {
    /// The empty samples of the kind of `value`.
    pub fn for_value(value: &JsonValue) -> (fresh: JsonValueType)
        ensures
            fresh@ == fresh_samples(*value),
    {
        match value {
            JsonValue::Number(_) => JsonValueType::Number(Vec::new()),
            JsonValue::String(_) => {
                let values: Vec<String> = Vec::new();
                assert(values@.map_values(|s: String| s@) =~= Seq::<Seq<char>>::empty());
                JsonValueType::String(values)
            },
            JsonValue::Bool(_) => JsonValueType::Boolean(Vec::new()),
            _ => JsonValueType::Other,
        }
    }

    /// Takes in `value` where it is of the samples' kind, and drops it
    /// otherwise.
    pub fn add_value(&mut self, value: &JsonValue)
        ensures
            final(self)@ == with_value(old(self)@, *value),
    {
        match (self, value) {
            (JsonValueType::Number(values), JsonValue::Number(n)) => {
                values.push(n.bits);
            },
            (JsonValueType::String(values), JsonValue::String(s)) => {
                let ghost before = values@.map_values(|s: String| s@);
                values.push(s.clone());
                assert(values@.map_values(|s: String| s@) =~= before.push(s@));
            },
            (JsonValueType::Boolean(values), JsonValue::Bool(b)) => {
                values.push(*b);
            },
            _ => {},
        }
    }

    /// The statistic of the samples: for numbers the samples themselves,
    /// whose population variance it is; for strings and booleans the count
    /// of distinct values; none for a path of another kind.
    pub fn calculate_stat(&self) -> (stat: Option<Statistic>)
        ensures
            match stat {
                Some(s) => statistic_of(self@) == Some(s@),
                None => statistic_of(self@) is None,
            },
    {
        match self {
            JsonValueType::Number(values) => Some(Statistic::Variance(values.clone())),
            JsonValueType::String(values) => Some(Statistic::Distinct(distinct_texts(values))),
            JsonValueType::Boolean(values) => Some(Statistic::Distinct(distinct_flags(values))),
            JsonValueType::Other => None,
        }
    }
}

/// One path of a report with its statistic.
#[derive(Debug)]
pub struct StatsEntry {
    pub path: String,
    pub stat: Statistic,
}

/// What a window of statistics came to when it was closed.
#[derive(Debug)]
pub struct StatsReport {
    /// The whole seconds that the window lasted.
    pub window_secs: u64,
    /// The paths in ascending order, each with its statistic.
    pub entries: Vec<StatsEntry>,
}

/// The entries of a report as plain values.
pub open spec fn entry_views(entries: Seq<StatsEntry>) -> Seq<(Seq<char>, StatisticView)> {
    entries.map_values(|e: StatsEntry| (e.path@, e.stat@))
}

/// Whether `entries` report `samples`: every path that has a statistic
/// stands there once with that statistic, no other path does, and the paths
/// ascend in the lexicographic order.
pub open spec fn is_report_of(entries: Seq<(Seq<char>, StatisticView)>, samples: Map<Seq<char>, Samples>) -> bool {
    &&& forall|i: int, j: int|
        0 <= i < j < entries.len() ==> lex_le((#[trigger] entries[i]).0, (#[trigger] entries[j]).0) && entries[i].0
            != entries[j].0
    &&& forall|i: int|
        0 <= i < entries.len() ==> samples.contains_key((#[trigger] entries[i]).0) && statistic_of(
            samples[entries[i].0],
        ) == Some(entries[i].1)
    &&& forall|path: Seq<char>| #[trigger]
        samples.contains_key(path) && statistic_of(samples[path]) is Some ==> exists|i: int|
            0 <= i < entries.len() && (#[trigger] entries[i]).0 == path
}

/// A count as it stands in a line of statistics: with three decimals.
pub open spec fn count_text(count: nat) -> Seq<char> {
    decimal(count) + seq!['.', '0', '0', '0']
}

/// Writes a count as it stands in a line of statistics.
pub fn count_as_text(count: usize) -> (text: String)
    ensures
        text@ == count_text(count as nat),
{
    let mut text = String::new();
    push_decimal(&mut text, count as u64);
    text.push('.');
    text.push('0');
    text.push('0');
    text.push('0');
    assert(text@ =~= count_text(count as nat));
    text
}

/// The entries of a line of statistics: `, path:statistic` for each.
pub open spec fn line_entries(entries: Seq<(String, String)>) -> Seq<char>
    decreases entries.len(),
{
    if entries.len() == 0 {
        Seq::empty()
    } else {
        line_entries(entries.drop_last()) + seq![',', ' '] + entries.last().0@ + seq![':'] + entries.last().1@
    }
}

/// The line that reports one window of statistics: the two ends of the
/// window, then each path with its statistic, and a line feed.
pub open spec fn stats_line_text(start: Seq<char>, end: Seq<char>, entries: Seq<(String, String)>) -> Seq<char> {
    start + seq![' ', '-', ' '] + end + line_entries(entries) + seq!['\n']
}

/// Writes the line that reports one window of statistics, of which
/// `entries` holds each path with its statistic as text.
pub fn stats_line(start: &str, end: &str, entries: &Vec<(String, String)>) -> (line: String)
    ensures
        line@ == stats_line_text(start@, end@, entries@),
{
    let mut line = String::from_str(start);
    line.push(' ');
    line.push('-');
    line.push(' ');
    line.append(end);
    let ghost head = line@;
    assert(head =~= start@ + seq![' ', '-', ' '] + end@);
    let mut i: usize = 0;
    while i < entries.len()
        invariant
            i <= entries.len(),
            line@ == head + line_entries(entries@.take(i as int)),
        decreases entries.len() - i,
    {
        proof {
            let next = entries@.take(i + 1);
            assert(next.drop_last() =~= entries@.take(i as int));
            assert(next.last() == entries@[i as int]);
        }
        line.push(',');
        line.push(' ');
        line.append(entries[i].0.as_str());
        line.push(':');
        line.append(entries[i].1.as_str());
        assert(line@ =~= head + line_entries(entries@.take(i + 1)));
        i += 1;
    }
    assert(entries@.take(entries.len() as int) == entries@);
    line.push('\n');
    line
}

/// How many values stand directly under `value`.
pub open spec fn child_count(value: JsonValue) -> nat {
    match value {
        JsonValue::Array(items) => items@.len(),
        JsonValue::Object(fields) => fields@.len(),
        _ => 0,
    }
}

/// The key path of the field `name` of the object at `prefix`.
pub open spec fn field_path(prefix: Seq<char>, name: Seq<char>) -> Seq<char> {
    if prefix.len() == 0 {
        name
    } else {
        prefix + seq!['.'] + name
    }
}

/// The key path of element `index` of the array at `prefix`.
pub open spec fn index_path(prefix: Seq<char>, index: nat) -> Seq<char> {
    prefix + seq!['['] + decimal(index) + seq![']']
}

/// The leaves under the first `n` children of `value`, which stands at the
/// key path `prefix`: each scalar with its key path, in the order of the
/// document. A scalar is its own leaf, unless its key path is empty.
pub open spec fn leaves_upto(prefix: Seq<char>, value: JsonValue, n: nat) -> Seq<(Seq<char>, JsonValue)>
    decreases value, n,
{
    match value {
        JsonValue::Object(fields) => if n == 0 || n > fields@.len() {
            Seq::empty()
        } else {
            leaves_upto(prefix, value, (n - 1) as nat) + leaves_upto(
                field_path(prefix, fields@[n - 1].0@),
                fields@[n - 1].1,
                child_count(fields@[n - 1].1),
            )
        },
        JsonValue::Array(items) => if n == 0 || n > items@.len() {
            Seq::empty()
        } else {
            leaves_upto(prefix, value, (n - 1) as nat) + leaves_upto(
                index_path(prefix, (n - 1) as nat),
                items@[n - 1],
                child_count(items@[n - 1]),
            )
        },
        _ => if prefix.len() == 0 {
            Seq::empty()
        } else {
            seq![(prefix, value)]
        },
    }
}

/// The leaves of `value`, which stands at the key path `prefix`.
pub open spec fn leaves(prefix: Seq<char>, value: JsonValue) -> Seq<(Seq<char>, JsonValue)> {
    leaves_upto(prefix, value, child_count(value))
}

/// The samples of a window after the scalar `value` arrived at `path`.
pub open spec fn with_leaf(data: Map<Seq<char>, Samples>, path: Seq<char>, value: JsonValue) -> Map<
    Seq<char>,
    Samples,
> {
    let current = if data.contains_key(path) {
        data[path]
    } else {
        fresh_samples(value)
    };
    data.insert(path, with_value(current, value))
}

/// The samples of a window after `leaves` arrived, one after the other.
pub open spec fn with_leaves(data: Map<Seq<char>, Samples>, leaves: Seq<(Seq<char>, JsonValue)>) -> Map<
    Seq<char>,
    Samples,
>
    decreases leaves.len(),
{
    if leaves.len() == 0 {
        data
    } else {
        with_leaf(with_leaves(data, leaves.drop_last()), leaves.last().0, leaves.last().1)
    }
}

/// Taking in two runs of leaves one after the other is taking in both
/// together.
pub proof fn lemma_with_leaves_concat(
    data: Map<Seq<char>, Samples>,
    first: Seq<(Seq<char>, JsonValue)>,
    second: Seq<(Seq<char>, JsonValue)>,
)
    ensures
        with_leaves(data, first + second) == with_leaves(with_leaves(data, first), second),
    decreases second.len(),
{
    if second.len() == 0 {
        assert(first + second =~= first);
    } else {
        lemma_with_leaves_concat(data, first, second.drop_last());
        assert((first + second).drop_last() =~= first + second.drop_last());
        assert((first + second).last() == second.last());
    }
}

/// The JSON document in the payload of the record on `line`: the text of the
/// record's `msg_b64`, decoded from base64 and read as UTF-8 and then as
/// JSON. `None` where any of these steps fails.
pub open spec fn payload_document(line: Seq<char>) -> Option<JsonValue> {
    match json_parse(line) {
        Some(record) => match field_of(record, "msg_b64"@) {
            Some(JsonValue::String(text)) => match payload_of(text@) {
                Some(bytes) => if valid_utf8(bytes) {
                    json_parse(decode_utf8(bytes))
                } else {
                    None
                },
                None => None,
            },
            _ => None,
        },
        None => None,
    }
}

/// Reads the JSON document in the payload of the record on `line`.
pub fn payload_json(line: &str) -> (document: Option<JsonValue>)
    ensures
        document == payload_document(line@),
{
    let record = match parse_json(line) {
        Some(record) => record,
        None => { return None; },
    };
    let bytes = match record.field("msg_b64") {
        Some(JsonValue::String(text)) => match decode_payload(text.as_str()) {
            Some(bytes) => bytes,
            None => { return None; },
        },
        _ => { return None; },
    };
    match utf8_text(bytes) {
        Some(text) => parse_json(text.as_str()),
        None => None,
    }
}

/// The open window of a topic as plain values.
pub struct WindowView {
    /// The samples by key path.
    pub samples: Map<Seq<char>, Samples>,
    /// When the window began.
    pub start: Moment,
    /// The seconds that a window lasts.
    pub interval: u64,
}

/// The statistics of one topic: the samples of the window that is open, and
/// when that window began.
pub struct TopicStats {
    data: TopicMap<JsonValueType>,
    last_stats_time: Moment,
    stats_interval_secs: u64,
}

impl TopicStats {
    /// The samples of the open window, by key path.
    pub closed spec fn samples(&self) -> Map<Seq<char>, Samples> {
        Map::new(|k: Seq<char>| self.data@.contains_key(k), |k: Seq<char>| self.data@[k]@)
    }

    /// When the open window began.
    pub closed spec fn window_start(&self) -> Moment {
        self.last_stats_time
    }

    /// The seconds that a window lasts.
    pub closed spec fn interval(&self) -> u64 {
        self.stats_interval_secs
    }

    /// What all statistics made by `new` keep true of themselves.
    pub closed spec fn wf(&self) -> bool {
        self.data.wf()
    }

    /// The open window as plain values.
    pub open spec fn view(&self) -> WindowView {
        WindowView { samples: self.samples(), start: self.window_start(), interval: self.interval() }
    }

    /// Statistics with an empty window that begins at `now`.
    pub fn new(stats_interval_secs: u64, now: Moment) -> (stats: TopicStats)
        ensures
            stats.wf(),
            stats.samples() == Map::<Seq<char>, Samples>::empty(),
            stats.window_start() == now,
            stats.interval() == stats_interval_secs,
    {
        let stats = TopicStats { data: TopicMap::new(), last_stats_time: now, stats_interval_secs };
        assert(stats.samples() =~= Map::<Seq<char>, Samples>::empty());
        stats
    }

    /// Whether the open window has lasted longer than the interval.
    pub fn should_calculate_stats(&self, now: Moment) -> (due: bool)
        ensures
            due == more_than_seconds_between(now, self.window_start(), self.interval()),
    {
        now.is_more_than_after(&self.last_stats_time, self.stats_interval_secs)
    }

    /// Closes the open window at `now`. A window without samples stays open
    /// and nothing is reported. Otherwise the report of the window is
    /// returned, the samples are dropped and a new window begins at `now`.
    pub fn calculate_and_write_stats(&mut self, now: Moment) -> (report: Option<StatsReport>)
        requires
            old(self).wf(),
        ensures
            final(self).wf(),
            final(self).interval() == old(self).interval(),
            match report {
                None => {
                    &&& old(self).samples() == Map::<Seq<char>, Samples>::empty()
                    &&& final(self).samples() == old(self).samples()
                    &&& final(self).window_start() == old(self).window_start()
                },
                Some(r) => {
                    &&& old(self).samples() != Map::<Seq<char>, Samples>::empty()
                    &&& r.window_secs == whole_seconds_between(now, old(self).window_start())
                    &&& is_report_of(entry_views(r.entries@), old(self).samples())
                    &&& final(self).samples() == Map::<Seq<char>, Samples>::empty()
                    &&& final(self).window_start() == now
                },
            },
    {
        let ghost samples = self.samples();
        proof {
            self.data.lemma_view();
            assert(samples.dom() =~= self.data@.dom());
        }
        if self.data.is_empty() {
            assert(samples =~= Map::<Seq<char>, Samples>::empty());
            return None;
        }
        assert(samples.contains_key(self.data.keys()[0]));
        let window_secs = now.seconds_since(&self.last_stats_time);
        let mut entries: Vec<StatsEntry> = Vec::new();
        let mut keys: Vec<Vec<char>> = Vec::new();
        let ghost mut origin: Seq<int> = Seq::empty();
        let n = self.data.len();
        let mut i: usize = 0;
        assert(views_of(keys@) =~= entry_views(entries@).map_values(|e: (Seq<char>, StatisticView)| e.0));
        while i < n
            invariant
                self.data.wf(),
                n == self.data.keys().len(),
                i <= n,
                views_of(keys@) == entry_views(entries@).map_values(|e: (Seq<char>, StatisticView)| e.0),
                ascending(views_of(keys@)),
                origin.len() == entries.len(),
                origin.no_duplicates(),
                forall|a: int|
                    0 <= a < origin.len() ==> 0 <= #[trigger] origin[a] < i && self.data.keys()[origin[a]]
                        == entries@[a].path@ && statistic_of(self.data.values()[origin[a]]@) == Some(
                        entries@[a].stat@,
                    ),
                forall|j: int|
                    0 <= j < i && statistic_of(self.data.values()[j]@) is Some ==> exists|a: int|
                        0 <= a < origin.len() && #[trigger] origin[a] == j,
            decreases n - i,
        {
            let samples_here = self.data.value_at(i);
            match samples_here.calculate_stat() {
                Some(stat) => {
                    let path = self.data.key_at(i).clone();
                    let key = chars_of(path.as_str());
                    let at = ascending_place(&keys, &key);
                    let ghost old_entries = entries@;
                    let ghost old_origin = origin;
                    let ghost old_paths = views_of(keys@);
                    let entry = StatsEntry { path, stat };
                    entries.insert(at, entry);
                    keys.insert(at, key);
                    proof {
                        origin = old_origin.insert(at as int, i as int);
                        assert(views_of(keys@) =~= old_paths.insert(at as int, entry.path@));
                        assert(entry_views(entries@).map_values(|e: (Seq<char>, StatisticView)| e.0)
                            =~= old_paths.insert(at as int, entry.path@));
                        assert(origin.no_duplicates()) by {
                            assert forall|a: int, b: int|
                                0 <= a < origin.len() && 0 <= b < origin.len() && a != b implies origin[a]
                                != origin[b] by {
                                let a0 = if a < at { a } else { a - 1 };
                                let b0 = if b < at { b } else { b - 1 };
                                if a != at && b != at {
                                    assert(origin[a] == old_origin[a0] && origin[b] == old_origin[b0]);
                                } else if a == at {
                                    assert(origin[b] == old_origin[b0]);
                                } else {
                                    assert(origin[a] == old_origin[a0]);
                                }
                            }
                        }
                        assert forall|a: int| 0 <= a < origin.len() implies 0 <= #[trigger] origin[a] < i + 1
                            && self.data.keys()[origin[a]] == entries@[a].path@ && statistic_of(
                            self.data.values()[origin[a]]@,
                        ) == Some(entries@[a].stat@) by {
                            if a < at {
                                assert(origin[a] == old_origin[a]);
                            } else if a > at {
                                assert(origin[a] == old_origin[a - 1]);
                            }
                        }
                        assert forall|j: int|
                            0 <= j < i + 1 && statistic_of(self.data.values()[j]@) is Some implies exists|a: int|
                            0 <= a < origin.len() && #[trigger] origin[a] == j by {
                            if j < i {
                                let a0 = choose|a: int| 0 <= a < old_origin.len() && #[trigger] old_origin[a] == j;
                                let a1 = if a0 < at { a0 } else { a0 + 1 };
                                assert(origin[a1] == j);
                            } else {
                                assert(origin[at as int] == j);
                            }
                        }
                    }
                },
                None => {},
            }
            i += 1;
        }
        proof {
            let views = entry_views(entries@);
            let paths = views.map_values(|e: (Seq<char>, StatisticView)| e.0);
            assert forall|a: int, b: int| 0 <= a < b < views.len() implies lex_le(
                (#[trigger] views[a]).0,
                (#[trigger] views[b]).0,
            ) && views[a].0 != views[b].0 by {
                assert(lex_le(paths[a], paths[b]));
                assert(origin[a] != origin[b]);
                assert(self.data.keys()[origin[a]] != self.data.keys()[origin[b]]);
            }
            assert forall|a: int| 0 <= a < views.len() implies samples.contains_key((#[trigger] views[a]).0)
                && statistic_of(samples[views[a].0]) == Some(views[a].1) by {
                let j = origin[a];
                assert(self.data@.contains_key(self.data.keys()[j]));
            }
            assert forall|path: Seq<char>| #[trigger]
                samples.contains_key(path) && statistic_of(samples[path]) is Some implies exists|a: int|
                0 <= a < views.len() && (#[trigger] views[a]).0 == path by {
                let j = self.data.keys().index_of(path);
                self.data.keys().index_of_first_ensures(path);
                assert(self.data@[self.data.keys()[j]] == self.data.values()[j]);
                let a = choose|a: int| 0 <= a < origin.len() && #[trigger] origin[a] == j;
                assert(views[a].0 == path);
            }
        }
        self.data = TopicMap::new();
        self.last_stats_time = now;
        assert(self.samples() =~= Map::<Seq<char>, Samples>::empty());
        Some(StatsReport { window_secs, entries })
    }

    /// Closes the open window at `now`, whether or not the interval has passed.
    pub fn force_calculate_stats(&mut self, now: Moment) -> (report: Option<StatsReport>)
        requires
            old(self).wf(),
        ensures
            final(self).wf(),
            final(self).interval() == old(self).interval(),
            match report {
                None => {
                    &&& old(self).samples() == Map::<Seq<char>, Samples>::empty()
                    &&& final(self).samples() == old(self).samples()
                    &&& final(self).window_start() == old(self).window_start()
                },
                Some(r) => {
                    &&& old(self).samples() != Map::<Seq<char>, Samples>::empty()
                    &&& r.window_secs == whole_seconds_between(now, old(self).window_start())
                    &&& is_report_of(entry_views(r.entries@), old(self).samples())
                    &&& final(self).samples() == Map::<Seq<char>, Samples>::empty()
                    &&& final(self).window_start() == now
                },
            },
    {
        self.calculate_and_write_stats(now)
    }

    /// Takes in the scalar `value` found at `key_path`.
    fn add_value_to_stats(&mut self, key_path: &str, value: &JsonValue)
        requires
            old(self).wf(),
        ensures
            final(self).wf(),
            final(self).samples() == with_leaf(old(self).samples(), key_path@, *value),
            final(self).window_start() == old(self).window_start(),
            final(self).interval() == old(self).interval(),
    {
        let ghost before = self.samples();
        match self.data.position(key_path) {
            Some(i) => {
                let samples = self.data.value_mut(i);
                samples.add_value(value);
            },
            None => {
                let mut samples = JsonValueType::for_value(value);
                samples.add_value(value);
                self.data.insert(String::from_str(key_path), samples);
            },
        }
        assert(self.samples() =~= with_leaf(before, key_path@, *value));
    }

    /// Takes in every leaf of `value`, which stands at the key path `prefix`:
    /// the fields of an object under `prefix.name` (under `name` at the
    /// root), the elements of an array under `prefix[index]`.
    pub fn extract_values(&mut self, prefix: &str, value: &JsonValue)
        requires
            old(self).wf(),
        ensures
            final(self).wf(),
            final(self).samples() == with_leaves(old(self).samples(), leaves(prefix@, *value)),
            final(self).window_start() == old(self).window_start(),
            final(self).interval() == old(self).interval(),
        decreases value,
    {
        let ghost before = self.samples();
        match value {
            JsonValue::Object(fields) => {
                let mut i: usize = 0;
                while i < fields.len()
                    invariant
                        i <= fields.len(),
                        *value == JsonValue::Object(*fields),
                        self.wf(),
                        self.samples() == with_leaves(before, leaves_upto(prefix@, *value, i as nat)),
                        self.window_start() == old(self).window_start(),
                        self.interval() == old(self).interval(),
                    decreases fields.len() - i,
                {
                    let name = &fields[i].0;
                    let mut path = String::from_str(prefix);
                    if prefix.unicode_len() != 0 {
                        path.push('.');
                    }
                    path.append(name.as_str());
                    assert(path@ =~= field_path(prefix@, name@));
                    proof {
                        lemma_with_leaves_concat(
                            before,
                            leaves_upto(prefix@, *value, i as nat),
                            leaves(path@, fields@[i as int].1),
                        );
                    }
                    self.extract_values(path.as_str(), &fields[i].1);
                    i += 1;
                }
            },
            JsonValue::Array(items) => {
                let mut i: usize = 0;
                while i < items.len()
                    invariant
                        i <= items.len(),
                        *value == JsonValue::Array(*items),
                        self.wf(),
                        self.samples() == with_leaves(before, leaves_upto(prefix@, *value, i as nat)),
                        self.window_start() == old(self).window_start(),
                        self.interval() == old(self).interval(),
                    decreases items.len() - i,
                {
                    let mut path = String::from_str(prefix);
                    path.push('[');
                    push_decimal(&mut path, i as u64);
                    path.push(']');
                    assert(path@ =~= index_path(prefix@, i as nat));
                    proof {
                        lemma_with_leaves_concat(
                            before,
                            leaves_upto(prefix@, *value, i as nat),
                            leaves(path@, items@[i as int]),
                        );
                    }
                    self.extract_values(path.as_str(), &items[i]);
                    i += 1;
                }
            },
            _ => {
                if prefix.unicode_len() != 0 {
                    self.add_value_to_stats(prefix, value);
                    proof {
                        let found = leaves(prefix@, *value);
                        assert(found.drop_last() =~= Seq::<(Seq<char>, JsonValue)>::empty());
                        assert(with_leaves(before, found.drop_last()) == before);
                    }
                }
            },
        }
    }

    /// Takes in the record on `json_str`: where its payload is a JSON
    /// document, every leaf of the document; nothing otherwise.
    pub fn add_message(&mut self, json_str: &str)
        requires
            old(self).wf(),
        ensures
            final(self).wf(),
            final(self).samples() == match payload_document(json_str@) {
                Some(document) => with_leaves(old(self).samples(), leaves(Seq::empty(), document)),
                None => old(self).samples(),
            },
            final(self).window_start() == old(self).window_start(),
            final(self).interval() == old(self).interval(),
    {
        match payload_json(json_str) {
            Some(document) => {
                let root = String::new();
                self.extract_values(root.as_str(), &document);
            },
            None => {},
        }
    }
}

/// A report with the topic whose window it closes.
#[derive(Debug)]
pub struct TopicReport {
    pub topic: String,
    pub report: StatsReport,
}

/// The window that a topic gets with its first message at `now`.
pub open spec fn fresh_window(interval: u64, now: Moment) -> WindowView {
    WindowView { samples: Map::empty(), start: now, interval }
}

/// A window after the record on `line` has been taken in.
pub open spec fn window_with_message(window: WindowView, line: Seq<char>) -> WindowView {
    WindowView {
        samples: match payload_document(line) {
            Some(document) => with_leaves(window.samples, leaves(Seq::empty(), document)),
            None => window.samples,
        },
        ..window
    }
}

/// The windows after the record on `line` has arrived for `topic` at `now`:
/// the topic's window takes it in, and begins at `now` if it is new.
pub open spec fn with_message(
    windows: Map<Seq<char>, WindowView>,
    interval: u64,
    topic: Seq<char>,
    line: Seq<char>,
    now: Moment,
) -> Map<Seq<char>, WindowView> {
    windows.insert(
        topic,
        window_with_message(
            if windows.contains_key(topic) {
                windows[topic]
            } else {
                fresh_window(interval, now)
            },
            line,
        ),
    )
}

/// The window that follows a window closed at `now`.
pub open spec fn reopened(window: WindowView, now: Moment) -> WindowView {
    WindowView { samples: Map::empty(), start: now, interval: window.interval }
}

/// Whether closing the window of `topic` reports anything: the topic is
/// among `topics`, has a window, and the window holds samples.
pub open spec fn is_closed(windows: Map<Seq<char>, WindowView>, topics: Set<Seq<char>>, topic: Seq<char>) -> bool {
    &&& topics.contains(topic)
    &&& windows.contains_key(topic)
    &&& windows[topic].samples != Map::<Seq<char>, Samples>::empty()
}

/// The windows after those of `topics` have been closed at `now`: a window
/// with samples is replaced by an empty one that begins at `now`, and every
/// other window stays as it is.
pub open spec fn closing(windows: Map<Seq<char>, WindowView>, topics: Set<Seq<char>>, now: Moment) -> Map<
    Seq<char>,
    WindowView,
> {
    Map::new(
        |k: Seq<char>| windows.contains_key(k),
        |k: Seq<char>|
            if is_closed(windows, topics, k) {
                reopened(windows[k], now)
            } else {
                windows[k]
            },
    )
}

/// Whether `report` is what `window` comes to when it is closed at `now`.
pub open spec fn reports_window(report: StatsReport, window: WindowView, now: Moment) -> bool {
    &&& report.window_secs == whole_seconds_between(now, window.start)
    &&& is_report_of(entry_views(report.entries@), window.samples)
}

/// Whether `reports` are what closing the windows of `topics` at `now`
/// reports of `windows`: one report for each closed window with samples,
/// and no other.
pub open spec fn are_reports_of(
    reports: Seq<TopicReport>,
    windows: Map<Seq<char>, WindowView>,
    topics: Set<Seq<char>>,
    now: Moment,
) -> bool {
    &&& forall|a: int, b: int|
        0 <= a < reports.len() && 0 <= b < reports.len() && a != b ==> (#[trigger] reports[a]).topic@
            != (#[trigger] reports[b]).topic@
    &&& forall|a: int|
        0 <= a < reports.len() ==> {
            let topic = (#[trigger] reports[a]).topic@;
            &&& is_closed(windows, topics, topic)
            &&& reports_window(reports[a].report, windows[topic], now)
        }
    &&& forall|topic: Seq<char>| #[trigger]
        is_closed(windows, topics, topic) ==> exists|a: int|
            0 <= a < reports.len() && (#[trigger] reports[a]).topic@ == topic
}

/// The topics whose window has, at `now`, lasted longer than its interval.
pub open spec fn due_topics(windows: Map<Seq<char>, WindowView>, now: Moment) -> Set<Seq<char>> {
    Set::new(
        |k: Seq<char>|
            windows.contains_key(k) && more_than_seconds_between(now, windows[k].start, windows[k].interval),
    )
}

/// The statistics of all topics.
pub struct StatsManager {
    topic_stats: TopicMap<TopicStats>,
    base_dir: String,
    stats_enabled: bool,
    stats_interval_secs: u64,
}

/// The path of the file that holds the statistics of `topic`.
pub open spec fn stats_file_path(base_dir: Seq<char>, topic: Seq<char>) -> Seq<char> {
    joined(joined(base_dir, topic), "mqtt-recorder-"@ + sanitized(topic) + "-stats.txt"@)
}

impl StatsManager {
    /// The open window of each topic that has had a message.
    pub closed spec fn windows(&self) -> Map<Seq<char>, WindowView> {
        Map::new(|k: Seq<char>| self.topic_stats@.contains_key(k), |k: Seq<char>| self.topic_stats@[k]@)
    }

    /// Whether statistics are kept at all.
    pub closed spec fn enabled(&self) -> bool {
        self.stats_enabled
    }

    /// The seconds that a window lasts.
    pub closed spec fn interval(&self) -> u64 {
        self.stats_interval_secs
    }

    /// The directory of the recording.
    pub closed spec fn base_dir(&self) -> Seq<char> {
        self.base_dir@
    }

    /// What every manager made by `new` keeps true of itself.
    pub closed spec fn wf(&self) -> bool {
        &&& self.topic_stats.wf()
        &&& forall|k: Seq<char>| self.topic_stats@.contains_key(k) ==> (#[trigger] self.topic_stats@[k]).wf()
    }

    /// Whether `after` is this manager with other windows.
    pub open spec fn same_settings(&self, after: &StatsManager) -> bool {
        &&& after.enabled() == self.enabled()
        &&& after.interval() == self.interval()
        &&& after.base_dir() == self.base_dir()
    }

    /// Whether `after` is this manager once the window of `topic` has been
    /// closed at `now`, and `report` what that closing reports.
    pub open spec fn forced(&self, after: &StatsManager, topic: Seq<char>, now: Moment, report: Option<StatsReport>) -> bool {
        &&& self.same_settings(after)
        &&& after.windows() == if self.enabled() {
            closing(self.windows(), set![topic], now)
        } else {
            self.windows()
        }
        &&& match report {
            Some(r) => {
                &&& self.enabled()
                &&& is_closed(self.windows(), set![topic], topic)
                &&& reports_window(r, self.windows()[topic], now)
            },
            None => !self.enabled() || !is_closed(self.windows(), set![topic], topic),
        }
    }

    /// A manager without windows, for a recording under `base_dir`.
    pub fn new(base_dir: String, stats_enabled: bool, stats_interval_secs: u64) -> (manager: StatsManager)
        ensures
            manager.wf(),
            manager.windows() == Map::<Seq<char>, WindowView>::empty(),
            manager.enabled() == stats_enabled,
            manager.interval() == stats_interval_secs,
            manager.base_dir() == base_dir@,
    {
        let manager = StatsManager { topic_stats: TopicMap::new(), base_dir, stats_enabled, stats_interval_secs };
        assert(manager.windows() =~= Map::<Seq<char>, WindowView>::empty());
        manager
    }

    /// Whether statistics are kept at all.
    pub fn is_enabled(&self) -> (yes: bool)
        ensures
            yes == self.enabled(),
    {
        self.stats_enabled
    }

    /// Takes the record on `json_payload` into the statistics of `topic`,
    /// whose window begins at `now` if this is the topic's first message.
    /// Nothing happens where statistics are not kept.
    pub fn add_message(&mut self, topic: &str, json_payload: &str, now: Moment)
        requires
            old(self).wf(),
        ensures
            final(self).wf(),
            old(self).same_settings(final(self)),
            final(self).windows() == if old(self).enabled() {
                with_message(old(self).windows(), old(self).interval(), topic@, json_payload@, now)
            } else {
                old(self).windows()
            },
    {
        if !self.stats_enabled {
            return ;
        }
        let ghost before = self.windows();
        let place = match self.topic_stats.position(topic) {
            Some(i) => i,
            None => {
                let fresh = TopicStats::new(self.stats_interval_secs, now);
                proof {
                    self.topic_stats.lemma_view();
                }
                self.topic_stats.insert(String::from_str(topic), fresh);
                proof {
                    self.topic_stats.lemma_view();
                }
                self.topic_stats.len() - 1
            },
        };
        let ghost middle = self.topic_stats@;
        assert(self.topic_stats.keys()[place as int] == topic@);
        let stats = self.topic_stats.value_mut(place);
        proof {
            assert(*stats == middle[topic@]);
        }
        stats.add_message(json_payload);
        proof {
            assert(self.topic_stats@ == middle.insert(topic@, self.topic_stats@[topic@]));
            assert(self.windows() =~= with_message(before, self.stats_interval_secs, topic@, json_payload@, now));
        }
    }

    /// Closes the window of `topic` at `now`, whether or not its interval has
    /// passed. Nothing happens where statistics are not kept, where the
    /// topic has had no message, or where its window holds no samples.
    pub fn force_calculate_stats_for_topic(&mut self, topic: &str, now: Moment) -> (report: Option<StatsReport>)
        requires
            old(self).wf(),
        ensures
            final(self).wf(),
            old(self).forced(final(self), topic@, now, report),
    {
        if !self.stats_enabled {
            return None;
        }
        let ghost before = self.windows();
        match self.topic_stats.position(topic) {
            Some(i) => {
                let ghost middle = self.topic_stats@;
                let stats = self.topic_stats.value_mut(i);
                let report = stats.force_calculate_stats(now);
                proof {
                    assert(self.topic_stats@ == middle.insert(topic@, self.topic_stats@[topic@]));
                    assert(self.windows() =~= closing(before, set![topic@], now));
                }
                report
            },
            None => {
                assert(self.windows() =~= closing(before, set![topic@], now));
                None
            },
        }
    }

    /// Closes, at `now`, the window of every topic whose window has lasted
    /// longer than the interval and holds samples, and returns their reports.
    /// Nothing happens where statistics are not kept.
    pub fn check_and_calculate_stats(&mut self, now: Moment) -> (reports: Vec<TopicReport>)
        requires
            old(self).wf(),
        ensures
            final(self).wf(),
            old(self).same_settings(final(self)),
            !old(self).enabled() ==> reports@.len() == 0 && final(self).windows() == old(self).windows(),
            old(self).enabled() ==> {
                &&& are_reports_of(reports@, old(self).windows(), due_topics(old(self).windows(), now), now)
                &&& final(self).windows() == closing(old(self).windows(), due_topics(old(self).windows(), now), now)
            },
    {
        let mut reports: Vec<TopicReport> = Vec::new();
        if !self.stats_enabled {
            return reports;
        }
        let ghost before = self.windows();
        let ghost due = due_topics(before, now);
        let ghost keys = self.topic_stats.keys();
        let ghost mut origin: Seq<int> = Seq::empty();
        proof {
            self.topic_stats.lemma_view();
        }
        let n = self.topic_stats.len();
        let mut i: usize = 0;
        while i < n
            invariant
                self.wf(),
                self.stats_enabled,
                self.stats_interval_secs == old(self).stats_interval_secs,
                self.base_dir == old(self).base_dir,
                keys == self.topic_stats.keys(),
                keys.no_duplicates(),
                n == keys.len(),
                i <= n,
                due == due_topics(before, now),
                before.dom() == keys.to_set(),
                self.windows().dom() == before.dom(),
                forall|j: int|
                    0 <= j < i ==> self.windows()[#[trigger] keys[j]] == if is_closed(before, due, keys[j]) {
                        reopened(before[keys[j]], now)
                    } else {
                        before[keys[j]]
                    },
                forall|j: int| i <= j < n ==> self.windows()[#[trigger] keys[j]] == before[keys[j]],
                origin.len() == reports.len(),
                forall|x: int, y: int| 0 <= x < y < origin.len() ==> origin[x] < origin[y],
                forall|a: int|
                    0 <= a < origin.len() ==> 0 <= #[trigger] origin[a] < i && keys[origin[a]] == reports@[a].topic@
                        && is_closed(before, due, keys[origin[a]]) && reports_window(
                        reports@[a].report,
                        before[keys[origin[a]]],
                        now,
                    ),
                forall|j: int|
                    0 <= j < i && is_closed(before, due, #[trigger] keys[j]) ==> exists|a: int|
                        0 <= a < origin.len() && #[trigger] origin[a] == j,
            decreases n - i,
        {
            let ghost middle = self.topic_stats@;
            let ghost current = self.windows();
            proof {
                self.topic_stats.lemma_view();
                assert(keys.to_set().contains(keys[i as int]));
                assert(current.contains_key(keys[i as int]));
                assert(current[keys[i as int]] == middle[keys[i as int]]@);
            }
            let is_due = self.topic_stats.value_at(i).should_calculate_stats(now);
            if is_due {
                let topic = self.topic_stats.key_at(i).clone();
                let stats = self.topic_stats.value_mut(i);
                let report = stats.calculate_and_write_stats(now);
                proof {
                    assert(self.topic_stats@ == middle.insert(keys[i as int], self.topic_stats@[keys[i as int]]));
                    assert(self.windows().dom() =~= before.dom());
                    assert forall|j: int| 0 <= j < n && j != i implies self.windows()[#[trigger] keys[j]]
                        == current[keys[j]] by {
                        assert(keys[j] != keys[i as int]);
                    }
                }
                match report {
                    Some(report) => {
                        let ghost old_origin = origin;
                        reports.push(TopicReport { topic, report });
                        proof {
                            origin = old_origin.push(i as int);
                            assert forall|j: int| 0 <= j < i + 1 && is_closed(before, due, #[trigger] keys[j]) implies exists|
                                a: int,
                            | 0 <= a < origin.len() && #[trigger] origin[a] == j by {
                                if j < i {
                                    let a0 = choose|a: int| 0 <= a < old_origin.len() && #[trigger] old_origin[a] == j;
                                    assert(origin[a0] == j);
                                } else {
                                    assert(origin[old_origin.len() as int] == j);
                                }
                            }
                        }
                    },
                    None => {},
                }
            }
            i += 1;
        }
        proof {
            assert forall|a: int, b: int|
                0 <= a < reports@.len() && 0 <= b < reports@.len() && a != b implies (#[trigger] reports@[a]).topic@
                != (#[trigger] reports@[b]).topic@ by {
                assert(origin[a] != origin[b]) by {
                    lemma_origin_ascends(origin, a, b);
                }
            }
            assert forall|a: int| 0 <= a < reports@.len() implies {
                let topic = (#[trigger] reports@[a]).topic@;
                &&& is_closed(before, due, topic)
                &&& reports_window(reports@[a].report, before[topic], now)
            } by {
                assert(keys[origin[a]] == reports@[a].topic@);
            }
            assert forall|topic: Seq<char>| #[trigger] is_closed(before, due, topic) implies exists|a: int|
                0 <= a < reports@.len() && (#[trigger] reports@[a]).topic@ == topic by {
                assert(keys.to_set().contains(topic));
                let j = keys.index_of(topic);
                keys.index_of_first_ensures(topic);
                assert(is_closed(before, due, keys[j]));
                let a = choose|a: int| 0 <= a < origin.len() && #[trigger] origin[a] == j;
                assert(reports@[a].topic@ == topic);
            }
            assert forall|topic: Seq<char>| #[trigger] before.contains_key(topic) implies self.windows()[topic]
                == closing(before, due, now)[topic] by {
                assert(keys.to_set().contains(topic));
                let j = keys.index_of(topic);
                keys.index_of_first_ensures(topic);
                assert(keys[j] == topic);
            }
            assert(self.windows() =~= closing(before, due, now));
            assert(are_reports_of(reports@, before, due, now));
        }
        reports
    }

    /// The path of the file that holds the statistics of `topic`.
    pub fn get_stats_file_path(&self, topic: &str) -> (path: String)
        ensures
            path@ == stats_file_path(self.base_dir(), topic@),
    {
        let mut path = self.base_dir.clone();
        path.push('/');
        path.append(topic);
        path.push('/');
        path.append("mqtt-recorder-");
        let name = topic_to_path(topic);
        path.append(name.as_str());
        path.append("-stats.txt");
        assert(path@ =~= stats_file_path(self.base_dir@, topic@));
        path
    }
}

} // verus!
