//! Replaying recordings: the names of recording files and the time each name
//! stands for, the choice and order of the files of a time range, and what
//! each line of a recording asks of the replay.

use crate::clock::{bound_pattern, minute_pattern, parse_time, parsed_time, stream_pattern, Timestamp};
use crate::json::JsonNumber;
use crate::message::{effective_qos, payload_of, record_of_line, spec_effective_qos, MqttMessage};
use crate::text::{
    all_digits, ascending, ascending_place, chars_of, find_last, has_prefix, has_suffix, is_all_digits,
    last_index_of, lemma_decimal_digits, lemma_last_index_of, lemma_split_on_joined, lemma_split_on_plain,
    matches_at, push_chars, split_chars, split_on, views_of,
};
use vstd::prelude::*;

verus! {

/// What every recording's file name begins with.
pub open spec fn recording_prefix() -> Seq<char> {
    "mqtt-recorder-"@
}

/// What every recording's file name ends with.
pub open spec fn recording_suffix() -> Seq<char> {
    ".json"@
}

/// The last component of `path`: what follows its last `/`.
pub open spec fn file_name(path: Seq<char>) -> Seq<char> {
    path.skip(last_index_of(path, '/') + 1)
}

/// The file name of `path` without its `.json` extension, or `None` where
/// `path` does not name a `.json` file.
pub open spec fn recording_stem(path: Seq<char>) -> Option<Seq<char>> {
    let name = file_name(path);
    if name.len() > recording_suffix().len() && has_suffix(name, recording_suffix()) {
        Some(name.take(name.len() - recording_suffix().len()))
    } else {
        None
    }
}

/// Two pieces of a name put together again around the `-` that parted them.
pub open spec fn rejoined(a: Seq<char>, b: Seq<char>) -> Seq<char> {
    a + seq!['-'] + b
}

/// The time in the name of a topic's recording, whose pieces between `-` are
/// `parts`: with a sequence number, `..-YYYYMMDD-HHMMSS-N`, the two pieces
/// before the number; failing that, without one, the last two pieces.
pub open spec fn stream_timestamp(parts: Seq<Seq<char>>) -> Option<Timestamp> {
    let n = parts.len() as int;
    let numbered = if n >= 4 && all_digits(parts[n - 1]) {
        parsed_time(rejoined(parts[n - 3], parts[n - 2]), stream_pattern())
    } else {
        None
    };
    if numbered is Some {
        numbered
    } else if n >= 3 {
        parsed_time(rejoined(parts[n - 2], parts[n - 1]), stream_pattern())
    } else {
        None
    }
}

/// The time that a recording's name, without its extension, stands for. The
/// name of a plain recording, `mqtt-recorder-YYYY-MM-DD-HHMM`, is read first;
/// then that of a topic's recording. `None` where the name fits neither.
pub open spec fn stem_timestamp(stem: Seq<char>) -> Option<Timestamp> {
    if !has_prefix(stem, recording_prefix()) {
        None
    } else {
        let rest = stem.skip(recording_prefix().len() as int);
        let plain = parsed_time(rest, minute_pattern());
        if plain is Some {
            plain
        } else {
            stream_timestamp(split_on(rest, '-'))
        }
    }
}

/// Whether `time` lies within the bounds that are given, both inclusive.
pub open spec fn within(time: Timestamp, start: Option<Timestamp>, end: Option<Timestamp>) -> bool {
    &&& start matches Some(s) ==> s.at_or_before(time)
    &&& end matches Some(e) ==> time.at_or_before(e)
}

/// Whether the file at `path` is replayed: it is a `.json` file and, where
/// files are `filtered` by time, its name stands for a time within the bounds.
pub open spec fn is_selected(
    path: Seq<char>,
    filtered: bool,
    start: Option<Timestamp>,
    end: Option<Timestamp>,
) -> bool {
    match recording_stem(path) {
        None => false,
        Some(stem) => !filtered || match stem_timestamp(stem) {
            Some(time) => within(time, start, end),
            None => false,
        },
    }
}

/// The text that a caller gave as a bound, read as `YYYY-MM-DD HH:MM`; a bound
/// that is absent or does not read as a time bounds nothing.
pub open spec fn bound_of(text: Option<String>) -> Option<Timestamp> {
    match text {
        Some(t) => parsed_time(t@, bound_pattern()),
        None => None,
    }
}

/// The texts of `paths`, in order.
pub open spec fn texts_of(paths: Seq<String>) -> Seq<Seq<char>> {
    paths.map_values(|p: String| p@)
}

fn rejoin(a: &Vec<char>, b: &Vec<char>) -> (joined: String)
    ensures
        joined@ == rejoined(a@, b@),
{
    let mut joined = String::new();
    push_chars(&mut joined, a, 0, a.len());
    joined.push('-');
    push_chars(&mut joined, b, 0, b.len());
    proof {
        assert(a@.subrange(0, a.len() as int) == a@);
        assert(b@.subrange(0, b.len() as int) == b@);
    }
    joined
}

fn stream_time(parts: &Vec<Vec<char>>) -> (time: Option<Timestamp>)
    ensures
        time == stream_timestamp(views_of(parts@)),
{
    let n = parts.len();
    if n >= 4 && is_all_digits(&parts[n - 1]) {
        let text = rejoin(&parts[n - 3], &parts[n - 2]);
        let numbered = parse_time(text.as_str(), "%Y%m%d-%H%M%S");
        if numbered.is_some() {
            return numbered;
        }
    }
    if n >= 3 {
        let text = rejoin(&parts[n - 2], &parts[n - 1]);
        parse_time(text.as_str(), "%Y%m%d-%H%M%S")
    } else {
        None
    }
}

/// Reads the time that the name `stem` of a recording stands for.
fn stem_time(stem: &Vec<char>) -> (time: Option<Timestamp>)
    ensures
        time == stem_timestamp(stem@),
{
    let prefix = chars_of("mqtt-recorder-");
    assert(stem@.skip(0) == stem@);
    if !matches_at(stem, 0, &prefix) {
        return None;
    }
    let mut rest = String::new();
    push_chars(&mut rest, stem, prefix.len(), stem.len());
    assert(stem@.subrange(prefix.len() as int, stem.len() as int) == stem@.skip(prefix.len() as int));
    let plain = parse_time(rest.as_str(), "%Y-%m-%d-%H%M");
    if plain.is_some() {
        return plain;
    }
    let parts = split_chars(stem, prefix.len(), '-');
    stream_time(&parts)
}

/// The name of the `.json` file at `path`, without the extension.
fn stem_of(path: &Vec<char>) -> (stem: Option<Vec<char>>)
    ensures
        match stem {
            Some(s) => recording_stem(path@) == Some(s@),
            None => recording_stem(path@) is None,
        },
{
    let suffix = chars_of(".json");
    proof {
        lemma_last_index_of(path@, '/');
    }
    let start: usize = match find_last(path, '/') {
        Some(at) => at + 1,
        None => 0,
    };
    let name_len = path.len() - start;
    if name_len <= suffix.len() {
        return None;
    }
    let cut = path.len() - suffix.len();
    let ghost name = file_name(path@);
    assert(name.skip(name.len() - suffix.len()) == path@.skip(cut as int));
    if !matches_at(path, cut, &suffix) {
        assert(path@.skip(cut as int).take(suffix.len() as int) == path@.skip(cut as int));
        return None;
    }
    assert(path@.skip(cut as int).take(suffix.len() as int) == path@.skip(cut as int));
    let mut stem: Vec<char> = Vec::new();
    let mut i: usize = start;
    while i < cut
        invariant
            start <= i <= cut <= path.len(),
            stem@ == path@.subrange(start as int, i as int),
        decreases cut - i,
    {
        stem.push(path[i]);
        i += 1;
    }
    assert(stem@ == name.take(name.len() - suffix.len()));
    Some(stem)
}

/// Whether the file at `path` is replayed.
fn selects(path: &Vec<char>, filtered: bool, start: &Option<Timestamp>, end: &Option<Timestamp>) -> (yes: bool)
    ensures
        yes == is_selected(path@, filtered, *start, *end),
{
    match stem_of(path) {
        None => false,
        Some(stem) => {
            if !filtered {
                return true;
            }
            match stem_time(&stem) {
                None => false,
                Some(time) => {
                    let after_start = match start {
                        Some(s) => s.is_at_or_before(&time),
                        None => true,
                    };
                    let before_end = match end {
                        Some(e) => time.is_at_or_before(e),
                        None => true,
                    };
                    after_start && before_end
                },
            }
        },
    }
}

/// Puts `path`, whose characters are `key`, into the ascending `chosen` at
/// the place that keeps it ascending, behind the paths equal to it.
fn insert_ascending(chosen: &mut Vec<String>, keys: &mut Vec<Vec<char>>, path: String, key: Vec<char>)
    requires
        key@ == path@,
        texts_of(old(chosen)@) == views_of(old(keys)@),
        ascending(texts_of(old(chosen)@)),
    ensures
        texts_of(final(chosen)@) == views_of(final(keys)@),
        ascending(texts_of(final(chosen)@)),
        texts_of(final(chosen)@).to_multiset() == texts_of(old(chosen)@).to_multiset().insert(path@),
{
    let ghost before = texts_of(chosen@);
    assert(before.len() == chosen.len() && before.len() == keys.len());
    let at = ascending_place(keys, &key);
    chosen.insert(at, path);
    keys.insert(at, key);
    proof {
        let after = before.insert(at as int, path@);
        assert(texts_of(chosen@) =~= after);
        assert(views_of(keys@) =~= after);
        vstd::seq_lib::to_multiset_insert(before, at as int, path@);
    }
}

/// Chooses and orders the recordings to replay among `files`, the paths found
/// under the directory of the recordings.
///
/// A path is chosen if it names a `.json` file and, where a bound is given,
/// its name stands for a time within the bounds, both inclusive. A bound is
/// written `YYYY-MM-DD HH:MM`; one that does not read so bounds nothing, but
/// names that stand for no time are still left out. The chosen paths come
/// back in ascending lexicographic order, each as often as it was given.
pub fn get_files_in_range(files: Vec<String>, start_time: Option<String>, end_time: Option<String>) -> (chosen:
    Vec<String>)
    ensures
        ascending(texts_of(chosen@)),
        texts_of(chosen@).to_multiset() == texts_of(files@).filter(
            |p: Seq<char>|
                is_selected(
                    p,
                    start_time is Some || end_time is Some,
                    bound_of(start_time),
                    bound_of(end_time),
                ),
        ).to_multiset(),
{
    let filtered = start_time.is_some() || end_time.is_some();
    let start = match &start_time {
        Some(t) => parse_time(t.as_str(), "%Y-%m-%d %H:%M"),
        None => None,
    };
    let end = match &end_time {
        Some(t) => parse_time(t.as_str(), "%Y-%m-%d %H:%M"),
        None => None,
    };
    let ghost wanted = |p: Seq<char>| is_selected(p, filtered, start, end);
    let mut chosen: Vec<String> = Vec::new();
    let mut keys: Vec<Vec<char>> = Vec::new();
    let mut i: usize = 0;
    proof {
        reveal(Seq::filter);
        assert(texts_of(files@.take(0)) =~= Seq::<Seq<char>>::empty());
        assert(texts_of(chosen@) =~= Seq::<Seq<char>>::empty());
        assert(texts_of(files@.take(0)).filter(wanted) =~= texts_of(chosen@));
    }
    assert(views_of(keys@) =~= Seq::<Seq<char>>::empty());
    while i < files.len()
        invariant
            i <= files.len(),
            wanted == |p: Seq<char>| is_selected(p, filtered, start, end),
            texts_of(chosen@) == views_of(keys@),
            ascending(texts_of(chosen@)),
            texts_of(chosen@).to_multiset() == texts_of(files@.take(i as int)).filter(wanted).to_multiset(),
        decreases files.len() - i,
    {
        let path = files[i].clone();
        let key = chars_of(path.as_str());
        let ghost seen = texts_of(files@.take(i as int));
        proof {
            assert(files@.take(i + 1) =~= files@.take(i as int).push(files@[i as int]));
            assert(texts_of(files@.take(i + 1)) =~= seen.push(path@));
            seen.lemma_filter_push(path@, wanted);
        }
        if selects(&key, filtered, &start, &end) {
            proof {
                vstd::seq_lib::to_multiset_build(seen.filter(wanted), path@);
            }
            insert_ascending(&mut chosen, &mut keys, path, key);
        }
        i += 1;
    }
    assert(files@.take(files.len() as int) == files@);
    chosen
}

/// The name of a topic's recording, without its extension, as the recorder
/// writes it: the topic as it stands in file names, the day and the time of
/// day at which the stream began, and the number of the file unless it is 0.
pub open spec fn stream_stem(label: Seq<char>, day: Seq<char>, time: Seq<char>, file_number: u32) -> Seq<char> {
    recording_prefix() + (label + seq!['-'] + rejoined(day, time) + crate::file_manager::sequence_suffix(
        file_number,
    ))
}

/// The name that the recorder writes for a file of a topic's stream is read
/// back as the time at which the stream began, unless the name reads as that
/// of a plain recording or, where it has no number, the end of the topic
/// and the day read as a time.
pub proof fn lemma_stream_name_is_read_back(label: Seq<char>, day: Seq<char>, time: Seq<char>, file_number: u32)
    requires
        forall|i: int| 0 <= i < day.len() ==> day[i] != '-',
        forall|i: int| 0 <= i < time.len() ==> time[i] != '-',
        parsed_time(rejoined(day, time), stream_pattern()) is Some,
        parsed_time(
            label + seq!['-'] + rejoined(day, time) + crate::file_manager::sequence_suffix(file_number),
            minute_pattern(),
        ) is None,
        file_number == 0 ==> parsed_time(rejoined(split_on(label, '-').last(), day), stream_pattern()) is None,
    ensures
        stem_timestamp(stream_stem(label, day, time, file_number)) == parsed_time(
            rejoined(day, time),
            stream_pattern(),
        ),
{
    let suffix = crate::file_manager::sequence_suffix(file_number);
    let rest = label + seq!['-'] + rejoined(day, time) + suffix;
    let stem = stream_stem(label, day, time, file_number);
    assert(stem.take(recording_prefix().len() as int) =~= recording_prefix());
    assert(stem.skip(recording_prefix().len() as int) =~= rest);
    let labels = split_on(label, '-');
    lemma_split_on_joined(Seq::empty(), label, '-');
    lemma_split_on_plain(day, '-');
    lemma_split_on_plain(time, '-');
    lemma_split_on_joined(label, day, '-');
    lemma_split_on_joined(label + seq!['-'] + day, time, '-');
    assert(label + seq!['-'] + day + seq!['-'] + time =~= label + seq!['-'] + rejoined(day, time));
    let unnumbered = labels + seq![day] + seq![time];
    assert(split_on(label + seq!['-'] + rejoined(day, time), '-') =~= unnumbered);
    if file_number == 0 {
        assert(rest =~= label + seq!['-'] + rejoined(day, time));
        let n = unnumbered.len() as int;
        assert(unnumbered[n - 1] == time && unnumbered[n - 2] == day);
        assert(unnumbered[n - 3] == labels.last());
    } else {
        let numeral = crate::text::decimal(file_number as nat);
        lemma_decimal_digits(file_number as nat);
        assert forall|i: int| 0 <= i < numeral.len() implies numeral[i] != '-' by {
            assert(crate::text::is_digit(numeral[i]));
        }
        lemma_split_on_plain(numeral, '-');
        lemma_split_on_joined(label + seq!['-'] + rejoined(day, time), numeral, '-');
        assert(rest =~= label + seq!['-'] + rejoined(day, time) + seq!['-'] + numeral);
        let numbered = unnumbered + seq![numeral];
        assert(split_on(rest, '-') =~= numbered);
        let n = numbered.len() as int;
        assert(numbered[n - 1] == numeral && numbered[n - 2] == time && numbered[n - 3] == day);
    }
}

/// One message to publish.
#[derive(Debug)]
pub struct Publish {
    pub topic: String,
    /// The level of service: 0, 1 or 2.
    pub qos: u8,
    pub retain: bool,
    pub payload: Vec<u8>,
}

/// A message to publish, as plain values.
pub struct PublishView {
    pub topic: Seq<char>,
    pub qos: u8,
    pub retain: bool,
    pub payload: Seq<u8>,
}

impl View for Publish {
    type V = PublishView;

    open spec fn view(&self) -> PublishView {
        PublishView { topic: self.topic@, qos: self.qos, retain: self.retain, payload: self.payload@ }
    }
}

/// What a line of a recording asks of the replay.
#[derive(Debug)]
pub enum ReplayStep {
    /// The line is passed over.
    Skip,
    /// The message is published once the time from `previous` to `time`,
    /// both in seconds and divided by the speed of the replay, has passed;
    /// at once where there is no `previous` or the time is not positive.
    Emit { previous: Option<JsonNumber>, time: JsonNumber, publish: Publish },
}

/// What a line asks of a replay whose last record was captured at
/// `previous`, as plain values: nothing where the line holds no record or
/// the record's payload is not base64, else the time of the record and the
/// message to publish, a level of service above 2 read as 0.
pub open spec fn step_of(line: Seq<char>) -> Option<(JsonNumber, PublishView)> {
    match record_of_line(line) {
        None => None,
        Some(record) => match payload_of(record.msg_b64) {
            None => None,
            Some(payload) => Some(
                (
                    record.time,
                    PublishView {
                        topic: record.topic,
                        qos: spec_effective_qos(record.qos),
                        retain: record.retain,
                        payload,
                    },
                ),
            ),
        },
    }
}

/// Where a replay stands.
#[derive(Clone, Copy, Debug, PartialEq, Eq, Structural)]
pub enum ReplayPhase {
    /// The files of the next pass are to be found.
    Discovering,
    /// The lines of the files found are read, file by file.
    Replaying,
    /// The replay is over.
    Finished,
}

/// A replay of recordings: pass after pass over the files found, or a
/// single pass.
#[derive(Debug)]
pub struct Replay {
    phase: ReplayPhase,
    loop_replay: bool,
    previous: Option<JsonNumber>,
}

impl Replay {
    /// Where the replay stands.
    pub closed spec fn phase(&self) -> ReplayPhase {
        self.phase
    }

    /// Whether pass follows pass without end.
    pub closed spec fn repeats(&self) -> bool {
        self.loop_replay
    }

    /// The time of the last record of this pass that was published.
    pub closed spec fn previous(&self) -> Option<JsonNumber> {
        self.previous
    }

    /// A replay that has yet to look for its files.
    pub fn new(loop_replay: bool) -> (replay: Replay)
        ensures
            replay.phase() == ReplayPhase::Discovering,
            replay.repeats() == loop_replay,
            replay.previous() is None,
    {
        Replay { phase: ReplayPhase::Discovering, loop_replay, previous: None }
    }

    /// Where the replay stands.
    pub fn current_phase(&self) -> (phase: ReplayPhase)
        ensures
            phase == self.phase(),
    {
        self.phase
    }

    /// Tells the replay how many files were found for the pass that is about
    /// to begin. With no file the replay is over; else the pass begins, with
    /// no record before its first.
    pub fn discovered(&mut self, files: usize)
        ensures
            final(self).repeats() == old(self).repeats(),
            final(self).phase() == if old(self).phase() != ReplayPhase::Discovering {
                old(self).phase()
            } else if files == 0 {
                ReplayPhase::Finished
            } else {
                ReplayPhase::Replaying
            },
            final(self).previous() == if old(self).phase() == ReplayPhase::Discovering {
                None
            } else {
                old(self).previous()
            },
    {
        if self.phase == ReplayPhase::Discovering {
            self.previous = None;
            self.phase = if files == 0 {
                ReplayPhase::Finished
            } else {
                ReplayPhase::Replaying
            };
        }
    }

    /// Takes the next line of the pass. A line that holds no record, or a
    /// record whose payload is not base64, is passed over and leaves no
    /// trace; so is every line outside a pass.
    pub fn line(&mut self, line: &str) -> (step: ReplayStep)
        ensures
            final(self).repeats() == old(self).repeats(),
            final(self).phase() == old(self).phase(),
            match step {
                ReplayStep::Skip => {
                    &&& old(self).phase() != ReplayPhase::Replaying || step_of(line@) is None
                    &&& final(self).previous() == old(self).previous()
                },
                ReplayStep::Emit { previous, time, publish } => {
                    &&& old(self).phase() == ReplayPhase::Replaying
                    &&& step_of(line@) == Some((time, publish@))
                    &&& previous == old(self).previous()
                    &&& final(self).previous() == Some(time)
                },
            },
    {
        if self.phase != ReplayPhase::Replaying {
            return ReplayStep::Skip;
        }
        let record = match MqttMessage::from_line(line) {
            Some(record) => record,
            None => { return ReplayStep::Skip; },
        };
        let payload = match record.payload() {
            Some(payload) => payload,
            None => { return ReplayStep::Skip; },
        };
        let previous = self.previous;
        self.previous = Some(record.time);
        ReplayStep::Emit {
            previous,
            time: record.time,
            publish: Publish { topic: record.topic, qos: effective_qos(record.qos), retain: record.retain, payload },
        }
    }

    /// Tells the replay that the last line of the pass has been read. A
    /// replay that repeats looks for its files again; any other is over.
    pub fn pass_ended(&mut self)
        ensures
            final(self).repeats() == old(self).repeats(),
            final(self).previous() == old(self).previous(),
            final(self).phase() == if old(self).phase() != ReplayPhase::Replaying {
                old(self).phase()
            } else if old(self).repeats() {
                ReplayPhase::Discovering
            } else {
                ReplayPhase::Finished
            },
    {
        if self.phase == ReplayPhase::Replaying {
            self.phase = if self.loop_replay {
                ReplayPhase::Discovering
            } else {
                ReplayPhase::Finished
            };
        }
    }
}

} // verus!
