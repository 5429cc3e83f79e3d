//! The files of a recording: where each stream of messages is written, and
//! the registry that decides when a stream moves on to a new file.

use crate::clock::{
    day_text, is_date_and_time, local_day, local_minute, local_stream_stamp, minute_text, more_than_seconds_between,
    stream_stamp_text, Clock, Moment, Timestamp,
};
use crate::stats::{StatsManager, StatsReport, TopicReport, WindowView};
use crate::text::{decimal, push_decimal};
use crate::topic_map::TopicMap;
use vstd::prelude::*;
use vstd::string::StringExecFns;

verus! {

/// What stands for the character `c` of a topic in a file name.
pub open spec fn replacement(c: char) -> Seq<char> {
    if c == '/' {
        seq!['-']
    } else if c == '+' {
        seq!['p', 'l', 'u', 's']
    } else if c == '#' {
        seq!['h', 'a', 's', 'h']
    } else {
        seq![c]
    }
}

/// A topic as it stands in a file name: `-` for each `/`, `plus` for each `+`
/// and `hash` for each `#`.
pub open spec fn sanitized(topic: Seq<char>) -> Seq<char>
    decreases topic.len(),
{
    if topic.len() == 0 {
        Seq::empty()
    } else {
        sanitized(topic.drop_last()) + replacement(topic.last())
    }
}

/// Writes a topic so that it can stand in a file name.
pub fn topic_to_path(topic: &str) -> (name: String)
    ensures
        name@ == sanitized(topic@),
{
    let mut name = String::new();
    for c in it: topic.chars()
        invariant
            it.seq() == topic@,
            name@ == sanitized(it.seq().take(it.index())),
    {
        proof {
            let next = it.seq().take(it.index() + 1);
            assert(next.drop_last() == it.seq().take(it.index()));
            assert(next.last() == c);
        }
        if c == '/' {
            name.push('-');
        } else if c == '+' {
            name.push('p');
            name.push('l');
            name.push('u');
            name.push('s');
        } else if c == '#' {
            name.push('h');
            name.push('a');
            name.push('s');
            name.push('h');
        } else {
            name.push(c);
        }
    }
    assert(topic@.take(topic@.len() as int) == topic@);
    name
}

/// The path of `name` in the directory `dir`.
pub open spec fn joined(dir: Seq<char>, name: Seq<char>) -> Seq<char> {
    dir + seq!['/'] + name
}

/// What a file's number adds to its name: nothing for the first file of a
/// stream, `-N` for file `N` after it.
pub open spec fn sequence_suffix(file_number: u32) -> Seq<char> {
    if file_number == 0 {
        Seq::empty()
    } else {
        seq!['-'] + decimal(file_number as nat)
    }
}

/// The name of file `file_number` of the stream `label` that began at
/// `base_timestamp`.
pub open spec fn stream_file_name(label: Seq<char>, base_timestamp: Seq<char>, file_number: u32) -> Seq<char> {
    "mqtt-recorder-"@ + label + seq!['-'] + base_timestamp + sequence_suffix(file_number) + ".json"@
}

/// The path of a plain recording begun on `day` at `minute`.
pub open spec fn current_file_path(base_dir: Seq<char>, day: Seq<char>, minute: Seq<char>) -> Seq<char> {
    joined(joined(base_dir, day), "mqtt-recorder-"@ + minute + ".json"@)
}

/// The path of a file of the stream that gathers all topics, created on `day`.
pub open spec fn all_topics_file_path(
    base_dir: Seq<char>,
    day: Seq<char>,
    base_timestamp: Seq<char>,
    file_number: u32,
) -> Seq<char> {
    joined(joined(joined(base_dir, seq!['#']), day), stream_file_name(seq!['#'], base_timestamp, file_number))
}

/// The path of a file of the stream of `topic`, created on `day`.
pub open spec fn intelligent_file_path(
    base_dir: Seq<char>,
    topic: Seq<char>,
    day: Seq<char>,
    base_timestamp: Seq<char>,
    file_number: u32,
) -> Seq<char> {
    joined(joined(joined(base_dir, topic), day), stream_file_name(sanitized(topic), base_timestamp, file_number))
}

fn push_stream_file_name(path: &mut String, label: &str, base_timestamp: &str, file_number: u32)
    ensures
        final(path)@ == old(path)@ + stream_file_name(label@, base_timestamp@, file_number),
{
    path.append("mqtt-recorder-");
    path.append(label);
    path.push('-');
    path.append(base_timestamp);
    if file_number != 0 {
        path.push('-');
        push_decimal(path, file_number as u64);
    }
    path.append(".json");
    proof {
        let head = "mqtt-recorder-"@ + label@ + seq!['-'] + base_timestamp@;
        if file_number != 0 {
            assert(path@ =~= old(path)@ + (head + (seq!['-'] + decimal(file_number as nat)) + ".json"@));
        } else {
            assert(path@ =~= old(path)@ + (head + Seq::<char>::empty() + ".json"@));
        }
    }
}

/// The path of the plain recording begun on `day` at `minute`.
pub fn current_file_path_on(base_dir: &str, day: &str, minute: &str) -> (path: String)
    ensures
        path@ == current_file_path(base_dir@, day@, minute@),
{
    let mut path = String::from_str(base_dir);
    path.push('/');
    path.append(day);
    path.push('/');
    path.append("mqtt-recorder-");
    path.append(minute);
    path.append(".json");
    assert(path@ =~= current_file_path(base_dir@, day@, minute@));
    path
}

/// The path of a file of the stream that gathers all topics, created on `day`.
pub fn all_topics_file_path_on(base_dir: &str, day: &str, base_timestamp: &str, file_number: u32) -> (path: String)
    ensures
        path@ == all_topics_file_path(base_dir@, day@, base_timestamp@, file_number),
{
    let mut path = String::from_str(base_dir);
    path.push('/');
    path.push('#');
    path.push('/');
    path.append(day);
    path.push('/');
    let ghost dir = path@;
    let mut label = String::new();
    label.push('#');
    assert(label@ =~= seq!['#']);
    push_stream_file_name(&mut path, label.as_str(), base_timestamp, file_number);
    assert(path@ =~= all_topics_file_path(base_dir@, day@, base_timestamp@, file_number));
    path
}

/// The path of a file of the stream of `topic`, created on `day`.
pub fn intelligent_file_path_on(base_dir: &str, topic: &str, day: &str, base_timestamp: &str, file_number: u32) -> (path:
    String)
    ensures
        path@ == intelligent_file_path(base_dir@, topic@, day@, base_timestamp@, file_number),
{
    let mut path = String::from_str(base_dir);
    path.push('/');
    path.append(topic);
    path.push('/');
    path.append(day);
    path.push('/');
    let label = topic_to_path(topic);
    push_stream_file_name(&mut path, label.as_str(), base_timestamp, file_number);
    assert(path@ =~= intelligent_file_path(base_dir@, topic@, day@, base_timestamp@, file_number));
    path
}

/// The path of the plain recording that begins now: in the directory of
/// today's local date, named after the local time to the minute.
pub fn get_current_file_path(base_dir: &str) -> (path: String)
    ensures
        exists|day: Timestamp, minute: Timestamp|
            is_date_and_time(day) && is_date_and_time(minute) && path@ == #[trigger] current_file_path(
                base_dir@,
                day_text(day),
                minute_text(minute),
            ),
{
    let day = local_day();
    let minute = local_minute();
    let path = current_file_path_on(base_dir, day.as_str(), minute.as_str());
    proof {
        let d = choose|t: Timestamp| is_date_and_time(t) && day@ == #[trigger] day_text(t);
        let m = choose|t: Timestamp| is_date_and_time(t) && minute@ == #[trigger] minute_text(t);
        assert(path@ == current_file_path(base_dir@, day_text(d), minute_text(m)));
    }
    path
}

/// The path of a file of the stream that gathers all topics, in the
/// directory of today's local date.
pub fn get_all_topics_file_path(base_dir: &str, base_timestamp: &str, file_number: u32) -> (path: String)
    ensures
        exists|day: Timestamp|
            is_date_and_time(day) && path@ == #[trigger] all_topics_file_path(
                base_dir@,
                day_text(day),
                base_timestamp@,
                file_number,
            ),
{
    let day = local_day();
    let path = all_topics_file_path_on(base_dir, day.as_str(), base_timestamp, file_number);
    proof {
        let d = choose|t: Timestamp| is_date_and_time(t) && day@ == #[trigger] day_text(t);
        assert(path@ == all_topics_file_path(base_dir@, day_text(d), base_timestamp@, file_number));
    }
    path
}

/// The path of a file of the stream of `topic`, in the directory of today's
/// local date.
pub fn get_intelligent_file_path(base_dir: &str, topic: &str, base_timestamp: &str, file_number: u32) -> (path:
    String)
    ensures
        exists|day: Timestamp|
            is_date_and_time(day) && path@ == #[trigger] intelligent_file_path(
                base_dir@,
                topic@,
                day_text(day),
                base_timestamp@,
                file_number,
            ),
{
    let day = local_day();
    let path = intelligent_file_path_on(base_dir, topic, day.as_str(), base_timestamp, file_number);
    proof {
        let d = choose|t: Timestamp| is_date_and_time(t) && day@ == #[trigger] day_text(t);
        assert(path@ == intelligent_file_path(base_dir@, topic@, day_text(d), base_timestamp@, file_number));
    }
    path
}

/// The most messages that one file holds.
pub const MAX_MESSAGES_PER_FILE: u32 = 100_000;

/// An open stream of recording files: the files of one topic, or of all
/// topics together, since the stream's first message or since it was last
/// idle for too long.
#[derive(Debug)]
pub struct Stream {
    /// The local time at which the stream began, as `YYYYMMDD-HHMMSS`.
    pub base_timestamp: String,
    /// The number of the stream's open file, counted from 0.
    pub file_number: u32,
    /// When the stream was last used.
    pub last_access: Moment,
    /// How many messages the open file holds.
    pub message_count: u32,
}

/// A stream as plain values.
pub struct StreamView {
    pub base_timestamp: Seq<char>,
    pub file_number: u32,
    pub last_access: Moment,
    pub message_count: u32,
}

impl View for Stream {
    type V = StreamView;

    open spec fn view(&self) -> StreamView {
        StreamView {
            base_timestamp: self.base_timestamp@,
            file_number: self.file_number,
            last_access: self.last_access,
            message_count: self.message_count,
        }
    }
}

/// What a message finds of its stream.
pub enum Rotation {
    /// The stream is open and its file has room: the file is used again.
    Reuse,
    /// The stream was idle for longer than the timeout: a new stream begins.
    Timeout,
    /// The open file is full: the stream goes on in its next file.
    Cap,
    /// There is no stream yet: one begins.
    First,
}

/// Whether `stream` has, at `now`, been idle for more than `timeout_secs`
/// seconds.
pub open spec fn is_idle(stream: StreamView, now: Moment, timeout_secs: u64) -> bool {
    more_than_seconds_between(now, stream.last_access, timeout_secs)
}

/// What a message that arrives at `now` finds of its stream. Idleness is
/// looked at before the count of messages.
pub open spec fn rotation_of(stream: Option<StreamView>, now: Moment, timeout_secs: u64, cap: u32) -> Rotation {
    match stream {
        None => Rotation::First,
        Some(s) => if is_idle(s, now, timeout_secs) {
            Rotation::Timeout
        } else if s.message_count >= cap {
            Rotation::Cap
        } else {
            Rotation::Reuse
        },
    }
}

/// The number of the file after file `n`.
pub open spec fn next_file_number(n: u32) -> u32 {
    if n == u32::MAX {
        n
    } else {
        (n + 1) as u32
    }
}

/// The count of messages after one more.
pub open spec fn counted(n: u32) -> u32 {
    if n == u32::MAX {
        n
    } else {
        (n + 1) as u32
    }
}

/// The timestamp and the file number with which a stream goes on after
/// `rotation`: when its file is full, its own timestamp and the next
/// number; else `stamp`, the local time of the message, and number 0.
pub open spec fn successor(stream: Option<StreamView>, rotation: Rotation, stamp: Seq<char>) -> (Seq<char>, u32) {
    match (rotation, stream) {
        (Rotation::Cap, Some(s)) => (s.base_timestamp, next_file_number(s.file_number)),
        _ => (stamp, 0u32),
    }
}

/// A file that is to be created for a stream.
#[derive(Debug)]
pub struct NewStream {
    /// Where the file is created.
    pub path: String,
    pub base_timestamp: String,
    pub file_number: u32,
    /// When the file was asked for.
    pub opened_at: Moment,
}

/// A file to be created, as plain values.
pub struct NewStreamView {
    pub path: Seq<char>,
    pub base_timestamp: Seq<char>,
    pub file_number: u32,
    pub opened_at: Moment,
}

impl View for NewStream {
    type V = NewStreamView;

    open spec fn view(&self) -> NewStreamView {
        NewStreamView {
            path: self.path@,
            base_timestamp: self.base_timestamp@,
            file_number: self.file_number,
            opened_at: self.opened_at,
        }
    }
}

/// The stream that begins with the file `new`.
pub open spec fn opened(new: NewStreamView) -> StreamView {
    StreamView {
        base_timestamp: new.base_timestamp,
        file_number: new.file_number,
        last_access: new.opened_at,
        message_count: 0,
    }
}

/// What is to be done with a message's file.
#[derive(Debug)]
pub enum StreamAction {
    /// The stream's open file takes the message.
    Append,
    /// The stream's open file, if there is one, is closed, `report` is
    /// written to the topic's statistics, and the file of `stream` is
    /// created with its directories; it must not exist yet. Once it is
    /// created, the registry is told so.
    Create { stream: NewStream, report: Option<StatsReport> },
}

/// What a sweep for idle files found.
#[derive(Debug)]
pub struct Cleanup {
    /// The topics whose files are to be closed.
    pub closed: Vec<String>,
    /// Whether the file of all topics is to be closed.
    pub all_topics_closed: bool,
    /// What the closed topics' windows of statistics came to.
    pub reports: Vec<TopicReport>,
}

/// The registry of the open streams of a recording. It decides, message by
/// message, which file a message goes to and when a stream moves on to a new
/// file; it opens and writes no file itself.
pub struct TopicFileManager {
    files: TopicMap<Stream>,
    all_topics_file: Option<Stream>,
    base_dir: String,
    timeout_secs: u64,
    max_messages_per_file: u32,
    stats_manager: StatsManager,
    all_topics_enabled: bool,
    clock: Clock,
}

/// The stream of `topic` among `streams`, if it has one.
pub open spec fn stream_of(streams: Map<Seq<char>, StreamView>, topic: Seq<char>) -> Option<StreamView> {
    if streams.contains_key(topic) {
        Some(streams[topic])
    } else {
        None
    }
}

/// A stream after a message has been written to its file at `now`.
pub open spec fn written(stream: StreamView, now: Moment) -> StreamView {
    StreamView { last_access: now, message_count: counted(stream.message_count), ..stream }
}

/// The topics whose streams have, at `now`, been idle for longer than the
/// timeout.
pub open spec fn idle_topics(streams: Map<Seq<char>, StreamView>, now: Moment, timeout_secs: u64) -> Set<Seq<char>> {
    Set::new(|k: Seq<char>| streams.contains_key(k) && is_idle(streams[k], now, timeout_secs))
}

impl TopicFileManager {
    /// The open streams by topic.
    pub closed spec fn streams(&self) -> Map<Seq<char>, StreamView> {
        Map::new(|k: Seq<char>| self.files@.contains_key(k), |k: Seq<char>| self.files@[k]@)
    }

    /// The open stream of all topics.
    pub closed spec fn all_topics(&self) -> Option<StreamView> {
        match self.all_topics_file {
            Some(s) => Some(s@),
            None => None,
        }
    }

    /// The directory of the recording.
    pub closed spec fn base_dir(&self) -> Seq<char> {
        self.base_dir@
    }

    /// The seconds for which a stream may be idle.
    pub closed spec fn timeout_secs(&self) -> u64 {
        self.timeout_secs
    }

    /// The most messages that one file holds.
    pub closed spec fn cap(&self) -> u32 {
        self.max_messages_per_file
    }

    /// Whether all topics are also recorded together.
    pub closed spec fn all_topics_enabled(&self) -> bool {
        self.all_topics_enabled
    }

    /// The statistics of the topics.
    pub closed spec fn stats(&self) -> StatsManager {
        self.stats_manager
    }

    /// What every registry made by `new` keeps true of itself.
    pub closed spec fn wf(&self) -> bool {
        &&& self.files.wf()
        &&& self.stats_manager.wf()
        &&& self.stats_manager.base_dir() == self.base_dir@
    }

    /// Whether `after` is this registry with other streams and statistics.
    pub open spec fn same_settings(&self, after: &TopicFileManager) -> bool {
        &&& after.base_dir() == self.base_dir()
        &&& after.timeout_secs() == self.timeout_secs()
        &&& after.cap() == self.cap()
        &&& after.all_topics_enabled() == self.all_topics_enabled()
        &&& self.stats().same_settings(&after.stats())
    }

    /// What `get_or_create_file` does for a message of `topic` that arrives
    /// at `now`, on the local date `day` and at the local time `stamp`.
    pub open spec fn resolves(
        &self,
        after: &TopicFileManager,
        topic: Seq<char>,
        now: Moment,
        day: Seq<char>,
        stamp: Seq<char>,
        action: StreamAction,
    ) -> bool {
        let stream = stream_of(self.streams(), topic);
        let rotation = rotation_of(stream, now, self.timeout_secs(), self.cap());
        let next = successor(stream, rotation, stamp);
        &&& self.same_settings(after)
        &&& after.all_topics() == self.all_topics()
        &&& match action {
            StreamAction::Append => {
                &&& rotation is Reuse
                &&& after.streams() == self.streams().insert(
                    topic,
                    StreamView { last_access: now, ..stream->0 },
                )
                &&& after.stats().windows() == self.stats().windows()
            },
            StreamAction::Create { stream: new, report } => {
                &&& !(rotation is Reuse)
                &&& new@ == NewStreamView {
                    path: intelligent_file_path(self.base_dir(), topic, day, next.0, next.1),
                    base_timestamp: next.0,
                    file_number: next.1,
                    opened_at: now,
                }
                &&& after.streams() == self.streams().remove(topic)
                &&& if rotation is First {
                    report is None && after.stats().windows() == self.stats().windows()
                } else {
                    self.stats().forced(&after.stats(), topic, now, report)
                }
            },
        }
    }

    /// What `get_or_create_all_topics_file` does for a message that arrives
    /// at `now`, on the local date `day` and at the local time `stamp`.
    pub open spec fn resolves_all_topics(
        &self,
        after: &TopicFileManager,
        now: Moment,
        day: Seq<char>,
        stamp: Seq<char>,
        action: Option<StreamAction>,
    ) -> bool {
        let stream = self.all_topics();
        let rotation = rotation_of(stream, now, self.timeout_secs(), self.cap());
        let next = successor(stream, rotation, stamp);
        &&& self.same_settings(after)
        &&& after.streams() == self.streams()
        &&& after.stats().windows() == self.stats().windows()
        &&& match action {
            None => !self.all_topics_enabled() && after.all_topics() == self.all_topics(),
            Some(StreamAction::Append) => {
                &&& self.all_topics_enabled()
                &&& rotation is Reuse
                &&& after.all_topics() == Some(StreamView { last_access: now, ..stream->0 })
            },
            Some(StreamAction::Create { stream: new, report }) => {
                &&& self.all_topics_enabled()
                &&& !(rotation is Reuse)
                &&& new@ == NewStreamView {
                    path: all_topics_file_path(self.base_dir(), day, next.0, next.1),
                    base_timestamp: next.0,
                    file_number: next.1,
                    opened_at: now,
                }
                &&& report is None
                &&& after.all_topics() is None
            },
        }
    }

    /// What `write_message` does for a message of `topic` that was written
    /// at `now`.
    pub open spec fn records(
        &self,
        after: &TopicFileManager,
        topic: Seq<char>,
        line: Seq<char>,
        now: Moment,
        reports: Seq<TopicReport>,
    ) -> bool {
        let windows = if self.stats().enabled() {
            crate::stats::with_message(self.stats().windows(), self.stats().interval(), topic, line, now)
        } else {
            self.stats().windows()
        };
        &&& self.same_settings(after)
        &&& after.streams() == if self.streams().contains_key(topic) {
            self.streams().insert(topic, written(self.streams()[topic], now))
        } else {
            self.streams()
        }
        &&& after.all_topics() == match self.all_topics() {
            Some(s) => Some(written(s, now)),
            None => None,
        }
        &&& if self.stats().enabled() {
            &&& crate::stats::are_reports_of(reports, windows, crate::stats::due_topics(windows, now), now)
            &&& after.stats().windows() == crate::stats::closing(
                windows,
                crate::stats::due_topics(windows, now),
                now,
            )
        } else {
            reports.len() == 0 && after.stats().windows() == windows
        }
    }

    /// What `cleanup_timeout_files` does at `now`.
    pub open spec fn sweeps(&self, after: &TopicFileManager, now: Moment, found: Cleanup) -> bool {
        let idle = idle_topics(self.streams(), now, self.timeout_secs());
        &&& self.same_settings(after)
        &&& after.streams() == self.streams().remove_keys(idle)
        &&& found.closed@.map_values(|t: String| t@).to_set() == idle
        &&& found.closed@.map_values(|t: String| t@).no_duplicates()
        &&& found.all_topics_closed == (self.all_topics() matches Some(s) && is_idle(s, now, self.timeout_secs()))
        &&& after.all_topics() == if found.all_topics_closed {
            None
        } else {
            self.all_topics()
        }
        &&& if self.stats().enabled() {
            &&& crate::stats::are_reports_of(found.reports@, self.stats().windows(), idle, now)
            &&& after.stats().windows() == crate::stats::closing(self.stats().windows(), idle, now)
        } else {
            found.reports@.len() == 0 && after.stats().windows() == self.stats().windows()
        }
    }

    /// A registry without streams, for a recording under `base_dir`.
    pub fn new(
        base_dir: String,
        timeout_secs: u64,
        stats_enabled: bool,
        stats_interval_secs: u64,
        all_topics_enabled: bool,
    ) -> (manager: TopicFileManager)
        ensures
            manager.wf(),
            manager.streams() == Map::<Seq<char>, StreamView>::empty(),
            manager.all_topics() is None,
            manager.base_dir() == base_dir@,
            manager.timeout_secs() == timeout_secs,
            manager.cap() == MAX_MESSAGES_PER_FILE,
            manager.all_topics_enabled() == all_topics_enabled,
            manager.stats().enabled() == stats_enabled,
            manager.stats().interval() == stats_interval_secs,
            manager.stats().windows() == Map::<Seq<char>, WindowView>::empty(),
    {
        let stats_manager = StatsManager::new(base_dir.clone(), stats_enabled, stats_interval_secs);
        let manager = TopicFileManager {
            files: TopicMap::new(),
            all_topics_file: None,
            base_dir,
            timeout_secs,
            max_messages_per_file: MAX_MESSAGES_PER_FILE,
            stats_manager,
            all_topics_enabled,
            clock: Clock::new(),
        };
        assert(manager.streams() =~= Map::<Seq<char>, StreamView>::empty());
        manager
    }

    /// The current reading of the registry's clock.
    pub fn now(&self) -> Moment {
        self.clock.now()
    }

    /// The open stream of `topic`.
    pub fn stream(&self, topic: &str) -> (stream: Option<&Stream>)
        requires
            self.wf(),
        ensures
            match stream {
                Some(s) => stream_of(self.streams(), topic@) == Some(s@),
                None => stream_of(self.streams(), topic@) is None,
            },
    {
        self.files.get(topic)
    }

    /// The open stream of all topics.
    pub fn all_topics_stream(&self) -> (stream: Option<&Stream>)
        ensures
            match stream {
                Some(s) => self.all_topics() == Some(s@),
                None => self.all_topics() is None,
            },
    {
        self.all_topics_file.as_ref()
    }

    /// The statistics of the topics.
    pub fn stats_manager(&self) -> (stats: &StatsManager)
        ensures
            *stats == self.stats(),
    {
        &self.stats_manager
    }

    /// Finds the file for a message of `topic` that arrives at `now`, on the
    /// local date `day` and at the local time `stamp`.
    ///
    /// A stream that was idle for longer than the timeout ends, and a new one
    /// begins with `stamp` as its timestamp and file 0. A stream whose file
    /// is full goes on, under its own timestamp, in the file with the next
    /// number. In both cases the topic's window of statistics is closed
    /// first, and the stream leaves the registry until its new file has been
    /// created. A topic without a stream begins one. Otherwise the open file
    /// is used again.
    pub fn get_or_create_file_at(&mut self, topic: &str, now: Moment, day: &str, stamp: &str) -> (action:
        StreamAction)
        requires
            old(self).wf(),
        ensures
            final(self).wf(),
            old(self).resolves(final(self), topic@, now, day@, stamp@, action),
    {
        let ghost before = self.streams();
        proof {
            self.files.lemma_view();
        }
        match self.files.position(topic) {
            None => {
                let path = intelligent_file_path_on(self.base_dir.as_str(), topic, day, stamp, 0);
                let stream = NewStream { path, base_timestamp: String::from_str(stamp), file_number: 0, opened_at: now };
                assert(self.streams().remove(topic@) =~= self.streams());
                StreamAction::Create { stream, report: None }
            },
            Some(i) => {
                let open = self.files.value_at(i);
                let idle = now.is_more_than_after(&open.last_access, self.timeout_secs);
                let full = open.message_count >= self.max_messages_per_file;
                if !idle && !full {
                    let open = self.files.value_mut(i);
                    open.last_access = now;
                    assert(self.streams() =~= before.insert(topic@, StreamView { last_access: now, ..before[topic@] }));
                    StreamAction::Append
                } else {
                    let report = self.stats_manager.force_calculate_stats_for_topic(topic, now);
                    let ended = self.files.remove(topic);
                    assert(self.streams() =~= before.remove(topic@));
                    let (base_timestamp, file_number) = match ended {
                        Some(ended) => if idle {
                            (String::from_str(stamp), 0)
                        } else if ended.file_number == u32::MAX {
                            (ended.base_timestamp, ended.file_number)
                        } else {
                            (ended.base_timestamp, ended.file_number + 1)
                        },
                        None => (String::from_str(stamp), 0),
                    };
                    let path = intelligent_file_path_on(
                        self.base_dir.as_str(),
                        topic,
                        day,
                        base_timestamp.as_str(),
                        file_number,
                    );
                    let stream = NewStream { path, base_timestamp, file_number, opened_at: now };
                    StreamAction::Create { stream, report }
                }
            },
        }
    }

    /// Tells the registry that the file of `stream` has been created for
    /// `topic`: the stream is open from then on, with no message in its file.
    pub fn register_file(&mut self, topic: &str, stream: NewStream)
        requires
            old(self).wf(),
        ensures
            final(self).wf(),
            old(self).same_settings(final(self)),
            final(self).streams() == old(self).streams().insert(topic@, opened(stream@)),
            final(self).all_topics() == old(self).all_topics(),
            final(self).stats().windows() == old(self).stats().windows(),
    {
        let ghost before = self.streams();
        let open = Stream {
            base_timestamp: stream.base_timestamp,
            file_number: stream.file_number,
            last_access: stream.opened_at,
            message_count: 0,
        };
        self.files.insert(String::from_str(topic), open);
        assert(self.streams() =~= before.insert(topic@, opened(stream@)));
    }

    /// Finds the file of all topics for a message that arrives at `now`, on
    /// the local date `day` and at the local time `stamp`; `None` where all
    /// topics are not recorded together. The stream of all topics rotates as
    /// a topic's stream does; no statistics are kept of it.
    pub fn get_or_create_all_topics_file_at(&mut self, now: Moment, day: &str, stamp: &str) -> (action: Option<
        StreamAction,
    >)
        requires
            old(self).wf(),
        ensures
            final(self).wf(),
            old(self).resolves_all_topics(final(self), now, day@, stamp@, action),
    {
        if !self.all_topics_enabled {
            return None;
        }
        let ended = self.all_topics_file.take();
        let (base_timestamp, file_number) = match ended {
            None => (String::from_str(stamp), 0),
            Some(open) => {
                let idle = now.is_more_than_after(&open.last_access, self.timeout_secs);
                let full = open.message_count >= self.max_messages_per_file;
                if idle {
                    (String::from_str(stamp), 0)
                } else if !full {
                    self.all_topics_file = Some(Stream { last_access: now, ..open });
                    return Some(StreamAction::Append);
                } else if open.file_number == u32::MAX {
                    (open.base_timestamp, open.file_number)
                } else {
                    (open.base_timestamp, open.file_number + 1)
                }
            },
        };
        let path = all_topics_file_path_on(self.base_dir.as_str(), day, base_timestamp.as_str(), file_number);
        let stream = NewStream { path, base_timestamp, file_number, opened_at: now };
        Some(StreamAction::Create { stream, report: None })
    }

    /// Tells the registry that the file of `stream` has been created for all
    /// topics.
    pub fn register_all_topics_file(&mut self, stream: NewStream)
        requires
            old(self).wf(),
        ensures
            final(self).wf(),
            old(self).same_settings(final(self)),
            final(self).streams() == old(self).streams(),
            final(self).all_topics() == Some(opened(stream@)),
            final(self).stats().windows() == old(self).stats().windows(),
    {
        self.all_topics_file = Some(
            Stream {
                base_timestamp: stream.base_timestamp,
                file_number: stream.file_number,
                last_access: stream.opened_at,
                message_count: 0,
            },
        );
    }

    /// Records that the line `json_message` was written, at `now`, to the
    /// open file of `topic` and to that of all topics: each of the two
    /// streams that is open counts the message and is marked as used. The
    /// statistics of the topic take the message in, and every window that
    /// has lasted longer than its interval is closed; the reports of the
    /// closed windows come back.
    pub fn write_message_at(&mut self, topic: &str, json_message: &str, now: Moment) -> (reports: Vec<TopicReport>)
        requires
            old(self).wf(),
        ensures
            final(self).wf(),
            old(self).records(final(self), topic@, json_message@, now, reports@),
    {
        let ghost before = self.streams();
        proof {
            self.files.lemma_view();
        }
        match self.files.position(topic) {
            Some(i) => {
                let open = self.files.value_mut(i);
                open.last_access = now;
                if open.message_count < u32::MAX {
                    open.message_count = open.message_count + 1;
                }
                assert(self.streams() =~= before.insert(topic@, written(before[topic@], now)));
            },
            None => {},
        }
        match self.all_topics_file.take() {
            Some(open) => {
                let message_count = if open.message_count < u32::MAX {
                    open.message_count + 1
                } else {
                    open.message_count
                };
                self.all_topics_file = Some(Stream { last_access: now, message_count, ..open });
            },
            None => {},
        }
        self.stats_manager.add_message(topic, json_message, now);
        self.stats_manager.check_and_calculate_stats(now)
    }

    /// Sweeps, at `now`, for streams that have been idle for longer than
    /// the timeout: each leaves the registry, and the window of statistics
    /// of its topic is closed. The stream of all topics is swept likewise.
    pub fn cleanup_timeout_files_at(&mut self, now: Moment) -> (found: Cleanup)
        requires
            old(self).wf(),
        ensures
            final(self).wf(),
            old(self).sweeps(final(self), now, found),
    {
        let ghost streams = self.streams();
        let ghost windows = self.stats_manager.windows();
        let ghost keys = self.files.keys();
        let ghost idle = idle_topics(streams, now, self.timeout_secs);
        let ghost mut done: Set<Seq<char>> = Set::empty();
        let mut closed: Vec<String> = Vec::new();
        let mut reports: Vec<TopicReport> = Vec::new();
        proof {
            self.files.lemma_view();
            assert(streams.dom() =~= keys.to_set());
            assert(streams.remove_keys(done) =~= streams);
            assert(closed@.map_values(|t: String| t@).to_set() =~= done);
            assert(crate::stats::closing(windows, done, now) =~= windows);
        }
        let mut i: usize = self.files.len();
        while i > 0
            invariant
                self.wf(),
                old(self).same_settings(self),
                self.all_topics_file == old(self).all_topics_file,
                streams.dom() == keys.to_set(),
                keys.no_duplicates(),
                idle == idle_topics(streams, now, self.timeout_secs),
                i <= self.files.keys().len(),
                i <= keys.len(),
                self.files.keys().take(i as int) == keys.take(i as int),
                done.subset_of(idle),
                forall|j: int| 0 <= j < i ==> !done.contains(#[trigger] keys[j]),
                forall|j: int| i <= j < keys.len() && idle.contains(#[trigger] keys[j]) ==> done.contains(keys[j]),
                self.streams() == streams.remove_keys(done),
                closed@.map_values(|t: String| t@).to_set() == done,
                closed@.map_values(|t: String| t@).no_duplicates(),
                self.stats_manager.windows() == if self.stats_manager.enabled() {
                    crate::stats::closing(windows, done, now)
                } else {
                    windows
                },
                if self.stats_manager.enabled() {
                    crate::stats::are_reports_of(reports@, windows, done, now)
                } else {
                    reports@.len() == 0
                },
            decreases i,
        {
            i -= 1;
            proof {
                self.files.lemma_view();
                assert(self.files.keys()[i as int] == self.files.keys().take(i + 1)[i as int]);
                assert(keys[i as int] == keys.take(i + 1)[i as int]);
                assert(keys.to_set().contains(keys[i as int]));
            }
            let ghost key = keys[i as int];
            let ghost current = self.streams();
            let open = self.files.value_at(i);
            proof {
                assert(!done.contains(keys[i as int]));
                assert(self.files.keys()[i as int] == key);
                assert(streams.contains_key(key));
                assert(current.contains_key(key) && current[key] == streams[key]);
                assert(current[key] == self.files@[key]@);
            }
            if now.is_more_than_after(&open.last_access, self.timeout_secs) {
                let topic = self.files.key_at(i).clone();
                let reported = topic.clone();
                let ghost windows_before = self.stats_manager.windows();
                let ghost reports_before = reports@;
                let ghost closed_before = closed@.map_values(|t: String| t@);
                let ghost keys_before = self.files.keys();
                let report = self.stats_manager.force_calculate_stats_for_topic(topic.as_str(), now);
                let _ended = self.files.remove(topic.as_str());
                proof {
                    keys_before.index_of_first_ensures(key);
                    assert(keys_before.index_of(key) == i) by {
                        let at = keys_before.index_of(key);
                        if at != i {
                            assert(keys_before[at] == keys_before[i as int]);
                        }
                    }
                    assert(self.files.keys().take(i as int) =~= keys.take(i as int)) by {
                        assert forall|j: int| 0 <= j < i implies self.files.keys()[j] == keys[j] by {
                            assert(keys_before[j] == keys_before.take(i + 1)[j]);
                            assert(keys[j] == keys.take(i + 1)[j]);
                        }
                    }
                    assert(topic@ == key);
                    assert(self.streams() =~= current.remove(key));
                    assert(self.streams() =~= streams.remove_keys(done.insert(key)));
                    if self.stats_manager.enabled() {
                        assert(windows_before.contains_key(key) ==> windows_before[key] == windows[key]);
                        assert(self.stats_manager.windows() =~= crate::stats::closing(
                            windows,
                            done.insert(key),
                            now,
                        ));
                    }
                }
                closed.push(topic);
                proof {
                    assert(closed@.map_values(|t: String| t@) =~= closed_before.push(key));
                    closed_before.lemma_push_to_set_commute(key);
                    assert(!closed_before.to_set().contains(key));
                    assert forall|a: int, b: int|
                        0 <= a < closed_before.len() + 1 && 0 <= b < closed_before.len() + 1 && a != b implies closed_before.push(
                        key,
                    )[a] != closed_before.push(key)[b] by {
                        if a < closed_before.len() {
                            assert(closed_before.to_set().contains(closed_before[a]));
                        }
                        if b < closed_before.len() {
                            assert(closed_before.to_set().contains(closed_before[b]));
                        }
                    }
                }
                match report {
                    Some(report) => {
                        reports.push(TopicReport { topic: reported, report });
                    },
                    None => {},
                }
                proof {
                    if self.stats_manager.enabled() {
                        let grown = done.insert(key);
                        assert forall|a: int, b: int|
                            0 <= a < reports@.len() && 0 <= b < reports@.len() && a != b implies (
                        #[trigger] reports@[a]).topic@ != (#[trigger] reports@[b]).topic@ by {
                            if a < reports_before.len() {
                                assert(reports@[a] == reports_before[a]);
                                assert(done.contains(reports_before[a].topic@));
                            }
                            if b < reports_before.len() {
                                assert(reports@[b] == reports_before[b]);
                                assert(done.contains(reports_before[b].topic@));
                            }
                        }
                        assert forall|a: int| 0 <= a < reports@.len() implies {
                            let t = (#[trigger] reports@[a]).topic@;
                            &&& crate::stats::is_closed(windows, grown, t)
                            &&& crate::stats::reports_window(reports@[a].report, windows[t], now)
                        } by {
                            if a < reports_before.len() {
                                assert(reports@[a] == reports_before[a]);
                            }
                        }
                        assert forall|t: Seq<char>| #[trigger]
                            crate::stats::is_closed(windows, grown, t) implies exists|a: int|
                            0 <= a < reports@.len() && (#[trigger] reports@[a]).topic@ == t by {
                            if t == key {
                                assert(reports@[reports_before.len() as int].topic@ == t);
                            } else {
                                assert(crate::stats::is_closed(windows, done, t));
                                let a = choose|a: int|
                                    0 <= a < reports_before.len() && (#[trigger] reports_before[a]).topic@ == t;
                                assert(reports@[a] == reports_before[a]);
                            }
                        }
                    }
                    done = done.insert(key);
                }
            }
        }
        let all_topics_closed = match &self.all_topics_file {
            Some(open) => now.is_more_than_after(&open.last_access, self.timeout_secs),
            None => false,
        };
        if all_topics_closed {
            self.all_topics_file = None;
        }
        proof {
            assert(done =~= idle) by {
                assert forall|k: Seq<char>| idle.contains(k) implies done.contains(k) by {
                    assert(keys.to_set().contains(k));
                    let j = keys.index_of(k);
                    keys.index_of_first_ensures(k);
                    assert(idle.contains(keys[j]));
                }
            }
        }
        Cleanup { closed, all_topics_closed, reports }
    }

    /// Finds the file for a message of `topic` that arrives now: as
    /// `get_or_create_file_at` does, for the reading of the registry's clock
    /// and the local date and time at the moment of the call.
    pub fn get_or_create_file(&mut self, topic: &str) -> (action: StreamAction)
        requires
            old(self).wf(),
        ensures
            final(self).wf(),
            exists|now: Moment, day: Timestamp, stamp: Timestamp|
                is_date_and_time(day) && is_date_and_time(stamp) && #[trigger] old(self).resolves(
                    final(self),
                    topic@,
                    now,
                    day_text(day),
                    stream_stamp_text(stamp),
                    action,
                ),
    {
        let now = self.clock.now();
        let day = local_day();
        let stamp = local_stream_stamp();
        let action = self.get_or_create_file_at(topic, now, day.as_str(), stamp.as_str());
        proof {
            let d = choose|t: Timestamp| is_date_and_time(t) && day@ == #[trigger] day_text(t);
            let s = choose|t: Timestamp| is_date_and_time(t) && stamp@ == #[trigger] stream_stamp_text(t);
            assert(old(self).resolves(self, topic@, now, day_text(d), stream_stamp_text(s), action));
        }
        action
    }

    /// Finds the file of all topics for a message that arrives now: as
    /// `get_or_create_all_topics_file_at` does, for the reading of the
    /// registry's clock and the local date and time at the moment of the call.
    pub fn get_or_create_all_topics_file(&mut self) -> (action: Option<StreamAction>)
        requires
            old(self).wf(),
        ensures
            final(self).wf(),
            exists|now: Moment, day: Timestamp, stamp: Timestamp|
                is_date_and_time(day) && is_date_and_time(stamp) && #[trigger] old(self).resolves_all_topics(
                    final(self),
                    now,
                    day_text(day),
                    stream_stamp_text(stamp),
                    action,
                ),
    {
        let now = self.clock.now();
        let day = local_day();
        let stamp = local_stream_stamp();
        let action = self.get_or_create_all_topics_file_at(now, day.as_str(), stamp.as_str());
        proof {
            let d = choose|t: Timestamp| is_date_and_time(t) && day@ == #[trigger] day_text(t);
            let s = choose|t: Timestamp| is_date_and_time(t) && stamp@ == #[trigger] stream_stamp_text(t);
            assert(old(self).resolves_all_topics(self, now, day_text(d), stream_stamp_text(s), action));
        }
        action
    }

    /// Sweeps for idle streams now: as `cleanup_timeout_files_at` does, for
    /// the reading of the registry's clock at the moment of the call.
    pub fn cleanup_timeout_files(&mut self) -> (found: Cleanup)
        requires
            old(self).wf(),
        ensures
            final(self).wf(),
            exists|now: Moment| old(self).sweeps(final(self), now, found),
    {
        let now = self.clock.now();
        self.cleanup_timeout_files_at(now)
    }

    /// Records that the line `json_message` has just been written for
    /// `topic`: as `write_message_at` does, for the reading of the
    /// registry's clock at the moment of the call.
    pub fn write_message(&mut self, topic: &str, json_message: &str) -> (reports: Vec<TopicReport>)
        requires
            old(self).wf(),
        ensures
            final(self).wf(),
            exists|now: Moment| old(self).records(final(self), topic@, json_message@, now, reports@),
    {
        let now = self.clock.now();
        self.write_message_at(topic, json_message, now)
    }

    /// Closes the window of statistics of `topic` now, whether or not its
    /// interval has passed.
    pub fn force_stats_calculation(&mut self, topic: &str) -> (report: Option<StatsReport>)
        requires
            old(self).wf(),
        ensures
            final(self).wf(),
            old(self).same_settings(final(self)),
            final(self).streams() == old(self).streams(),
            final(self).all_topics() == old(self).all_topics(),
            exists|now: Moment| old(self).stats().forced(&final(self).stats(), topic@, now, report),
    {
        let now = self.clock.now();
        self.force_stats_calculation_at(topic, now)
    }

    /// Closes the window of statistics of `topic` at `now`, whether or not
    /// its interval has passed.
    pub fn force_stats_calculation_at(&mut self, topic: &str, now: Moment) -> (report: Option<StatsReport>)
        requires
            old(self).wf(),
        ensures
            final(self).wf(),
            old(self).same_settings(final(self)),
            final(self).streams() == old(self).streams(),
            final(self).all_topics() == old(self).all_topics(),
            old(self).stats().forced(&final(self).stats(), topic@, now, report),
    {
        self.stats_manager.force_calculate_stats_for_topic(topic, now)
    }
}

/// The stream of a topic once a message that arrived at `now` has been
/// handled: its file found, created where a new one was due, and the line
/// written to it.
pub open spec fn after_message(
    stream: Option<StreamView>,
    now: Moment,
    timeout_secs: u64,
    cap: u32,
    stamp: Seq<char>,
) -> StreamView {
    let rotation = rotation_of(stream, now, timeout_secs, cap);
    let next = successor(stream, rotation, stamp);
    written(
        match (rotation, stream) {
            (Rotation::Reuse, Some(s)) => StreamView { last_access: now, ..s },
            _ => StreamView { base_timestamp: next.0, file_number: next.1, last_access: now, message_count: 0 },
        },
        now,
    )
}

/// The stream of a topic once the messages that arrived at `times`, with the
/// local time `stamps`, have been handled one after the other.
pub open spec fn after_messages(
    stream: Option<StreamView>,
    times: Seq<Moment>,
    stamps: Seq<Seq<char>>,
    timeout_secs: u64,
    cap: u32,
) -> Option<StreamView>
    decreases times.len(),
{
    if times.len() == 0 {
        stream
    } else {
        Some(
            after_message(
                after_messages(stream, times.drop_last(), stamps.drop_last(), timeout_secs, cap),
                times.last(),
                timeout_secs,
                cap,
                stamps.last(),
            ),
        )
    }
}

/// What the last of the messages found of its stream.
pub open spec fn last_rotation(
    stream: Option<StreamView>,
    times: Seq<Moment>,
    stamps: Seq<Seq<char>>,
    timeout_secs: u64,
    cap: u32,
) -> Rotation
    recommends
        times.len() > 0,
{
    rotation_of(
        after_messages(stream, times.drop_last(), stamps.drop_last(), timeout_secs, cap),
        times.last(),
        timeout_secs,
        cap,
    )
}

/// How many files the messages had created.
pub open spec fn files_created(
    stream: Option<StreamView>,
    times: Seq<Moment>,
    stamps: Seq<Seq<char>>,
    timeout_secs: u64,
    cap: u32,
) -> nat
    decreases times.len(),
{
    if times.len() == 0 {
        0
    } else {
        files_created(stream, times.drop_last(), stamps.drop_last(), timeout_secs, cap) + if last_rotation(
            stream,
            times,
            stamps,
            timeout_secs,
            cap,
        ) is Reuse {
            0nat
        } else {
            1nat
        }
    }
}

/// Whether none of the messages found its stream idle for too long or its
/// file full.
pub open spec fn no_rotation(
    stream: Option<StreamView>,
    times: Seq<Moment>,
    stamps: Seq<Seq<char>>,
    timeout_secs: u64,
    cap: u32,
) -> bool {
    forall|n: int|
        0 < n <= times.len() ==> {
            let found = #[trigger] last_rotation(stream, times.take(n), stamps.take(n), timeout_secs, cap);
            found is Reuse || found is First
        }
}

/// Handling a message by the registry's three steps leaves the topic's
/// stream as `after_message` says, and creates a file exactly where the
/// message did not find an open file with room: `resolves` finds the file,
/// the file is registered where one was created, and `records` counts the
/// message.
pub proof fn lemma_message_handled(
    start: TopicFileManager,
    found: TopicFileManager,
    ready: TopicFileManager,
    end: TopicFileManager,
    topic: Seq<char>,
    line: Seq<char>,
    now: Moment,
    day: Seq<char>,
    stamp: Seq<char>,
    action: StreamAction,
    reports: Seq<TopicReport>,
)
    requires
        start.resolves(&found, topic, now, day, stamp, action),
        found.same_settings(&ready),
        match action {
            StreamAction::Append => ready.streams() == found.streams(),
            StreamAction::Create { stream, report } => ready.streams() == found.streams().insert(
                topic,
                opened(stream@),
            ),
        },
        ready.records(&end, topic, line, now, reports),
    ensures
        stream_of(end.streams(), topic) == Some(
            after_message(stream_of(start.streams(), topic), now, start.timeout_secs(), start.cap(), stamp),
        ),
        action is Create <==> !(rotation_of(
            stream_of(start.streams(), topic),
            now,
            start.timeout_secs(),
            start.cap(),
        ) is Reuse),
        forall|other: Seq<char>| other != topic ==> stream_of(end.streams(), other) == stream_of(start.streams(), other),
{
    assert forall|other: Seq<char>| other != topic implies stream_of(end.streams(), other) == stream_of(
        start.streams(),
        other,
    ) by {
        assert(found.streams().contains_key(other) == start.streams().contains_key(other));
    }
}

/// No file holds more messages than the cap: a stream within the cap is
/// still within it after any number of messages.
pub proof fn lemma_count_stays_within_cap(
    stream: Option<StreamView>,
    times: Seq<Moment>,
    stamps: Seq<Seq<char>>,
    timeout_secs: u64,
    cap: u32,
)
    requires
        cap >= 1,
        stream matches Some(s) ==> s.message_count <= cap,
    ensures
        after_messages(stream, times, stamps, timeout_secs, cap) matches Some(s) ==> s.message_count <= cap,
    decreases times.len(),
{
    if times.len() > 0 {
        lemma_count_stays_within_cap(stream, times.drop_last(), stamps.drop_last(), timeout_secs, cap);
    }
}

/// A message that finds its stream's file full, and the stream not idle for
/// too long, goes to the file with the next number of the same stream: the
/// timestamp stays, and the new file holds that one message.
pub proof fn lemma_full_file_goes_on(stream: StreamView, now: Moment, timeout_secs: u64, cap: u32, stamp: Seq<char>)
    requires
        !is_idle(stream, now, timeout_secs),
        stream.message_count >= cap,
    ensures
        rotation_of(Some(stream), now, timeout_secs, cap) is Cap,
        after_message(Some(stream), now, timeout_secs, cap, stamp) == (StreamView {
            base_timestamp: stream.base_timestamp,
            file_number: next_file_number(stream.file_number),
            last_access: now,
            message_count: 1,
        }),
{
}

/// A message that finds its stream idle for too long begins a new stream:
/// its timestamp is the local time of the message, its first file has the
/// number 0 and holds that one message.
pub proof fn lemma_idle_stream_begins_anew(
    stream: StreamView,
    now: Moment,
    timeout_secs: u64,
    cap: u32,
    stamp: Seq<char>,
)
    requires
        is_idle(stream, now, timeout_secs),
    ensures
        rotation_of(Some(stream), now, timeout_secs, cap) is Timeout,
        after_message(Some(stream), now, timeout_secs, cap, stamp) == (StreamView {
            base_timestamp: stamp,
            file_number: 0,
            last_access: now,
            message_count: 1,
        }),
{
}

/// As long as no message finds its stream idle for too long or its file
/// full, a topic that had no stream has, after `n` messages, a stream whose
/// file holds `n` messages, and one file has been created for it.
pub proof fn lemma_messages_without_rotation(
    times: Seq<Moment>,
    stamps: Seq<Seq<char>>,
    timeout_secs: u64,
    cap: u32,
)
    requires
        times.len() > 0,
        times.len() == stamps.len(),
        no_rotation(None, times, stamps, timeout_secs, cap),
    ensures
        after_messages(None, times, stamps, timeout_secs, cap) matches Some(s) && s.message_count == times.len(),
        files_created(None, times, stamps, timeout_secs, cap) == 1,
    decreases times.len(),
{
    let n = times.len() as int;
    assert(times.take(n) == times && stamps.take(n) == stamps);
    let found = last_rotation(None, times.take(n), stamps.take(n), timeout_secs, cap);
    if n == 1 {
        assert(times.drop_last().len() == 0);
        assert(after_messages(None, times.drop_last(), stamps.drop_last(), timeout_secs, cap) is None);
        assert(files_created(None, times.drop_last(), stamps.drop_last(), timeout_secs, cap) == 0);
    } else {
        let earlier = times.drop_last();
        let earlier_stamps = stamps.drop_last();
        assert forall|k: int| 0 < k <= earlier.len() implies {
            let r = #[trigger] last_rotation(None, earlier.take(k), earlier_stamps.take(k), timeout_secs, cap);
            r is Reuse || r is First
        } by {
            assert(earlier.take(k) == times.take(k));
            assert(earlier_stamps.take(k) == stamps.take(k));
        }
        lemma_messages_without_rotation(earlier, earlier_stamps, timeout_secs, cap);
    }
}

} // verus!
