//! What the recorder is told to do.

use vstd::prelude::*;

verus! {

/// The options of a plain recording: everything goes to one file per minute.
#[derive(Debug)]
pub struct RecordOptions {
    /// The topics to record.
    pub topic: Vec<String>,
    /// The directory to write the recordings to.
    pub directory: String,
}

/// The options of a recording that keeps one stream of files per topic.
#[derive(Debug)]
pub struct IntelligentRecordOptions {
    /// The topics to record.
    pub topic: Vec<String>,
    /// The directory to write the recordings to.
    pub directory: String,
    /// The seconds without a message after which a topic's file is closed.
    pub sec: u64,
    /// Whether statistics are kept.
    pub enable_stats: bool,
    /// The seconds that one window of statistics lasts.
    pub stats_interval: u64,
    /// Whether the file that gathers all topics is left out.
    pub disable_all_topic_record: bool,
}

impl IntelligentRecordOptions {
    /// The seconds between two sweeps for idle files: half the idle timeout,
    /// so that no file stays open longer than one and a half timeouts.
    pub open spec fn spec_cleanup_interval(&self) -> u64 {
        self.sec / 2
    }

    /// The seconds between two sweeps for idle files.
    #[verifier::when_used_as_spec(spec_cleanup_interval)]
    pub fn cleanup_interval(&self) -> (secs: u64)
        ensures
            secs == self.sec / 2,
    {
        self.sec / 2
    }
}

} // verus!
