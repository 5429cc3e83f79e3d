//! Recording of publish-subscribe messages into files, one stream of files
//! per topic, with statistics over the payloads, and the replay of such
//! recordings. The library decides; the caller opens, writes and sends.

pub mod clock;
pub mod config;
pub mod file_manager;
pub mod json;
pub mod message;
pub mod replay;
pub mod stats;
pub mod text;
pub mod topic_map;

pub use crate::config::{IntelligentRecordOptions, RecordOptions};
pub use crate::file_manager::{
    get_all_topics_file_path, get_current_file_path, get_intelligent_file_path, topic_to_path, TopicFileManager,
};
pub use crate::message::MqttMessage;
pub use crate::replay::get_files_in_range;
pub use crate::stats::{JsonValueType, StatsManager, TopicStats};
