//! Core of an internet radio engine: a deterministic audio pipeline that
//! mixes, schedules, cross-fades and resamples pull-based sources into one
//! output stream, with fixed-point sample and gain arithmetic throughout.

mod definitions;
mod document;
mod manager;
mod media;
mod mix;
mod radio_index;
mod random_mixer;
mod samples;
mod scheduler;
mod sine;
mod sink;
mod soft_scheduler;
mod source;
mod time;
mod volume;
mod zones;

pub use definitions::{meta_match, parse_time, DefError, Definitions, Intro, Metadata, Song};
pub use document::{bytes_eq, parse_document, DocNode};
pub use manager::Manager;
pub use media::{Media, MediaError};
pub use mix::find_mix;
pub use radio_index::{Output, RadioIndex, RadioInfo};
pub use random_mixer::{Possibility, RandomMixer};
pub use samples::{SAMPLE_UNIT, VOL_MAX, VOL_UNIT};
pub use scheduler::{Scheduler, SchedulerSource};
pub use sine::Sine;
pub use sink::{Format, Realtime, Stream};
pub use soft_scheduler::{SoftError, SoftScheduler};
pub use source::{Source, SourceError, MAX_FILL, MAX_FRAMES};
pub use time::Time;
pub use zones::{verify_zones, Connection, Zone};
