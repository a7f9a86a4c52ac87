//! Core of a terminal dashboard that polls continuous-integration status
//! sources: a tick-driven polling scheduler, a bounded chronological history of
//! recently completed runs, and a cursor-based selection model.

pub mod dashboard;
pub mod history;
pub mod selection;
pub mod source;

pub use dashboard::App;
pub use dashboard::FetchResult;
pub use dashboard::Page;
pub use dashboard::SourceState;
pub use dashboard::StatusItem;
pub use history::RecentEvent;
pub use history::RecentEventHistory;

pub use selection::SelectionList;
pub use source::Provider;
pub use source::Source;
