//! Reconciles the set of files a download-management service believes it
//! owns against the files actually present on disk, and plans a safe
//! cleanup of the entries that no longer correspond to any tracked item:
//! filtering tracked items by business criteria, building the expected
//! path set, classifying every on-disk entry bottom-up, and choosing a
//! disposition action per dangling entry.

pub mod entry;
pub mod expected;
pub mod item;
pub mod level;
pub mod paths;
pub mod plan;
pub mod schedule;
