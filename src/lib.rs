//! A minimal periodic-job scheduler: crontab lines become jobs, and a polling
//! loop decides which jobs are due, when to wake next, and never lets one job
//! overlap with itself.
pub mod job;
pub mod line;
pub mod loader;
pub mod schedule;
pub mod scheduler;
