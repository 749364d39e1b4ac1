//! Tracks the newest available release of software distributions: a tolerant
//! numeric version model with parsing and a total ordering, a scraper that
//! picks the largest version among the link targets of a directory-listing
//! page, and the decision logic of the upstream source dispatcher.

pub mod order;
pub mod package;
pub mod scrape;
pub mod site;
pub mod version;
