//! The configuration the core consumes: named sites to poll and notification
//! settings that are carried along but never acted on here.
//!
//! Loading and validating the files that fill these types is the surrounding
//! binary's job; the core only receives the finished values.

use vstd::prelude::*;

verus! {

/// Where a chat notification would go; loaded and stored, never used by the
/// core.
#[derive(Debug, PartialEq)]
pub struct SlackNotification {
    pub api_key: String,
    pub channel: String,
}

/// Notification settings; inert passthrough data for the core.
#[derive(Debug, PartialEq)]
pub struct Notifications {
    pub slack: Option<SlackNotification>,
}

/// One configured site: its URI and a polling interval. The interval is part
/// of the data model but drives nothing: the dispatcher performs exactly one
/// pass.
#[derive(Debug, PartialEq)]
pub struct Site {
    pub uri: String,
    pub interval: usize,
}

/// One named site of the mapping.
#[derive(Debug, PartialEq)]
pub struct SiteEntry {
    pub name: String,
    pub site: Site,
}

/// The site mapping: names are unique by construction upstream and their
/// order carries no meaning. It is consumed destructively by one poll pass.
pub type Sites = Vec<SiteEntry>;

/// Everything the loader hands over: the sites, held in an `Option` so that
/// one poll pass can take them exactly once, and the notification settings.
#[derive(Debug)]
pub struct Settings {
    pub notifications: Notifications,
    pub sites: Option<Sites>,
}

impl Settings {
    /// Composes loaded configuration values into the settings the dispatcher
    /// consumes.
    pub fn new(notifications: Notifications, sites: Option<Sites>) -> (r: Settings)
        ensures
            r.notifications == notifications,
            r.sites == sites,
    {
        Settings { notifications, sites }
    }
}

} // verus!
