//! The decisions the HTTP handlers make.
pub mod challenges;
pub mod gpx;
pub mod strava;
