//! Trail-coverage challenges: the verified core of the service.
use vstd::prelude::*;

pub mod datetime;
pub mod db;
pub mod errors;
pub mod text;
pub mod strava;
pub mod osm;
pub mod auth;
pub mod routes;
pub mod env_file;
pub mod gpx;
pub mod export;
