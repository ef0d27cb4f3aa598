//! Crawler settings and the values used where a setting is left out.

use vstd::prelude::*;
use vstd::string::*;

verus! {

/// Seconds between two requests to the same target when none is configured.
pub fn cooldown() -> (r: usize)
    ensures
        r == 6,
{
    6
}

/// Seconds granted to a request when none is configured.
pub fn timeout() -> (r: usize)
    ensures
        r == 10,
{
    10
}

/// Whether the index is initialised at launch when the setting is left out.
pub fn init_on_launch() -> (r: bool)
    ensures
        r,
{
    true
}

/// Name of the snapshot file when none is configured.
pub fn database_file() -> (r: String)
    ensures
        r@ == "giveaways.json"@,
{
    String::from_str("giveaways.json")
}

/// Connection settings of the document index.
#[derive(Debug)]
pub struct MeiliSearchConfig {
    pub host: String,
    pub index: String,
    pub key: String,
    pub init_on_launch: bool,
}

/// Settings of one crawler process, fixed at startup.
#[derive(Debug)]
pub struct Config {
    /// Seconds between two requests to the same target.
    pub cooldown: usize,
    /// Number of stored records re-fetched per cycle; zero disables refresh.
    pub update: usize,
    /// Seconds granted to each request.
    pub timeout: usize,
    pub blame_useless_pages: bool,
    /// Path of the snapshot file.
    pub database_file: String,
    /// Absent when no index is mirrored.
    pub meilisearch: Option<MeiliSearchConfig>,
}

impl MeiliSearchConfig {
    /// Settings for the index at `host`, initialised at launch.
    pub fn new(host: String, index: String, key: String) -> (r: Self)
        ensures
            r.host == host,
            r.index == index,
            r.key == key,
            r.init_on_launch,
    {
        MeiliSearchConfig { host, index, key, init_on_launch: init_on_launch() }
    }
}

impl Config {
    /// The settings of a file that sets nothing: six seconds of cooldown, no
    /// refresh, ten seconds of timeout, the default snapshot file, no index.
    pub fn new() -> (r: Self)
        ensures
            r.cooldown == 6,
            r.update == 0,
            r.timeout == 10,
            !r.blame_useless_pages,
            r.database_file@ == "giveaways.json"@,
            r.meilisearch is None,
    {
        Config {
            cooldown: cooldown(),
            update: 0,
            timeout: timeout(),
            blame_useless_pages: false,
            database_file: database_file(),
            meilisearch: None,
        }
    }

    /// The cooldown in milliseconds, the unit of the timestamps handed to the
    /// rate limiter; saturates at the largest representable value.
    pub fn cooldown_millis(&self) -> (r: u64)
        ensures
            r as int == if self.cooldown as int * 1000 <= u64::MAX as int {
                self.cooldown as int * 1000
            } else {
                u64::MAX as int
            },
    {
        let c: u64 = self.cooldown as u64;
        if c <= u64::MAX / 1000 {
            c * 1000
        } else {
            u64::MAX
        }
    }
}

} // verus!
