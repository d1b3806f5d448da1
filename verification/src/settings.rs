//! Per-platform credentials, search targets, and the default settings
//! used when no settings file exists.

use vstd::prelude::*;
use crate::errors::CollectError;

verus! {

/// Credentials for the forum platform's script-auth flow.
pub struct RedditCredentials {
    pub client_id: String,
    pub client_secret: String,
    pub username: String,
    pub password: String,
}

/// Credentials for the short-post platform's bearer-token API.
pub struct XCredentials {
    pub bearer_token: String,
}

/// Credentials for the video platform's API-key access.
pub struct YouTubeCredentials {
    pub api_key: String,
}

/// Everything the settings file holds: opaque credential bundles and the
/// per-platform search target lists.
pub struct AppSettings {
    pub reddit: Option<RedditCredentials>,
    pub collection_interval_minutes: u32,
    pub subreddits: Vec<String>,
    pub search_queries: Vec<String>,
    pub x: Option<XCredentials>,
    pub x_queries: Vec<String>,
    pub youtube: Option<YouTubeCredentials>,
    pub youtube_queries: Vec<String>,
}

impl AppSettings {
    /// The defaults used when no settings file exists or it cannot be
    /// read: no credentials, a thirty-minute interval, five seed
    /// subreddits and no search queries.
    pub fn default_settings() -> (s: AppSettings)
        ensures
            s.reddit is None,
            s.x is None,
            s.youtube is None,
            s.collection_interval_minutes == 30,
            s.subreddits@.len() == 5,
            s.subreddits@[0]@ == "cryptocurrency"@,
            s.subreddits@[1]@ == "wallstreetbets"@,
            s.subreddits@[2]@ == "stocks"@,
            s.subreddits@[3]@ == "sidehustle"@,
            s.subreddits@[4]@ == "entrepreneur"@,
            s.search_queries@.len() == 0,
            s.x_queries@.len() == 0,
            s.youtube_queries@.len() == 0,
    {
        let mut subreddits: Vec<String> = Vec::new();
        subreddits.push("cryptocurrency".to_owned());
        subreddits.push("wallstreetbets".to_owned());
        subreddits.push("stocks".to_owned());
        subreddits.push("sidehustle".to_owned());
        subreddits.push("entrepreneur".to_owned());
        AppSettings {
            reddit: None,
            collection_interval_minutes: 30,
            subreddits,
            search_queries: Vec::new(),
            x: None,
            x_queries: Vec::new(),
            youtube: None,
            youtube_queries: Vec::new(),
        }
    }
}

/// The configuration check that runs before the guard is touched:
/// credentials must be present and the target list non-empty; exactly
/// otherwise the run fails with a configuration error.
pub fn validate_run_config(credentials_present: bool, targets: &Vec<String>) -> (r: Result<
    (),
    CollectError,
>)
    ensures
        (r is Ok) <==> (credentials_present && targets@.len() > 0),
        !(credentials_present && targets@.len() > 0) ==> r == Result::<(), CollectError>::Err(
            CollectError::Configuration,
        ),
{
    if credentials_present && targets.len() > 0 {
        Ok(())
    } else {
        Err(CollectError::Configuration)
    }
}

} // verus!
