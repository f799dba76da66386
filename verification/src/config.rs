//! Configuration data the application hands the library at startup. The
//! loading and parsing of configuration files stays outside the library;
//! these types only carry the loaded values.

use vstd::prelude::*;
use vstd::string::StringExecFns;

verus! {

/// Application configuration: the chat-platform section.
#[derive(Debug, Clone, PartialEq, Eq)]
pub struct Config {
    pub slack: SlackConfig,
}

/// Chat-platform configuration: the credential pair.
#[derive(Debug, Clone, PartialEq, Eq)]
pub struct SlackConfig {
    pub secret: SlackSecret,
}

/// The two platform credentials: an app-level token for opening the
/// streaming connection and a bot token for posting replies.
#[derive(Hash, Eq, PartialEq, Debug, Clone)]
pub struct SlackSecret {
    pub app_token: String,
    pub bot_token: String,
}

impl Default for Config {
    /// Placeholder credentials, stand-ins until real configuration is
    /// loaded.
    fn default() -> (r: Self)
        ensures
            r.slack.secret.app_token@ == "xapp-xxxxx"@,
            r.slack.secret.bot_token@ == "xoxb-xxxxx"@,
    {
        Config {
            slack: SlackConfig {
                secret: SlackSecret {
                    app_token: String::from_str("xapp-xxxxx"),
                    bot_token: String::from_str("xoxb-xxxxx"),
                },
            },
        }
    }
}

} // verus!
