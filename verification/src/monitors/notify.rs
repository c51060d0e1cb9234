//! Notifications through a Discord webhook: the message and where it goes.
use vstd::prelude::*;
use vstd::string::*;
use crate::settings::{missing_text_error, text_of, ConfigError, Settings};

verus! {

/// The webhook that notifications go to, and the name they are posted under.
#[derive(Clone, Debug)]
pub struct DiscordTarget {
    pub url: String,
    pub avatar_name: String,
}

/// The posted message: the message, the host's name and the appended text,
/// where the host's name could be had; the bare message otherwise.
pub open spec fn discord_message_spec(message: Seq<char>, hostname: Option<Seq<char>>, append: Seq<char>) -> Seq<char> {
    match hostname {
        Some(h) => message + " Hostname: "@ + h + " :: "@ + append,
        None => message,
    }
}

/// The posted message, given the host's name where it could be had.
pub fn discord_message(message: &str, hostname: Option<&str>, append: &str) -> (m: String)
    ensures
        m@ == discord_message_spec(
            message@,
            match hostname {
                Some(h) => Some(h@),
                None => None,
            },
            append@,
        ),
{
    let mut m = String::from_str(message);
    if let Some(h) = hostname {
        m.append(" Hostname: ");
        m.append(h);
        m.append(" :: ");
        m.append(append);
    }
    m
}

/// The webhook's address (`discord_webhook_url`) and the name to post under
/// (`discord_webhook_avatar_name`), read in that order.
pub fn discord_target(settings_map: &Settings) -> (r: Result<DiscordTarget, ConfigError>)
    ensures
        match r {
            Ok(t) => {
                &&& text_of(settings_map.entries@, "discord_webhook_url"@) == Some(t.url@)
                &&& text_of(settings_map.entries@, "discord_webhook_avatar_name"@) == Some(
                    t.avatar_name@,
                )
            },
            Err(e) => {
                ||| missing_text_error(settings_map.entries@, "discord_webhook_url"@, e)
                ||| (text_of(settings_map.entries@, "discord_webhook_url"@) is Some
                    && missing_text_error(settings_map.entries@, "discord_webhook_avatar_name"@, e))
            },
        },
{
    let url = settings_map.get_text("discord_webhook_url")?;
    let avatar_name = settings_map.get_text("discord_webhook_avatar_name")?;
    Ok(DiscordTarget { url, avatar_name })
}

} // verus!
