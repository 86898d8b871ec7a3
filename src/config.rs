//! The user's settings for uploads.

use vstd::prelude::*;

verus! {

/// Who uploads, with which key, to which server.
#[derive(Clone, Debug, PartialEq)]
pub struct RakalyConfig {
    pub user: String,
    pub api_key: String,
    pub base_url: String,
}

/// The server that saves go to unless the settings name another.
pub fn default_base_url() -> (r: String)
    ensures
        r@ == "https://pdx.tools"@,
{
    String::from_str("https://pdx.tools")
}

/// Who uploads and where: each of user and key from the command line, else
/// from the settings; the server from the settings, else the default.
pub fn upload_settings(
    user: Option<&str>,
    api_key: Option<&str>,
    config: Option<&RakalyConfig>,
) -> (r: Result<(String, String, String), MissingSetting>)
    ensures
        r is Err <==> (user is None && config is None) || (api_key is None && config is None),
        r is Err ==> r->Err_0 == (if user is None && config is None {
            MissingSetting::User
        } else {
            MissingSetting::ApiKey
        }),
        r is Ok ==> r->Ok_0.0@ == match user {
            Some(u) => u@,
            None => config->0.user@,
        },
        r is Ok ==> r->Ok_0.1@ == match api_key {
            Some(k) => k@,
            None => config->0.api_key@,
        },
        r is Ok ==> r->Ok_0.2@ == match config {
            Some(c) => c.base_url@,
            None => "https://pdx.tools"@,
        },
{
    let base_url = match config {
        Some(c) => c.base_url.clone(),
        None => default_base_url(),
    };
    let user = match user {
        Some(u) => String::from_str(u),
        None => match config {
            Some(c) => c.user.clone(),
            None => {
                return Err(MissingSetting::User);
            },
        },
    };
    let api_key = match api_key {
        Some(k) => String::from_str(k),
        None => match config {
            Some(c) => c.api_key.clone(),
            None => {
                return Err(MissingSetting::ApiKey);
            },
        },
    };
    Ok((user, api_key, base_url))
}

/// A setting that neither the command line nor the settings file gives.
#[derive(Clone, Copy, Debug, PartialEq, Eq)]
pub enum MissingSetting {
    User,
    ApiKey,
}

impl MissingSetting {
    pub fn message(&self) -> (r: &'static str)
        ensures
            r@ == match *self {
                MissingSetting::User => "user must be supplied via cli or config"@,
                MissingSetting::ApiKey => "api_key must be supplied via cli or config"@,
            },
    {
        match self {
            MissingSetting::User => "user must be supplied via cli or config",
            MissingSetting::ApiKey => "api_key must be supplied via cli or config",
        }
    }
}

} // verus!
