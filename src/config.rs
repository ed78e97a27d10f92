use vstd::prelude::*;

verus! {

/// The credential tuple handed out by a password login and used to restore a session.
#[derive(Debug)]
pub struct TokenAuthentication {
    pub user_id: String,
    pub device_id: String,
    pub access_token: String,
}

/// The bot's settings, as read from its configuration file.
#[derive(Debug)]
pub struct BotConfig {
    pub home_server: String,
    pub user_name: String,
    pub display_name: String,
    pub state_directory: String,
    pub auth_token: Option<TokenAuthentication>,
}

impl TokenAuthentication {
    /// A copy of this credential tuple.
    pub fn duplicate(&self) -> (r: TokenAuthentication)
        ensures
            r == *self,
    {
        TokenAuthentication {
            user_id: self.user_id.clone(),
            device_id: self.device_id.clone(),
            access_token: self.access_token.clone(),
        }
    }
}

impl BotConfig {
    /// These settings with `token` as the stored credentials, every other field kept.
    pub open spec fn spec_with_token(self, token: TokenAuthentication) -> BotConfig {
        BotConfig { auth_token: Some(token), ..self }
    }

    /// These settings with `token` as the stored credentials, every other field kept.
    pub fn with_token(&self, token: TokenAuthentication) -> (r: BotConfig)
        ensures
            r == self.spec_with_token(token),
    {
        BotConfig {
            home_server: self.home_server.clone(),
            user_name: self.user_name.clone(),
            display_name: self.display_name.clone(),
            state_directory: self.state_directory.clone(),
            auth_token: Some(token),
        }
    }
}

} // verus!
