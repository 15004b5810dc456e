use crate::sdk::char_config::CharConfig;
use vstd::prelude::*;

verus! {

/// The address of the game's API, the account's token and the characters' settings.
#[derive(Debug)]
pub struct Config {
    pub base_url: String,
    pub token: String,
    pub characters: Vec<CharConfig>,
}

/// The game's settings as read from the configuration file.
#[derive(Debug)]
pub struct GameConfig {
    pub base_url: String,
    pub token: String,
    pub characters: Vec<CharConfig>,
}

impl Default for GameConfig {
    fn default() -> (res: Self)
        ensures
            res.base_url@ == Seq::<char>::empty(),
            res.token@ == Seq::<char>::empty(),
            res.characters@ == Seq::<CharConfig>::empty(),
    {
        GameConfig { base_url: String::new(), token: String::new(), characters: Vec::new() }
    }
}

} // verus!
