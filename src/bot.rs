//! Records of the bot registry that sits beside the candle store.
use vstd::prelude::*;

verus! {

/// A registered bot, as stored.
#[derive(Debug)]
pub struct Bot {
    pub id: i64,
    pub name: String,
    pub description: String,
    pub enable: bool,
    pub registered: i64,
    pub token: String,
    pub long_order: bool,
    pub short_order: bool,
    pub operate_type: String,
}

/// A bot as shown to an API client: without its id and token.
#[derive(Debug)]
pub struct BotForGet {
    pub name: String,
    pub description: String,
    pub enable: bool,
    pub registered: i64,
    pub long_order: bool,
    pub short_order: bool,
    pub operate_type: String,
}

/// Every registered bot.
#[derive(Debug)]
pub struct BotList {
    pub bot: Vec<Bot>,
}

impl Bot {
    /// The bot's id.
    pub fn get_id(&self) -> (r: i64)
        ensures
            r == self.id,
    {
        self.id
    }
}

impl BotList {
    /// How many bots the list holds.
    pub fn get_list_len(&self) -> (r: usize)
        ensures
            r == self.bot@.len(),
    {
        self.bot.len()
    }
}

} // verus!
