use vstd::prelude::*;

verus! {

/// Per-community deployment settings: the gateway token, the community
/// (guild) that the session serves, the voice channel spoken into, and the
/// directory holding synthesized artifacts and the membership snapshot.
pub struct Config {
    token: String,
    guild_id: u64,
    channel_id: u64,
    cache: String,
}

impl Config {
    pub closed spec fn spec_token(&self) -> Seq<char> {
        self.token@
    }

    pub closed spec fn spec_guild_id(&self) -> u64 {
        self.guild_id
    }

    pub closed spec fn spec_channel_id(&self) -> u64 {
        self.channel_id
    }

    pub closed spec fn spec_cache(&self) -> Seq<char> {
        self.cache@
    }

    pub fn new(token: String, guild_id: u64, channel_id: u64, cache: String) -> (c: Config)
        ensures
            c.spec_token() == token@,
            c.spec_guild_id() == guild_id,
            c.spec_channel_id() == channel_id,
            c.spec_cache() == cache@,
    {
        Config { token, guild_id, channel_id, cache }
    }

    pub fn token(&self) -> (r: &str)
        ensures
            r@ == self.spec_token(),
    {
        self.token.as_str()
    }

    pub fn guild_id(&self) -> (r: u64)
        ensures
            r == self.spec_guild_id(),
    {
        self.guild_id
    }

    pub fn channel_id(&self) -> (r: u64)
        ensures
            r == self.spec_channel_id(),
    {
        self.channel_id
    }

    pub fn cache(&self) -> (r: &str)
        ensures
            r@ == self.spec_cache(),
    {
        self.cache.as_str()
    }
}

} // verus!
