use vstd::prelude::*;
use vstd::string::StrSliceExecFns;
use crate::shards::ShardState;
use crate::stats::StatsManager;

verus! {

#[verifier::external_type_specification]
#[verifier::external_body]
pub struct ExGodbolt(godbolt::Godbolt);

/// Failure to look a resource up before bootstrap stored it: a startup
/// defect, never a user-facing condition.
#[derive(Clone, Copy, PartialEq, Eq, Structural, Debug)]
pub enum RegistryError {
    NotInitialized,
}

/// The names of the bot configuration values.
#[derive(Clone, Copy, PartialEq, Eq, Structural, Debug)]
pub enum ConfigKey {
    SuccessEmojiId,
    SuccessEmojiName,
    LoadingEmojiId,
    LoadingEmojiName,
    JoinLog,
    BotPrefix,
    BotId,
    BotAvatar,
}

/// The bot configuration: a map with one named slot per key, so that a
/// missing key is visible in the type rather than at lookup time.
pub struct BotConfig {
    success_emoji_id: Option<String>,
    success_emoji_name: Option<String>,
    loading_emoji_id: Option<String>,
    loading_emoji_name: Option<String>,
    join_log: Option<String>,
    bot_prefix: Option<String>,
    bot_id: Option<String>,
    bot_avatar: Option<String>,
}

impl BotConfig {
    pub closed spec fn spec_field(self, k: ConfigKey) -> Option<String> {
        match k {
            ConfigKey::SuccessEmojiId => self.success_emoji_id,
            ConfigKey::SuccessEmojiName => self.success_emoji_name,
            ConfigKey::LoadingEmojiId => self.loading_emoji_id,
            ConfigKey::LoadingEmojiName => self.loading_emoji_name,
            ConfigKey::JoinLog => self.join_log,
            ConfigKey::BotPrefix => self.bot_prefix,
            ConfigKey::BotId => self.bot_id,
            ConfigKey::BotAvatar => self.bot_avatar,
        }
    }

    /// The value stored under `k`, as a character sequence.
    pub open spec fn spec_get(self, k: ConfigKey) -> Option<Seq<char>> {
        match self.spec_field(k) {
            Some(s) => Some(s@),
            None => None,
        }
    }

    pub fn new() -> (c: BotConfig)
        ensures
            forall|k: ConfigKey| c.spec_get(k) is None,
    {
        BotConfig {
            success_emoji_id: None,
            success_emoji_name: None,
            loading_emoji_id: None,
            loading_emoji_name: None,
            join_log: None,
            bot_prefix: None,
            bot_id: None,
            bot_avatar: None,
        }
    }

    /// Stores `v` under `k`, replacing any earlier value; no other key
    /// changes.
    pub fn insert(&mut self, k: ConfigKey, v: String)
        ensures
            final(self).spec_get(k) == Some(v@),
            forall|k2: ConfigKey| k2 != k ==> final(self).spec_get(k2) == old(self).spec_get(k2),
    {
        match k {
            ConfigKey::SuccessEmojiId => self.success_emoji_id = Some(v),
            ConfigKey::SuccessEmojiName => self.success_emoji_name = Some(v),
            ConfigKey::LoadingEmojiId => self.loading_emoji_id = Some(v),
            ConfigKey::LoadingEmojiName => self.loading_emoji_name = Some(v),
            ConfigKey::JoinLog => self.join_log = Some(v),
            ConfigKey::BotPrefix => self.bot_prefix = Some(v),
            ConfigKey::BotId => self.bot_id = Some(v),
            ConfigKey::BotAvatar => self.bot_avatar = Some(v),
        }
    }

    /// Looks the value stored under `k` up.
    pub fn get(&self, k: ConfigKey) -> (r: Option<&String>)
        ensures
            match r {
                Some(v) => self.spec_get(k) == Some(v@),
                None => self.spec_get(k) is None,
            },
    {
        let field = match k {
            ConfigKey::SuccessEmojiId => &self.success_emoji_id,
            ConfigKey::SuccessEmojiName => &self.success_emoji_name,
            ConfigKey::LoadingEmojiId => &self.loading_emoji_id,
            ConfigKey::LoadingEmojiName => &self.loading_emoji_name,
            ConfigKey::JoinLog => &self.join_log,
            ConfigKey::BotPrefix => &self.bot_prefix,
            ConfigKey::BotId => &self.bot_id,
            ConfigKey::BotAvatar => &self.bot_avatar,
        };
        match field {
            Some(v) => Some(v),
            None => None,
        }
    }
}

pub open spec fn is_digit(c: char) -> bool {
    '0' <= c <= '9'
}

pub open spec fn digit_val(c: char) -> int {
    c as int - '0' as int
}

/// Whether `s` is a plain decimal numeral: nonempty, digits only.
pub open spec fn all_digits(s: Seq<char>) -> bool {
    s.len() > 0 && forall|i: int| 0 <= i < s.len() ==> is_digit(#[trigger] s[i])
}

/// The value of a decimal numeral, as a mathematical integer.
pub open spec fn dec_value(s: Seq<char>) -> int
    decreases s.len(),
{
    if s.len() == 0 {
        0
    } else {
        dec_value(s.drop_last()) * 10 + digit_val(s.last())
    }
}

proof fn lemma_dec_value_nonneg(s: Seq<char>)
    requires
        forall|i: int| 0 <= i < s.len() ==> is_digit(#[trigger] s[i]),
    ensures
        dec_value(s) >= 0,
    decreases s.len(),
{
    if s.len() > 0 {
        lemma_dec_value_nonneg(s.drop_last());
    }
}

proof fn lemma_dec_value_prefix_le(s: Seq<char>, i: int)
    requires
        forall|k: int| 0 <= k < s.len() ==> is_digit(#[trigger] s[k]),
        0 <= i <= s.len(),
    ensures
        dec_value(s.take(i)) <= dec_value(s),
    decreases s.len() - i,
{
    if i < s.len() {
        lemma_dec_value_prefix_le(s, i + 1);
        lemma_dec_value_nonneg(s.take(i));
        assert(s.take(i + 1).drop_last() =~= s.take(i));
        assert(dec_value(s.take(i + 1)) == dec_value(s.take(i)) * 10 + digit_val(s[i]));
    } else {
        assert(s.take(i) =~= s);
    }
}

/// Reads a `u64` from a plain decimal numeral: nonempty, digits only, and
/// a value that fits; anything else is refused.
pub fn parse_decimal_u64(s: &str) -> (r: Option<u64>)
    ensures
        r matches Some(v) ==> all_digits(s@) && v == dec_value(s@),
        r is None ==> !all_digits(s@) || dec_value(s@) > u64::MAX,
{
    let n = s.unicode_len();
    if n == 0 {
        return None;
    }
    let mut acc: u64 = 0;
    let mut i: usize = 0;
    proof {
        assert(s@.take(0) =~= Seq::<char>::empty());
    }
    while i < n
        invariant
            i <= n,
            n == s@.len(),
            forall|k: int| 0 <= k < i ==> is_digit(#[trigger] s@[k]),
            acc == dec_value(s@.take(i as int)),
        decreases n - i,
    {
        let c = s.get_char(i);
        if !(c >= '0' && c <= '9') {
            return None;
        }
        let d: u64 = (c as u32 as u64) - 48;
        proof {
            assert(s@.take(i + 1).drop_last() =~= s@.take(i as int));
            assert(s@.take(i + 1).last() == s@[i as int]);
        }
        if acc > (u64::MAX - d) / 10 {
            proof {
                assert(dec_value(s@.take(i + 1)) == acc * 10 + d);
                assert(acc * 10 + d > u64::MAX) by (nonlinear_arith)
                    requires
                        acc > (u64::MAX - d) / 10,
                        d <= 9,
                ;
                if forall|k: int| 0 <= k < s@.len() ==> is_digit(#[trigger] s@[k]) {
                    lemma_dec_value_prefix_le(s@, i + 1);
                }
            }
            return None;
        }
        proof {
            assert(acc * 10 + d <= u64::MAX) by (nonlinear_arith)
                requires
                    acc <= (u64::MAX - d) / 10,
                    d <= 9,
            ;
        }
        acc = acc * 10 + d;
        i = i + 1;
    }
    proof {
        assert(s@.take(n as int) =~= s@);
    }
    Some(acc)
}

/// The reaction identity the compile command needs up front: the success
/// and loading emoji, each as a numeric id and a name.
pub struct ReactionConfig {
    pub success_id: u64,
    pub success_name: String,
    pub loading_id: u64,
    pub loading_name: String,
}

/// Whether a stored value is a decimal numeral that fits a `u64`.
pub open spec fn numeral_fits(o: Option<Seq<char>>) -> bool {
    o matches Some(s) && all_digits(s) && dec_value(s) <= u64::MAX
}

/// Whether the config holds everything the reaction identity needs.
pub open spec fn reaction_config_available(c: BotConfig) -> bool {
    &&& numeral_fits(c.spec_get(ConfigKey::SuccessEmojiId))
    &&& numeral_fits(c.spec_get(ConfigKey::LoadingEmojiId))
    &&& c.spec_get(ConfigKey::SuccessEmojiName) is Some
    &&& c.spec_get(ConfigKey::LoadingEmojiName) is Some
}

/// Reads the reaction configuration out of the bot config: present
/// exactly when all four values were stored and both ids are decimal
/// numerals that fit.
pub fn reaction_config(config: &BotConfig) -> (r: Option<ReactionConfig>)
    ensures
        r is Some <==> reaction_config_available(*config),
        r matches Some(rc) ==> {
            &&& config.spec_get(ConfigKey::SuccessEmojiId) matches Some(sid) && all_digits(sid)
                && rc.success_id == dec_value(sid)
            &&& config.spec_get(ConfigKey::SuccessEmojiName) == Some(rc.success_name@)
            &&& config.spec_get(ConfigKey::LoadingEmojiId) matches Some(lid) && all_digits(lid)
                && rc.loading_id == dec_value(lid)
            &&& config.spec_get(ConfigKey::LoadingEmojiName) == Some(rc.loading_name@)
        },
{
    let success_id = match config.get(ConfigKey::SuccessEmojiId) {
        Some(v) => match parse_decimal_u64(v.as_str()) {
            Some(id) => id,
            None => {
                return None;
            },
        },
        None => {
            return None;
        },
    };
    let loading_id = match config.get(ConfigKey::LoadingEmojiId) {
        Some(v) => match parse_decimal_u64(v.as_str()) {
            Some(id) => id,
            None => {
                return None;
            },
        },
        None => {
            return None;
        },
    };
    let success_name = match config.get(ConfigKey::SuccessEmojiName) {
        Some(v) => v.clone(),
        None => {
            return None;
        },
    };
    let loading_name = match config.get(ConfigKey::LoadingEmojiName) {
        Some(v) => v.clone(),
        None => {
            return None;
        },
    };
    Some(ReactionConfig { success_id, success_name, loading_id, loading_name })
}

/// The guild ids barred from invoking commands.
pub struct Blocklist {
    ids: Vec<u64>,
}

impl Blocklist {
    pub closed spec fn spec_contains(self, id: u64) -> bool {
        self.ids@.contains(id)
    }

    pub fn new() -> (b: Blocklist)
        ensures
            forall|id: u64| !b.spec_contains(id),
    {
        Blocklist { ids: Vec::new() }
    }

    pub fn contains(&self, id: u64) -> (r: bool)
        ensures
            r == self.spec_contains(id),
    {
        let n = self.ids.len();
        let mut i: usize = 0;
        while i < n
            invariant
                i <= n,
                n == self.ids@.len(),
                forall|m: int| 0 <= m < i ==> self.ids@[m] != id,
            decreases n - i,
        {
            if self.ids[i] == id {
                return true;
            }
            i = i + 1;
        }
        false
    }

    pub fn add(&mut self, id: u64)
        ensures
            final(self).spec_contains(id),
            forall|other: u64|
                other != id ==> final(self).spec_contains(other) == old(self).spec_contains(other),
    {
        self.ids.push(id);
        proof {
            assert(self.ids@.drop_last() =~= old(self).ids@);
            assert(self.ids@.last() == id);
            assert forall|other: u64| other != id implies self.spec_contains(other) == old(
                self,
            ).spec_contains(other) by {
                if old(self).ids@.contains(other) {
                    let w = choose|w: int| 0 <= w < old(self).ids@.len() && old(self).ids@[w] == other;
                    assert(self.ids@[w] == other);
                }
                if self.ids@.contains(other) {
                    let w = choose|w: int| 0 <= w < self.ids@.len() && self.ids@[w] == other;
                    assert(old(self).ids@[w] == other);
                }
            }
        }
    }
}

/// The wandbox backend handle held process-wide: the HTTP client plus the
/// compiler catalog snapshot it fetched, which a rare refresh may replace.
pub struct WandboxState {
    pub client: wandbox::Wandbox,
    pub catalog: wandbox::Catalog,
}

/// One registry slot: a named resource stored exactly once at startup;
/// looking it up earlier is the `NotInitialized` startup defect.
pub struct CacheSlot<T> {
    value: Option<T>,
}

impl<T> CacheSlot<T> {
    pub closed spec fn initialized(self) -> bool {
        self.value is Some
    }

    pub closed spec fn resource(self) -> T
        recommends
            self.initialized(),
    {
        self.value->Some_0
    }

    pub fn empty() -> (s: Self)
        ensures
            !s.initialized(),
    {
        CacheSlot { value: None }
    }

    /// Stores the resource; each slot is filled exactly once, at startup.
    pub fn put(&mut self, value: T)
        requires
            !old(self).initialized(),
        ensures
            final(self).initialized(),
            final(self).resource() == value,
    {
        self.value = Some(value);
    }

    pub fn get(&self) -> (r: Result<&T, RegistryError>)
        ensures
            self.initialized() ==> (r matches Ok(v) && *v == self.resource()),
            !self.initialized() ==> (r matches Err(e) && e == RegistryError::NotInitialized),
    {
        match &self.value {
            Some(v) => Ok(v),
            None => Err(RegistryError::NotInitialized),
        }
    }

    /// Mutable access for the write-heavy resources: the slot ends up
    /// holding whatever the caller leaves behind the returned borrow.
    pub fn get_mut(&mut self) -> (r: Result<&mut T, RegistryError>)
        ensures
            old(self).initialized() ==> (r matches Ok(v) && *v == old(self).resource()
                && final(self).initialized() && final(self).resource() == *final(v)),
            !old(self).initialized() ==> (r matches Err(e) && e == RegistryError::NotInitialized
                && *final(self) == *old(self)),
    {
        match &mut self.value {
            Some(v) => Ok(v),
            None => Err(RegistryError::NotInitialized),
        }
    }
}

/// Slot for the bot configuration (read-mostly).
pub struct ConfigCache {
    pub slot: CacheSlot<BotConfig>,
}

/// Slot for the wandbox backend handle (read-mostly).
pub struct WandboxCache {
    pub slot: CacheSlot<WandboxState>,
}

/// Slot for the assembly-explorer backend client (read-mostly).
pub struct GodboltCache {
    pub slot: CacheSlot<godbolt::Godbolt>,
}

/// Slot for the bot-list telemetry client (read-mostly); the client type
/// belongs to the runtime around the library.
pub struct DBLCache<C> {
    pub slot: CacheSlot<C>,
}

/// Slot for the per-shard guild counters (write-heavy).
pub struct ServerCountCache {
    pub slot: CacheSlot<ShardState>,
}

/// Slot for the usage-tracking state (write-heavy).
pub struct StatsManagerCache {
    pub slot: CacheSlot<StatsManager>,
}

/// Slot for the guild blocklist (read-mostly).
pub struct BlocklistCache {
    pub slot: CacheSlot<Blocklist>,
}

/// Slot for the gateway shard-manager handle (read-mostly); the handle
/// type belongs to the runtime around the library.
pub struct ShardManagerCache<H> {
    pub slot: CacheSlot<H>,
}

/// The process-wide registry: one named, typed slot per long-lived
/// resource. The runtime wraps each resource in its own lock; nothing is
/// ever removed, and every slot is filled once at startup, before any
/// command or gateway event can observe it.
pub struct Registry<C, H> {
    pub config: ConfigCache,
    pub wandbox: WandboxCache,
    pub godbolt: GodboltCache,
    pub dbl: DBLCache<C>,
    pub server_counts: ServerCountCache,
    pub stats: StatsManagerCache,
    pub blocklist: BlocklistCache,
    pub shard_manager: ShardManagerCache<H>,
}

impl<C, H> Registry<C, H> {
    pub open spec fn fully_initialized(self) -> bool {
        &&& self.config.slot.initialized()
        &&& self.wandbox.slot.initialized()
        &&& self.godbolt.slot.initialized()
        &&& self.dbl.slot.initialized()
        &&& self.server_counts.slot.initialized()
        &&& self.stats.slot.initialized()
        &&& self.blocklist.slot.initialized()
        &&& self.shard_manager.slot.initialized()
    }

    pub fn new() -> (r: Self)
        ensures
            !r.config.slot.initialized(),
            !r.wandbox.slot.initialized(),
            !r.godbolt.slot.initialized(),
            !r.dbl.slot.initialized(),
            !r.server_counts.slot.initialized(),
            !r.stats.slot.initialized(),
            !r.blocklist.slot.initialized(),
            !r.shard_manager.slot.initialized(),
    {
        Registry {
            config: ConfigCache { slot: CacheSlot::empty() },
            wandbox: WandboxCache { slot: CacheSlot::empty() },
            godbolt: GodboltCache { slot: CacheSlot::empty() },
            dbl: DBLCache { slot: CacheSlot::empty() },
            server_counts: ServerCountCache { slot: CacheSlot::empty() },
            stats: StatsManagerCache { slot: CacheSlot::empty() },
            blocklist: BlocklistCache { slot: CacheSlot::empty() },
            shard_manager: ShardManagerCache { slot: CacheSlot::empty() },
        }
    }

    /// Fills every slot, in one pass at startup: afterwards every lookup
    /// succeeds, and each slot holds exactly the resource handed in here.
    pub fn bootstrap(
        config: BotConfig,
        wandbox: WandboxState,
        godbolt: godbolt::Godbolt,
        dbl: C,
        server_counts: ShardState,
        stats: StatsManager,
        blocklist: Blocklist,
        shard_manager: H,
    ) -> (r: Self)
        ensures
            r.fully_initialized(),
            r.config.slot.resource() == config,
            r.wandbox.slot.resource() == wandbox,
            r.godbolt.slot.resource() == godbolt,
            r.dbl.slot.resource() == dbl,
            r.server_counts.slot.resource() == server_counts,
            r.stats.slot.resource() == stats,
            r.blocklist.slot.resource() == blocklist,
            r.shard_manager.slot.resource() == shard_manager,
    {
        let mut r = Self::new();
        r.config.slot.put(config);
        r.wandbox.slot.put(wandbox);
        r.godbolt.slot.put(godbolt);
        r.dbl.slot.put(dbl);
        r.server_counts.slot.put(server_counts);
        r.stats.slot.put(stats);
        r.blocklist.slot.put(blocklist);
        r.shard_manager.slot.put(shard_manager);
        r
    }
}

} // verus!
