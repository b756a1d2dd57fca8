use vstd::prelude::*;
use vstd::string::StringExecFns;
use crate::pipeline::StatsEvent;

verus! {

/// Usage-tracking state: a feature flag and strictly additive counters.
///
/// Every compilation is recorded as one event keyed by the resolved
/// language and by whether the run failed; guild joins and leaves, and the
/// fleet totals published at readiness, are plain counters. Posting these
/// to the telemetry service is the caller's business.
pub struct StatsManager {
    enabled: bool,
    events: Vec<StatsEvent>,
    servers_joined: u64,
    servers_left: u64,
    posted_servers: Option<u64>,
}

impl StatsManager {
    pub closed spec fn spec_enabled(self) -> bool {
        self.enabled
    }

    pub closed spec fn spec_events(self) -> Seq<StatsEvent> {
        self.events@
    }

    pub closed spec fn spec_servers_joined(self) -> u64 {
        self.servers_joined
    }

    pub closed spec fn spec_servers_left(self) -> u64 {
        self.servers_left
    }

    pub closed spec fn spec_posted_servers(self) -> Option<u64> {
        self.posted_servers
    }

    pub fn new(enabled: bool) -> (s: StatsManager)
        ensures
            s.spec_enabled() == enabled,
            s.spec_events() == Seq::<StatsEvent>::empty(),
            s.spec_servers_joined() == 0,
            s.spec_servers_left() == 0,
            s.spec_posted_servers() is None,
    {
        StatsManager {
            enabled,
            events: Vec::new(),
            servers_joined: 0,
            servers_left: 0,
            posted_servers: None,
        }
    }

    /// Whether usage tracking is switched on at all.
    pub fn should_track(&self) -> (b: bool)
        ensures
            b == self.spec_enabled(),
    {
        self.enabled
    }

    /// Records one compilation, keyed by language and by failure.
    pub fn compilation(&mut self, language: &str, failed: bool)
        ensures
            final(self).spec_events().len() == old(self).spec_events().len() + 1,
            final(self).spec_events().drop_last() == old(self).spec_events(),
            final(self).spec_events().last().language@ == language@,
            final(self).spec_events().last().failed == failed,
            final(self).spec_enabled() == old(self).spec_enabled(),
            final(self).spec_servers_joined() == old(self).spec_servers_joined(),
            final(self).spec_servers_left() == old(self).spec_servers_left(),
            final(self).spec_posted_servers() == old(self).spec_posted_servers(),
    {
        let ev = StatsEvent { language: String::from_str(language), failed };
        self.events.push(ev);
    }

    /// Records one guild join.
    pub fn new_server(&mut self)
        requires
            old(self).spec_servers_joined() < u64::MAX,
        ensures
            final(self).spec_servers_joined() == old(self).spec_servers_joined() + 1,
            final(self).spec_enabled() == old(self).spec_enabled(),
            final(self).spec_events() == old(self).spec_events(),
            final(self).spec_servers_left() == old(self).spec_servers_left(),
            final(self).spec_posted_servers() == old(self).spec_posted_servers(),
    {
        self.servers_joined = self.servers_joined + 1;
    }

    /// Records one guild leave.
    pub fn leave_server(&mut self)
        requires
            old(self).spec_servers_left() < u64::MAX,
        ensures
            final(self).spec_servers_left() == old(self).spec_servers_left() + 1,
            final(self).spec_enabled() == old(self).spec_enabled(),
            final(self).spec_events() == old(self).spec_events(),
            final(self).spec_servers_joined() == old(self).spec_servers_joined(),
            final(self).spec_posted_servers() == old(self).spec_posted_servers(),
    {
        self.servers_left = self.servers_left + 1;
    }

    /// The compilation events recorded so far, oldest first.
    pub fn events(&self) -> (r: &Vec<StatsEvent>)
        ensures
            r@ == self.spec_events(),
    {
        &self.events
    }

    /// How many guild joins were recorded.
    pub fn servers_joined(&self) -> (r: u64)
        ensures
            r == self.spec_servers_joined(),
    {
        self.servers_joined
    }

    /// How many guild leaves were recorded.
    pub fn servers_left(&self) -> (r: u64)
        ensures
            r == self.spec_servers_left(),
    {
        self.servers_left
    }

    /// The fleet total last published at readiness, if any.
    pub fn posted_servers(&self) -> (r: Option<u64>)
        ensures
            r == self.spec_posted_servers(),
    {
        self.posted_servers
    }

    /// Records the fleet-wide guild total published at readiness.
    pub fn post_servers(&mut self, sum: u64)
        ensures
            final(self).spec_posted_servers() == Some(sum),
            final(self).spec_enabled() == old(self).spec_enabled(),
            final(self).spec_events() == old(self).spec_events(),
            final(self).spec_servers_joined() == old(self).spec_servers_joined(),
            final(self).spec_servers_left() == old(self).spec_servers_left(),
    {
        self.posted_servers = Some(sum);
    }
}

/// One telemetry post naming a bot command that ran.
pub struct CommandRequest {
    pub key: String,
    pub command: String,
}

impl CommandRequest {
    pub fn new(command: &str) -> (r: CommandRequest)
        ensures
            r.key@ == Seq::<char>::empty(),
            r.command@ == command@,
    {
        CommandRequest { key: String::new(), command: String::from_str(command) }
    }

    /// The telemetry path this request is posted to.
    pub fn endpoint(&self) -> (e: &str)
        ensures
            e@ == "/insert/command"@,
    {
        "/insert/command"
    }

    pub fn set_key(&mut self, key: &str)
        ensures
            final(self).key@ == key@,
            final(self).command == old(self).command,
    {
        self.key = String::from_str(key);
    }
}

/// One telemetry post naming a language that was compiled, and whether
/// the run failed.
pub struct LanguageRequest {
    pub key: String,
    pub language: String,
    pub fail: bool,
}

impl LanguageRequest {
    pub fn new(language: &str, fail: bool) -> (r: LanguageRequest)
        ensures
            r.key@ == Seq::<char>::empty(),
            r.language@ == language@,
            r.fail == fail,
    {
        LanguageRequest { key: String::new(), language: String::from_str(language), fail }
    }

    /// The telemetry path this request is posted to.
    pub fn endpoint(&self) -> (e: &str)
        ensures
            e@ == "/insert/language"@,
    {
        "/insert/language"
    }

    pub fn set_key(&mut self, key: &str)
        ensures
            final(self).key@ == key@,
            final(self).language == old(self).language,
            final(self).fail == old(self).fail,
    {
        self.key = String::from_str(key);
    }
}

/// One legacy-format telemetry post: a server-count update when an amount
/// is given, a bare request ping otherwise.
pub struct LegacyRequest {
    pub key: String,
    pub request_type: String,
    pub amount: Option<usize>,
}

impl LegacyRequest {
    pub fn new(amount: Option<usize>) -> (r: LegacyRequest)
        ensures
            r.key@ == Seq::<char>::empty(),
            r.amount == amount,
            amount is Some ==> r.request_type@ == "servers"@,
            amount is None ==> r.request_type@ == "request"@,
    {
        let request_type = if amount.is_some() {
            String::from_str("servers")
        } else {
            String::from_str("request")
        };
        LegacyRequest { key: String::new(), request_type, amount }
    }

    /// The telemetry path this request is posted to.
    pub fn endpoint(&self) -> (e: &str)
        ensures
            e@ == "/insert/legacy"@,
    {
        "/insert/legacy"
    }

    pub fn set_key(&mut self, key: &str)
        ensures
            final(self).key@ == key@,
            final(self).request_type == old(self).request_type,
            final(self).amount == old(self).amount,
    {
        self.key = String::from_str(key);
    }
}

} // verus!
