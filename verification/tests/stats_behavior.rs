use compiler_bot::stats::{CommandRequest, LanguageRequest, LegacyRequest, StatsManager};

#[test]
fn tracking_flag_is_kept() {
    assert!(StatsManager::new(true).should_track());
    assert!(!StatsManager::new(false).should_track());
}

#[test]
fn compilations_are_recorded_in_order() {
    let mut s = StatsManager::new(true);
    s.compilation("C++", false);
    s.compilation("Python", true);
    let events = s.events();
    assert_eq!(events.len(), 2);
    assert_eq!(events[0].language, "C++");
    assert!(!events[0].failed);
    assert_eq!(events[1].language, "Python");
    assert!(events[1].failed);
}

#[test]
fn server_counters_are_additive() {
    let mut s = StatsManager::new(true);
    s.new_server();
    s.new_server();
    s.leave_server();
    assert_eq!(s.servers_joined(), 2);
    assert_eq!(s.servers_left(), 1);
    assert_eq!(s.posted_servers(), None);
    s.post_servers(41);
    assert_eq!(s.posted_servers(), Some(41));
}

#[test]
fn command_request_carries_command_and_key() {
    let mut r = CommandRequest::new("compile");
    assert_eq!(r.command, "compile");
    assert_eq!(r.key, "");
    assert_eq!(r.endpoint(), "/insert/command");
    r.set_key("stats-key");
    assert_eq!(r.key, "stats-key");
    assert_eq!(r.command, "compile");
}

#[test]
fn language_request_carries_language_and_failure() {
    let mut r = LanguageRequest::new("C++", true);
    assert_eq!(r.language, "C++");
    assert!(r.fail);
    assert_eq!(r.endpoint(), "/insert/language");
    r.set_key("k");
    assert_eq!(r.key, "k");
}

#[test]
fn legacy_request_type_depends_on_amount() {
    let servers = LegacyRequest::new(Some(12));
    assert_eq!(servers.request_type, "servers");
    assert_eq!(servers.amount, Some(12));
    let ping = LegacyRequest::new(None);
    assert_eq!(ping.request_type, "request");
    assert_eq!(ping.amount, None);
    assert_eq!(ping.endpoint(), "/insert/legacy");
}
