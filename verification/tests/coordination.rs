use cef_coord::bus::{ChatBus, Waiter};
use cef_coord::query::{
    collect_names, query_command_chars, resolve_peers, version_tag, NotifyOnce, QueryMatcher,
    RosterEntry,
};
use cef_coord::registry::{aggregate_teardown, ContentSource, EntityRegistry};
use cef_coord::sched::{QueryGuard, Scheduler, TaskState};
use cef_coord::text::{join_with, split_sub, strip_color};
use cef_coord::theme::{select_backend, theme_url_decision, ThemeMatcher, ThemeState};
use cef_coord::CoordError;

fn cv(s: &str) -> Vec<char> {
    s.chars().collect()
}

fn sv(v: &[char]) -> String {
    v.iter().collect()
}

// ---- chat line bus ----

#[test]
fn bus_delivers_in_arrival_order_to_every_waiter() {
    let mut bus = ChatBus::new();
    let mut w1 = Waiter::begin(&bus);
    bus.deliver(cv("first"));
    let mut w2 = Waiter::begin(&bus);
    bus.deliver(cv("second"));
    bus.deliver(cv("third"));

    // w1 sees everything after it began, in order, exactly once
    assert_eq!(sv(&w1.poll(&bus).unwrap()), "first");
    assert_eq!(sv(&w1.poll(&bus).unwrap()), "second");
    assert_eq!(sv(&w1.poll(&bus).unwrap()), "third");
    assert!(w1.poll(&bus).is_none());

    // w2 began later: no replay of "first"
    assert_eq!(sv(&w2.poll(&bus).unwrap()), "second");
    assert_eq!(sv(&w2.poll(&bus).unwrap()), "third");
    assert!(w2.poll(&bus).is_none());
}

// ---- scheduler ----

#[test]
fn spawn_is_not_synchronous_and_sleep_sets_the_wake_tick() {
    let mut s = Scheduler::new();
    let id = s.spawn();
    assert!(matches!(s.state_of(id), TaskState::Pending { wake_at: 0 }));
    assert!(s.runnable(id));
    s.sleep(id, 100);
    assert!(!s.runnable(id));
    for _ in 0..100 {
        s.advance();
    }
    assert!(s.runnable(id));
}

#[test]
fn timeout_returns_the_inner_result_when_it_completes_first() {
    let mut s = Scheduler::new();
    let id = s.spawn();
    let deadline = s.now() + 50;
    assert!(s.poll_timeout(id, deadline).is_none());
    s.complete(id);
    assert!(matches!(s.poll_timeout(id, deadline), Some(Ok(()))));
}

#[test]
fn timeout_cancels_the_inner_task_when_the_deadline_expires() {
    let mut s = Scheduler::new();
    let id = s.spawn();
    let deadline = s.now() + 2;
    s.advance();
    s.advance();
    match s.poll_timeout(id, deadline) {
        Some(Err(CoordError::Timeout)) => {}
        other => panic!("expected a timeout, got {:?}", other),
    }
    assert!(matches!(s.state_of(id), TaskState::Cancelled));
}

#[test]
fn cancellation_leaves_a_completed_task_alone() {
    let mut s = Scheduler::new();
    let id = s.spawn();
    s.complete(id);
    s.cancel(id);
    assert!(matches!(s.state_of(id), TaskState::Completed));
}

// ---- query matcher ----

#[test]
fn query_times_out_when_no_response_starts_within_the_window() {
    // no response line observed within the start window: the matcher fails
    // with Timeout and nothing is collected, so no peer event can follow
    let m = QueryMatcher::start(0);
    let (m, consumed) = m.on_line(&cv("some unrelated chatter"), 1000);
    assert!(!consumed);
    let m = m.on_tick(3000);
    match m {
        QueryMatcher::Done { outcome: Err(CoordError::Timeout) } => {}
        other => panic!("expected a timeout, got {:?}", other),
    }
}

#[test]
fn query_collects_response_lines_and_space_joins_continuations() {
    let m = QueryMatcher::start(0);
    let (m, consumed) = m.on_line(&cv("&ePlayers using:"), 10);
    assert!(consumed);
    let (m, consumed) = m.on_line(&cv("X: &fAlice,"), 20);
    assert!(consumed);
    // interleaved unrelated chat must not abort collection
    let (m, consumed) = m.on_line(&cv("hello everyone"), 25);
    assert!(!consumed);
    let (m, consumed) = m.on_line(&cv("Y: &fCarol"), 30);
    assert!(consumed);
    let m = m.on_tick(3010);
    match m {
        QueryMatcher::Done { outcome: Ok(lines) } => {
            let lines: Vec<String> = lines.iter().map(|l| sv(l)).collect();
            assert_eq!(lines, vec!["X: &fAlice,", "Y: &fCarol"]);
        }
        other => panic!("expected collected lines, got {:?}", other),
    }
}

#[test]
fn query_continuation_is_joined_with_a_space() {
    let m = QueryMatcher::start(0);
    let (m, _) = m.on_line(&cv("players using:"), 10);
    let (m, _) = m.on_line(&cv("X: &fAlice,"), 20);
    let (m, consumed) = m.on_line(&cv("> &fBob"), 30);
    assert!(consumed);
    let m = m.on_tick(9999);
    match m {
        QueryMatcher::Done { outcome: Ok(lines) } => {
            assert_eq!(lines.len(), 1);
            assert_eq!(sv(&lines[0]), "X: &fAlice, Bob");
        }
        other => panic!("expected collected lines, got {:?}", other),
    }
}

#[test]
fn names_are_unioned_only_from_tagged_lines() {
    // X carries the expected tag, Y does not: the name set is {Alice, Bob}
    let lines = vec![cv("X: &fAlice, Bob"), cv("Y: &fCarol")];
    let names = collect_names(&lines, &cv("X")).unwrap();
    let mut names: Vec<String> = names.iter().map(|n| sv(n)).collect();
    names.sort();
    assert_eq!(names, vec!["Alice", "Bob"]);
}

#[test]
fn names_are_deduplicated_across_lines() {
    let lines = vec![cv("X: &fAlice, Bob"), cv("X: &fBob, Carol")];
    let names = collect_names(&lines, &cv("X")).unwrap();
    let mut names: Vec<String> = names.iter().map(|n| sv(n)).collect();
    names.sort();
    assert_eq!(names, vec!["Alice", "Bob", "Carol"]);
}

#[test]
fn a_line_without_the_delimiter_is_a_parse_failure() {
    let lines = vec![cv("X: &fAlice"), cv("no delimiter here")];
    match collect_names(&lines, &cv("X")) {
        Err(CoordError::ParseFailure) => {}
        other => panic!("expected a parse failure, got {:?}", other),
    }
}

#[test]
fn color_codes_are_stripped_before_tag_and_name_matching() {
    let lines = vec![cv("&e  ClassiCube 1.1.3 +cef0.5.6: &f&cAlice, Bo&bb")];
    let names = collect_names(&lines, &cv("cef0.5.")).unwrap();
    let mut names: Vec<String> = names.iter().map(|n| sv(n)).collect();
    names.sort();
    assert_eq!(names, vec!["Alice", "Bob"]);
}

#[test]
fn version_tag_keeps_the_first_two_segments() {
    assert_eq!(sv(&version_tag(&cv("cef0.13.2-alpha.0"))), "cef0.13.");
    assert_eq!(sv(&version_tag(&cv("cef0.5"))), "cef0.5.");
    assert_eq!(sv(&version_tag(&cv("cef0"))), "cef0.");
}

#[test]
fn roster_resolution_drops_unresolved_names_and_the_local_player() {
    let roster = vec![
        RosterEntry { id: 1, nick: cv("Alice"), real_name: Some(cv("AliceReal")) },
        RosterEntry { id: 2, nick: cv("Bob"), real_name: None },
        RosterEntry { id: 7, nick: cv("Dan"), real_name: Some(cv("DanReal")) },
    ];
    let names = vec![cv("Alice"), cv("Bob"), cv("Ghost"), cv("Dan")];

    let peers = resolve_peers(&names, &roster, 7);
    let peers: Vec<(u8, String)> = peers.iter().map(|p| (p.0, sv(&p.1))).collect();
    // Bob has no real name, Ghost has no roster entry, Dan is the local player
    assert_eq!(peers, vec![(1, "AliceReal".to_string())]);

    let peers = resolve_peers(&names, &roster, 9);
    let peers: Vec<(u8, String)> = peers.iter().map(|p| (p.0, sv(&p.1))).collect();
    assert_eq!(peers, vec![(1, "AliceReal".to_string()), (7, "DanReal".to_string())]);
}

#[test]
fn the_outbound_command_is_fixed() {
    assert_eq!(sv(&query_command_chars()), "/clients");
}

#[test]
fn the_notification_fires_exactly_once() {
    let mut once = NotifyOnce::new();
    assert!(once.fire());
    assert!(!once.fire());
    assert!(!once.fire());
}

// ---- query guard ----

#[test]
fn a_new_query_supersedes_the_running_one() {
    let mut s = Scheduler::new();
    let mut guard = QueryGuard::new();
    let first = guard.begin(&mut s);
    assert!(matches!(s.state_of(first), TaskState::Pending { .. }));
    assert_eq!(guard.current(), Some(first));

    let second = guard.begin(&mut s);
    assert_ne!(first, second);
    // the prior run is cancelled; exactly one query run is pending
    assert!(matches!(s.state_of(first), TaskState::Cancelled));
    assert!(matches!(s.state_of(second), TaskState::Pending { .. }));
    assert_eq!(guard.current(), Some(second));

    guard.clear();
    assert_eq!(guard.current(), None);
}

// ---- theme matcher ----

#[test]
fn a_theme_announcement_with_a_youtube_url_builds_a_youtube_entity() {
    let m = ThemeMatcher::new();
    let (m, out) = m.on_line(&cv("Map theme: https://youtu.be/abc123"), 0);
    assert!(out.is_none());
    let (_, out) = m.on_tick(1000);
    let msg = out.expect("the window closes on its deadline");
    assert_eq!(sv(&msg), "Map theme: https://youtu.be/abc123");

    let url = theme_url_decision(&msg, true).unwrap().expect("autoplay is on");
    assert_eq!(sv(&url), "https://youtu.be/abc123");

    let source = select_backend(None, None, 700).unwrap();
    assert_eq!(source, ContentSource::Youtube { volume: 700 });

    let mut reg = EntityRegistry::new();
    let mut state = ThemeState::new();
    let id = apply(&mut reg, &mut state, source);
    let entity = reg.get(id).unwrap();
    assert_eq!(entity.source, ContentSource::Youtube { volume: 700 });
    assert!(!entity.send_to_others);
    assert!(entity.global_volume);
    assert_eq!(entity.scale_milli, 0);
    assert_eq!(entity.frame_rate, 1);
    assert_eq!(entity.resolution, Some((1, 1)));
}

fn apply(reg: &mut EntityRegistry, state: &mut ThemeState, source: ContentSource) -> usize {
    cef_coord::theme::apply_theme(reg, state, source).expect("the theme entity exists")
}

#[test]
fn a_second_announcement_updates_the_same_entity_until_a_new_map() {
    let mut reg = EntityRegistry::new();
    let mut state = ThemeState::new();

    let first = apply(&mut reg, &mut state, ContentSource::Youtube { volume: 700 });
    assert_eq!(reg.len(), 1);

    // same map: the existing entity is updated in place
    let second = apply(&mut reg, &mut state, ContentSource::Media { volume: 300 });
    assert_eq!(second, first);
    assert_eq!(reg.len(), 1);
    assert_eq!(reg.get(first).unwrap().source, ContentSource::Media { volume: 300 });

    // new map: a fresh entity is created
    state.on_new_map_loaded();
    let third = apply(&mut reg, &mut state, ContentSource::Youtube { volume: 700 });
    assert_ne!(third, first);
    assert_eq!(reg.len(), 2);
}

#[test]
fn theme_reassembly_concatenates_continuations_without_separator() {
    // the same announcement split at different boundaries reassembles to the
    // same message
    let m = ThemeMatcher::new();
    let (m, _) = m.on_line(&cv("Map theme: https://youtu"), 0);
    let (m, out) = m.on_line(&cv("> &f.be/abc123"), 10);
    assert!(out.is_none());
    let (_, out) = m.on_tick(1000);
    let two_fragments = sv(&out.unwrap());

    let m = ThemeMatcher::new();
    let (m, _) = m.on_line(&cv("Map theme: https://youtu.be/abc123"), 0);
    let (_, out) = m.on_tick(1000);
    let one_fragment = sv(&out.unwrap());

    assert_eq!(two_fragments, one_fragment);
    assert_eq!(two_fragments, "Map theme: https://youtu.be/abc123");
}

#[test]
fn a_non_continuation_line_closes_the_theme_window_at_once() {
    let m = ThemeMatcher::new();
    let (m, _) = m.on_line(&cv("map theme song: http://example.com/a.mp3"), 0);
    let (m, out) = m.on_line(&cv("somebody: hi"), 5);
    let msg = out.expect("any other line closes the window");
    assert_eq!(sv(&msg), "map theme song: http://example.com/a.mp3");
    // and the matcher is back to waiting for announcements
    let (_, out) = m.on_line(&cv("> &fleftover"), 6);
    assert!(out.is_none());
}

#[test]
fn autoplay_off_ignores_the_announcement() {
    let out = theme_url_decision(&cv("Map theme: https://youtu.be/abc123"), false).unwrap();
    assert!(out.is_none());
}

#[test]
fn an_announcement_without_a_url_is_a_parse_failure() {
    match theme_url_decision(&cv("Map theme: none today"), true) {
        Err(CoordError::ParseFailure) => {}
        other => panic!("expected a parse failure, got {:?}", other),
    }
}

#[test]
fn both_backends_rejecting_is_an_aggregate_error() {
    match select_backend(Some(cv("not a video id")), Some(cv("unknown container")), 500) {
        Err(CoordError::BackendConstruction { youtube, media }) => {
            assert_eq!(sv(&youtube), "not a video id");
            assert_eq!(sv(&media), "unknown container");
        }
        other => panic!("expected an aggregate backend error, got {:?}", other),
    }
}

#[test]
fn browser_creation_rejects_a_malformed_url() {
    match cef_coord::urls::browser_source(cv("not a url")) {
        Err(CoordError::ParseFailure) => {}
        other => panic!("expected a parse failure, got {:?}", other),
    }
    let src = cef_coord::urls::browser_source(cv("https://www.classicube.net/")).unwrap();
    assert_eq!(src, ContentSource::Browser { url: cv("https://www.classicube.net/") });
}

// ---- entity registry ----

#[test]
fn create_get_update_and_remove() {
    let mut reg = EntityRegistry::new();
    let a = reg.create(ContentSource::Browser { url: cv("https://example.com/") }, 30, None);
    let b = reg.create(ContentSource::Nothing, 30, None);
    assert_ne!(a, b);
    assert_eq!(reg.len(), 2);

    reg.update_source(b, ContentSource::Media { volume: 100 }).unwrap();
    assert_eq!(reg.get(b).unwrap().source, ContentSource::Media { volume: 100 });
    // the other entity is untouched
    assert_eq!(
        reg.get(a).unwrap().source,
        ContentSource::Browser { url: cv("https://example.com/") }
    );

    let removed = reg.remove(a).unwrap();
    assert_eq!(removed.id, a);
    assert_eq!(reg.len(), 1);
    assert!(matches!(reg.get(a), Err(CoordError::NotFound)));
    assert!(matches!(reg.update_source(a, ContentSource::Nothing), Err(CoordError::NotFound)));
}

#[test]
fn remove_all_empties_the_registry_and_failures_aggregate() {
    let mut reg = EntityRegistry::new();
    reg.create(ContentSource::Browser { url: cv("https://example.com/a") }, 30, None);
    reg.create(ContentSource::Browser { url: cv("https://example.com/b") }, 30, None);
    reg.create(ContentSource::Nothing, 30, None);

    let all = reg.remove_all();
    assert_eq!(all.len(), 3);
    // the registry is empty even if individual teardowns fail afterwards
    assert_eq!(reg.len(), 0);

    // two of the three teardowns fail: both are reported together
    let outcomes = vec![Ok(()), Err(CoordError::Timeout), Err(CoordError::NotFound)];
    match aggregate_teardown(outcomes) {
        Err(failures) => {
            assert_eq!(failures.len(), 2);
            assert!(matches!(failures[0], CoordError::Timeout));
            assert!(matches!(failures[1], CoordError::NotFound));
        }
        Ok(()) => panic!("expected an aggregate of the two failures"),
    }
    assert!(aggregate_teardown(vec![Ok(()), Ok(())]).is_ok());

    // an id removed moments earlier is a definite NotFound
    let mut reg = EntityRegistry::new();
    let id = reg.create(ContentSource::Nothing, 30, None);
    reg.remove_all();
    assert!(matches!(reg.get(id), Err(CoordError::NotFound)));
}

#[test]
fn ids_are_not_reused_after_removal() {
    let mut reg = EntityRegistry::new();
    let a = reg.create(ContentSource::Nothing, 30, None);
    reg.remove(a).unwrap();
    let b = reg.create(ContentSource::Nothing, 30, None);
    assert_ne!(a, b);
}

// ---- text utilities ----

#[test]
fn color_escapes_are_stripped_in_pairs() {
    assert_eq!(sv(&strip_color(&cv("&eHello &fWorld"))), "Hello World");
    assert_eq!(sv(&strip_color(&cv("plain"))), "plain");
    assert_eq!(sv(&strip_color(&cv("&c&4m&6a&ep"))), "map");
    // a lone trailing escape is dropped too
    assert_eq!(sv(&strip_color(&cv("end&"))), "end");
}

#[test]
fn empty_inputs_are_handled() {
    assert_eq!(sv(&strip_color(&cv(""))), "");
    let no_lines: Vec<Vec<char>> = Vec::new();
    assert!(collect_names(&no_lines, &cv("X")).unwrap().is_empty());
    let bus = ChatBus::new();
    let mut w = Waiter::begin(&bus);
    assert!(w.poll(&bus).is_none());
}

#[test]
fn a_finished_query_run_ignores_further_lines() {
    let m = QueryMatcher::start(0);
    let m = m.on_tick(3000);
    let (m, consumed) = m.on_line(&cv("players using:"), 3001);
    assert!(!consumed);
    assert!(matches!(m, QueryMatcher::Done { .. }));
}

#[test]
fn splitting_and_joining_are_inverse_on_separated_text() {
    let parts = split_sub(&cv("Alice, Bob, Carol"), &cv(", "));
    let parts_s: Vec<String> = parts.iter().map(|p| sv(p)).collect();
    assert_eq!(parts_s, vec!["Alice", "Bob", "Carol"]);
    assert_eq!(sv(&join_with(&parts, &cv(", "))), "Alice, Bob, Carol");
}
