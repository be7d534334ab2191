use std::collections::HashMap;

use grafted::runloop::{
    common_modes_mode_name, default_mode_name, mode_name_from_bytes, modal_panel_mode_name,
    observers_to_notify, run_finished, tracking_mode_name, ui_tracking_mode_name, ItemKind,
    PassAction, PassEvent, RunLoop, RunPass, K_CF_RUNLOOP_AFTER_WAITING,
    K_CF_RUNLOOP_BEFORE_SOURCES, K_CF_RUNLOOP_BEFORE_TIMERS, K_CF_RUNLOOP_BEFORE_WAITING,
    K_CF_RUNLOOP_ENTRY, K_CF_RUNLOOP_EXIT, K_CF_RUNLOOP_RUN_FINISHED,
    K_CF_RUNLOOP_RUN_HANDLED_SOURCE, K_CF_RUNLOOP_RUN_STOPPED, K_CF_RUNLOOP_RUN_TIMED_OUT,
};

/// What the objects behind the handles do when a pass runs.
#[derive(Default)]
struct World {
    signaled: HashMap<u64, bool>,
    due: HashMap<u64, bool>,
    masks: HashMap<u64, u64>,
    performed: Vec<u64>,
    fired_timers: Vec<u64>,
    heard: Vec<u64>,
    stop_on_wait: bool,
}

/// Runs one pass through `mode`, as the framework's run-in-mode entry point does.
fn run_in_mode(rl: &mut RunLoop, w: &mut World, mode: &String, return_after_source: bool) -> i32 {
    if !rl.begin_run(mode) {
        return K_CF_RUNLOOP_RUN_STOPPED;
    }
    let mut pass = RunPass::new(return_after_source);
    let mut ev = PassEvent::Ack;
    let mut sources: Vec<u64> = Vec::new();
    let mut timers: Vec<u64> = Vec::new();
    loop {
        match pass.step(ev) {
            PassAction::Notify(activity) => {
                let observers: Vec<(u64, u64)> = rl
                    .registered(ItemKind::Observer, mode)
                    .iter()
                    .map(|h| (*h, *w.masks.get(h).unwrap_or(&0)))
                    .collect();
                for _ in observers_to_notify(&observers, activity) {
                    w.heard.push(activity);
                }
                ev = PassEvent::Ack;
            }
            PassAction::ListSources => {
                sources = rl.registered(ItemKind::Source, mode);
                ev = PassEvent::Count(sources.len());
            }
            PassAction::CheckSource(i) => {
                let h = sources[i];
                let on = *w.signaled.get(&h).unwrap_or(&false);
                if on {
                    w.signaled.insert(h, false);
                    w.performed.push(h);
                }
                ev = PassEvent::Fired(on);
            }
            PassAction::ListTimers => {
                timers = rl.registered(ItemKind::Timer, mode);
                ev = PassEvent::Count(timers.len());
            }
            PassAction::CheckTimer(i) => {
                let h = timers[i];
                let due = *w.due.get(&h).unwrap_or(&false);
                if due {
                    w.due.insert(h, false);
                    w.fired_timers.push(h);
                }
                ev = PassEvent::Fired(due);
            }
            PassAction::Wait => {
                if w.stop_on_wait {
                    rl.stop();
                }
                ev = PassEvent::Ack;
            }
            PassAction::TakeStop => {
                ev = PassEvent::Stopped(rl.take_stop());
            }
            PassAction::Return(code) => {
                rl.leave_mode();
                return code;
            }
        }
    }
}

fn signaled_source(w: &mut World, h: u64) {
    w.signaled.insert(h, true);
}

#[test]
fn source_in_default_mode_does_not_fire_in_tracking_mode() {
    let mut rl = RunLoop::new();
    let mut w = World::default();
    let src = 0x1000;
    rl.add_item(ItemKind::Source, src, &default_mode_name());
    signaled_source(&mut w, src);
    run_in_mode(&mut rl, &mut w, &tracking_mode_name(), true);
    assert_eq!(w.performed.len(), 0,
        "source registered in default mode should NOT fire when running in tracking mode");
}

#[test]
fn source_in_common_modes_fires_in_tracking_mode() {
    let mut rl = RunLoop::new();
    let mut w = World::default();
    let src = 0x1000;
    rl.add_item(ItemKind::Source, src, &common_modes_mode_name());
    signaled_source(&mut w, src);
    run_in_mode(&mut rl, &mut w, &tracking_mode_name(), true);
    assert_eq!(w.performed.len(), 1,
        "source registered in common modes SHOULD fire when running in tracking mode");
}

#[test]
fn source_in_tracking_mode_only_fires_there() {
    let mut rl = RunLoop::new();
    let mut w = World::default();
    let src = 0x1000;
    rl.add_item(ItemKind::Source, src, &tracking_mode_name());
    signaled_source(&mut w, src);
    run_in_mode(&mut rl, &mut w, &default_mode_name(), true);
    assert_eq!(w.performed.len(), 0,
        "source registered only in tracking mode should NOT fire in default mode");

    w.performed.clear();
    signaled_source(&mut w, src);
    run_in_mode(&mut rl, &mut w, &tracking_mode_name(), true);
    assert_eq!(w.performed.len(), 1,
        "source registered in tracking mode SHOULD fire when running in tracking mode");
}

#[test]
fn observers_fire_in_entry_before_waiting_exit_order() {
    let mut rl = RunLoop::new();
    let mut w = World::default();
    let obs = 0x2000;
    w.masks.insert(obs, K_CF_RUNLOOP_ENTRY | K_CF_RUNLOOP_BEFORE_WAITING | K_CF_RUNLOOP_EXIT);
    rl.add_item(ItemKind::Observer, obs, &default_mode_name());
    run_in_mode(&mut rl, &mut w, &default_mode_name(), false);
    let log = w.heard.clone();
    assert!(!log.is_empty(), "observers must have fired at least once");
    assert_eq!(log[0], K_CF_RUNLOOP_ENTRY, "entry observer must fire first");
    assert_eq!(*log.last().unwrap(), K_CF_RUNLOOP_EXIT, "exit observer must fire last");
    assert!(log.contains(&K_CF_RUNLOOP_BEFORE_WAITING),
        "before-waiting observer must fire during wait");
}

#[test]
fn current_mode_reports_entered_mode() {
    let mut rl = RunLoop::new();
    assert_eq!(rl.current_mode(), default_mode_name());
    rl.add_common_mode(&modal_panel_mode_name());
    assert_eq!(rl.current_mode(), default_mode_name());
}

#[test]
fn current_mode_follows_the_stack() {
    let mut rl = RunLoop::new();
    assert!(rl.begin_run(&tracking_mode_name()));
    assert_eq!(rl.current_mode(), tracking_mode_name());
    assert!(rl.begin_run(&ui_tracking_mode_name()));
    assert_eq!(rl.current_mode(), ui_tracking_mode_name());
    assert!(rl.begin_run(&"MyPrivateMode".to_string()));
    assert_eq!(rl.current_mode(), default_mode_name());
    rl.leave_mode();
    assert_eq!(rl.current_mode(), ui_tracking_mode_name());
    rl.leave_mode();
    rl.leave_mode();
    assert_eq!(rl.current_mode(), default_mode_name());
    rl.leave_mode();
    assert_eq!(rl.current_mode(), default_mode_name());
}

#[test]
fn add_then_contains_and_remove_then_not() {
    let mut rl = RunLoop::new();
    let d = default_mode_name();
    let t = tracking_mode_name();
    let c = common_modes_mode_name();
    assert!(!rl.contains_item(ItemKind::Timer, 7, &d));
    rl.add_item(ItemKind::Timer, 7, &d);
    assert!(rl.contains_item(ItemKind::Timer, 7, &d));
    assert!(!rl.contains_item(ItemKind::Timer, 7, &t));
    assert!(rl.contains_item(ItemKind::Timer, 7, &c));
    assert!(!rl.contains_item(ItemKind::Source, 7, &d));
    rl.remove_item(ItemKind::Timer, 7, &d);
    assert!(!rl.contains_item(ItemKind::Timer, 7, &d));
    assert!(!rl.contains_item(ItemKind::Timer, 7, &c));
}

#[test]
fn common_registration_reaches_every_common_mode() {
    let mut rl = RunLoop::new();
    let c = common_modes_mode_name();
    rl.add_common_mode(&modal_panel_mode_name());
    rl.add_item(ItemKind::Source, 9, &c);
    assert_eq!(rl.registered(ItemKind::Source, &default_mode_name()), vec![9]);
    assert_eq!(rl.registered(ItemKind::Source, &tracking_mode_name()), vec![9]);
    assert_eq!(rl.registered(ItemKind::Source, &modal_panel_mode_name()), vec![9]);
    assert_eq!(rl.registered(ItemKind::Source, &ui_tracking_mode_name()), Vec::<u64>::new());
    rl.remove_item(ItemKind::Source, 9, &c);
    assert_eq!(rl.registered(ItemKind::Source, &modal_panel_mode_name()), Vec::<u64>::new());
    assert_eq!(rl.registered(ItemKind::Source, &default_mode_name()), Vec::<u64>::new());
}

#[test]
fn registering_twice_lists_once() {
    let mut rl = RunLoop::new();
    let d = default_mode_name();
    rl.add_item(ItemKind::Observer, 3, &d);
    rl.add_item(ItemKind::Observer, 4, &d);
    rl.add_item(ItemKind::Observer, 3, &d);
    rl.add_item(ItemKind::Observer, 3, &common_modes_mode_name());
    assert_eq!(rl.registered(ItemKind::Observer, &d), vec![3, 4]);
    assert_eq!(rl.registered(ItemKind::Observer, &tracking_mode_name()), vec![3]);
}

#[test]
fn stop_before_a_pass_is_taken_without_entering() {
    let mut rl = RunLoop::new();
    let mut w = World::default();
    rl.stop();
    assert_eq!(run_in_mode(&mut rl, &mut w, &default_mode_name(), false), K_CF_RUNLOOP_RUN_STOPPED);
    assert_eq!(rl.current_mode(), default_mode_name());
    assert!(w.heard.is_empty());
    assert_eq!(run_in_mode(&mut rl, &mut w, &default_mode_name(), false), K_CF_RUNLOOP_RUN_TIMED_OUT);
}

#[test]
fn stop_during_a_pass_ends_it_stopped() {
    let mut rl = RunLoop::new();
    let mut w = World::default();
    w.stop_on_wait = true;
    assert_eq!(run_in_mode(&mut rl, &mut w, &default_mode_name(), false), K_CF_RUNLOOP_RUN_STOPPED);
    w.stop_on_wait = false;
    assert_eq!(run_in_mode(&mut rl, &mut w, &default_mode_name(), false), K_CF_RUNLOOP_RUN_TIMED_OUT);
}

#[test]
fn pass_returns_after_first_source_when_asked() {
    let mut rl = RunLoop::new();
    let mut w = World::default();
    let d = default_mode_name();
    rl.add_item(ItemKind::Source, 1, &d);
    rl.add_item(ItemKind::Source, 2, &d);
    signaled_source(&mut w, 1);
    signaled_source(&mut w, 2);
    assert_eq!(run_in_mode(&mut rl, &mut w, &d, true), K_CF_RUNLOOP_RUN_HANDLED_SOURCE);
    assert_eq!(w.performed, vec![1]);
    assert_eq!(run_in_mode(&mut rl, &mut w, &d, false), K_CF_RUNLOOP_RUN_TIMED_OUT);
    assert_eq!(w.performed, vec![1, 2]);
}

#[test]
fn pass_returns_after_first_due_timer_when_asked() {
    let mut rl = RunLoop::new();
    let mut w = World::default();
    let d = default_mode_name();
    rl.add_item(ItemKind::Timer, 5, &d);
    rl.add_item(ItemKind::Timer, 6, &d);
    w.due.insert(6, true);
    assert_eq!(run_in_mode(&mut rl, &mut w, &d, true), K_CF_RUNLOOP_RUN_HANDLED_SOURCE);
    assert_eq!(w.fired_timers, vec![6]);
}

#[test]
fn observers_hear_every_stage_in_order() {
    let mut rl = RunLoop::new();
    let mut w = World::default();
    let d = default_mode_name();
    w.masks.insert(8, u64::MAX);
    rl.add_item(ItemKind::Observer, 8, &d);
    assert_eq!(run_in_mode(&mut rl, &mut w, &d, false), K_CF_RUNLOOP_RUN_TIMED_OUT);
    assert_eq!(
        w.heard,
        vec![
            K_CF_RUNLOOP_ENTRY,
            K_CF_RUNLOOP_BEFORE_SOURCES,
            K_CF_RUNLOOP_BEFORE_TIMERS,
            K_CF_RUNLOOP_BEFORE_WAITING,
            K_CF_RUNLOOP_AFTER_WAITING,
            K_CF_RUNLOOP_EXIT,
        ]
    );
}

#[test]
fn pass_step_by_step() {
    let mut p = RunPass::new(false);
    assert_eq!(p.step(PassEvent::Ack), PassAction::Notify(K_CF_RUNLOOP_ENTRY));
    assert_eq!(p.step(PassEvent::Ack), PassAction::ListSources);
    assert_eq!(p.step(PassEvent::Count(2)), PassAction::Notify(K_CF_RUNLOOP_BEFORE_SOURCES));
    assert_eq!(p.step(PassEvent::Ack), PassAction::CheckSource(0));
    assert_eq!(p.step(PassEvent::Fired(true)), PassAction::CheckSource(1));
    assert_eq!(p.step(PassEvent::Fired(false)), PassAction::ListTimers);
    assert_eq!(p.step(PassEvent::Count(0)), PassAction::Notify(K_CF_RUNLOOP_BEFORE_TIMERS));
    assert_eq!(p.step(PassEvent::Ack), PassAction::Notify(K_CF_RUNLOOP_BEFORE_WAITING));
    assert_eq!(p.step(PassEvent::Ack), PassAction::Wait);
    assert_eq!(p.step(PassEvent::Ack), PassAction::Notify(K_CF_RUNLOOP_AFTER_WAITING));
    assert_eq!(p.step(PassEvent::Ack), PassAction::TakeStop);
    assert_eq!(p.step(PassEvent::Stopped(true)), PassAction::Notify(K_CF_RUNLOOP_EXIT));
    assert_eq!(p.step(PassEvent::Ack), PassAction::Return(K_CF_RUNLOOP_RUN_STOPPED));
    assert_eq!(p.step(PassEvent::Ack), PassAction::Return(K_CF_RUNLOOP_RUN_STOPPED));
}

#[test]
fn observer_masks_select_who_hears() {
    let obs = vec![(1u64, K_CF_RUNLOOP_ENTRY), (2, K_CF_RUNLOOP_EXIT | K_CF_RUNLOOP_ENTRY), (3, 0)];
    assert_eq!(observers_to_notify(&obs, K_CF_RUNLOOP_ENTRY), vec![1, 2]);
    assert_eq!(observers_to_notify(&obs, K_CF_RUNLOOP_EXIT), vec![2]);
    assert_eq!(observers_to_notify(&obs, K_CF_RUNLOOP_BEFORE_WAITING), Vec::<u64>::new());
}

#[test]
fn run_ends_on_stopped_or_finished() {
    assert!(run_finished(K_CF_RUNLOOP_RUN_STOPPED));
    assert!(run_finished(K_CF_RUNLOOP_RUN_FINISHED));
    assert!(!run_finished(K_CF_RUNLOOP_RUN_TIMED_OUT));
    assert!(!run_finished(K_CF_RUNLOOP_RUN_HANDLED_SOURCE));
}

#[test]
fn mode_names_from_bytes() {
    assert_eq!(mode_name_from_bytes(b"kCFRunLoopDefaultMode\0"), default_mode_name());
    assert_eq!(mode_name_from_bytes(b"NSEventTrackingRunLoopMode\0junk"), tracking_mode_name());
    assert_eq!(mode_name_from_bytes(b"My Mode"), "My Mode".to_string());
    assert_eq!(mode_name_from_bytes(b""), default_mode_name());
    assert_eq!(mode_name_from_bytes(b"\0abc"), default_mode_name());
    assert_eq!(mode_name_from_bytes(b"bad\x01name\0"), default_mode_name());
    let long = vec![b'a'; 70];
    assert_eq!(mode_name_from_bytes(&long), "a".repeat(64));
}
