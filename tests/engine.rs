use std::collections::HashMap;
use xcape::context::{Context, Mode};
use xcape::error::XcapeError;
use xcape::runner::{
    classify_reply, decode_event, handle_event, intercept, DeviceEvent, ReplyAction,
    BUTTON_PRESS_EVENT, BUTTON_RELEASE_EVENT, EVENT_SIZE, KEY_PRESS_EVENT, KEY_RELEASE_EVENT,
    MOTION_NOTIFY_EVENT,
};
use xcape::state::{NoUpdateReason, State};
use xcape::xutil::{RecordConf, XUtil};

fn state_of(pairs: &[(u8, Vec<u8>)]) -> State {
    let mut map = HashMap::new();
    for (k, v) in pairs {
        map.insert(*k, v.clone());
    }
    State::new(&Context::new(false, None, map))
}

fn record(tag: u8, detail: u8) -> Vec<u8> {
    let mut r = vec![0u8; EVENT_SIZE];
    r[0] = tag;
    r[1] = detail;
    r
}

fn press(k: u8) -> Vec<u8> {
    record(KEY_PRESS_EVENT, k)
}

fn release(k: u8) -> Vec<u8> {
    record(KEY_RELEASE_EVENT, k)
}

/// Feeds a reply's data record by record and collects the keys tapped.
fn feed(state: &mut State, records: &[Vec<u8>]) -> Vec<u8> {
    let data: Vec<u8> = records.concat();
    let mut rest: &[u8] = &data;
    let mut tapped = Vec::new();
    while !rest.is_empty() {
        let (next, taps) = intercept(state, rest).unwrap();
        tapped.extend(taps);
        rest = next;
    }
    tapped
}

fn flags(state: &State, k: u8) -> (bool, bool) {
    let ks = state.key_state(k).unwrap();
    (ks.is_pressed, ks.will_be_used_as_modifier)
}

#[test]
fn single_substitute_tap() {
    let mut s = state_of(&[(64, vec![66])]);
    assert_eq!(feed(&mut s, &[press(64), release(64)]), vec![66]);
}

#[test]
fn other_key_during_hold_taps_nothing() {
    let mut s = state_of(&[(64, vec![66])]);
    assert_eq!(
        feed(&mut s, &[press(64), press(38), release(64), release(38)]),
        Vec::<u8>::new()
    );
}

#[test]
fn two_step_substitute_tap() {
    let mut s = state_of(&[(64, vec![9, 23])]);
    assert_eq!(feed(&mut s, &[press(64), release(64)]), vec![9, 23]);
}

#[test]
fn lone_tap_taps_each_replacement_in_order() {
    let mut s = state_of(&[(37, vec![9]), (50, vec![1, 2, 3]), (0, vec![255, 254])]);
    assert_eq!(feed(&mut s, &[press(50), release(50)]), vec![1, 2, 3]);
    assert_eq!(feed(&mut s, &[press(0), release(0)]), vec![255, 254]);
    assert_eq!(feed(&mut s, &[press(37), release(37)]), vec![9]);
}

#[test]
fn empty_replacement_suppresses_tap() {
    let mut s = state_of(&[(64, vec![])]);
    assert_eq!(feed(&mut s, &[press(64), release(64)]), Vec::<u8>::new());
    assert_eq!(flags(&s, 64), (false, false));
}

#[test]
fn other_remapped_key_during_hold_taps_nothing() {
    let mut s = state_of(&[(64, vec![66]), (37, vec![9])]);
    assert_eq!(
        feed(&mut s, &[press(64), press(37), release(64)]),
        Vec::<u8>::new()
    );
    // the second key was pressed alone after the first: it is a tap
    assert_eq!(feed(&mut s, &[release(37)]), vec![9]);
}

#[test]
fn button_during_hold_taps_nothing() {
    let mut s = state_of(&[(64, vec![66])]);
    assert_eq!(
        feed(
            &mut s,
            &[press(64), record(BUTTON_PRESS_EVENT, 1), release(64)]
        ),
        Vec::<u8>::new()
    );
    assert!(s.get_is_mouse_pressed());
    feed(&mut s, &[record(BUTTON_RELEASE_EVENT, 1)]);
    assert!(!s.get_is_mouse_pressed());
    assert_eq!(feed(&mut s, &[press(64), release(64)]), vec![66]);
}

#[test]
fn release_without_press_taps_nothing() {
    let mut s = state_of(&[(64, vec![66]), (37, vec![9])]);
    feed(&mut s, &[press(37)]);
    assert_eq!(feed(&mut s, &[release(64), release(99)]), Vec::<u8>::new());
    assert_eq!(flags(&s, 64), (false, false));
    assert_eq!(flags(&s, 37), (true, false));
    assert_eq!(feed(&mut s, &[release(37)]), vec![9]);
}

#[test]
fn unmapped_presses_are_inert() {
    let mut s = state_of(&[(64, vec![66])]);
    for _ in 0..5 {
        assert_eq!(feed(&mut s, &[press(38), release(38)]), Vec::<u8>::new());
        assert_eq!(flags(&s, 64), (false, false));
    }
    assert!(s.key_state(38).is_none());
}

#[test]
fn unknown_records_are_skipped() {
    let mut s = state_of(&[(64, vec![66])]);
    let tapped = feed(
        &mut s,
        &[
            record(MOTION_NOTIFY_EVENT, 0),
            record(0, 64),
            press(64),
            record(1, 0),
            record(255, 38),
            release(64),
            record(7, 7),
        ],
    );
    assert_eq!(tapped, vec![66]);
}

#[test]
fn short_record_is_malformed() {
    let mut s = state_of(&[(64, vec![66])]);
    let data = vec![KEY_PRESS_EVENT, 64, 0, 0, 0, 0, 0, 0, 0, 0];
    match intercept(&mut s, &data) {
        Err(XcapeError::MalformedEventRecord { tag, available }) => {
            assert_eq!((tag, available), (KEY_PRESS_EVENT, 10));
        }
        other => panic!("unexpected {:?}", other.map(|(_, t)| t)),
    }
    assert_eq!(flags(&s, 64), (false, false));
    let short_unknown = vec![9u8; 31];
    assert!(matches!(
        intercept(&mut s, &short_unknown),
        Err(XcapeError::MalformedEventRecord { tag: 9, available: 31 })
    ));
    let short_button = vec![BUTTON_PRESS_EVENT; 20];
    assert!(intercept(&mut s, &short_button).is_err());
    assert!(!s.get_is_mouse_pressed());
}

#[test]
fn generated_events_are_not_taken_for_the_user() {
    // the replacement of 64 is itself a remapped key
    let mut s = state_of(&[(64, vec![37]), (37, vec![9])]);
    assert_eq!(feed(&mut s, &[press(64), release(64)]), vec![37]);
    // the generated press and release of 37 come back and are ignored
    assert_eq!(feed(&mut s, &[press(37), release(37)]), Vec::<u8>::new());
    assert_eq!(flags(&s, 37), (false, false));
    // a real tap of 37 afterwards is a tap
    assert_eq!(feed(&mut s, &[press(37), release(37)]), vec![9]);
}

#[test]
fn generated_key_counter() {
    let mut s = state_of(&[]);
    assert_eq!(
        s.check_and_unmark_auto_generated_key(5),
        Err(NoUpdateReason::NoRemappedKey)
    );
    s.mark_auto_generated_key(5);
    s.mark_auto_generated_key(5);
    assert_eq!(s.check_and_unmark_auto_generated_key(5), Ok(2));
    assert_eq!(s.check_and_unmark_auto_generated_key(5), Ok(1));
    assert!(s.check_and_unmark_auto_generated_key(5).is_err());
    for _ in 0..300 {
        s.mark_auto_generated_key(255);
    }
    assert_eq!(s.check_and_unmark_auto_generated_key(255), Ok(255));
}

#[test]
fn press_and_release_results() {
    let mut s = state_of(&[(64, vec![66]), (37, vec![9])]);
    assert_eq!(s.press_key(64), Ok(false));
    assert_eq!(flags(&s, 64), (true, false));
    assert_eq!(s.press_key(38), Err(NoUpdateReason::NoRemappedKey));
    assert_eq!(flags(&s, 64), (true, true));
    assert_eq!(flags(&s, 37), (false, false));
    assert_eq!(s.press_key(64), Ok(true));
    assert_eq!(s.release_key(64), Ok((true, true)));
    assert_eq!(s.release_key(64), Ok((false, false)));
    assert_eq!(s.release_key(38), Err(NoUpdateReason::NoRemappedKey));
    assert_eq!(s.press_key(37), Ok(false));
    s.press_mouse();
    assert_eq!(flags(&s, 37), (true, true));
    s.release_mouse();
    assert_eq!(flags(&s, 37), (true, true));
    assert!(!s.get_is_mouse_pressed());
}

#[test]
fn marking_held_keys_used() {
    let mut s = state_of(&[(64, vec![66]), (37, vec![9])]);
    assert_eq!(s.press_key(64), Ok(false));
    s.update_all_remapped_mod_keys_to_in_used();
    assert_eq!(flags(&s, 64), (true, true));
    assert_eq!(flags(&s, 37), (false, false));
}

#[test]
fn new_state_from_context() {
    let s = state_of(&[(64, vec![66, 67]), (0, vec![])]);
    assert_eq!(s.key_state(64).unwrap().fake_keys, vec![66, 67]);
    assert_eq!(s.key_state(0).unwrap().fake_keys, Vec::<u8>::new());
    assert!(s.key_state(1).is_none());
    assert_eq!(flags(&s, 64), (false, false));
    assert!(!s.get_is_mouse_pressed());
}

#[test]
fn handle_event_directly() {
    let mut s = state_of(&[(64, vec![66])]);
    assert!(handle_event(&mut s, DeviceEvent::KeyPress(64)).is_empty());
    assert!(handle_event(&mut s, DeviceEvent::Other(6)).is_empty());
    assert_eq!(handle_event(&mut s, DeviceEvent::KeyRelease(64)), vec![66]);
}

#[test]
fn decode_records() {
    let r = press(64);
    let (ev, rest) = decode_event(&r).unwrap();
    assert_eq!(ev, DeviceEvent::KeyPress(64));
    assert!(rest.is_empty());
    let mut two = release(10);
    two.extend(record(BUTTON_PRESS_EVENT, 3));
    let (ev, rest) = decode_event(&two).unwrap();
    assert_eq!(ev, DeviceEvent::KeyRelease(10));
    assert_eq!(rest.len(), EVENT_SIZE);
    assert_eq!(decode_event(rest).unwrap().0, DeviceEvent::ButtonPress(3));
    assert_eq!(
        decode_event(&record(BUTTON_RELEASE_EVENT, 2)).unwrap().0,
        DeviceEvent::ButtonRelease(2)
    );
    assert_eq!(decode_event(&record(6, 2)).unwrap().0, DeviceEvent::Other(6));
}

#[test]
fn reply_categories() {
    assert_eq!(classify_reply(false, 0), ReplyAction::Process);
    assert_eq!(classify_reply(false, 4), ReplyAction::StartOfData);
    assert_eq!(classify_reply(false, 1), ReplyAction::Unsupported);
    assert_eq!(classify_reply(false, 5), ReplyAction::Unsupported);
    assert_eq!(classify_reply(true, 0), ReplyAction::SkipSwapped);
}

#[test]
fn extension_checks() {
    assert!(XUtil::check_extensions(true, true).is_ok());
    match XUtil::check_extensions(false, true) {
        Err(XcapeError::XConnectionInitError(m)) => assert_eq!(m, "xrecord is not supported"),
        _ => panic!("record extension should be reported"),
    }
    match XUtil::check_extensions(true, false) {
        Err(XcapeError::XConnectionInitError(m)) => assert_eq!(m, "xtest is not supported"),
        _ => panic!("test extension should be reported"),
    }
    assert!(XUtil::check_extensions(false, false).is_err());
}

#[test]
fn record_filter_selects_device_events() {
    let r = RecordConf::new().range;
    assert_eq!((r.device_events.first, r.device_events.last), (2, 6));
    assert_eq!((r.core_requests.first, r.core_requests.last), (0, 0));
    assert_eq!((r.core_replies.first, r.core_replies.last), (0, 0));
    assert_eq!((r.delivered_events.first, r.delivered_events.last), (0, 0));
    assert_eq!((r.errors.first, r.errors.last), (0, 0));
    assert_eq!(r.ext_requests.minor.last, 0);
    assert_eq!(r.ext_replies.major.last, 0);
    assert!(!r.client_started && !r.client_died);
}

#[test]
fn context_mode() {
    let c = Context::new(true, Some(1), HashMap::new());
    assert!(c.is_debug_mode());
    assert_eq!(c.mode, Mode::DEBUG);
    assert_eq!(c.timeout_sec, Some(1));
    let c = Context::new(false, None, HashMap::new());
    assert!(!c.is_debug_mode());
    assert_eq!(c.mode, Mode::NORMAL);
}

#[test]
fn repeated_press_of_held_key_keeps_tap() {
    let mut s = state_of(&[(64, vec![66]), (37, vec![9])]);
    assert_eq!(s.press_key(64), Ok(false));
    assert_eq!(s.press_key(64), Ok(true));
    assert_eq!(flags(&s, 64), (true, false));
    assert_eq!(
        feed(&mut s, &[press(64), press(64), release(64)]),
        vec![66]
    );
    // pressing 64 while 37 is held uses 37; its repeats do not use 64 itself
    assert_eq!(
        feed(&mut s, &[press(37), press(64), press(64), release(37)]),
        Vec::<u8>::new()
    );
    assert_eq!(flags(&s, 64), (true, false));
    assert_eq!(feed(&mut s, &[release(64)]), vec![66]);
}
