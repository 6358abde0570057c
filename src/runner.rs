use crate::error::XcapeError;
use crate::state::{
    bump, keys_after_press, KeyView, keys_after_release, mark_held_used, State, StateView,
};
use vstd::prelude::*;
use x11rb::errors::ParseError;
use x11rb::protocol::xproto;
use x11rb::x11_utils::TryParse;

verus! {

/// Event type codes of the core protocol that the engine reads.
pub const KEY_PRESS_EVENT: u8 = 2;
pub const KEY_RELEASE_EVENT: u8 = 3;
pub const BUTTON_PRESS_EVENT: u8 = 4;
pub const BUTTON_RELEASE_EVENT: u8 = 5;
pub const MOTION_NOTIFY_EVENT: u8 = 6;

/// Every core event record is this many bytes long.
pub const EVENT_SIZE: usize = 32;

/// Reply categories of the record extension.
pub const RECORD_FROM_SERVER: u8 = 0;
pub const START_OF_DATA: u8 = 4;

#[verifier::external_type_specification]
#[verifier::external_body]
pub struct ExParseError(ParseError);

/// One device event, as far as the engine cares.
#[derive(Debug, Clone, Copy, PartialEq, Eq, Structural)]
pub enum DeviceEvent {
    KeyPress(u8),
    KeyRelease(u8),
    ButtonPress(u8),
    ButtonRelease(u8),
    /// Any other event type, by its type code.
    Other(u8),
}

/// The event that a record of at least `EVENT_SIZE` bytes holds: its type
/// code is the first byte, its keycode or button the second.
pub open spec fn decode_record(data: Seq<u8>) -> DeviceEvent {
    if data[0] == KEY_PRESS_EVENT {
        DeviceEvent::KeyPress(data[1])
    } else if data[0] == KEY_RELEASE_EVENT {
        DeviceEvent::KeyRelease(data[1])
    } else if data[0] == BUTTON_PRESS_EVENT {
        DeviceEvent::ButtonPress(data[1])
    } else if data[0] == BUTTON_RELEASE_EVENT {
        DeviceEvent::ButtonRelease(data[1])
    } else {
        DeviceEvent::Other(data[0])
    }
}

/// Whether the engine acts on records of type code `tag`.
pub open spec fn is_known_tag(tag: u8) -> bool {
    KEY_PRESS_EVENT <= tag <= BUTTON_RELEASE_EVENT
}

/// The keys that a release of `key` taps: its replacements if it was held
/// and not used, else none.
pub open spec fn taps_on_release(keys: Map<u8, KeyView>, key: u8) -> Seq<u8> {
    if keys.contains_key(key) && keys[key].pressed && !keys[key].used {
        keys[key].fake_keys
    } else {
        Seq::empty()
    }
}

/// Two generated events, a press and a release, to come back for each tapped key.
pub open spec fn pend_taps(pending: Seq<u8>, taps: Seq<u8>) -> Seq<u8>
    decreases taps.len(),
{
    if taps.len() == 0 {
        pending
    } else {
        let before = pend_taps(pending, taps.drop_last());
        bump(bump(before, taps.last()), taps.last())
    }
}

/// A key event that the engine generated itself comes back: it is counted off and otherwise ignored.
pub open spec fn consume_generated(s: StateView, key: u8) -> StateView {
    StateView {
        pending: s.pending.update(key as int, (s.pending[key as int] - 1) as u8),
        ..s
    }
}

/// The state after one event, and the keys to tap because of it, in order.
pub open spec fn step(s: StateView, ev: DeviceEvent) -> (StateView, Seq<u8>) {
    match ev {
        DeviceEvent::KeyPress(k) => if s.pending[k as int] > 0 {
            (consume_generated(s, k), Seq::empty())
        } else {
            (StateView { keys: keys_after_press(s.keys, k), ..s }, Seq::empty())
        },
        DeviceEvent::KeyRelease(k) => if s.pending[k as int] > 0 {
            (consume_generated(s, k), Seq::empty())
        } else {
            let taps = taps_on_release(s.keys, k);
            (
                StateView {
                    keys: keys_after_release(s.keys, k),
                    mouse: s.mouse,
                    pending: pend_taps(s.pending, taps),
                },
                taps,
            )
        },
        DeviceEvent::ButtonPress(_) => (
            StateView { keys: mark_held_used(s.keys), mouse: true, pending: s.pending },
            Seq::empty(),
        ),
        DeviceEvent::ButtonRelease(_) => (StateView { mouse: false, ..s }, Seq::empty()),
        DeviceEvent::Other(_) => (s, Seq::empty()),
    }
}

/// The state after a sequence of events, and all keys tapped on the way.
pub open spec fn run_events(s: StateView, evs: Seq<DeviceEvent>) -> (StateView, Seq<u8>)
    decreases evs.len(),
{
    if evs.len() == 0 {
        (s, Seq::empty())
    } else {
        let (s1, t1) = step(s, evs[0]);
        let (s2, t2) = run_events(s1, evs.drop_first());
        (s2, t1 + t2)
    }
}

/// The state after every record of a reply's data, and all keys tapped on
/// the way; `None` where a record is cut short.
pub open spec fn run_buffer(s: StateView, data: Seq<u8>) -> Option<(StateView, Seq<u8>)>
    decreases data.len(),
{
    if data.len() == 0 {
        Some((s, Seq::empty()))
    } else if data.len() < EVENT_SIZE {
        None
    } else {
        let (s1, t1) = step(s, decode_record(data));
        match run_buffer(s1, data.subrange(EVENT_SIZE as int, data.len() as int)) {
            Some((s2, t2)) => Some((s2, t1 + t2)),
            None => None,
        }
    }
}

/// Relies on x11rb's `KeyPressEvent::try_parse` (`KeyReleaseEvent` is the
/// same type): it succeeds exactly on at least 32 bytes, the keycode is the
/// second byte, and what follows starts 32 bytes in.
#[verifier::external_body]
fn parse_key_event(data: &[u8]) -> (r: Result<(u8, &[u8]), ParseError>)
    ensures
        match r {
            Ok((detail, rest)) => data@.len() >= 32 && detail == data@[1] && rest@
                == data@.subrange(32, data@.len() as int),
            Err(_) => data@.len() < 32,
        },
{
    xproto::KeyPressEvent::try_parse(data).map(|(event, rest)| (event.detail, rest))
}

/// Relies on x11rb's `ButtonPressEvent::try_parse` (`ButtonReleaseEvent` is
/// the same type): it succeeds exactly on at least 32 bytes, the button is
/// the second byte, and what follows starts 32 bytes in.
#[verifier::external_body]
fn parse_button_event(data: &[u8]) -> (r: Result<(u8, &[u8]), ParseError>)
    ensures
        match r {
            Ok((detail, rest)) => data@.len() >= 32 && detail == data@[1] && rest@
                == data@.subrange(32, data@.len() as int),
            Err(_) => data@.len() < 32,
        },
{
    xproto::ButtonPressEvent::try_parse(data).map(|(event, rest)| (event.detail, rest))
}

/// Reads the record at the start of `data` and returns its event and the
/// data after it. A record shorter than `EVENT_SIZE` bytes is malformed.
pub fn decode_event(data: &[u8]) -> (r: Result<(DeviceEvent, &[u8]), XcapeError>)
    requires
        data@.len() > 0,
    ensures
        data@.len() >= EVENT_SIZE <==> r is Ok,
        match r {
            Ok((ev, rest)) => ev == decode_record(data@) && rest@ == data@.subrange(
                EVENT_SIZE as int,
                data@.len() as int,
            ),
            Err(e) => e == (XcapeError::MalformedEventRecord {
                tag: data@[0],
                available: data@.len() as usize,
            }),
        },
{
    let tag = data[0];
    let malformed = XcapeError::MalformedEventRecord { tag, available: data.len() };
    if tag == KEY_PRESS_EVENT || tag == KEY_RELEASE_EVENT {
        match parse_key_event(data) {
            Ok((key, rest)) => {
                let ev = if tag == KEY_PRESS_EVENT {
                    DeviceEvent::KeyPress(key)
                } else {
                    DeviceEvent::KeyRelease(key)
                };
                Ok((ev, rest))
            },
            Err(_) => Err(malformed),
        }
    } else if tag == BUTTON_PRESS_EVENT || tag == BUTTON_RELEASE_EVENT {
        match parse_button_event(data) {
            Ok((button, rest)) => {
                let ev = if tag == BUTTON_PRESS_EVENT {
                    DeviceEvent::ButtonPress(button)
                } else {
                    DeviceEvent::ButtonRelease(button)
                };
                Ok((ev, rest))
            },
            Err(_) => Err(malformed),
        }
    } else if data.len() < EVENT_SIZE {
        Err(malformed)
    } else {
        let (_, rest) = data.split_at(EVENT_SIZE);
        Ok((DeviceEvent::Other(tag), rest))
    }
}

/// Applies one event to the state and returns the keys to tap because of
/// it, in order. A tapped key is counted as two generated events to come
/// back, its press and its release, which are then ignored.
pub fn handle_event(state: &mut State, ev: DeviceEvent) -> (taps: Vec<u8>)
    requires
        old(state).wf(),
    ensures
        final(state).wf(),
        (final(state)@, taps@) == step(old(state)@, ev),
{
    match ev {
        DeviceEvent::KeyPress(key) => {
            if state.check_and_unmark_auto_generated_key(key).is_ok() {
                return Vec::new();
            }
            let _ = state.press_key(key);
            Vec::new()
        },
        DeviceEvent::KeyRelease(key) => {
            if state.check_and_unmark_auto_generated_key(key).is_ok() {
                return Vec::new();
            }
            let ghost before = state@;
            let taps: Vec<u8> = match state.release_key(key) {
                Ok((true, false)) => match state.key_state(key) {
                    Some(ks) => {
                        let fake = ks.fake_keys.clone();
                        assert(fake@ =~= ks.fake_keys@);
                        fake
                    },
                    None => Vec::new(),
                },
                _ => Vec::new(),
            };
            assert(taps@ =~= taps_on_release(before.keys, key));
            let mut i: usize = 0;
            while i < taps.len()
                invariant
                    i <= taps@.len(),
                    state.wf(),
                    state@.keys == keys_after_release(before.keys, key),
                    state@.mouse == before.mouse,
                    state@.pending == pend_taps(before.pending, taps@.take(i as int)),
                decreases taps@.len() - i,
            {
                state.mark_auto_generated_key(taps[i]);
                state.mark_auto_generated_key(taps[i]);
                assert(taps@.take(i + 1).drop_last() =~= taps@.take(i as int));
                i = i + 1;
            }
            assert(taps@.take(taps@.len() as int) =~= taps@);
            taps
        },
        DeviceEvent::ButtonPress(_) => {
            state.press_mouse();
            Vec::new()
        },
        DeviceEvent::ButtonRelease(_) => {
            state.release_mouse();
            Vec::new()
        },
        DeviceEvent::Other(_) => Vec::new(),
    }
}

/// Reads the record at the start of `data`, applies its event to the
/// state, and returns the data after it and the keys to tap, in order.
/// The caller taps those keys before it reads the next record; calling it
/// again on what is left, as long as something is, follows `run_buffer`.
pub fn intercept<'a>(state: &mut State, data: &'a [u8]) -> (r: Result<
    (&'a [u8], Vec<u8>),
    XcapeError,
>)
    requires
        old(state).wf(),
        data@.len() > 0,
    ensures
        final(state).wf(),
        data@.len() >= EVENT_SIZE <==> r is Ok,
        match r {
            Ok((rest, taps)) => rest@ == data@.subrange(EVENT_SIZE as int, data@.len() as int) && (
            final(state)@, taps@) == step(old(state)@, decode_record(data@)),
            Err(e) => e == (XcapeError::MalformedEventRecord {
                tag: data@[0],
                available: data@.len() as usize,
            }) && final(state)@ == old(state)@,
        },
        match r {
            Ok((rest, taps)) => run_buffer(old(state)@, data@) == match run_buffer(
                final(state)@,
                rest@,
            ) {
                Some((s2, t2)) => Some((s2, taps@ + t2)),
                None => None::<(StateView, Seq<u8>)>,
            },
            Err(_) => run_buffer(old(state)@, data@) is None,
        },
{
    let (ev, rest) = decode_event(data)?;
    let taps = handle_event(state, ev);
    Ok((rest, taps))
}

/// What to do with one reply of an enabled record context.
#[derive(Debug, Clone, Copy, PartialEq, Eq, Structural)]
pub enum ReplyAction {
    /// Device data: decode its records.
    Process,
    /// Data from a client of the other byte order, which is not supported: skip it.
    SkipSwapped,
    /// The marker that data starts: nothing to do.
    StartOfData,
    /// A category that carries no device data: skip it.
    Unsupported,
}

/// Decides what to do with a reply from its byte-order flag and category.
pub fn classify_reply(client_swapped: bool, category: u8) -> (r: ReplyAction)
    ensures
        r == (if client_swapped {
            ReplyAction::SkipSwapped
        } else if category == RECORD_FROM_SERVER {
            ReplyAction::Process
        } else if category == START_OF_DATA {
            ReplyAction::StartOfData
        } else {
            ReplyAction::Unsupported
        }),
{
    if client_swapped {
        ReplyAction::SkipSwapped
    } else if category == RECORD_FROM_SERVER {
        ReplyAction::Process
    } else if category == START_OF_DATA {
        ReplyAction::StartOfData
    } else {
        ReplyAction::Unsupported
    }
}

} // verus!
