//! What holds of the engine over whole sequences of events.
use crate::runner::{
    decode_record, is_known_tag, pend_taps, run_buffer, run_events, step, taps_on_release,
    DeviceEvent, EVENT_SIZE,
};
use crate::state::{held_used, key_wf, mark_held_used, state_wf, StateView};
use vstd::prelude::*;

verus! {

/// `count` presses of `key`, each followed at once by its release.
pub open spec fn press_release_pairs(key: u8, count: nat) -> Seq<DeviceEvent>
    decreases count,
{
    if count == 0 {
        Seq::empty()
    } else {
        seq![DeviceEvent::KeyPress(key), DeviceEvent::KeyRelease(key)] + press_release_pairs(
            key,
            (count - 1) as nat,
        )
    }
}

/// No remapped key is held.
pub open spec fn none_held(s: StateView) -> bool {
    forall|k: u8| #[trigger] s.keys.contains_key(k) ==> !s.keys[k].pressed
}

proof fn lemma_pend_taps_len(p: Seq<u8>, taps: Seq<u8>)
    requires
        p.len() == 256,
    ensures
        pend_taps(p, taps).len() == 256,
    decreases taps.len(),
{
    if taps.len() > 0 {
        lemma_pend_taps_len(p, taps.drop_last());
    }
}

/// Every event keeps the state well formed: in particular a key counts as
/// used only while it is held.
pub proof fn lemma_step_wf(s: StateView, ev: DeviceEvent)
    requires
        state_wf(s),
    ensures
        state_wf(step(s, ev).0),
{
    let s1 = step(s, ev).0;
    match ev {
        DeviceEvent::KeyRelease(k) => {
            if s.pending[k as int] == 0 {
                lemma_pend_taps_len(s.pending, taps_on_release(s.keys, k));
            }
        },
        _ => {},
    }
    assert forall|k: u8| #[trigger] s1.keys.contains_key(k) implies key_wf(s1.keys[k]) by {
        assert(s.keys.contains_key(k));
        assert(key_wf(s.keys[k]));
    }
}

/// Running two sequences one after the other is running their concatenation.
pub proof fn lemma_run_concat(s: StateView, a: Seq<DeviceEvent>, b: Seq<DeviceEvent>)
    ensures
        run_events(s, a + b) == (
            run_events(run_events(s, a).0, b).0,
            run_events(s, a).1 + run_events(run_events(s, a).0, b).1,
        ),
    decreases a.len(),
{
    if a.len() == 0 {
        assert(a + b =~= b);
        assert(run_events(s, a).1 + run_events(s, b).1 =~= run_events(s, b).1);
    } else {
        let s1 = step(s, a[0]).0;
        let t1 = step(s, a[0]).1;
        assert((a + b).drop_first() =~= a.drop_first() + b);
        assert((a + b)[0] == a[0]);
        lemma_run_concat(s1, a.drop_first(), b);
        let mid = run_events(s1, a.drop_first());
        let last = run_events(mid.0, b);
        assert(t1 + (mid.1 + last.1) =~= (t1 + mid.1) + last.1);
    }
}

proof fn lemma_run_empty(s: StateView, evs: Seq<DeviceEvent>)
    requires
        evs.len() == 0,
    ensures
        run_events(s, evs) == (s, Seq::<u8>::empty()),
{
}

proof fn lemma_run_cons(s: StateView, evs: Seq<DeviceEvent>)
    requires
        evs.len() > 0,
    ensures
        run_events(s, evs) == (
            run_events(step(s, evs[0]).0, evs.drop_first()).0,
            step(s, evs[0]).1 + run_events(step(s, evs[0]).0, evs.drop_first()).1,
        ),
{
}

proof fn lemma_run_one(s: StateView, e0: DeviceEvent)
    ensures
        run_events(s, seq![e0]) == step(s, e0),
{
    let evs = seq![e0];
    lemma_run_cons(s, evs);
    lemma_run_empty(step(s, e0).0, evs.drop_first());
    assert(step(s, e0).1 + Seq::<u8>::empty() =~= step(s, e0).1);
}

proof fn lemma_run_two(s: StateView, e0: DeviceEvent, e1: DeviceEvent)
    ensures
        run_events(s, seq![e0, e1]) == (
            step(step(s, e0).0, e1).0,
            step(s, e0).1 + step(step(s, e0).0, e1).1,
        ),
{
    let evs = seq![e0, e1];
    lemma_run_cons(s, evs);
    assert(evs.drop_first() =~= seq![e1]);
    lemma_run_one(step(s, e0).0, e1);
}

proof fn lemma_run_three(s: StateView, e0: DeviceEvent, e1: DeviceEvent, e2: DeviceEvent)
    ensures
        run_events(s, seq![e0, e1, e2]) == (
            step(step(step(s, e0).0, e1).0, e2).0,
            step(s, e0).1 + step(step(s, e0).0, e1).1 + step(step(step(s, e0).0, e1).0, e2).1,
        ),
{
    let evs = seq![e0, e1, e2];
    lemma_run_cons(s, evs);
    assert(evs.drop_first() =~= seq![e1, e2]);
    let s1 = step(s, e0).0;
    lemma_run_two(s1, e1, e2);
    let a = step(s, e0).1;
    let b = step(s1, e1).1;
    let c = step(step(s1, e1).0, e2).1;
    assert(a + (b + c) =~= a + b + c);
}

/// A remapped key pressed and released with nothing in between taps its
/// replacement keys, all of them and in order, unless it was already held
/// and used before that press.
pub proof fn lemma_lone_press_taps(s: StateView, key: u8)
    requires
        state_wf(s),
        s.keys.contains_key(key),
        !s.keys[key].used,
        s.pending[key as int] == 0,
    ensures
        run_events(s, seq![DeviceEvent::KeyPress(key), DeviceEvent::KeyRelease(key)]).1
            == s.keys[key].fake_keys,
{
    lemma_run_two(s, DeviceEvent::KeyPress(key), DeviceEvent::KeyRelease(key));
    let s1 = step(s, DeviceEvent::KeyPress(key)).0;
    assert(s1.keys[key].pressed && !s1.keys[key].used);
    assert(Seq::<u8>::empty() + s.keys[key].fake_keys =~= s.keys[key].fake_keys);
}

/// A remapped key pressed, then any other key pressed, then the first key
/// released, taps nothing.
pub proof fn lemma_other_key_cancels_tap(s: StateView, key: u8, other: u8)
    requires
        state_wf(s),
        s.keys.contains_key(key),
        other != key,
        s.pending[key as int] == 0,
        s.pending[other as int] == 0,
    ensures
        run_events(
            s,
            seq![
                DeviceEvent::KeyPress(key),
                DeviceEvent::KeyPress(other),
                DeviceEvent::KeyRelease(key),
            ],
        ).1 == Seq::<u8>::empty(),
{
    let e0 = DeviceEvent::KeyPress(key);
    let e1 = DeviceEvent::KeyPress(other);
    let e2 = DeviceEvent::KeyRelease(key);
    lemma_run_three(s, e0, e1, e2);
    let s1 = step(s, e0).0;
    let s2 = step(s1, e1).0;
    assert(s1.keys[key].pressed);
    assert(mark_held_used(s1.keys)[key] == held_used(s1.keys[key]));
    assert(s2.keys[key].used);
    assert(Seq::<u8>::empty() + Seq::<u8>::empty() + Seq::<u8>::empty() =~= Seq::<u8>::empty());
}

/// A remapped key pressed, then a mouse button pressed, then the key
/// released, taps nothing.
pub proof fn lemma_button_cancels_tap(s: StateView, key: u8, button: u8)
    requires
        state_wf(s),
        s.keys.contains_key(key),
        s.pending[key as int] == 0,
    ensures
        run_events(
            s,
            seq![
                DeviceEvent::KeyPress(key),
                DeviceEvent::ButtonPress(button),
                DeviceEvent::KeyRelease(key),
            ],
        ).1 == Seq::<u8>::empty(),
{
    let e0 = DeviceEvent::KeyPress(key);
    let e1 = DeviceEvent::ButtonPress(button);
    let e2 = DeviceEvent::KeyRelease(key);
    lemma_run_three(s, e0, e1, e2);
    let s1 = step(s, e0).0;
    let s2 = step(s1, e1).0;
    assert(s1.keys[key].pressed);
    assert(mark_held_used(s1.keys)[key] == held_used(s1.keys[key]));
    assert(s2.keys[key].used);
    assert(Seq::<u8>::empty() + Seq::<u8>::empty() + Seq::<u8>::empty() =~= Seq::<u8>::empty());
}

/// Releasing a key that is not held, or not remapped, taps nothing and
/// leaves every remapped key as it was.
pub proof fn lemma_release_without_press(s: StateView, key: u8)
    requires
        state_wf(s),
        !s.keys.contains_key(key) || !s.keys[key].pressed,
    ensures
        step(s, DeviceEvent::KeyRelease(key)).1 == Seq::<u8>::empty(),
        step(s, DeviceEvent::KeyRelease(key)).0.keys == s.keys,
        step(s, DeviceEvent::KeyRelease(key)).0.mouse == s.mouse,
        state_wf(step(s, DeviceEvent::KeyRelease(key)).0),
{
    lemma_step_wf(s, DeviceEvent::KeyRelease(key));
    if s.keys.contains_key(key) {
        assert(key_wf(s.keys[key]));
    }
    assert(step(s, DeviceEvent::KeyRelease(key)).0.keys =~= s.keys);
}

/// Pressing and releasing a key that is not remapped, any number of times
/// while no remapped key is held, taps nothing and changes no remapped key.
pub proof fn lemma_unmapped_presses_inert(s: StateView, key: u8, count: nat)
    requires
        state_wf(s),
        !s.keys.contains_key(key),
        none_held(s),
    ensures
        run_events(s, press_release_pairs(key, count)).1 == Seq::<u8>::empty(),
        run_events(s, press_release_pairs(key, count)).0.keys == s.keys,
    decreases count,
{
    if count > 0 {
        let pair = seq![DeviceEvent::KeyPress(key), DeviceEvent::KeyRelease(key)];
        let rest = press_release_pairs(key, (count - 1) as nat);
        lemma_run_concat(s, pair, rest);
        lemma_run_two(s, DeviceEvent::KeyPress(key), DeviceEvent::KeyRelease(key));
        let s1 = step(s, DeviceEvent::KeyPress(key)).0;
        assert(s1.keys =~= s.keys);
        lemma_step_wf(s, DeviceEvent::KeyPress(key));
        let s2 = step(s1, DeviceEvent::KeyRelease(key)).0;
        assert(s2.keys =~= s.keys);
        lemma_step_wf(s1, DeviceEvent::KeyRelease(key));
        lemma_unmapped_presses_inert(s2, key, (count - 1) as nat);
        assert(Seq::<u8>::empty() + Seq::<u8>::empty() + Seq::<u8>::empty() =~= Seq::<u8>::empty());
    } else {
        assert(press_release_pairs(key, count) =~= Seq::<DeviceEvent>::empty());
    }
}

/// A record of an event type that the engine does not act on is skipped:
/// the records after it are decoded as if it were not there.
pub proof fn lemma_unknown_record_skipped(s: StateView, data: Seq<u8>)
    requires
        data.len() >= EVENT_SIZE,
        !is_known_tag(data[0]),
    ensures
        run_buffer(s, data) == run_buffer(s, data.subrange(EVENT_SIZE as int, data.len() as int)),
{
    assert(decode_record(data) == DeviceEvent::Other(data[0]));
    let rest = data.subrange(EVENT_SIZE as int, data.len() as int);
    match run_buffer(s, rest) {
        Some((s2, t2)) => {
            assert(Seq::<u8>::empty() + t2 =~= t2);
        },
        None => {},
    }
}

} // verus!
