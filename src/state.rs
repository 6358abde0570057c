use crate::context::Context;
use std::collections::HashMap;
use vstd::prelude::*;

verus! {

broadcast use vstd::std_specs::hash::group_hash_axioms;

/// Why an operation on a keycode changed nothing.
#[derive(Debug, Clone, Copy, PartialEq, Eq, Structural)]
pub enum NoUpdateReason {
    /// The keycode is not one of the remapped keys (or, for the
    /// generated-event counter, no generated event of it is pending).
    NoRemappedKey,
}

/// The run-time state of one remapped key.
pub struct KeyState {
    /// The keycodes tapped, in order, when this key is tapped alone.
    pub fake_keys: Vec<u8>,
    /// Whether the key is held down.
    pub is_pressed: bool,
    /// Whether, while held, the key has been used together with another key or a button.
    pub will_be_used_as_modifier: bool,
}

/// What a remapped key is, mathematically.
pub struct KeyView {
    pub fake_keys: Seq<u8>,
    pub pressed: bool,
    pub used: bool,
}

impl View for KeyState {
    type V = KeyView;

    open spec fn view(&self) -> KeyView {
        KeyView {
            fake_keys: self.fake_keys@,
            pressed: self.is_pressed,
            used: self.will_be_used_as_modifier,
        }
    }
}

impl KeyState {
    fn new(fake_keys: Vec<u8>) -> (r: Self)
        ensures
            r@ == (KeyView { fake_keys: fake_keys@, pressed: false, used: false }),
    {
        KeyState { fake_keys, is_pressed: false, will_be_used_as_modifier: false }
    }
}

/// What the whole run-time state is, mathematically.
pub struct StateView {
    /// The remapped keys; the domain is fixed for the whole run.
    pub keys: Map<u8, KeyView>,
    /// Whether a mouse button is held down.
    pub mouse: bool,
    /// For each keycode, how many events that this engine generated itself
    /// are still to come back through the event stream.
    pub pending: Seq<u8>,
}

/// A key used as a modifier only while it is held.
pub open spec fn key_wf(k: KeyView) -> bool {
    k.used ==> k.pressed
}

pub open spec fn state_wf(s: StateView) -> bool {
    &&& s.pending.len() == 256
    &&& forall|k: u8| #[trigger] s.keys.contains_key(k) ==> key_wf(s.keys[k])
}

/// A held key, once another key or a button is pressed, counts as used.
pub open spec fn held_used(k: KeyView) -> KeyView {
    KeyView { fake_keys: k.fake_keys, pressed: k.pressed, used: k.used || k.pressed }
}

/// Every held key marked as used.
pub open spec fn mark_held_used(keys: Map<u8, KeyView>) -> Map<u8, KeyView> {
    keys.map_values(|k: KeyView| held_used(k))
}

/// The keys after `key` goes down: every other key held before counts as
/// used, and `key`, if it is remapped, is held, its own used flag as it was.
pub open spec fn keys_after_press(keys: Map<u8, KeyView>, key: u8) -> Map<u8, KeyView> {
    let marked = mark_held_used(keys);
    if keys.contains_key(key) {
        marked.insert(
            key,
            KeyView { fake_keys: keys[key].fake_keys, pressed: true, used: keys[key].used },
        )
    } else {
        marked
    }
}

/// The keys after `key` goes up: `key`, if it is remapped, is neither held nor used.
pub open spec fn keys_after_release(keys: Map<u8, KeyView>, key: u8) -> Map<u8, KeyView> {
    if keys.contains_key(key) {
        keys.insert(key, KeyView { fake_keys: keys[key].fake_keys, pressed: false, used: false })
    } else {
        keys
    }
}

/// One more generated event of `key` to come, saturating at 255.
pub open spec fn bump(pending: Seq<u8>, key: u8) -> Seq<u8> {
    if pending[key as int] < 255 {
        pending.update(key as int, (pending[key as int] + 1) as u8)
    } else {
        pending
    }
}

/// The state that a configuration starts a run with.
pub open spec fn initial_keys(key_map: Map<u8, Vec<u8>>) -> Map<u8, KeyView> {
    key_map.map_values(|v: Vec<u8>| KeyView { fake_keys: v@, pressed: false, used: false })
}

/// The run-time state: which remapped keys are held, which of them have
/// been used as modifiers, whether a mouse button is held, and how many
/// generated events of each keycode are still to come back.
pub struct State {
    auto_generated_key_flags: Vec<u8>,
    is_mouse_pressed: bool,
    remapped_key_states: HashMap<u8, KeyState>,
}

impl View for State {
    type V = StateView;

    closed spec fn view(&self) -> StateView {
        StateView {
            keys: self.remapped_key_states@.map_values(|k: KeyState| k@),
            mouse: self.is_mouse_pressed,
            pending: self.auto_generated_key_flags@,
        }
    }
}

impl State {
    pub open spec fn wf(&self) -> bool {
        state_wf(self@)
    }

    /// A state with every key of `ctx.key_map` remapped, none held, no
    /// button held and no generated event pending.
    pub fn new(ctx: &Context) -> (r: Self)
        ensures
            r.wf(),
            r@.keys == initial_keys(ctx.key_map@),
            !r@.mouse,
            r@.pending == Seq::new(256, |i: int| 0u8),
    {
        let mut map: HashMap<u8, KeyState> = HashMap::new();
        let mut k: u16 = 0;
        while k < 256
            invariant
                k <= 256,
                forall|j: u8| #[trigger]
                    map@.contains_key(j) <==> (j < k && ctx.key_map@.contains_key(j)),
                forall|j: u8| #[trigger]
                    map@.contains_key(j) ==> map@[j]@ == (KeyView {
                        fake_keys: ctx.key_map@[j]@,
                        pressed: false,
                        used: false,
                    }),
            decreases 256 - k,
        {
            let key = k as u8;
            match ctx.key_map.get(&key) {
                Some(v) => {
                    let fake = v.clone();
                    assert(fake@ =~= v@);
                    map.insert(key, KeyState::new(fake));
                },
                None => {},
            }
            k = k + 1;
        }
        let flags: Vec<u8> = vec![0u8; 256];
        let r = State { auto_generated_key_flags: flags, is_mouse_pressed: false, remapped_key_states: map };
        assert(r@.keys =~= initial_keys(ctx.key_map@));
        assert(r@.pending =~= Seq::new(256, |i: int| 0u8));
        r
    }

    fn update_is_mouse_pressed(&mut self, is_pressed: bool)
        ensures
            final(self)@ == (StateView { mouse: is_pressed, ..old(self)@ }),
    {
        self.is_mouse_pressed = is_pressed;
    }

    /// Whether a mouse button is held down.
    pub fn get_is_mouse_pressed(&self) -> (r: bool)
        ensures
            r == self@.mouse,
    {
        self.is_mouse_pressed
    }

    /// The state of `key`, if it is remapped.
    pub fn key_state(&self, key: u8) -> (r: Option<&KeyState>)
        ensures
            match r {
                Some(ks) => self@.keys.contains_key(key) && ks@ == self@.keys[key],
                None => !self@.keys.contains_key(key),
            },
    {
        self.remapped_key_states.get(&key)
    }

    /// A mouse button goes down: every held key counts as used.
    pub fn press_mouse(&mut self)
        requires
            old(self).wf(),
        ensures
            final(self).wf(),
            final(self)@ == (StateView {
                keys: mark_held_used(old(self)@.keys),
                mouse: true,
                pending: old(self)@.pending,
            }),
    {
        self.update_is_mouse_pressed(true);
        self.update_all_remapped_mod_keys_to_in_used();
    }

    /// The mouse button goes up.
    pub fn release_mouse(&mut self)
        ensures
            final(self)@ == (StateView { mouse: false, ..old(self)@ }),
    {
        self.update_is_mouse_pressed(false)
    }

    /// Sets whether `key` is held, if it is remapped, and returns whether it was held.
    fn update_key_pressed(&mut self, key: u8, is_pressed: bool) -> (r: Result<bool, NoUpdateReason>)
        requires
            old(self).wf(),
            !is_pressed ==> !old(self)@.keys.contains_key(key) || !old(self)@.keys[key].used,
        ensures
            final(self).wf(),
            final(self)@.mouse == old(self)@.mouse,
            final(self)@.pending == old(self)@.pending,
            match r {
                Ok(was) => old(self)@.keys.contains_key(key) && was == old(self)@.keys[key].pressed
                    && final(self)@.keys == old(self)@.keys.insert(
                    key,
                    KeyView {
                        fake_keys: old(self)@.keys[key].fake_keys,
                        pressed: is_pressed,
                        used: old(self)@.keys[key].used,
                    },
                ),
                Err(e) => e == NoUpdateReason::NoRemappedKey && !old(self)@.keys.contains_key(key)
                    && final(self)@.keys == old(self)@.keys,
            },
    {
        match self.remapped_key_states.remove(&key) {
            Some(mut ks) => {
                let was = ks.is_pressed;
                ks.is_pressed = is_pressed;
                self.remapped_key_states.insert(key, ks);
                proof {
                    let o = old(self)@.keys;
                    assert(self@.keys =~= o.insert(
                        key,
                        KeyView { fake_keys: o[key].fake_keys, pressed: is_pressed, used: o[key].used },
                    ));
                }
                Ok(was)
            },
            None => {
                assert(self.remapped_key_states@ =~= old(self).remapped_key_states@);
                Err(NoUpdateReason::NoRemappedKey)
            },
        }
    }

    /// `key` goes down. Every other remapped key held before counts as used
    /// from now on; `key` itself, if remapped, is held, and a press of it
    /// while held (auto-repeat) does not make it used. Returns whether `key`
    /// was held already.
    pub fn press_key(&mut self, key: u8) -> (r: Result<bool, NoUpdateReason>)
        requires
            old(self).wf(),
        ensures
            final(self).wf(),
            final(self)@ == (StateView {
                keys: keys_after_press(old(self)@.keys, key),
                ..old(self)@
            }),
            match r {
                Ok(was) => old(self)@.keys.contains_key(key) && was == old(self)@.keys[key].pressed,
                Err(e) => e == NoUpdateReason::NoRemappedKey && !old(self)@.keys.contains_key(key),
            },
    {
        let own = self.remapped_key_states.remove(&key);
        assert(self@.keys =~= old(self)@.keys.remove(key));
        self.update_all_remapped_mod_keys_to_in_used();
        let ghost marked = self@.keys;
        if let Some(ks) = own {
            assert(key_wf(old(self)@.keys[key]));
            self.remapped_key_states.insert(key, ks);
            assert(self@.keys =~= marked.insert(key, old(self)@.keys[key]));
        }
        let r = self.update_key_pressed(key, true);
        assert(self@.keys =~= keys_after_press(old(self)@.keys, key));
        r
    }

    /// `key` goes up. If it is remapped it is neither held nor used
    /// afterwards, and the result is whether it was held and whether it was
    /// used: a tap is held and not used.
    pub fn release_key(&mut self, key: u8) -> (r: Result<(bool, bool), NoUpdateReason>)
        requires
            old(self).wf(),
        ensures
            final(self).wf(),
            final(self)@ == (StateView {
                keys: keys_after_release(old(self)@.keys, key),
                ..old(self)@
            }),
            match r {
                Ok((was_pressed, was_used)) => old(self)@.keys.contains_key(key) && was_pressed
                    == old(self)@.keys[key].pressed && was_used == old(self)@.keys[key].used,
                Err(e) => e == NoUpdateReason::NoRemappedKey && !old(self)@.keys.contains_key(key),
            },
    {
        match self.remapped_key_states.remove(&key) {
            Some(mut ks) => {
                let was = (ks.is_pressed, ks.will_be_used_as_modifier);
                ks.is_pressed = false;
                ks.will_be_used_as_modifier = false;
                self.remapped_key_states.insert(key, ks);
                assert(self@.keys =~= keys_after_release(old(self)@.keys, key));
                Ok(was)
            },
            None => {
                assert(self.remapped_key_states@ =~= old(self).remapped_key_states@);
                Err(NoUpdateReason::NoRemappedKey)
            },
        }
    }

    /// Marks every held remapped key as used.
    pub fn update_all_remapped_mod_keys_to_in_used(&mut self)
        requires
            old(self).wf(),
        ensures
            final(self).wf(),
            final(self)@ == (StateView { keys: mark_held_used(old(self)@.keys), ..old(self)@ }),
    {
        let ghost old_keys = self@.keys;
        let mut k: u16 = 0;
        while k < 256
            invariant
                k <= 256,
                self@.mouse == old(self)@.mouse,
                self@.pending == old(self)@.pending,
                old_keys == old(self)@.keys,
                self@.keys.dom() == old_keys.dom(),
                forall|j: u8| #[trigger]
                    self@.keys.contains_key(j) ==> self@.keys[j] == if (j as int) < k {
                        held_used(old_keys[j])
                    } else {
                        old_keys[j]
                    },
            decreases 256 - k,
        {
            let key = k as u8;
            match self.remapped_key_states.remove(&key) {
                Some(mut ks) => {
                    if ks.is_pressed {
                        ks.will_be_used_as_modifier = true;
                    }
                    self.remapped_key_states.insert(key, ks);
                },
                None => {
                    assert(self.remapped_key_states@.remove(key) =~= self.remapped_key_states@);
                },
            }
            k = k + 1;
        }
        assert(self@.keys =~= mark_held_used(old_keys));
    }

    /// Counts one more generated event of `key` to come back (saturating at 255).
    pub fn mark_auto_generated_key(&mut self, key: u8)
        requires
            old(self).wf(),
        ensures
            final(self).wf(),
            final(self)@ == (StateView { pending: bump(old(self)@.pending, key), ..old(self)@ }),
    {
        let i = key as usize;
        let n = self.auto_generated_key_flags[i];
        if n < 255 {
            self.auto_generated_key_flags[i] = n + 1;
        }
        assert(self@.pending =~= bump(old(self)@.pending, key));
    }

    /// If a generated event of `key` is still to come back, counts it as come
    /// and returns how many there were.
    pub fn check_and_unmark_auto_generated_key(&mut self, key: u8) -> (r: Result<u8, NoUpdateReason>)
        requires
            old(self).wf(),
        ensures
            final(self).wf(),
            old(self)@.pending[key as int] > 0 ==> r == Ok::<u8, NoUpdateReason>(
                old(self)@.pending[key as int],
            ) && final(self)@ == (StateView {
                pending: old(self)@.pending.update(
                    key as int,
                    (old(self)@.pending[key as int] - 1) as u8,
                ),
                ..old(self)@
            }),
            old(self)@.pending[key as int] == 0 ==> r == Err::<u8, NoUpdateReason>(
                NoUpdateReason::NoRemappedKey,
            ) && final(self)@ == old(self)@,
    {
        let i = key as usize;
        let n = self.auto_generated_key_flags[i];
        if n > 0 {
            self.auto_generated_key_flags[i] = n - 1;
            Ok(n)
        } else {
            Err(NoUpdateReason::NoRemappedKey)
        }
    }
}

} // verus!
