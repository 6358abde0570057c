use std::collections::HashMap;
use vstd::prelude::*;

verus! {

/// How verbose a run is.
#[derive(Debug, Copy, Clone, PartialEq, Eq, Structural)]
#[allow(non_camel_case_types)]
pub enum Mode {
    DEBUG,
    NORMAL,
}

/// The configuration of a run, built once at start-up.
#[derive(Debug, Clone)]
pub struct Context {
    pub mode: Mode,
    /// Seconds after which the record context is disabled, if any.
    pub timeout_sec: Option<u64>,
    /// Source keycode to the keycodes tapped in its place, in order.
    pub key_map: HashMap<u8, Vec<u8>>,
}

impl Context {
    pub fn new(is_debug: bool, timeout_sec: Option<u64>, key_map: HashMap<u8, Vec<u8>>) -> (r: Self)
        ensures
            r.mode == (if is_debug { Mode::DEBUG } else { Mode::NORMAL }),
            r.timeout_sec == timeout_sec,
            r.key_map == key_map,
    {
        Context { mode: if is_debug { Mode::DEBUG } else { Mode::NORMAL }, timeout_sec, key_map }
    }

    pub fn is_debug_mode(&self) -> (r: bool)
        ensures
            r == (self.mode == Mode::DEBUG),
    {
        match self.mode {
            Mode::DEBUG => true,
            _ => false,
        }
    }
}

} // verus!
