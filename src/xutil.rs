use crate::error::XcapeError;
use crate::runner::{KEY_PRESS_EVENT, MOTION_NOTIFY_EVENT};
use vstd::prelude::*;
use x11rb::protocol::record::{ExtRange, Range, Range16, Range8};

verus! {

#[verifier::external_type_specification]
pub struct ExRange8(Range8);

#[verifier::external_type_specification]
pub struct ExRange16(Range16);

#[verifier::external_type_specification]
pub struct ExExtRange(ExtRange);

#[verifier::external_type_specification]
pub struct ExRange(Range);

pub open spec fn is_empty_range8(r: Range8) -> bool {
    r.first == 0 && r.last == 0
}

pub open spec fn is_empty_ext_range(r: ExtRange) -> bool {
    is_empty_range8(r.major) && r.minor.first == 0 && r.minor.last == 0
}

/// The filter of the record context: device events from key press to
/// motion notify, and nothing else.
pub struct RecordConf {
    pub range: Range,
}

impl RecordConf {
    pub fn new() -> (r: Self)
        ensures
            r.range.device_events.first == KEY_PRESS_EVENT,
            r.range.device_events.last == MOTION_NOTIFY_EVENT,
            is_empty_range8(r.range.core_requests),
            is_empty_range8(r.range.core_replies),
            is_empty_ext_range(r.range.ext_requests),
            is_empty_ext_range(r.range.ext_replies),
            is_empty_range8(r.range.delivered_events),
            is_empty_range8(r.range.errors),
            !r.range.client_started,
            !r.range.client_died,
    {
        let empty = Range8 { first: 0, last: 0 };
        let empty_ext = ExtRange { major: empty, minor: Range16 { first: 0, last: 0 } };
        let range = Range {
            core_requests: empty,
            core_replies: empty,
            ext_requests: empty_ext,
            ext_replies: empty_ext,
            delivered_events: empty,
            device_events: Range8 { first: KEY_PRESS_EVENT, last: MOTION_NOTIFY_EVENT },
            errors: empty,
            client_started: false,
            client_died: false,
        };
        RecordConf { range }
    }
}

/// Set-up of the two connections to the display.
pub struct XUtil {}

impl XUtil {
    /// Both the record and the test extension are needed; the error names
    /// the first that is missing.
    pub fn check_extensions(has_record: bool, has_xtest: bool) -> (r: Result<(), XcapeError>)
        ensures
            r is Ok <==> has_record && has_xtest,
            !has_record ==> (r matches Err(XcapeError::XConnectionInitError(m)) && m@
                == "xrecord is not supported"@),
            has_record && !has_xtest ==> (r matches Err(XcapeError::XConnectionInitError(m))
                && m@ == "xtest is not supported"@),
    {
        if !has_record {
            return Err(XcapeError::XConnectionInitError("xrecord is not supported".to_string()));
        }
        if !has_xtest {
            return Err(XcapeError::XConnectionInitError("xtest is not supported".to_string()));
        }
        Ok(())
    }
}

} // verus!
