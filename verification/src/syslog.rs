//! The action dispatch of `syslog(2)` (`dmesg`): which operation on the
//! kernel message ring a request names, and when it is refused.
use vstd::prelude::*;

verus! {

/// `SYSLOG_ACTION_READ_ALL`: copy the retained bytes without consuming them.
pub const SYSLOG_ACTION_READ_ALL: i32 = 3;

/// `SYSLOG_ACTION_READ_CLEAR`: copy the retained bytes, then drop them.
pub const SYSLOG_ACTION_READ_CLEAR: i32 = 4;

/// `SYSLOG_ACTION_CLEAR`: drop the retained bytes.
pub const SYSLOG_ACTION_CLEAR: i32 = 5;

/// `SYSLOG_ACTION_SIZE_BUFFER`: report the number of retained bytes.
pub const SYSLOG_ACTION_SIZE_BUFFER: i32 = 10;

/// What a `syslog` request asks of the message ring.
#[derive(Debug, Clone, Copy, PartialEq, Eq, Structural)]
pub enum SyslogAction {
    /// Copy up to `len` retained bytes into the caller's buffer.
    ReadAll { len: usize },
    /// Copy up to `len` retained bytes, then drop every retained byte.
    ReadClear { len: usize },
    /// Drop every retained byte; the call returns 0.
    Clear,
    /// Return the number of retained bytes.
    SizeBuffer,
}

/// Why a `syslog` request is refused (both with `EINVAL`).
#[derive(Debug, Clone, Copy, PartialEq, Eq, Structural)]
pub enum SyslogError {
    /// A read with a length that is not positive.
    InvalidBufferLength,
    /// An action other than read-all, read-clear, clear and size-buffer.
    UnsupportedAction,
}

impl SyslogError {
    /// `EINVAL`.
    pub fn errno(&self) -> (r: i32)
        ensures
            r == 22,
    {
        22
    }

    /// The message reported with the error.
    pub fn message(&self) -> (r: &'static str)
        ensures
            r@ == (match *self {
                SyslogError::InvalidBufferLength => "invalid buffer length"@,
                SyslogError::UnsupportedAction => "unsupported syslog action"@,
            }),
    {
        match *self {
            SyslogError::InvalidBufferLength => "invalid buffer length",
            SyslogError::UnsupportedAction => "unsupported syslog action",
        }
    }
}

/// The operation of a `syslog(type_, buf, len)` request: the two reads need
/// a positive length; clear and size-buffer ignore it; every other type is
/// refused.
pub fn syslog_action(type_: i32, len: i32) -> (r: Result<SyslogAction, SyslogError>)
    ensures
        r == (if type_ == SYSLOG_ACTION_READ_ALL || type_ == SYSLOG_ACTION_READ_CLEAR {
            if len <= 0 {
                Err(SyslogError::InvalidBufferLength)
            } else if type_ == SYSLOG_ACTION_READ_CLEAR {
                Ok(SyslogAction::ReadClear { len: len as usize })
            } else {
                Ok(SyslogAction::ReadAll { len: len as usize })
            }
        } else if type_ == SYSLOG_ACTION_CLEAR {
            Ok(SyslogAction::Clear)
        } else if type_ == SYSLOG_ACTION_SIZE_BUFFER {
            Ok(SyslogAction::SizeBuffer)
        } else {
            Err(SyslogError::UnsupportedAction)
        }),
{
    if type_ == SYSLOG_ACTION_READ_ALL || type_ == SYSLOG_ACTION_READ_CLEAR {
        if len <= 0 {
            return Err(SyslogError::InvalidBufferLength);
        }
        if type_ == SYSLOG_ACTION_READ_CLEAR {
            Ok(SyslogAction::ReadClear { len: len as usize })
        } else {
            Ok(SyslogAction::ReadAll { len: len as usize })
        }
    } else if type_ == SYSLOG_ACTION_CLEAR {
        Ok(SyslogAction::Clear)
    } else if type_ == SYSLOG_ACTION_SIZE_BUFFER {
        Ok(SyslogAction::SizeBuffer)
    } else {
        Err(SyslogError::UnsupportedAction)
    }
}

} // verus!
