//! What the app makes of the driver's answer to each of its requests.

use vstd::prelude::*;

use crate::protocol::{DriverToApp, PhysicalMonitor, VirtualMonitor};

verus! {

/// Why a request to the driver failed.
#[derive(Debug)]
pub enum ReplyError {
    /// The driver answered with an error message.
    Driver(String),
    /// The driver answered with a message that does not fit the request.
    Unexpected(DriverToApp),
}

/// The physical monitors in the driver's answer to a monitor query.
pub fn physical_monitors_from_reply(reply: DriverToApp) -> (r: Result<Vec<PhysicalMonitor>, ReplyError>)
    ensures
        match reply {
            DriverToApp::MonitorList { monitors } => r == Ok::<Vec<PhysicalMonitor>, ReplyError>(monitors),
            DriverToApp::Error { message } => r == Err::<Vec<PhysicalMonitor>, ReplyError>(
                ReplyError::Driver(message),
            ),
            other => r == Err::<Vec<PhysicalMonitor>, ReplyError>(ReplyError::Unexpected(other)),
        },
{
    match reply {
        DriverToApp::MonitorList { monitors } => Ok(monitors),
        DriverToApp::Error { message } => Err(ReplyError::Driver(message)),
        other => Err(ReplyError::Unexpected(other)),
    }
}

/// The virtual monitors in the driver's answer to a split query or a split.
pub fn virtual_monitors_from_reply(reply: DriverToApp) -> (r: Result<Vec<VirtualMonitor>, ReplyError>)
    ensures
        match reply {
            DriverToApp::SplitState { virtual_monitors } => r == Ok::<
                Vec<VirtualMonitor>,
                ReplyError,
            >(virtual_monitors),
            DriverToApp::Error { message } => r == Err::<Vec<VirtualMonitor>, ReplyError>(
                ReplyError::Driver(message),
            ),
            other => r == Err::<Vec<VirtualMonitor>, ReplyError>(ReplyError::Unexpected(other)),
        },
{
    match reply {
        DriverToApp::SplitState { virtual_monitors } => Ok(virtual_monitors),
        DriverToApp::Error { message } => Err(ReplyError::Driver(message)),
        other => Err(ReplyError::Unexpected(other)),
    }
}

/// Whether the driver's answer acknowledges a removal: a split state or a
/// success both do.
pub fn acknowledgement_from_reply(reply: DriverToApp) -> (r: Result<(), ReplyError>)
    ensures
        match reply {
            DriverToApp::SplitState { .. } | DriverToApp::Success => r is Ok,
            DriverToApp::Error { message } => r == Err::<(), ReplyError>(ReplyError::Driver(message)),
            other => r == Err::<(), ReplyError>(ReplyError::Unexpected(other)),
        },
{
    match reply {
        DriverToApp::SplitState { .. } | DriverToApp::Success => Ok(()),
        DriverToApp::Error { message } => Err(ReplyError::Driver(message)),
        other => Err(ReplyError::Unexpected(other)),
    }
}

/// Unicode white space (the White_Space property), which trimming removes.
pub open spec fn is_white_space(c: char) -> bool {
    let u = c as u32;
    ||| 0x09 <= u <= 0x0D
    ||| u == 0x20
    ||| u == 0x85
    ||| u == 0xA0
    ||| u == 0x1680
    ||| 0x2000 <= u <= 0x200A
    ||| u == 0x2028
    ||| u == 0x2029
    ||| u == 0x202F
    ||| u == 0x205F
    ||| u == 0x3000
}

/// `s` without its leading white space.
pub open spec fn trim_start(s: Seq<char>) -> Seq<char>
    decreases s.len(),
{
    if s.len() > 0 && is_white_space(s[0]) {
        trim_start(s.drop_first())
    } else {
        s
    }
}

/// `s` without its trailing white space.
pub open spec fn trim_end(s: Seq<char>) -> Seq<char>
    decreases s.len(),
{
    if s.len() > 0 && is_white_space(s.last()) {
        trim_end(s.drop_last())
    } else {
        s
    }
}

/// `s` without leading and trailing white space.
pub open spec fn trimmed(s: Seq<char>) -> Seq<char> {
    trim_end(trim_start(s))
}

/// The message for a reply line that holds nothing but white space.
pub open spec fn empty_reply_message() -> Seq<char> {
    "Driver returned an empty response"@
}

fn white_space(c: char) -> (r: bool)
    ensures
        r == is_white_space(c),
{
    let u = c as u32;
    (0x09 <= u && u <= 0x0D) || u == 0x20 || u == 0x85 || u == 0xA0 || u == 0x1680 || (0x2000 <= u
        && u <= 0x200A) || u == 0x2028 || u == 0x2029 || u == 0x202F || u == 0x205F || u == 0x3000
}

/// The text of a reply line from the driver, without surrounding white
/// space; a line with nothing else is refused.
pub fn reply_text(line: &str) -> (r: Result<&str, String>)
    ensures
        match r {
            Ok(text) => text@ == trimmed(line@) && text@.len() > 0,
            Err(message) => trimmed(line@).len() == 0 && message@ == empty_reply_message(),
        },
{
    let ghost s = line@;
    let n = line.unicode_len();
    let mut start: usize = 0;
    assert(s.skip(0) =~= s);
    while start < n && white_space(line.get_char(start))
        invariant
            n == s.len(),
            s == line@,
            start <= n,
            trim_start(s) == trim_start(s.skip(start as int)),
        decreases n - start,
    {
        assert(s.skip(start as int).drop_first() =~= s.skip(start + 1));
        start = start + 1;
    }
    let ghost rest = s.skip(start as int);
    assert(trim_start(s) == rest) by {
        if start == n {
            assert(rest.len() == 0);
        } else {
            assert(rest[0] == s[start as int]);
        }
    }
    let mut end: usize = n;
    assert(s.subrange(start as int, n as int) =~= rest);
    while end > start && white_space(line.get_char(end - 1))
        invariant
            n == s.len(),
            s == line@,
            start <= end <= n,
            trim_start(s) == rest,
            rest == s.subrange(start as int, n as int),
            trim_end(rest) == trim_end(s.subrange(start as int, end as int)),
        decreases end - start,
    {
        assert(s.subrange(start as int, end as int).drop_last() =~= s.subrange(start as int, end - 1));
        end = end - 1;
    }
    let ghost kept = s.subrange(start as int, end as int);
    assert(trim_end(kept) == kept) by {
        if end > start {
            assert(kept.last() == s[end - 1]);
        }
    }
    if end == start {
        return Err(String::from_str("Driver returned an empty response"));
    }
    Ok(line.substring_char(start, end))
}

} // verus!
