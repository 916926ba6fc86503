//! What a log event looks like as a desktop notification.

use vstd::prelude::*;

verus! {

/// How severe a log event is.
#[derive(Debug, Clone, Copy, PartialEq, Eq)]
pub enum Level {
    Error,
    Warn,
    Info,
    Debug,
    Trace,
}

/// How urgent a notification is.
#[derive(Debug, Clone, Copy, PartialEq, Eq)]
pub enum Urgency {
    Low,
    Normal,
    Critical,
}

/// A desktop notification.
#[derive(Debug, Clone, PartialEq, Eq)]
pub struct Notice {
    /// The headline.
    pub summary: String,
    /// The text.
    pub body: String,
    /// The name of the icon.
    pub icon: String,
    /// The name of the program that notifies.
    pub appname: String,
    /// After how many milliseconds the notification goes.
    pub timeout: u32,
    pub urgency: Urgency,
}

/// How long a notification stays, in milliseconds.
pub const NOTICE_TIMEOUT: u32 = 10_000;

/// The word for a level in a notification's headline.
pub open spec fn level_word(level: Level) -> Seq<char> {
    match level {
        Level::Error => "error"@,
        Level::Warn => "warning"@,
        Level::Info => "info"@,
        Level::Debug => "debug"@,
        Level::Trace => "trace"@,
    }
}

/// The icon for a level.
pub open spec fn level_icon(level: Level) -> Seq<char> {
    match level {
        Level::Error => "dialog-error"@,
        Level::Warn => "dialog-warning"@,
        _ => "dialog-information"@,
    }
}

/// The urgency of a level.
pub open spec fn level_urgency(level: Level) -> Urgency {
    match level {
        Level::Error => Urgency::Critical,
        Level::Warn => Urgency::Normal,
        _ => Urgency::Low,
    }
}

/// The text of a notification for an event with the message `message`: the message, or
/// a pointer to the log where there is none.
pub open spec fn notice_body(message: Seq<char>) -> Seq<char> {
    if message.len() == 0 {
        "No message, see ~/.cache/handlr/handlr.log for details"@
    } else {
        message
    }
}

/// Whether a field of a log event is the one that holds its message.
pub fn is_message(field: &str) -> (r: bool)
    ensures
        r == (field@ == "message"@),
{
    field.to_owned() == "message".to_owned()
}

/// The notification for a log event of the level `level` with the message `message`.
pub fn notice_for(level: Level, message: &str) -> (r: Notice)
    ensures
        r.summary@ == "handlr "@ + level_word(level),
        r.body@ == notice_body(message@),
        r.icon@ == level_icon(level),
        r.appname@ == "handlr"@,
        r.timeout == NOTICE_TIMEOUT,
        r.urgency == level_urgency(level),
{
    let body = if message.unicode_len() == 0 {
        "No message, see ~/.cache/handlr/handlr.log for details".to_owned()
    } else {
        message.to_owned()
    };
    let (word, icon, urgency) = match level {
        Level::Error => ("error", "dialog-error", Urgency::Critical),
        Level::Warn => ("warning", "dialog-warning", Urgency::Normal),
        Level::Info => ("info", "dialog-information", Urgency::Low),
        Level::Debug => ("debug", "dialog-information", Urgency::Low),
        Level::Trace => ("trace", "dialog-information", Urgency::Low),
    };
    let mut summary = "handlr ".to_owned();
    summary.append(word);
    Notice {
        summary,
        body,
        icon: icon.to_owned(),
        appname: "handlr".to_owned(),
        timeout: NOTICE_TIMEOUT,
        urgency,
    }
}

} // verus!
