//! Log records and a logger that keeps them and formats them in one of three
//! styles.

use vstd::prelude::*;
use crate::common_types::{status_name, Status};
use crate::text::{decimal, join_lines, push_decimal, push_joined};

verus! {

/// Relies on `chrono::Local::now` and on `Timelike::hour`, `minute` and
/// `second` of the `DateTime` it returns: the local time of day, hour from 0
/// to 23, minute and second from 0 to 59 (a leap second shows as 59).
#[verifier::external_body]
fn local_time_of_day() -> (r: (u32, u32, u32))
    ensures
        r.0 < 24,
        r.1 < 60,
        r.2 < 60,
{
    let now = chrono::Local::now();
    (chrono::Timelike::hour(&now), chrono::Timelike::minute(&now), chrono::Timelike::second(&now))
}

/// The time a log record was registered at.
#[derive(Debug, Clone, Copy, PartialEq, Eq, Structural)]
pub struct LogTime {
    pub hour: u32,
    pub minute: u32,
    pub seconds: u32,
}

/// A time of day that a clock can show.
pub open spec fn valid_time(t: LogTime) -> bool {
    t.hour < 24 && t.minute < 60 && t.seconds < 60
}

/// `hour:minute:seconds`, each in decimal without padding.
pub open spec fn time_text(t: LogTime) -> Seq<char> {
    decimal(t.hour as nat) + seq![':'] + decimal(t.minute as nat) + seq![':'] + decimal(
        t.seconds as nat,
    )
}

impl LogTime {
    /// A time given by hand.
    pub fn new(hour: u32, minute: u32, seconds: u32) -> (r: Self)
        ensures
            r == (LogTime { hour, minute, seconds }),
    {
        LogTime { hour, minute, seconds }
    }

    /// The local time now.
    pub fn now() -> (r: Self)
        ensures
            valid_time(r),
    {
        let (hour, minute, seconds) = local_time_of_day();
        LogTime { hour, minute, seconds }
    }

    /// `hour:minute:seconds`, as `14:30:45` or `9:5:7`.
    pub fn format(&self) -> (r: String)
        ensures
            r@ == time_text(*self),
    {
        let mut r = String::new();
        push_decimal(&mut r, self.hour as usize);
        r.append(":");
        push_decimal(&mut r, self.minute as usize);
        r.append(":");
        push_decimal(&mut r, self.seconds as usize);
        proof {
            reveal_strlit(":");
        }
        assert(r@ =~= time_text(*self));
        r
    }
}

/// Where a log record comes from.
#[derive(Debug, Clone)]
pub struct Component {
    pub file_name: String,
    pub func_name: String,
    pub dir_path: String,
}

impl Component {
    pub fn new(file_name: String, func_name: String, dir_path: String) -> (r: Self)
        ensures
            r == (Component { file_name, func_name, dir_path }),
    {
        Component { file_name, func_name, dir_path }
    }

    /// An independent copy of this component.
    pub fn duplicate(&self) -> (r: Self)
        ensures
            r == *self,
    {
        Component {
            file_name: self.file_name.clone(),
            func_name: self.func_name.clone(),
            dir_path: self.dir_path.clone(),
        }
    }
}

/// How log records are printed.
#[derive(Debug, Clone, Copy, PartialEq, Eq, Structural)]
pub enum LoggerPrintStyle {
    /// Words rather than symbols.
    Flat,
    /// Compact.
    Tiny,
    /// Everything, in brackets.
    Full,
}

/// One log record.
#[derive(Debug, Clone)]
pub struct Log {
    pub status: Status,
    pub message: String,
    pub component: Component,
    pub time: LogTime,
}

/// The text of `log` in `style`.
pub open spec fn log_text(log: Log, style: LoggerPrintStyle) -> Seq<char> {
    let status = status_name(log.status);
    let time = time_text(log.time);
    let c = log.component;
    match style {
        LoggerPrintStyle::Tiny => status + ": "@ + log.message@ + " | from "@ + c.file_name@
            + "-func:"@ + c.func_name@ + ", time is "@ + time,
        LoggerPrintStyle::Flat => status + ": "@ + log.message@ + " | file "@ + c.file_name@
            + " | time "@ + time,
        LoggerPrintStyle::Full => "["@ + status + "|"@ + time + "]["@ + c.dir_path@ + "/"@
            + c.file_name@ + "-"@ + c.func_name@ + "]: "@ + log.message@,
    }
}

impl Log {
    pub fn new(status: Status, message: String, component: Component, time: LogTime) -> (r: Self)
        ensures
            r == (Log { status, message, component, time }),
    {
        Log { status, message, component, time }
    }

    /// This record as one line in `style`:
    /// `Tiny`: `status: message | from file-func:func, time is h:m:s`;
    /// `Flat`: `status: message | file file | time h:m:s`;
    /// `Full`: `[status|h:m:s][dir/file-func]: message`.
    pub fn format(&self, style: &LoggerPrintStyle) -> (r: String)
        ensures
            r@ == log_text(*self, *style),
    {
        let status = self.status.to_string();
        let time = self.time.format();
        let c = &self.component;
        let mut r = String::new();
        match style {
            LoggerPrintStyle::Tiny => {
                r.append(status.as_str());
                r.append(": ");
                r.append(self.message.as_str());
                r.append(" | from ");
                r.append(c.file_name.as_str());
                r.append("-func:");
                r.append(c.func_name.as_str());
                r.append(", time is ");
                r.append(time.as_str());
            },
            LoggerPrintStyle::Flat => {
                r.append(status.as_str());
                r.append(": ");
                r.append(self.message.as_str());
                r.append(" | file ");
                r.append(c.file_name.as_str());
                r.append(" | time ");
                r.append(time.as_str());
            },
            LoggerPrintStyle::Full => {
                r.append("[");
                r.append(status.as_str());
                r.append("|");
                r.append(time.as_str());
                r.append("][");
                r.append(c.dir_path.as_str());
                r.append("/");
                r.append(c.file_name.as_str());
                r.append("-");
                r.append(c.func_name.as_str());
                r.append("]: ");
                r.append(self.message.as_str());
            },
        }
        assert(r@ =~= log_text(*self, *style));
        r
    }
}

/// Keeps log records and formats them in its style.
pub struct Logger {
    pub logs: Vec<Log>,
    pub creation_time: LogTime,
    pub destruction_time: Option<LogTime>,
    pub printable_in_terminal: bool,
    pub style: LoggerPrintStyle,
}

impl Logger {
    /// An empty logger in the `Tiny` style.
    pub fn new(creation_time: LogTime, printable_in_terminal: bool) -> (r: Self)
        ensures
            r.logs@.len() == 0,
            r.creation_time == creation_time,
            r.destruction_time.is_none(),
            r.printable_in_terminal == printable_in_terminal,
            r.style == LoggerPrintStyle::Tiny,
    {
        Logger {
            logs: Vec::new(),
            creation_time,
            destruction_time: None,
            printable_in_terminal,
            style: LoggerPrintStyle::Tiny,
        }
    }

    /// Records a log, at `time` or, where none is given, at the local time
    /// now. Returns the record's text in the logger's style where the logger
    /// prints to the terminal, and `None` otherwise.
    pub fn add_log(
        &mut self,
        message: String,
        component: Component,
        status: Status,
        time: Option<LogTime>,
    ) -> (r: Option<String>)
        ensures
            final(self).logs@.len() == old(self).logs@.len() + 1,
            final(self).logs@.take(old(self).logs@.len() as int) == old(self).logs@,
            ({
                let log = final(self).logs@.last();
                &&& log.status == status
                &&& log.message == message
                &&& log.component == component
                &&& match time {
                    Some(t) => log.time == t,
                    None => valid_time(log.time),
                }
                &&& match r {
                    Some(text) => old(self).printable_in_terminal && text@ == log_text(
                        log,
                        old(self).style,
                    ),
                    None => !old(self).printable_in_terminal,
                }
            }),
            final(self).creation_time == old(self).creation_time,
            final(self).destruction_time == old(self).destruction_time,
            final(self).printable_in_terminal == old(self).printable_in_terminal,
            final(self).style == old(self).style,
    {
        let time = match time {
            Some(t) => t,
            None => LogTime::now(),
        };
        let log = Log::new(status, message, component, time);
        let formatted = if self.printable_in_terminal {
            Some(log.format(&self.style))
        } else {
            None
        };
        let ghost before = self.logs@;
        self.logs.push(log);
        assert(self.logs@.take(before.len() as int) =~= before);
        formatted
    }

    /// Marks the logger as closed at the local time now and returns the text
    /// of every record, in order, in the logger's style.
    pub fn finish(&mut self) -> (r: Vec<String>)
        ensures
            final(self).logs@ == old(self).logs@,
            final(self).destruction_time matches Some(t) && valid_time(t),
            final(self).creation_time == old(self).creation_time,
            final(self).printable_in_terminal == old(self).printable_in_terminal,
            final(self).style == old(self).style,
            r@.len() == old(self).logs@.len(),
            forall|k: int| 0 <= k < r@.len() ==> (#[trigger] r@[k])@ == log_text(
                old(self).logs@[k],
                old(self).style,
            ),
    {
        self.destruction_time = Some(LogTime::now());
        let mut r: Vec<String> = Vec::new();
        let mut k: usize = 0;
        while k < self.logs.len()
            invariant
                k <= self.logs@.len(),
                r@.len() == k,
                forall|m: int| 0 <= m < k ==> (#[trigger] r@[m])@ == log_text(
                    self.logs@[m],
                    self.style,
                ),
            decreases self.logs@.len() - k,
        {
            r.push(self.logs[k].format(&self.style));
            k = k + 1;
        }
        r
    }
}

/// The texts `lines` joined by `\n`, as a log file holds them.
pub fn join_log_lines(lines: &Vec<String>) -> (r: String)
    ensures
        r@ == join_lines(lines@.map_values(|l: String| l@)),
{
    let ghost views = lines@.map_values(|l: String| l@);
    let mut out = String::new();
    let mut k: usize = 0;
    assert(views.take(0) =~= Seq::<Seq<char>>::empty());
    while k < lines.len()
        invariant
            views == lines@.map_values(|l: String| l@),
            k <= lines@.len(),
            out@ == join_lines(views.take(k as int)),
        decreases lines@.len() - k,
    {
        assert(views.take(k + 1) =~= views.take(k as int).push(lines@[k as int]@));
        push_joined(&mut out, lines[k].as_str(), k == 0, Ghost(views.take(k as int)));
        k = k + 1;
    }
    assert(views.take(k as int) =~= views);
    out
}

} // verus!
