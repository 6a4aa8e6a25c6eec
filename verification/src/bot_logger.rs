//! A bot's log: entries buffered per tick, their text, and timestamps.
use vstd::prelude::*;

use crate::bot::BotUpdate;
use crate::text::{decimal, padded, push_padded, push_str, push_u64};
use crate::types::{Item, Pos, Team};

verus! {

#[derive(Debug, Clone, Copy, PartialEq, Eq, Structural)]
pub enum LogLevel {
    Debug,
    Info,
    Warn,
    Error,
}

pub open spec fn level_name(l: LogLevel) -> Seq<char> {
    match l {
        LogLevel::Debug => "DEBUG"@,
        LogLevel::Info => "INFO"@,
        LogLevel::Warn => "WARN"@,
        LogLevel::Error => "ERROR"@,
    }
}

impl LogLevel {
    pub fn as_str(&self) -> (r: &'static str)
        ensures
            r@ == level_name(*self),
    {
        match self {
            LogLevel::Debug => "DEBUG",
            LogLevel::Info => "INFO",
            LogLevel::Warn => "WARN",
            LogLevel::Error => "ERROR",
        }
    }
}

/// A log entry from a bot
#[derive(Debug, Clone)]
pub struct LogEntry {
    pub bot_id: u32,
    pub tick: u32,
    pub level: LogLevel,
    pub message: String,
    /// Extra key-value pairs, in the order they were given.
    pub attrs: Option<Vec<(String, String)>>,
}

/// Handles logging for a specific bot: entries wait in a buffer until they are flushed.
pub struct BotLogger {
    pub bot_id: u32,
    pub current_tick: u32,
    pub buffer: Vec<LogEntry>,
}

/// `e` is an entry of bot `bot_id` at `tick` with `level` and `message`.
pub open spec fn entry_is(
    e: LogEntry,
    bot_id: u32,
    tick: u32,
    level: LogLevel,
    message: Seq<char>,
) -> bool {
    &&& e.bot_id == bot_id
    &&& e.tick == tick
    &&& e.level == level
    &&& e.message@ == message
}

/// The text of the attribute lines.
pub open spec fn attrs_text(attrs: Seq<(String, String)>) -> Seq<char>
    decreases attrs.len(),
{
    if attrs.len() == 0 {
        seq![]
    } else {
        attrs_text(attrs.drop_last()) + "  "@ + attrs.last().0@ + " = "@ + attrs.last().1@ + "\n"@
    }
}

pub open spec fn entry_attrs_text(e: LogEntry) -> Seq<char> {
    match e.attrs {
        Some(a) => attrs_text(a@),
        None => seq![],
    }
}

/// The coloured level tag used on the terminal.
pub open spec fn level_tag(l: LogLevel) -> Seq<char> {
    match l {
        LogLevel::Debug => "\x1b[36mDEBUG\x1b[0m"@,
        LogLevel::Info => "\x1b[32mINFO\x1b[0m"@,
        LogLevel::Warn => "\x1b[33mWARN\x1b[0m"@,
        LogLevel::Error => "\x1b[31mERROR\x1b[0m"@,
    }
}

/// The lines of `entries` on the terminal.
pub open spec fn entries_text(entries: Seq<LogEntry>) -> Seq<char>
    decreases entries.len(),
{
    if entries.len() == 0 {
        seq![]
    } else {
        let e = entries.last();
        entries_text(entries.drop_last()) + "["@ + level_tag(e.level) + "] "@ + e.message@ + "\n"@
            + entry_attrs_text(e)
    }
}

/// The block printed when the buffer of bot `bot_id` is flushed at `tick`.
pub open spec fn flush_text(bot_id: u32, tick: u32, entries: Seq<LogEntry>) -> Seq<char> {
    "\n===== Bot "@ + decimal(bot_id as nat) + " - Tick "@ + decimal(tick as nat) + " =====\n"@
        + entries_text(entries) + "=========================\n"@
}

/// The line written to the log file for `e` at `timestamp`.
pub open spec fn file_line(timestamp: Seq<char>, e: LogEntry) -> Seq<char> {
    "["@ + timestamp + "] [Tick "@ + decimal(e.tick as nat) + "] ["@ + level_name(e.level) + "] "@
        + e.message@ + "\n"@ + entry_attrs_text(e)
}

fn push_attrs(s: &mut String, attrs: &Option<Vec<(String, String)>>)
    ensures
        final(s)@ == old(s)@ + (match *attrs {
            Some(a) => attrs_text(a@),
            None => seq![],
        }),
{
    if let Some(a) = attrs {
        let mut k: usize = 0;
        proof {
            assert(a@.take(0) =~= Seq::<(String, String)>::empty());
            assert(old(s)@ + attrs_text(a@.take(0)) =~= old(s)@);
        }
        while k < a.len()
            invariant
                k <= a@.len(),
                s@ == old(s)@ + attrs_text(a@.take(k as int)),
            decreases a@.len() - k,
        {
            push_str(s, "  ");
            push_str(s, a[k].0.as_str());
            push_str(s, " = ");
            push_str(s, a[k].1.as_str());
            push_str(s, "\n");
            proof {
                assert(a@.take(k as int + 1).drop_last() =~= a@.take(k as int));
                assert(s@ =~= old(s)@ + attrs_text(a@.take(k as int + 1)));
            }
            k = k + 1;
        }
        proof {
            assert(a@.take(a@.len() as int) =~= a@);
        }
    } else {
        proof {
            assert(old(s)@ + Seq::<char>::empty() =~= old(s)@);
        }
    }
}

/// The line written to the log file for `entry` at `timestamp`.
pub fn format_file_line(timestamp: &str, entry: &LogEntry) -> (r: String)
    ensures
        r@ == file_line(timestamp@, *entry),
{
    let mut s = String::new();
    push_str(&mut s, "[");
    push_str(&mut s, timestamp);
    push_str(&mut s, "] [Tick ");
    push_u64(&mut s, entry.tick as u64);
    push_str(&mut s, "] [");
    push_str(&mut s, entry.level.as_str());
    push_str(&mut s, "] ");
    push_str(&mut s, entry.message.as_str());
    push_str(&mut s, "\n");
    push_attrs(&mut s, &entry.attrs);
    proof {
        assert(s@ =~= file_line(timestamp@, *entry));
    }
    s
}

impl BotLogger {
    /// The entries waiting to be flushed.
    pub open spec fn buffered(&self) -> Seq<LogEntry> {
        self.buffer@
    }

    /// A logger for bot `bot_id`, at tick zero, with nothing buffered.
    pub fn new(bot_id: u32) -> (r: Self)
        ensures
            r.bot_id == bot_id,
            r.current_tick == 0,
            r.buffered().len() == 0,
    {
        BotLogger { bot_id, current_tick: 0, buffer: Vec::new() }
    }

    /// Buffers a message at `level`.
    pub fn log(&mut self, level: LogLevel, message: String)
        ensures
            final(self).bot_id == old(self).bot_id,
            final(self).current_tick == old(self).current_tick,
            final(self).buffered().len() == old(self).buffered().len() + 1,
            final(self).buffered().take(old(self).buffered().len() as int) == old(
                self,
            ).buffered(),
            entry_is(
                final(self).buffered().last(),
                old(self).bot_id,
                old(self).current_tick,
                level,
                message@,
            ),
            final(self).buffered().last().attrs is None,
    {
        let entry = LogEntry {
            bot_id: self.bot_id,
            tick: self.current_tick,
            level,
            message,
            attrs: None,
        };
        self.buffer.push(entry);
        proof {
            assert(self.buffer@.take(old(self).buffer@.len() as int) =~= old(self).buffer@);
        }
    }

    /// Buffers a message at `level` with additional attributes.
    pub fn log_with_attrs(&mut self, level: LogLevel, message: String, attrs: Vec<(String, String)>)
        ensures
            final(self).bot_id == old(self).bot_id,
            final(self).current_tick == old(self).current_tick,
            final(self).buffered().len() == old(self).buffered().len() + 1,
            final(self).buffered().take(old(self).buffered().len() as int) == old(
                self,
            ).buffered(),
            entry_is(
                final(self).buffered().last(),
                old(self).bot_id,
                old(self).current_tick,
                level,
                message@,
            ),
            final(self).buffered().last().attrs == Some(attrs),
    {
        let entry = LogEntry {
            bot_id: self.bot_id,
            tick: self.current_tick,
            level,
            message,
            attrs: Some(attrs),
        };
        self.buffer.push(entry);
        proof {
            assert(self.buffer@.take(old(self).buffer@.len() as int) =~= old(self).buffer@);
        }
    }

    /// Buffers a debug-level message.
    pub fn debug(&mut self, message: String)
        ensures
            final(self).bot_id == old(self).bot_id,
            final(self).current_tick == old(self).current_tick,
            final(self).buffered() == old(self).buffered().push(final(self).buffered().last()),
            entry_is(
                final(self).buffered().last(),
                old(self).bot_id,
                old(self).current_tick,
                LogLevel::Debug,
                message@,
            ),
    {
        self.log(LogLevel::Debug, message);
        proof {
            assert(self.buffered() =~= old(self).buffered().push(self.buffered().last()));
        }
    }

    /// Buffers an info-level message.
    pub fn info(&mut self, message: String)
        ensures
            final(self).bot_id == old(self).bot_id,
            final(self).current_tick == old(self).current_tick,
            final(self).buffered() == old(self).buffered().push(final(self).buffered().last()),
            entry_is(
                final(self).buffered().last(),
                old(self).bot_id,
                old(self).current_tick,
                LogLevel::Info,
                message@,
            ),
    {
        self.log(LogLevel::Info, message);
        proof {
            assert(self.buffered() =~= old(self).buffered().push(self.buffered().last()));
        }
    }

    /// Buffers a warning-level message.
    pub fn warn(&mut self, message: String)
        ensures
            final(self).bot_id == old(self).bot_id,
            final(self).current_tick == old(self).current_tick,
            final(self).buffered() == old(self).buffered().push(final(self).buffered().last()),
            entry_is(
                final(self).buffered().last(),
                old(self).bot_id,
                old(self).current_tick,
                LogLevel::Warn,
                message@,
            ),
    {
        self.log(LogLevel::Warn, message);
        proof {
            assert(self.buffered() =~= old(self).buffered().push(self.buffered().last()));
        }
    }

    /// Buffers an error-level message.
    pub fn error(&mut self, message: String)
        ensures
            final(self).bot_id == old(self).bot_id,
            final(self).current_tick == old(self).current_tick,
            final(self).buffered() == old(self).buffered().push(final(self).buffered().last()),
            entry_is(
                final(self).buffered().last(),
                old(self).bot_id,
                old(self).current_tick,
                LogLevel::Error,
                message@,
            ),
    {
        self.log(LogLevel::Error, message);
        proof {
            assert(self.buffered() =~= old(self).buffered().push(self.buffered().last()));
        }
    }

    /// Takes the buffered entries, with the block of text that shows them (`None` when there
    /// were none).
    pub fn flush_buffer(&mut self) -> (r: (Option<String>, Vec<LogEntry>))
        ensures
            final(self).bot_id == old(self).bot_id,
            final(self).current_tick == old(self).current_tick,
            final(self).buffered().len() == 0,
            r.1@ == old(self).buffered(),
            old(self).buffered().len() == 0 ==> r.0 is None,
            old(self).buffered().len() > 0 ==> (r.0 matches Some(t) && t@ == flush_text(
                old(self).bot_id,
                old(self).current_tick,
                old(self).buffered(),
            )),
    {
        if self.buffer.len() == 0 {
            return (None, Vec::new());
        }
        let mut output = String::new();
        push_str(&mut output, "\n===== Bot ");
        push_u64(&mut output, self.bot_id as u64);
        push_str(&mut output, " - Tick ");
        push_u64(&mut output, self.current_tick as u64);
        push_str(&mut output, " =====\n");
        let ghost head = output@;
        let mut k: usize = 0;
        proof {
            assert(self.buffer@.take(0) =~= Seq::<LogEntry>::empty());
            assert(head + entries_text(self.buffer@.take(0)) =~= head);
        }
        while k < self.buffer.len()
            invariant
                k <= self.buffer@.len(),
                self.buffer@ == old(self).buffer@,
                output@ == head + entries_text(self.buffer@.take(k as int)),
            decreases self.buffer@.len() - k,
        {
            let entry = &self.buffer[k];
            let prefix = match entry.level {
                LogLevel::Debug => "\x1b[36mDEBUG\x1b[0m",
                LogLevel::Info => "\x1b[32mINFO\x1b[0m",
                LogLevel::Warn => "\x1b[33mWARN\x1b[0m",
                LogLevel::Error => "\x1b[31mERROR\x1b[0m",
            };
            push_str(&mut output, "[");
            push_str(&mut output, prefix);
            push_str(&mut output, "] ");
            push_str(&mut output, entry.message.as_str());
            push_str(&mut output, "\n");
            push_attrs(&mut output, &entry.attrs);
            proof {
                assert(self.buffer@.take(k as int + 1).drop_last() =~= self.buffer@.take(k as int));
                assert(output@ =~= head + entries_text(self.buffer@.take(k as int + 1)));
            }
            k = k + 1;
        }
        push_str(&mut output, "=========================\n");
        proof {
            assert(self.buffer@.take(self.buffer@.len() as int) =~= self.buffer@);
            assert(output@ =~= flush_text(self.bot_id, self.current_tick, self.buffer@));
        }
        let mut entries: Vec<LogEntry> = Vec::new();
        std::mem::swap(&mut entries, &mut self.buffer);
        (Some(output), entries)
    }

    /// Moves to `tick`; when that is a new tick with entries still buffered, they are flushed
    /// first and their block of text is returned.
    pub fn set_tick(&mut self, tick: u32) -> (r: Option<String>)
        ensures
            final(self).bot_id == old(self).bot_id,
            final(self).current_tick == tick,
            tick == old(self).current_tick ==> r is None && final(self).buffered() == old(
                self,
            ).buffered(),
            tick != old(self).current_tick ==> final(self).buffered().len() == 0 && (if old(
                self,
            ).buffered().len() > 0 {
                (r matches Some(t) && t@ == flush_text(
                    old(self).bot_id,
                    old(self).current_tick,
                    old(self).buffered(),
                ))
            } else {
                r is None
            }),
    {
        if tick != self.current_tick {
            let (text, _) = self.flush_buffer();
            self.current_tick = tick;
            text
        } else {
            None
        }
    }
}

/// A year with 366 days.
pub open spec fn spec_leap(year: int) -> bool {
    (year % 4 == 0 && year % 100 != 0) || year % 400 == 0
}

/// Check if a year is a leap year
pub fn is_leap_year(year: u64) -> (r: bool)
    ensures
        r == spec_leap(year as int),
{
    (year % 4 == 0 && year % 100 != 0) || (year % 400 == 0)
}

pub open spec fn year_days(year: int) -> int {
    if spec_leap(year) {
        366
    } else {
        365
    }
}

/// The year `days` days after the first day of `year`, and the day of that year.
pub open spec fn year_and_day(year: int, days: int) -> (int, int)
    decreases days,
    when days >= 0
{
    if days >= year_days(year) {
        year_and_day(year + 1, days - year_days(year))
    } else {
        (year, days)
    }
}

pub open spec fn month_days(year: int, month: int) -> int {
    if month == 1 {
        if spec_leap(year) {
            29
        } else {
            28
        }
    } else if month == 3 || month == 5 || month == 8 || month == 10 {
        30
    } else {
        31
    }
}

/// The month (from 0) and day of the month (from 0) of day `days` of `year`, counting from
/// month `month`.
pub open spec fn month_and_day(year: int, month: int, days: int) -> (int, int)
    decreases 12 - month,
{
    if month < 12 && days >= month_days(year, month) {
        month_and_day(year, month + 1, days - month_days(year, month))
    } else {
        (month, days)
    }
}

/// A date and time as `YYYY-MM-DD HH:MM:SS.mmm`.
pub open spec fn date_time_text(
    year: nat,
    month: nat,
    day: nat,
    hours: nat,
    minutes: nat,
    seconds: nat,
    millis: nat,
) -> Seq<char> {
    padded(year, 4) + "-"@ + padded(month, 2) + "-"@ + padded(day, 2) + " "@ + padded(hours, 2)
        + ":"@ + padded(minutes, 2) + ":"@ + padded(seconds, 2) + "."@ + padded(millis, 3)
}

/// `secs` seconds and `millis` milliseconds after the Unix epoch, as
/// `YYYY-MM-DD HH:MM:SS.mmm`.
pub open spec fn time_text(secs: nat, millis: nat) -> Seq<char> {
    let sod = secs % 86400;
    let yd = year_and_day(1970, (secs / 86400) as int);
    let md = month_and_day(yd.0, 0, yd.1);
    date_time_text(
        yd.0 as nat,
        (md.0 + 1) as nat,
        (md.1 + 1) as nat,
        sod / 3600,
        (sod % 3600) / 60,
        sod % 60,
        millis,
    )
}

proof fn lemma_year_and_day(year: int, days: int)
    requires
        days >= 0,
        year >= 1970,
    ensures
        year_and_day(year, days).0 >= year,
        year_and_day(year, days).0 <= year + days,
        0 <= year_and_day(year, days).1 < year_days(year_and_day(year, days).0),
    decreases days,
{
    if days >= year_days(year) {
        lemma_year_and_day(year + 1, days - year_days(year));
    }
}

/// Formats a time given as seconds and milliseconds after the Unix epoch as
/// `YYYY-MM-DD HH:MM:SS.mmm`.
pub fn format_system_time(secs: u64, millis: u32) -> (r: String)
    ensures
        r@ == time_text(secs as nat, millis as nat),
{
    let secs_of_day = secs % 86400;
    let hours = secs_of_day / 3600;
    let minutes = (secs_of_day % 3600) / 60;
    let seconds = secs_of_day % 60;
    let days_since_epoch = secs / 86400;
    let mut year: u64 = 1970;
    let mut days_remaining = days_since_epoch;
    proof {
        lemma_year_and_day(1970, days_since_epoch as int);
    }
    loop
        invariant
            1970 <= year <= 1970 + days_since_epoch - days_remaining,
            days_remaining <= days_since_epoch,
            days_since_epoch == secs / 86400,
            year_and_day(year as int, days_remaining as int) == year_and_day(
                1970,
                days_since_epoch as int,
            ),
        ensures
            days_remaining < year_days(year as int),
            year_and_day(year as int, days_remaining as int) == year_and_day(
                1970,
                days_since_epoch as int,
            ),
        decreases days_remaining,
    {
        let days_in_year: u64 = if is_leap_year(year) {
            366
        } else {
            365
        };
        if days_remaining >= days_in_year {
            days_remaining = days_remaining - days_in_year;
            year = year + 1;
        } else {
            break ;
        }
    }
    let leap = is_leap_year(year);
    let mut month: u64 = 0;
    assert(year_and_day(year as int, days_remaining as int) == (year as int, days_remaining as int));
    loop
        invariant
            month <= 12,
            month_and_day(year as int, month as int, days_remaining as int) == month_and_day(
                year as int,
                0,
                year_and_day(1970, days_since_epoch as int).1,
            ),
            leap == spec_leap(year as int),
            days_remaining < 366,
        ensures
            month <= 12,
            days_remaining < 366,
            month_and_day(year as int, month as int, days_remaining as int) == month_and_day(
                year as int,
                0,
                year_and_day(1970, days_since_epoch as int).1,
            ),
            month >= 12 || days_remaining < month_days(year as int, month as int),
        decreases 12 - month,
    {
        if month >= 12 {
            break ;
        }
        let dim: u64 = if month == 1 {
            if leap {
                29
            } else {
                28
            }
        } else if month == 3 || month == 5 || month == 8 || month == 10 {
            30
        } else {
            31
        };
        if days_remaining >= dim {
            days_remaining = days_remaining - dim;
            month = month + 1;
        } else {
            break ;
        }
    }
    let day = days_remaining + 1;
    proof {
        let (yy, dd) = year_and_day(1970, days_since_epoch as int);
        assert(yy == year);
        assert(month_and_day(year as int, month as int, days_remaining as int) == (
        month as int,
        days_remaining as int,
        ));
        let (mm, md) = month_and_day(yy, 0, dd);
        assert(mm == month && md == days_remaining);
    }
    let mut s = String::new();
    push_padded(&mut s, year, 4);
    push_str(&mut s, "-");
    push_padded(&mut s, month + 1, 2);
    push_str(&mut s, "-");
    push_padded(&mut s, day, 2);
    push_str(&mut s, " ");
    push_padded(&mut s, hours, 2);
    push_str(&mut s, ":");
    push_padded(&mut s, minutes, 2);
    push_str(&mut s, ":");
    push_padded(&mut s, seconds, 2);
    push_str(&mut s, ".");
    push_padded(&mut s, millis as u64, 3);
    proof {
        assert(s@ =~= date_time_text(
            year as nat,
            (month + 1) as nat,
            day as nat,
            hours as nat,
            minutes as nat,
            seconds as nat,
            millis as nat,
        ));
    }
    s
}

/// The name an item is shown by.
pub open spec fn item_name(i: Item) -> Seq<char> {
    match i {
        Item::Crumb => "Crumb"@,
        Item::Fent => "Fent"@,
        Item::Truffle => "Truffle"@,
        Item::Metal => "Metal"@,
    }
}

pub fn item_str(i: Item) -> (r: &'static str)
    ensures
        r@ == item_name(i),
{
    match i {
        Item::Crumb => "Crumb",
        Item::Fent => "Fent",
        Item::Truffle => "Truffle",
        Item::Metal => "Metal",
    }
}

/// The name a team is shown by.
pub open spec fn team_name(t: Team) -> Seq<char> {
    match t {
        Team::Player => "Player"@,
        Team::Enemy => "Enemy"@,
    }
}

pub fn team_str(t: Team) -> (r: &'static str)
    ensures
        r@ == team_name(t),
{
    match t {
        Team::Player => "Player",
        Team::Enemy => "Enemy",
    }
}

/// A position as it is shown: `Pos(x, y)`.
pub open spec fn pos_text(p: Pos) -> Seq<char> {
    "Pos("@ + decimal(p.0.0 as nat) + ", "@ + decimal(p.0.1 as nat) + ")"@
}

pub fn push_pos(s: &mut String, p: Pos)
    ensures
        final(s)@ == old(s)@ + pos_text(p),
{
    push_str(s, "Pos(");
    push_u64(s, p.0.0 as u64);
    push_str(s, ", ");
    push_u64(s, p.0.1 as u64);
    push_str(s, ")");
    proof {
        assert(s@ =~= old(s)@ + pos_text(p));
    }
}

/// Items with their counts, as `Item: count` joined by `, `.
pub open spec fn items_text(items: Seq<(Item, u32)>) -> Seq<char>
    decreases items.len(),
{
    if items.len() == 0 {
        seq![]
    } else if items.len() == 1 {
        item_name(items[0].0) + ": "@ + decimal(items[0].1 as nat)
    } else {
        items_text(items.drop_last()) + ", "@ + item_name(items.last().0) + ": "@ + decimal(
            items.last().1 as nat,
        )
    }
}

/// The status report of a bot update.
pub open spec fn status_report(u: BotUpdate) -> Seq<char> {
    let items = u.bot_data.inventory.spec_items();
    "Bot Status Report [Tick "@ + decimal(u.tick as nat) + "]:\n"@ + pos_text(u.bot_data.pos)
        + "\nEnergy: Energy("@ + decimal(u.bot_data.energy.0 as nat) + ")\nItems: "@ + (if items.len()
        == 0 {
        "None"@
    } else {
        items_text(items)
    }) + "\nTeam: "@ + team_name(u.bot_data.team)
}

impl BotLogger {
    /// Logs the tick being processed, and every `log_every_x_ticks` ticks a status report.
    pub fn log_debug_info(&mut self, update: &BotUpdate, log_every_x_ticks: u32)
        requires
            log_every_x_ticks > 0,
        ensures
            final(self).bot_id == old(self).bot_id,
            final(self).current_tick == old(self).current_tick,
            final(self).buffered().len() == old(self).buffered().len() + (if update.tick
                % log_every_x_ticks == 0 {
                2int
            } else {
                1int
            }),
            final(self).buffered().take(old(self).buffered().len() as int) == old(
                self,
            ).buffered(),
            entry_is(
                final(self).buffered()[old(self).buffered().len() as int],
                old(self).bot_id,
                old(self).current_tick,
                LogLevel::Debug,
                "Processing tick "@ + decimal(update.tick as nat),
            ),
            update.tick % log_every_x_ticks == 0 ==> entry_is(
                final(self).buffered().last(),
                old(self).bot_id,
                old(self).current_tick,
                LogLevel::Debug,
                status_report(*update),
            ),
    {
        let mut m = String::new();
        push_str(&mut m, "Processing tick ");
        push_u64(&mut m, update.tick as u64);
        proof {
            assert(m@ =~= "Processing tick "@ + decimal(update.tick as nat));
        }
        self.debug(m);
        let ghost mid = self.buffered();
        if update.tick % log_every_x_ticks == 0 {
            let items = update.bot_data.inventory.iter();
            let mut items_s = String::new();
            if items.len() == 0 {
                push_str(&mut items_s, "None");
            } else {
                let mut k: usize = 0;
                proof {
                    assert(items_s@ =~= Seq::<char>::empty());
                }
                while k < items.len()
                    invariant
                        k <= items@.len(),
                        items@.len() > 0,
                        k == 0 ==> items_s@.len() == 0,
                        k > 0 ==> items_s@ == items_text(items@.take(k as int)),
                    decreases items@.len() - k,
                {
                    if k > 0 {
                        push_str(&mut items_s, ", ");
                    }
                    push_str(&mut items_s, item_str(items[k].0));
                    push_str(&mut items_s, ": ");
                    push_u64(&mut items_s, items[k].1 as u64);
                    proof {
                        let t = items@.take(k as int + 1);
                        assert(t.drop_last() =~= items@.take(k as int));
                        if k == 0 {
                            assert(items_s@ =~= items_text(t));
                        } else {
                            assert(items_s@ =~= items_text(t));
                        }
                    }
                    k = k + 1;
                }
                proof {
                    assert(items@.take(items@.len() as int) =~= items@);
                }
            }
            let mut r = String::new();
            push_str(&mut r, "Bot Status Report [Tick ");
            push_u64(&mut r, update.tick as u64);
            push_str(&mut r, "]:\n");
            push_pos(&mut r, update.bot_data.pos);
            push_str(&mut r, "\nEnergy: Energy(");
            push_u64(&mut r, update.bot_data.energy.0 as u64);
            push_str(&mut r, ")\nItems: ");
            push_str(&mut r, items_s.as_str());
            push_str(&mut r, "\nTeam: ");
            push_str(&mut r, team_str(update.bot_data.team));
            proof {
                assert(r@ =~= status_report(*update));
            }
            self.debug(r);
        }
        proof {
            assert(self.buffered().take(old(self).buffered().len() as int) =~= old(
                self,
            ).buffered());
        }
    }
}

} // verus!
