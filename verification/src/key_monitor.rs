//! The key monitor's log: whether it records, the bounded list of recorded
//! key presses, and the time stamps written beside them.

use vstd::prelude::*;
use std::time::{Duration, SystemTime, SystemTimeError};
use crate::text::{decimal, lemma_decimal_len_bound, pad_left, pow10, push_zero_padded};

verus! {

/// The most key presses the log keeps; older ones are dropped first.
pub const MAX_ENTRIES: usize = 500;

/// One recorded key press.
#[derive(Debug)]
pub struct LogEntry {
    pub time: String,
    pub key: String,
    pub process: String,
    pub window: String,
}

impl Clone for LogEntry {
    fn clone(&self) -> (r: Self)
        ensures
            r == *self,
    {
        LogEntry {
            time: self.time.clone(),
            key: self.key.clone(),
            process: self.process.clone(),
            window: self.window.clone(),
        }
    }
}

/// The log after a key press `entry` is added: the oldest entry goes first
/// when the log is full.
pub open spec fn pushed_bounded(entries: Seq<LogEntry>, entry: LogEntry) -> Seq<LogEntry> {
    if entries.len() >= MAX_ENTRIES {
        entries.drop_first().push(entry)
    } else {
        entries.push(entry)
    }
}

/// What a toggle of the key monitor does: recording flips, the log stays,
/// and the listener is to be started when recording comes on for the first
/// time.
pub open spec fn monitor_toggle_result(before: KeyMonitor, after: KeyMonitor, start: bool) -> bool {
    &&& after.active() == !before.active()
    &&& after.log() == before.log()
    &&& start == (after.active() && !before.listener_started())
    &&& after.listener_started() == (before.listener_started() || start)
}

/// Whether recording is on, the recorded key presses, and whether the
/// system listener was started (it is started once and never stopped).
pub struct KeyMonitor {
    is_active: bool,
    entries: Vec<LogEntry>,
    thread_started: bool,
}

impl KeyMonitor {
    #[verifier::type_invariant]
    spec fn bounded(&self) -> bool {
        self.entries@.len() <= MAX_ENTRIES
    }

    /// Whether key presses are recorded.
    pub closed spec fn active(&self) -> bool {
        self.is_active
    }

    /// The recorded key presses, oldest first.
    pub closed spec fn log(&self) -> Seq<LogEntry> {
        self.entries@
    }

    /// Whether the system listener was started.
    pub closed spec fn listener_started(&self) -> bool {
        self.thread_started
    }

    /// Not recording, nothing recorded, no listener.
    pub fn new() -> (m: KeyMonitor)
        ensures
            !m.active(),
            m.log() == Seq::<LogEntry>::empty(),
            !m.listener_started(),
    {
        KeyMonitor { is_active: false, entries: Vec::new(), thread_started: false }
    }

    /// Whether key presses are recorded.
    pub fn is_active(&self) -> (r: bool)
        ensures
            r == self.active(),
    {
        self.is_active
    }

    /// Switches recording on or off. Returns whether the system listener has
    /// to be started now: when recording was switched on and no listener was
    /// started before.
    pub fn toggle(&mut self) -> (start_listener: bool)
        ensures
            monitor_toggle_result(*old(self), *final(self), start_listener),
    {
        proof {
            use_type_invariant(&*self);
        }
        self.is_active = !self.is_active;
        let now_active = self.is_active;
        if now_active && !self.thread_started {
            self.thread_started = true;
            true
        } else {
            false
        }
    }

    /// Forgets every recorded key press.
    pub fn clear(&mut self)
        ensures
            final(self).log() == Seq::<LogEntry>::empty(),
            final(self).active() == old(self).active(),
            final(self).listener_started() == old(self).listener_started(),
    {
        self.entries = Vec::new();
    }

    /// A copy of the recorded key presses, oldest first.
    pub fn snapshot(&self) -> (r: Vec<LogEntry>)
        ensures
            r@ == self.log(),
            r@.len() <= MAX_ENTRIES,
    {
        proof {
            use_type_invariant(self);
        }
        let mut r: Vec<LogEntry> = Vec::new();
        let n = self.entries.len();
        for i in 0..n
            invariant
                n == self.entries@.len(),
                r@ == self.entries@.take(i as int),
        {
            r.push(self.entries[i].clone());
            assert(self.entries@.take(i + 1) == self.entries@.take(i as int).push(
                self.entries@[i as int],
            ));
        }
        assert(self.entries@.take(n as int) == self.entries@);
        r
    }

    /// How many key presses are recorded.
    pub fn entry_count(&self) -> (r: usize)
        ensures
            r == self.log().len(),
            r <= MAX_ENTRIES,
    {
        proof {
            use_type_invariant(self);
        }
        self.entries.len()
    }

    /// Records a key press, dropping the oldest one when the log is full.
    pub fn push_entry(&mut self, entry: LogEntry)
        ensures
            final(self).log() == pushed_bounded(old(self).log(), entry),
            final(self).log().len() <= MAX_ENTRIES,
            final(self).active() == old(self).active(),
            final(self).listener_started() == old(self).listener_started(),
    {
        proof {
            use_type_invariant(&*self);
        }
        let mut entries: Vec<LogEntry> = Vec::new();
        std::mem::swap(&mut entries, &mut self.entries);
        if entries.len() >= MAX_ENTRIES {
            entries.remove(0);
        }
        entries.push(entry);
        self.entries = entries;
    }
}

} // verus!

verus! {

/// The system listener is started at most once: after a toggle that
/// starts it, no later toggle starts it again.
pub proof fn lemma_listener_started_once(
    a: KeyMonitor,
    b: KeyMonitor,
    c: KeyMonitor,
    first: bool,
    second: bool,
)
    requires
        monitor_toggle_result(a, b, first),
        monitor_toggle_result(b, c, second),
    ensures
        !(first && second),
        first ==> c.listener_started(),
{
}

/// A key press added to a log of at most `MAX_ENTRIES` entries leaves at
/// most `MAX_ENTRIES`, with the new press last and the older ones kept in
/// order (all of them, or all but the oldest when the log was full).
pub proof fn lemma_push_bounded(entries: Seq<LogEntry>, entry: LogEntry)
    requires
        entries.len() <= MAX_ENTRIES,
    ensures
        pushed_bounded(entries, entry).len() <= MAX_ENTRIES,
        pushed_bounded(entries, entry).last() == entry,
        entries.len() < MAX_ENTRIES ==> pushed_bounded(entries, entry).drop_last() == entries,
        entries.len() == MAX_ENTRIES ==> pushed_bounded(entries, entry).drop_last()
            == entries.drop_first(),
{
    assert(entries.push(entry).drop_last() =~= entries);
    assert(entries.drop_first().push(entry).drop_last() =~= entries.drop_first());
}

#[verifier::external_type_specification]
#[verifier::external_body]
pub struct ExSystemTime(SystemTime);

#[verifier::external_type_specification]
#[verifier::external_body]
pub struct ExSystemTimeError(SystemTimeError);

/// `SystemTime::now`: the current time of the system clock. Nothing is
/// claimed of it.
pub assume_specification[ SystemTime::now ]() -> SystemTime;

/// `Duration::as_secs`: the whole seconds of a duration. Nothing is claimed
/// of it.
pub assume_specification[ Duration::as_secs ](d: &Duration) -> u64;

/// `Duration::subsec_millis`: the fractional part of a duration in whole
/// milliseconds, which its documentation puts below one thousand.
pub assume_specification[ Duration::subsec_millis ](d: &Duration) -> (r: u32)
    ensures
        r < 1000,
;

/// Calls `SystemTime::duration_since` with `UNIX_EPOCH`: the time elapsed
/// since the Unix epoch, or an error when `t` lies before it. Nothing is
/// claimed of which one comes back.
#[verifier::external_body]
fn since_unix_epoch(t: &SystemTime) -> Result<Duration, SystemTimeError> {
    t.duration_since(std::time::UNIX_EPOCH)
}

/// The clock text `HH:MM:SS.mmm` of `secs` seconds and `millis`
/// milliseconds since the epoch, in UTC (the hour taken modulo a day).
pub open spec fn utc_time_text(secs: nat, millis: nat) -> Seq<char> {
    pad_left(decimal((secs / 3600) % 24), 2, '0') + seq![':'] + pad_left(
        decimal((secs % 3600) / 60),
        2,
        '0',
    ) + seq![':'] + pad_left(decimal(secs % 60), 2, '0') + seq!['.'] + pad_left(
        decimal(millis),
        3,
        '0',
    )
}

/// Writes `secs` seconds and `millis` milliseconds since the epoch as the
/// UTC clock text `HH:MM:SS.mmm`.
pub fn format_utc_time(secs: u64, millis: u32) -> (r: String)
    ensures
        r@ == utc_time_text(secs as nat, millis as nat),
{
    let mut r = String::new();
    push_zero_padded(&mut r, (secs / 3600) % 24, 2);
    r.push(':');
    push_zero_padded(&mut r, (secs % 3600) / 60, 2);
    r.push(':');
    push_zero_padded(&mut r, secs % 60, 2);
    r.push('.');
    push_zero_padded(&mut r, millis as u64, 3);
    r
}

/// The clock text of a reading of the clock: seconds and milliseconds since
/// the epoch, or `None` for a clock set before the epoch, which reads as
/// midnight.
pub open spec fn reading_text(reading: Option<(u64, u32)>) -> Seq<char> {
    match reading {
        None => "00:00:00.000"@,
        Some((secs, millis)) => utc_time_text(secs as nat, millis as nat),
    }
}

/// Writes a clock reading as `HH:MM:SS.mmm`; `None` (a clock before the
/// epoch) gives `00:00:00.000`.
pub fn clock_text(reading: Option<(u64, u32)>) -> (r: String)
    ensures
        r@ == reading_text(reading),
{
    match reading {
        Some((secs, millis)) => format_utc_time(secs, millis),
        None => {
            let r = format_utc_time(0, 0);
            proof {
                reveal_strlit("00:00:00.000");
                reveal_with_fuel(decimal, 2);
                assert(decimal(0) == seq!['0']);
                assert(utc_time_text(0, 0) =~= "00:00:00.000"@);
            }
            r
        },
    }
}

/// The current UTC clock time as `HH:MM:SS.mmm`; a clock set before the
/// epoch reads as midnight.
pub fn utc_time_str() -> (r: String)
    ensures
        exists|reading: Option<(u64, u32)>|
            (reading matches Some((s, ms)) ==> ms < 1000) && r@ == reading_text(reading),
{
    let now = SystemTime::now();
    let reading = match since_unix_epoch(&now) {
        Ok(d) => Some((d.as_secs(), d.subsec_millis())),
        Err(_) => None,
    };
    clock_text(reading)
}

/// The clock text always has the twelve characters of `HH:MM:SS.mmm`.
pub proof fn lemma_clock_text_length(secs: nat, millis: nat)
    requires
        millis < 1000,
    ensures
        utc_time_text(secs, millis).len() == 12,
{
    reveal_with_fuel(pow10, 4);
    lemma_decimal_len_bound((secs / 3600) % 24, 2);
    lemma_decimal_len_bound((secs % 3600) / 60, 2);
    lemma_decimal_len_bound(secs % 60, 2);
    lemma_decimal_len_bound(millis, 3);
}

} // verus!
