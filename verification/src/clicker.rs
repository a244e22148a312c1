//! The auto-clicker's state: the target point, the interval between clicks,
//! and whether it is clicking. The clicking itself runs outside, driven by the
//! commands `toggle` returns.

use vstd::prelude::*;
use crate::text::{pad_left, push_space_padded, signed_decimal};

verus! {

/// What the clicking loop has to do after a toggle.
#[derive(Debug, Clone, Copy, PartialEq, Eq, Structural)]
pub enum ClickerCommand {
    /// Start clicking at (`x`, `y`), waiting `interval` milliseconds after
    /// each click.
    Start { x: i32, y: i32, interval: u64 },
    /// Stop clicking.
    Stop,
    /// Nothing: no target point is set, so the clicker stays off.
    NoTarget,
}

/// The clicker.
pub struct Clicker {
    target_x: Option<i32>,
    target_y: Option<i32>,
    interval: u64,
    is_working: bool,
}

/// The target text `X: xxxx  Y: yyyy` (each number right-aligned in four
/// columns), or `-` when no target is set.
pub open spec fn target_text(x: Option<i32>, y: Option<i32>) -> Seq<char> {
    match (x, y) {
        (Some(x), Some(y)) => seq!['X', ':', ' '] + pad_left(signed_decimal(x as int), 4, ' ')
            + seq![' ', ' ', 'Y', ':', ' '] + pad_left(signed_decimal(y as int), 4, ' '),
        _ => seq!['-'],
    }
}

/// What a toggle does: a clicking clicker stops; a stopped one starts at its
/// target with its interval, or stays off without a target. Target and
/// interval are kept.
pub open spec fn toggle_result(before: Clicker, after: Clicker, cmd: ClickerCommand) -> bool {
    &&& after.target_x_spec() == before.target_x_spec()
    &&& after.target_y_spec() == before.target_y_spec()
    &&& after.interval_spec() == before.interval_spec()
    &&& before.working() ==> !after.working() && cmd == ClickerCommand::Stop
    &&& !before.working() ==> match (before.target_x_spec(), before.target_y_spec()) {
        (Some(x), Some(y)) => after.working() && cmd == ClickerCommand::Start {
            x,
            y,
            interval: before.interval_spec(),
        },
        _ => !after.working() && cmd == ClickerCommand::NoTarget,
    }
}

impl Clicker {
    pub closed spec fn target_x_spec(&self) -> Option<i32> {
        self.target_x
    }

    pub closed spec fn target_y_spec(&self) -> Option<i32> {
        self.target_y
    }

    /// The interval between clicks, in milliseconds.
    pub closed spec fn interval_spec(&self) -> u64 {
        self.interval
    }

    /// Whether the clicker is clicking.
    pub closed spec fn working(&self) -> bool {
        self.is_working
    }

    /// No target, 500 ms between clicks, not clicking.
    pub fn new() -> (c: Clicker)
        ensures
            c.target_x_spec() is None,
            c.target_y_spec() is None,
            c.interval_spec() == 500,
            !c.working(),
    {
        Clicker { target_x: None, target_y: None, interval: 500u64, is_working: false }
    }

    /// Sets the interval between clicks; a clicking loop already started
    /// keeps the interval it was started with.
    pub fn set_interval(&mut self, value: u64)
        ensures
            final(self).interval_spec() == value,
            final(self).target_x_spec() == old(self).target_x_spec(),
            final(self).target_y_spec() == old(self).target_y_spec(),
            final(self).working() == old(self).working(),
    {
        self.interval = value;
    }

    /// Sets the point to click at.
    pub fn set_target(&mut self, x: i32, y: i32)
        ensures
            final(self).target_x_spec() == Some(x),
            final(self).target_y_spec() == Some(y),
            final(self).interval_spec() == old(self).interval_spec(),
            final(self).working() == old(self).working(),
    {
        self.target_x = Some(x);
        self.target_y = Some(y);
    }

    /// The target as text: `X: xxxx  Y: yyyy`, or `-` when none is set.
    pub fn target(&self) -> (r: String)
        ensures
            r@ == target_text(self.target_x_spec(), self.target_y_spec()),
    {
        match (self.target_x, self.target_y) {
            (Some(x), Some(y)) => {
                let mut r = String::new();
                r.push('X');
                r.push(':');
                r.push(' ');
                push_space_padded(&mut r, x as i64, 4);
                r.push(' ');
                r.push(' ');
                r.push('Y');
                r.push(':');
                r.push(' ');
                push_space_padded(&mut r, y as i64, 4);
                assert(r@ =~= target_text(self.target_x_spec(), self.target_y_spec()));
                r
            },
            _ => {
                let mut r = String::new();
                r.push('-');
                assert(r@ =~= seq!['-']);
                r
            },
        }
    }

    /// Whether the clicker is clicking.
    pub fn is_working(&self) -> (r: bool)
        ensures
            r == self.working(),
    {
        self.is_working
    }

    /// Starts or stops clicking. Starting needs a target: without one the
    /// clicker stays off and `NoTarget` comes back.
    pub fn toggle(&mut self) -> (cmd: ClickerCommand)
        ensures
            toggle_result(*old(self), *final(self), cmd),
    {
        if !self.is_working {
            match (self.target_x, self.target_y) {
                (Some(x), Some(y)) => {
                    self.is_working = true;
                    ClickerCommand::Start { x, y, interval: self.interval }
                },
                _ => ClickerCommand::NoTarget,
            }
        } else {
            self.is_working = false;
            ClickerCommand::Stop
        }
    }

    /// Stops clicking, whatever the state.
    pub fn stop(&mut self)
        ensures
            !final(self).working(),
            final(self).target_x_spec() == old(self).target_x_spec(),
            final(self).target_y_spec() == old(self).target_y_spec(),
            final(self).interval_spec() == old(self).interval_spec(),
    {
        self.is_working = false;
    }
}

/// Toggling twice restores whether the clicker clicks, once a target is
/// set; without a target the clicker never starts.
pub proof fn lemma_toggle_twice(
    a: Clicker,
    b: Clicker,
    c: Clicker,
    first: ClickerCommand,
    second: ClickerCommand,
)
    requires
        toggle_result(a, b, first),
        toggle_result(b, c, second),
    ensures
        a.target_x_spec() is Some && a.target_y_spec() is Some ==> c.working() == a.working(),
        !(a.target_x_spec() is Some && a.target_y_spec() is Some) && !a.working() ==> !b.working()
            && !c.working() && first == ClickerCommand::NoTarget && second
            == ClickerCommand::NoTarget,
{
}

} // verus!
