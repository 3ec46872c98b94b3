//! Display helpers of the terminal dashboard.
use vstd::prelude::*;
use crate::signal::types::{SignalClass, SignalId, signal_label};

verus! {

/// The short name of signal `id` on the dashboard; any other id gets its
/// label (`s_` and four zero-padded digits).
pub open spec fn dashboard_signal_name(id: u32) -> Seq<char> {
    if id == 0 { "s_continuity"@ }
    else if id == 1 { "s_integrity"@ }
    else if id == 2 { "s_coherence"@ }
    else if id == 3 { "s_memory"@ }
    else if id == 4 { "s_disk"@ }
    else if id == 5 { "s_meta"@ }
    else if id == 6 { "s_drive"@ }
    else if id == 17 { "s_cpu_load"@ }
    else if id == 18 { "s_net_rx"@ }
    else if id == 19 { "s_net_tx"@ }
    else if id == 20 { "s_disk_io"@ }
    else if id == 21 { "s_uptime"@ }
    else if id == 22 { "s_proc_cnt"@ }
    else if id == 23 { "s_swap_used"@ }
    else if id == 24 { "s_iowait"@ }
    else if id == 25 { "s_ctx_switches"@ }
    else if id == 26 { "s_tick_rate"@ }
    else if id == 27 { "s_mem_available"@ }
    else if id == 28 { "s_quake_rate"@ }
    else if id == 29 { "s_quake_mag"@ }
    else if id == 30 { "s_quake_depth"@ }
    else if id == 31 { "s_quake_sig"@ }
    else { signal_label(id) }
}

/// Dashboard names of well-known signals.
pub fn signal_name(id: u32) -> (r: String)
    ensures
        r@ == dashboard_signal_name(id),
{
    match id {
        0 => "s_continuity".to_owned(),
        1 => "s_integrity".to_owned(),
        2 => "s_coherence".to_owned(),
        3 => "s_memory".to_owned(),
        4 => "s_disk".to_owned(),
        5 => "s_meta".to_owned(),
        6 => "s_drive".to_owned(),
        17 => "s_cpu_load".to_owned(),
        18 => "s_net_rx".to_owned(),
        19 => "s_net_tx".to_owned(),
        20 => "s_disk_io".to_owned(),
        21 => "s_uptime".to_owned(),
        22 => "s_proc_cnt".to_owned(),
        23 => "s_swap_used".to_owned(),
        24 => "s_iowait".to_owned(),
        25 => "s_ctx_switches".to_owned(),
        26 => "s_tick_rate".to_owned(),
        27 => "s_mem_available".to_owned(),
        28 => "s_quake_rate".to_owned(),
        29 => "s_quake_mag".to_owned(),
        30 => "s_quake_depth".to_owned(),
        31 => "s_quake_sig".to_owned(),
        n => SignalId(n).to_string(),
    }
}

/// Display order of signal classes: continuity first, efferent last.
pub open spec fn class_rank(c: SignalClass) -> u8 {
    match c {
        SignalClass::Continuity => 0,
        SignalClass::Derived => 1,
        SignalClass::Somatic => 2,
        SignalClass::World => 3,
        SignalClass::Efferent => 4,
    }
}

pub fn class_order(c: &SignalClass) -> (r: u8)
    ensures
        r == class_rank(*c),
{
    match c {
        SignalClass::Continuity => 0,
        SignalClass::Derived => 1,
        SignalClass::Somatic => 2,
        SignalClass::World => 3,
        SignalClass::Efferent => 4,
    }
}

/// Which panel the keyboard drives.
#[derive(Debug, Clone, Copy, PartialEq, Eq, Structural)]
pub enum Mode {
    Normal,
    /// Injecting stimuli into the selected signal.
    Stress,
    /// Editing the weight of the selected signal.
    Weight,
}

/// A key as the dashboard distinguishes them.
#[derive(Debug, Clone, Copy, PartialEq, Eq, Structural)]
pub enum KeyPress {
    Char(char),
    Up,
    Down,
    Esc,
    Other,
}

/// An oscillation in progress: the signal, whether the next pulse is
/// upward, and the pulses left.
#[derive(Debug, Clone, Copy, PartialEq, Eq, Structural)]
pub struct Oscillation {
    pub signal: u32,
    pub up: bool,
    pub left: u32,
}

/// The dashboard's keyboard state: the mode, the selected signal row, and an
/// oscillation in progress.
#[derive(Debug, Clone, Copy, PartialEq, Eq, Structural)]
pub struct ControlState {
    pub mode: Mode,
    pub selected: usize,
    pub oscillate: Option<Oscillation>,
}

/// What a key asks of the dashboard's caller; rows are positions in the
/// displayed signal list.
#[derive(Debug, Clone, Copy, PartialEq, Eq, Structural)]
pub enum Effect {
    Quit,
    /// Nudge the row's signal up or down.
    Nudge(usize, bool),
    Spike(usize),
    Drop(usize),
    /// Push the row's signal back toward its baseline.
    Normalize(usize),
    /// Raise a somatic row's signal (one effect per somatic row).
    Pressure(usize),
    /// Raise or lower the row's weight.
    Reweigh(usize, bool),
}

/// The initial keyboard state.
pub open spec fn initial_control() -> ControlState {
    ControlState { mode: Mode::Normal, selected: 0, oscillate: None }
}

/// The selection moved up one row (not past the first).
pub open spec fn moved_up(c: ControlState, n: nat) -> ControlState {
    if n > 0 { ControlState { selected: if c.selected > 0 { (c.selected - 1) as usize } else { 0 }, ..c } } else { c }
}

/// The selection moved down one row (not past the last).
pub open spec fn moved_down(c: ControlState, n: nat) -> ControlState {
    if n > 0 {
        ControlState { selected: if c.selected + 1 <= n - 1 { (c.selected + 1) as usize } else { (n - 1) as usize }, ..c }
    } else {
        c
    }
}

/// A single effect on the selected row, if there is one.
pub open spec fn on_selected(c: ControlState, n: nat, e: Effect) -> Seq<Effect> {
    if c.selected < n { seq![e] } else { Seq::empty() }
}

/// The rows holding somatic signals, in order.
pub open spec fn somatic_rows(rows: Seq<(u32, SignalClass)>, k: nat) -> Seq<Effect>
    decreases k,
{
    if k == 0 {
        Seq::empty()
    } else {
        let prev = somatic_rows(rows, (k - 1) as nat);
        if rows[k - 1].1 == SignalClass::Somatic { prev.push(Effect::Pressure((k - 1) as usize)) } else { prev }
    }
}

/// The new keyboard state and the effects of `key` (with Ctrl held when
/// `ctrl`) over the displayed rows (signal id and class of each).
pub open spec fn key_step(c: ControlState, key: KeyPress, ctrl: bool, rows: Seq<(u32, SignalClass)>) -> (ControlState, Seq<Effect>) {
    let n = rows.len();
    let quit = key == KeyPress::Char('q') || (key == KeyPress::Char('c') && ctrl);
    match c.mode {
        Mode::Normal => {
            if quit {
                (c, seq![Effect::Quit])
            } else if key == KeyPress::Char('s') {
                (ControlState { mode: Mode::Stress, ..c }, Seq::empty())
            } else if key == KeyPress::Char('w') {
                (ControlState { mode: Mode::Weight, ..c }, Seq::empty())
            } else {
                (c, Seq::empty())
            }
        },
        Mode::Stress => {
            if key == KeyPress::Esc || key == KeyPress::Char('s') {
                (ControlState { mode: Mode::Normal, oscillate: None, ..c }, Seq::empty())
            } else if quit {
                (c, seq![Effect::Quit])
            } else if key == KeyPress::Up || key == KeyPress::Char('k') {
                (moved_up(c, n), Seq::empty())
            } else if key == KeyPress::Down || key == KeyPress::Char('j') {
                (moved_down(c, n), Seq::empty())
            } else if key == KeyPress::Char('+') || key == KeyPress::Char('=') {
                (c, on_selected(c, n, Effect::Nudge(c.selected, true)))
            } else if key == KeyPress::Char('-') {
                (c, on_selected(c, n, Effect::Nudge(c.selected, false)))
            } else if key == KeyPress::Char('1') {
                (c, on_selected(c, n, Effect::Spike(c.selected)))
            } else if key == KeyPress::Char('2') {
                (c, on_selected(c, n, Effect::Drop(c.selected)))
            } else if key == KeyPress::Char('3') {
                (c, on_selected(c, n, Effect::Normalize(c.selected)))
            } else if key == KeyPress::Char('4') {
                (c, somatic_rows(rows, n))
            } else if key == KeyPress::Char('5') {
                if c.selected < n {
                    (ControlState { oscillate: Some(Oscillation { signal: rows[c.selected as int].0, up: true, left: 20 }), ..c }, Seq::empty())
                } else {
                    (c, Seq::empty())
                }
            } else {
                (c, Seq::empty())
            }
        },
        Mode::Weight => {
            if key == KeyPress::Esc || key == KeyPress::Char('w') {
                (ControlState { mode: Mode::Normal, ..c }, Seq::empty())
            } else if quit {
                (c, seq![Effect::Quit])
            } else if key == KeyPress::Up || key == KeyPress::Char('k') {
                (moved_up(c, n), Seq::empty())
            } else if key == KeyPress::Down || key == KeyPress::Char('j') {
                (moved_down(c, n), Seq::empty())
            } else if (key == KeyPress::Char('[') || key == KeyPress::Char(']')) && c.selected < n
                && rows[c.selected as int].1 != SignalClass::Continuity {
                (c, seq![Effect::Reweigh(c.selected, key == KeyPress::Char(']'))])
            } else {
                (c, Seq::empty())
            }
        },
    }
}

/// The next oscillation pulse (signal id and direction), and the state
/// after it: the direction alternates until the pulses run out.
pub open spec fn pulse_step(c: ControlState) -> (Option<(u32, bool)>, ControlState) {
    match c.oscillate {
        Some(o) => (
            Some((o.signal, o.up)),
            ControlState {
                oscillate: if o.left <= 1 { None } else { Some(Oscillation { up: !o.up, left: (o.left - 1) as u32, ..o }) },
                ..c
            },
        ),
        None => (None, c),
    }
}

impl ControlState {
    /// Normal mode, first row selected, no oscillation.
    pub fn new() -> (c: ControlState)
        ensures
            c == initial_control(),
    {
        ControlState { mode: Mode::Normal, selected: 0, oscillate: None }
    }

    /// Keep the selection within `n` rows.
    pub fn clamp_selection(&mut self, n: usize)
        ensures
            *final(self) == (if n > 0 && old(self).selected > n - 1 {
                ControlState { selected: (n - 1) as usize, ..*old(self) }
            } else {
                *old(self)
            }),
    {
        if n > 0 && self.selected > n - 1 {
            self.selected = n - 1;
        }
    }

    /// Take the next oscillation pulse, if one is in progress.
    pub fn pulse(&mut self) -> (r: Option<(u32, bool)>)
        ensures
            (r, *final(self)) == pulse_step(*old(self)),
    {
        match self.oscillate {
            Some(o) => {
                self.oscillate = if o.left <= 1 { None } else { Some(Oscillation { up: !o.up, left: o.left - 1, ..o }) };
                Some((o.signal, o.up))
            },
            None => None,
        }
    }

    /// Handle one key over the displayed rows.
    pub fn on_key(&mut self, key: KeyPress, ctrl: bool, rows: &[(u32, SignalClass)]) -> (effects: Vec<Effect>)
        ensures
            (*final(self), effects@) == key_step(*old(self), key, ctrl, rows@),
    {
        let n = rows.len();
        let quit = match key {
            KeyPress::Char('q') => true,
            KeyPress::Char('c') => ctrl,
            _ => false,
        };
        let mut out: Vec<Effect> = Vec::new();
        match self.mode {
            Mode::Normal => {
                if quit {
                    out.push(Effect::Quit);
                } else if key == KeyPress::Char('s') {
                    self.mode = Mode::Stress;
                } else if key == KeyPress::Char('w') {
                    self.mode = Mode::Weight;
                }
            },
            Mode::Stress => {
                if key == KeyPress::Esc || key == KeyPress::Char('s') {
                    self.mode = Mode::Normal;
                    self.oscillate = None;
                } else if quit {
                    out.push(Effect::Quit);
                } else if key == KeyPress::Up || key == KeyPress::Char('k') {
                    self.move_up(n);
                } else if key == KeyPress::Down || key == KeyPress::Char('j') {
                    self.move_down(n);
                } else if key == KeyPress::Char('+') || key == KeyPress::Char('=') {
                    if self.selected < n {
                        out.push(Effect::Nudge(self.selected, true));
                    }
                } else if key == KeyPress::Char('-') {
                    if self.selected < n {
                        out.push(Effect::Nudge(self.selected, false));
                    }
                } else if key == KeyPress::Char('1') {
                    if self.selected < n {
                        out.push(Effect::Spike(self.selected));
                    }
                } else if key == KeyPress::Char('2') {
                    if self.selected < n {
                        out.push(Effect::Drop(self.selected));
                    }
                } else if key == KeyPress::Char('3') {
                    if self.selected < n {
                        out.push(Effect::Normalize(self.selected));
                    }
                } else if key == KeyPress::Char('4') {
                    let mut k: usize = 0;
                    while k < n
                        invariant
                            n == rows@.len(),
                            k <= n,
                            out@ == somatic_rows(rows@, k as nat),
                        decreases n - k,
                    {
                        if rows[k].1 == SignalClass::Somatic {
                            out.push(Effect::Pressure(k));
                        }
                        k = k + 1;
                    }
                } else if key == KeyPress::Char('5') {
                    if self.selected < n {
                        self.oscillate = Some(Oscillation { signal: rows[self.selected].0, up: true, left: 20 });
                    }
                }
            },
            Mode::Weight => {
                if key == KeyPress::Esc || key == KeyPress::Char('w') {
                    self.mode = Mode::Normal;
                } else if quit {
                    out.push(Effect::Quit);
                } else if key == KeyPress::Up || key == KeyPress::Char('k') {
                    self.move_up(n);
                } else if key == KeyPress::Down || key == KeyPress::Char('j') {
                    self.move_down(n);
                } else if (key == KeyPress::Char('[') || key == KeyPress::Char(']')) && self.selected < n
                    && rows[self.selected].1 != SignalClass::Continuity {
                    out.push(Effect::Reweigh(self.selected, key == KeyPress::Char(']')));
                }
            },
        }
        out
    }

    fn move_up(&mut self, n: usize)
        ensures
            *final(self) == moved_up(*old(self), n as nat),
    {
        if n > 0 && self.selected > 0 {
            self.selected = self.selected - 1;
        }
    }

    fn move_down(&mut self, n: usize)
        ensures
            *final(self) == moved_down(*old(self), n as nat),
    {
        if n > 0 {
            if self.selected < n - 1 {
                self.selected = self.selected + 1;
            } else {
                self.selected = n - 1;
            }
        }
    }
}


/// The state after `k` oscillation pulses.
pub open spec fn after_pulses(c: ControlState, k: nat) -> ControlState
    decreases k,
{
    if k == 0 { c } else { after_pulses(pulse_step(c).1, (k - 1) as nat) }
}

/// A key never moves the selection off the displayed rows: a selection
/// within the rows stays within them.
pub proof fn law_key_keeps_selection(c: ControlState, key: KeyPress, ctrl: bool, rows: Seq<(u32, SignalClass)>)
    requires
        c.selected < rows.len(),
    ensures
        key_step(c, key, ctrl, rows).0.selected < rows.len(),
{
}

/// An oscillation ends once its pulses have run out, and each pulse before
/// that reverses the direction of the one before.
pub proof fn law_oscillation_ends(c: ControlState)
    requires
        c.oscillate is Some,
        c.oscillate->0.left >= 1,
    ensures
        after_pulses(c, c.oscillate->0.left as nat).oscillate is None,
        c.oscillate->0.left > 1 ==> pulse_step(c).1.oscillate == Some(Oscillation {
            up: !c.oscillate->0.up,
            left: (c.oscillate->0.left - 1) as u32,
            ..c.oscillate->0
        }),
    decreases c.oscillate->0.left,
{
    let o = c.oscillate->0;
    let next = pulse_step(c).1;
    if o.left > 1 {
        law_oscillation_ends(next);
        assert(after_pulses(c, o.left as nat) == after_pulses(next, (o.left - 1) as nat));
    } else {
        assert(after_pulses(next, 0) == next);
    }
}

/// The pulses of an oscillation alternate in direction: before its pulses
/// run out, after `k` pulses the next one goes the first one's way when `k`
/// is even and the other way when it is odd, on the same signal, with
/// `left - k` pulses to go.
pub proof fn law_oscillation_alternates(c: ControlState, k: nat)
    requires
        c.oscillate is Some,
        k < c.oscillate->0.left,
    ensures
        after_pulses(c, k).oscillate == Some(Oscillation {
            up: if k % 2 == 0 { c.oscillate->0.up } else { !c.oscillate->0.up },
            left: (c.oscillate->0.left - k) as u32,
            ..c.oscillate->0
        }),
        pulse_step(after_pulses(c, k)).0 == Some((
            c.oscillate->0.signal,
            if k % 2 == 0 { c.oscillate->0.up } else { !c.oscillate->0.up },
        )),
    decreases k,
{
    if k > 0 {
        let next = pulse_step(c).1;
        law_oscillation_alternates(next, (k - 1) as nat);
        assert(after_pulses(c, k) == after_pulses(next, (k - 1) as nat));
    }
}

/// Quitting works in every mode: 'q', and 'c' with Ctrl held, ask for
/// exactly one thing, to quit, and leave the keyboard state as it was.
pub proof fn law_quit_in_every_mode(c: ControlState, ctrl: bool, rows: Seq<(u32, SignalClass)>)
    ensures
        key_step(c, KeyPress::Char('q'), ctrl, rows) == (c, seq![Effect::Quit]),
        key_step(c, KeyPress::Char('c'), true, rows) == (c, seq![Effect::Quit]),
{
}

/// Esc always leads back to Normal mode, asking for nothing and keeping
/// the selection; leaving stress mode this way also stops an oscillation.
pub proof fn law_esc_returns_to_normal(c: ControlState, ctrl: bool, rows: Seq<(u32, SignalClass)>)
    ensures
        key_step(c, KeyPress::Esc, ctrl, rows).0.mode == Mode::Normal,
        key_step(c, KeyPress::Esc, ctrl, rows).0.selected == c.selected,
        key_step(c, KeyPress::Esc, ctrl, rows).1 == Seq::<Effect>::empty(),
        c.mode == Mode::Stress ==> key_step(c, KeyPress::Esc, ctrl, rows).0.oscillate is None,
{
}

} // verus!
