//! The navigation program: its two states, their event tables, and what they do on the
//! device.

use vstd::prelude::*;
use vstd::string::StringExecFns;
use vstd::arithmetic::div_mod::{lemma_add_mod_noop_right, lemma_mod_add_multiples_vanish, lemma_mod_self_0, lemma_small_mod};
use crate::entry::{entry_views, RecoveryEntry};
use crate::field::{fit, format_field, uppercase, FieldWidth};
use crate::text::{append_decimal, decimal, decimal_text};

verus! {

/// A signal that the device delivers to the state in charge.
#[derive(Debug, Clone, Copy, PartialEq, Eq, Structural)]
pub enum Event {
    /// The program is entered.
    Enter,
    /// The program is resumed.
    Resume,
    /// The button for the next entry goes down.
    Next,
    /// The button for the previous entry goes down.
    Prev,
    /// The set button is held.
    SetHeld,
    /// The set button is released.
    SetReleased,
    /// The mode button is pressed.
    Mode,
    /// The periodic timer ticks.
    TimerTick,
    /// The reveal state has handed control back.
    Returned,
}

/// How long the device waits before it delivers the events of a table entry.
#[derive(Debug, Clone, Copy, PartialEq, Eq, Structural)]
pub enum TimingMode {
    Once,
    Tick,
}

/// Where an event leads.
#[derive(Debug, Clone, Copy, PartialEq, Eq, Structural)]
pub enum Target {
    /// To the state with this number.
    State(u8),
    /// Out of the program.
    Exit,
}

/// One entry of a state's event table.
#[derive(Debug, Clone, Copy, PartialEq, Eq, Structural)]
pub struct EventEntry {
    pub event: Event,
    pub timing: TimingMode,
    pub target: Target,
}

/// A state of the program: its number and its event table, in the order in which the device
/// reads it.
#[derive(Debug, Clone, PartialEq, Eq)]
pub struct StateDescriptor {
    pub id: u8,
    pub events: Vec<EventEntry>,
}

impl View for StateDescriptor {
    type V = (u8, Seq<EventEntry>);

    open spec fn view(&self) -> (u8, Seq<EventEntry>) {
        (self.id, self.events@)
    }
}

/// The states of a list, as pairs of number and event table.
pub open spec fn state_views(states: Seq<StateDescriptor>) -> Seq<(u8, Seq<EventEntry>)> {
    Seq::new(states.len(), |i: int| states[i]@)
}

/// The state that the device is in.
#[derive(Debug, Clone, Copy, PartialEq, Eq, Structural)]
pub enum StateId {
    /// The services are listed.
    Idle,
    /// The code of the current entry is shown while the set button is held.
    Reveal,
}

impl StateId {
    /// The number of the state in the program.
    pub open spec fn number(self) -> u8 {
        match self {
            StateId::Idle => 0,
            StateId::Reveal => 1,
        }
    }
}

/// What the program keeps between events: the state in charge and the index of the current
/// entry.
#[derive(Debug, Clone, Copy, PartialEq, Eq, Structural)]
pub struct Device {
    pub state: StateId,
    pub index: usize,
}

/// What a state does when it handles an event.
#[derive(Debug, Clone, Copy, PartialEq, Eq, Structural)]
pub enum Action {
    /// The three lines are drawn, with the service of this entry on the bottom line.
    ShowService { index: usize },
    /// The three lines are drawn, with the code of this entry on the bottom line.
    ShowCode { index: usize },
    /// The return event is posted for the idle state.
    PostReturn,
    /// Control goes back to the host.
    Exit,
    /// Nothing is drawn or posted.
    Nothing,
}

/// One of the fixed six-character labels of the top and middle lines.
#[derive(Debug, Clone, Copy, PartialEq, Eq, Structural)]
pub enum Label {
    /// The system's own label that asks to hold the button.
    HoldTo,
    /// The label `REVEAL`.
    Reveal,
    /// The label `SHOW`.
    Show,
    /// The label `CODE`.
    Code,
}

/// The three lines of the display.
#[derive(Debug, Clone, PartialEq, Eq)]
pub struct Screen {
    pub top: Label,
    pub middle: Label,
    /// The eight characters of the bottom line.
    pub bottom: String,
}

impl View for Screen {
    type V = (Label, Label, Seq<char>);

    open spec fn view(&self) -> (Label, Label, Seq<char>) {
        (self.top, self.middle, self.bottom@)
    }
}

/// The event table of the idle state.
pub open spec fn idle_events() -> Seq<EventEntry> {
    seq![
        EventEntry { event: Event::Enter, timing: TimingMode::Once, target: Target::State(0) },
        EventEntry { event: Event::Resume, timing: TimingMode::Once, target: Target::State(0) },
        EventEntry { event: Event::Next, timing: TimingMode::Once, target: Target::State(0) },
        EventEntry { event: Event::Prev, timing: TimingMode::Once, target: Target::State(0) },
        EventEntry { event: Event::SetHeld, timing: TimingMode::Tick, target: Target::State(1) },
        EventEntry { event: Event::Mode, timing: TimingMode::Once, target: Target::Exit },
        EventEntry { event: Event::Returned, timing: TimingMode::Once, target: Target::State(0) },
    ]
}

/// The event table of the reveal state.
pub open spec fn reveal_events() -> Seq<EventEntry> {
    seq![
        EventEntry { event: Event::SetReleased, timing: TimingMode::Once, target: Target::State(0) },
        EventEntry { event: Event::TimerTick, timing: TimingMode::Tick, target: Target::State(1) },
    ]
}

/// The event table of a state.
pub open spec fn events_of(state: StateId) -> Seq<EventEntry> {
    match state {
        StateId::Idle => idle_events(),
        StateId::Reveal => reveal_events(),
    }
}

/// The two states of the navigation program, the idle state first.
pub open spec fn navigation_states() -> Seq<(u8, Seq<EventEntry>)> {
    seq![(0u8, idle_events()), (1u8, reveal_events())]
}

/// Where a table sends an event: the target of its first entry for that event, if it has one.
pub open spec fn target_of(events: Seq<EventEntry>, event: Event) -> Option<Target>
    decreases events.len(),
{
    if events.len() == 0 {
        None
    } else if events[0].event == event {
        Some(events[0].target)
    } else {
        target_of(events.skip(1), event)
    }
}

/// The index after the next-button: one further, and from the last entry to the first.
pub open spec fn next_index(count: nat, index: nat) -> nat {
    (index + 1) % count
}

/// The index after the previous-button: one back, and from the first entry to the last.
pub open spec fn prev_index(count: nat, index: nat) -> nat {
    ((index + count - 1) % (count as int)) as nat
}

/// What the program does with an event when it holds `count` entries: the state and index
/// afterwards, and the action taken.
pub open spec fn stepped(count: nat, device: Device, event: Event) -> (Device, Action) {
    match device.state {
        StateId::Idle => match event {
            Event::Enter | Event::Resume | Event::Returned => (
                device,
                Action::ShowService { index: device.index },
            ),
            Event::Next => (
                Device { state: StateId::Idle, index: next_index(count, device.index as nat) as usize },
                Action::ShowService { index: next_index(count, device.index as nat) as usize },
            ),
            Event::Prev => (
                Device { state: StateId::Idle, index: prev_index(count, device.index as nat) as usize },
                Action::ShowService { index: prev_index(count, device.index as nat) as usize },
            ),
            Event::SetHeld => (Device { state: StateId::Reveal, index: device.index }, Action::Nothing),
            Event::Mode => (device, Action::Exit),
            _ => (device, Action::Nothing),
        },
        StateId::Reveal => match event {
            Event::TimerTick => (device, Action::ShowCode { index: device.index }),
            Event::SetReleased => (
                Device { state: StateId::Idle, index: device.index },
                Action::PostReturn,
            ),
            _ => (device, Action::Nothing),
        },
    }
}

/// The device after the same event was delivered `times` times.
pub open spec fn repeated(count: nat, device: Device, event: Event, times: nat) -> Device
    decreases times,
{
    if times == 0 {
        device
    } else {
        stepped(count, repeated(count, device, event, (times - 1) as nat), event).0
    }
}

/// What the program does with an event and with the event that its handling posts. The
/// device hands over one event at a time, and a posted event is handled in full before the
/// next one from outside: so the return that the reveal state posts is handled, by the idle
/// state, right after the release that caused it.
pub open spec fn delivered(count: nat, device: Device, event: Event) -> (Device, Seq<Action>) {
    let first = stepped(count, device, event);
    if first.1 == Action::PostReturn {
        let second = stepped(count, first.0, Event::Returned);
        (second.0, seq![first.1, second.1])
    } else {
        (first.0, seq![first.1])
    }
}

/// What the program does with a queue of events, handled in order: the device afterwards and
/// all actions taken.
pub open spec fn ran(count: nat, device: Device, events: Seq<Event>) -> (Device, Seq<Action>)
    decreases events.len(),
{
    if events.len() == 0 {
        (device, Seq::empty())
    } else {
        let before = ran(count, device, events.drop_last());
        let last = delivered(count, before.0, events.last());
        (last.0, before.1 + last.1)
    }
}

/// What the display shows after an action: the two fixed labels and, on the bottom line, the
/// eight-character field of the entry. Only the two displays draw, and only for an entry
/// that exists.
pub open spec fn screen_of(action: Action, entries: Seq<(Seq<char>, Seq<char>)>) -> Option<
    (Label, Label, Seq<char>),
> {
    match action {
        Action::ShowService { index } => if index < entries.len() {
            Some((Label::HoldTo, Label::Reveal, fit(uppercase(entries[index as int].0), 8)))
        } else {
            None
        },
        Action::ShowCode { index } => if index < entries.len() {
            Some((Label::Show, Label::Code, fit(uppercase(entries[index as int].1), 8)))
        } else {
            None
        },
        _ => None,
    }
}

/// The name of an event in the program text.
pub open spec fn event_name(event: Event) -> Seq<char> {
    match event {
        Event::Enter => "EVT_ENTER"@,
        Event::Resume => "EVT_RESUME"@,
        Event::Next => "EVT_DNNEXT"@,
        Event::Prev => "EVT_DNPREV"@,
        Event::SetHeld => "EVT_SET"@,
        Event::SetReleased => "EVT_UPSET"@,
        Event::Mode => "EVT_MODE"@,
        Event::TimerTick => "EVT_TIMER2"@,
        Event::Returned => "EVT_USER0"@,
    }
}

/// The name of a timing mode in the program text.
pub open spec fn timing_name(timing: TimingMode) -> Seq<char> {
    match timing {
        TimingMode::Once => "TIM_ONCE"@,
        TimingMode::Tick => "TIM2_TIC"@,
    }
}

/// A target as the program text writes it.
pub open spec fn target_text(target: Target) -> Seq<char> {
    match target {
        Target::State(id) => decimal_text(id as nat),
        Target::Exit => "$FF"@,
    }
}

/// The line of one table entry.
pub open spec fn entry_line(entry: EventEntry) -> Seq<char> {
    "        db      "@ + event_name(entry.event) + ","@ + timing_name(entry.timing) + ","@
        + target_text(entry.target) + "\n"@
}

/// The lines of the entries of a table.
pub open spec fn entry_lines(events: Seq<EventEntry>) -> Seq<char>
    decreases events.len(),
{
    if events.len() == 0 {
        Seq::empty()
    } else {
        entry_lines(events.drop_last()) + entry_line(events.last())
    }
}

/// The text of one state's table: its label, its number, its entries and the end mark.
pub open spec fn state_table_text(state: (u8, Seq<EventEntry>)) -> Seq<char> {
    "STATETAB"@ + decimal_text(state.0 as nat) + ":\n        db      "@ + decimal_text(
        state.0 as nat,
    ) + "\n"@ + entry_lines(state.1) + "        db      EVT_END\n"@
}

/// The text of the tables of all states, each followed by an empty line.
pub open spec fn state_tables_text(states: Seq<(u8, Seq<EventEntry>)>) -> Seq<char>
    decreases states.len(),
{
    if states.len() == 0 {
        Seq::empty()
    } else {
        state_tables_text(states.drop_last()) + state_table_text(states.last()) + "\n"@
    }
}

/// The idle state.
pub fn idle_state() -> (state: StateDescriptor)
    ensures
        state@ == (0u8, idle_events()),
{
    let mut events: Vec<EventEntry> = Vec::new();
    events.push(EventEntry { event: Event::Enter, timing: TimingMode::Once, target: Target::State(0) });
    events.push(EventEntry { event: Event::Resume, timing: TimingMode::Once, target: Target::State(0) });
    events.push(EventEntry { event: Event::Next, timing: TimingMode::Once, target: Target::State(0) });
    events.push(EventEntry { event: Event::Prev, timing: TimingMode::Once, target: Target::State(0) });
    events.push(EventEntry { event: Event::SetHeld, timing: TimingMode::Tick, target: Target::State(1) });
    events.push(EventEntry { event: Event::Mode, timing: TimingMode::Once, target: Target::Exit });
    events.push(EventEntry { event: Event::Returned, timing: TimingMode::Once, target: Target::State(0) });
    assert(events@ =~= idle_events());
    StateDescriptor { id: 0, events }
}

/// The reveal state.
pub fn reveal_state() -> (state: StateDescriptor)
    ensures
        state@ == (1u8, reveal_events()),
{
    let mut events: Vec<EventEntry> = Vec::new();
    events.push(
        EventEntry { event: Event::SetReleased, timing: TimingMode::Once, target: Target::State(0) },
    );
    events.push(EventEntry { event: Event::TimerTick, timing: TimingMode::Tick, target: Target::State(1) });
    assert(events@ =~= reveal_events());
    StateDescriptor { id: 1, events }
}

/// The two states of the navigation program.
pub fn navigation() -> (states: Vec<StateDescriptor>)
    ensures
        state_views(states@) == navigation_states(),
{
    let mut states: Vec<StateDescriptor> = Vec::new();
    states.push(idle_state());
    states.push(reveal_state());
    assert(state_views(states@) =~= navigation_states());
    states
}

/// Appends the line of one table entry.
pub fn append_entry_line(out: &mut String, entry: &EventEntry)
    ensures
        final(out)@ == old(out)@ + entry_line(*entry),
{
    let event = match entry.event {
        Event::Enter => "EVT_ENTER",
        Event::Resume => "EVT_RESUME",
        Event::Next => "EVT_DNNEXT",
        Event::Prev => "EVT_DNPREV",
        Event::SetHeld => "EVT_SET",
        Event::SetReleased => "EVT_UPSET",
        Event::Mode => "EVT_MODE",
        Event::TimerTick => "EVT_TIMER2",
        Event::Returned => "EVT_USER0",
    };
    let timing = match entry.timing {
        TimingMode::Once => "TIM_ONCE",
        TimingMode::Tick => "TIM2_TIC",
    };
    out.append("        db      ");
    out.append(event);
    out.append(",");
    out.append(timing);
    out.append(",");
    let ghost before = out@;
    match entry.target {
        Target::State(id) => {
            append_decimal(out, id as usize);
        },
        Target::Exit => {
            out.append("$FF");
        },
    }
    assert(out@ == before + target_text(entry.target));
    out.append("\n");
    assert(out@ == old(out)@ + entry_line(*entry));
}

/// Appends the table of one state.
pub fn append_state_table(out: &mut String, state: &StateDescriptor)
    ensures
        final(out)@ == old(out)@ + state_table_text(state@),
{
    out.append("STATETAB");
    append_decimal(out, state.id as usize);
    out.append(":\n        db      ");
    append_decimal(out, state.id as usize);
    out.append("\n");
    let ghost head = out@;
    let n = state.events.len();
    let mut i: usize = 0;
    assert(state.events@.take(0) == Seq::<EventEntry>::empty());
    assert(head + entry_lines(state.events@.take(0)) == head);
    while i < n
        invariant
            i <= n == state.events@.len(),
            out@ == head + entry_lines(state.events@.take(i as int)),
        decreases n - i,
    {
        proof {
            let next = state.events@.take(i + 1);
            assert(next.drop_last() == state.events@.take(i as int));
            assert(next.last() == state.events@[i as int]);
            assert(head + (entry_lines(next.drop_last()) + entry_line(next.last())) == (head
                + entry_lines(next.drop_last())) + entry_line(next.last()));
        }
        append_entry_line(out, &state.events[i]);
        i = i + 1;
    }
    assert(state.events@.take(n as int) == state.events@);
    out.append("        db      EVT_END\n");
    assert(out@ == old(out)@ + state_table_text(state@));
}

/// The text of the event tables of `states`.
pub fn render_state_tables(states: &[StateDescriptor]) -> (out: String)
    ensures
        out@ == state_tables_text(state_views(states@)),
{
    let n = states.len();
    let mut out = String::new();
    let mut i: usize = 0;
    assert(state_views(states@).take(0) == Seq::<(u8, Seq<EventEntry>)>::empty());
    while i < n
        invariant
            i <= n == states@.len(),
            out@ == state_tables_text(state_views(states@).take(i as int)),
        decreases n - i,
    {
        proof {
            let next = state_views(states@).take(i + 1);
            assert(next.drop_last() == state_views(states@).take(i as int));
            assert(next.last() == states@[i as int]@);
        }
        append_state_table(&mut out, &states[i]);
        out.append("\n");
        i = i + 1;
    }
    assert(state_views(states@).take(n as int) == state_views(states@));
    out
}

/// The index of the last of `count` entries; zero where there is none.
pub open spec fn last_index(count: nat) -> nat {
    if count == 0 {
        0
    } else {
        (count - 1) as nat
    }
}

/// The two operands of the wraparound: the number of entries, against which the index is
/// compared after the next-button, and the index of the last entry, which the
/// previous-button loads at the first.
pub fn wrap_operands(count: usize) -> (operands: (String, String))
    ensures
        operands.0@ == decimal_text(count as nat),
        operands.1@ == decimal_text(last_index(count as nat)),
{
    let last: usize = if count == 0 {
        0
    } else {
        count - 1
    };
    (decimal(count), decimal(last))
}

/// Handles one event as the program on the device does.
pub fn step(count: usize, device: Device, event: Event) -> (result: (Device, Action))
    requires
        count > 0,
        device.index < count,
    ensures
        result == stepped(count as nat, device, event),
        result.0.index < count,
{
    match device.state {
        StateId::Idle => match event {
            Event::Enter | Event::Resume | Event::Returned => (
                device,
                Action::ShowService { index: device.index },
            ),
            Event::Next => {
                let index = if device.index + 1 < count {
                    device.index + 1
                } else {
                    0
                };
                proof {
                    if device.index + 1 < count {
                        lemma_small_mod((device.index + 1) as nat, count as nat);
                    } else {
                        lemma_mod_self_0(count as int);
                    }
                }
                (Device { state: StateId::Idle, index }, Action::ShowService { index })
            },
            Event::Prev => {
                let index = if device.index > 0 {
                    device.index - 1
                } else {
                    count - 1
                };
                proof {
                    if device.index > 0 {
                        lemma_mod_add_multiples_vanish(device.index - 1, count as int);
                        lemma_small_mod((device.index - 1) as nat, count as nat);
                    } else {
                        lemma_small_mod((count - 1) as nat, count as nat);
                    }
                }
                (Device { state: StateId::Idle, index }, Action::ShowService { index })
            },
            Event::SetHeld => (Device { state: StateId::Reveal, index: device.index }, Action::Nothing),
            Event::Mode => (device, Action::Exit),
            _ => (device, Action::Nothing),
        },
        StateId::Reveal => match event {
            Event::TimerTick => (device, Action::ShowCode { index: device.index }),
            Event::SetReleased => (
                Device { state: StateId::Idle, index: device.index },
                Action::PostReturn,
            ),
            _ => (device, Action::Nothing),
        },
    }
}

/// Handles one event and the event that its handling posts.
pub fn deliver(count: usize, device: Device, event: Event) -> (result: (Device, Vec<Action>))
    requires
        count > 0,
        device.index < count,
    ensures
        result.0 == delivered(count as nat, device, event).0,
        result.1@ == delivered(count as nat, device, event).1,
        result.0.index < count,
{
    let first = step(count, device, event);
    let mut actions: Vec<Action> = Vec::new();
    actions.push(first.1);
    match first.1 {
        Action::PostReturn => {
            let second = step(count, first.0, Event::Returned);
            actions.push(second.1);
            assert(actions@ =~= seq![first.1, second.1]);
            (second.0, actions)
        },
        _ => {
            assert(actions@ =~= seq![first.1]);
            (first.0, actions)
        },
    }
}

/// Handles a queue of events in order.
pub fn run(count: usize, device: Device, events: &[Event]) -> (result: (Device, Vec<Action>))
    requires
        count > 0,
        device.index < count,
    ensures
        result.0 == ran(count as nat, device, events@).0,
        result.1@ == ran(count as nat, device, events@).1,
        result.0.index < count,
{
    let n = events.len();
    let mut current = device;
    let mut actions: Vec<Action> = Vec::new();
    let mut i: usize = 0;
    assert(events@.take(0) == Seq::<Event>::empty());
    while i < n
        invariant
            i <= n == events@.len(),
            count > 0,
            current.index < count,
            current == ran(count as nat, device, events@.take(i as int)).0,
            actions@ == ran(count as nat, device, events@.take(i as int)).1,
        decreases n - i,
    {
        proof {
            let next = events@.take(i + 1);
            assert(next.drop_last() == events@.take(i as int));
            assert(next.last() == events@[i as int]);
        }
        let (after, mut taken) = deliver(count, current, events[i]);
        let ghost before = actions@;
        let ghost added = taken@;
        actions.append(&mut taken);
        assert(actions@ == before + added);
        current = after;
        i = i + 1;
    }
    assert(events@.take(n as int) == events@);
    (current, actions)
}

/// What the display shows after an action.
pub fn screen(action: Action, entries: &[RecoveryEntry]) -> (shown: Option<Screen>)
    ensures
        match shown {
            Some(s) => screen_of(action, entry_views(entries@)) == Some(s@),
            None => screen_of(action, entry_views(entries@)) is None,
        },
{
    match action {
        Action::ShowService { index } => {
            if index < entries.len() {
                let field = format_field(entries[index].service.as_str(), FieldWidth::Eight);
                Some(Screen { top: Label::HoldTo, middle: Label::Reveal, bottom: field.text })
            } else {
                None
            }
        },
        Action::ShowCode { index } => {
            if index < entries.len() {
                let field = format_field(entries[index].code.as_str(), FieldWidth::Eight);
                Some(Screen { top: Label::Show, middle: Label::Code, bottom: field.text })
            } else {
                None
            }
        },
        _ => None,
    }
}

/// Holding the set button shows the code of the current entry at each tick, and releasing
/// it brings the service back: the program is in the idle state again, at the same entry.
pub proof fn lemma_hold_and_release(count: nat, index: usize, ticks: Seq<Event>)
    requires
        count > 0,
        index < count,
        forall|k: int| 0 <= k < ticks.len() ==> ticks[k] == Event::TimerTick,
    ensures
        ran(
            count,
            Device { state: StateId::Idle, index },
            seq![Event::SetHeld] + ticks + seq![Event::SetReleased],
        ).0 == (Device { state: StateId::Idle, index }),
        ran(
            count,
            Device { state: StateId::Idle, index },
            seq![Event::SetHeld] + ticks + seq![Event::SetReleased],
        ).1 == seq![Action::Nothing] + Seq::new(ticks.len(), |k: int| Action::ShowCode { index })
            + seq![Action::PostReturn, Action::ShowService { index }],
{
    let idle = Device { state: StateId::Idle, index };
    let held = seq![Event::SetHeld] + ticks;
    lemma_held(count, index, ticks);
    let all = held + seq![Event::SetReleased];
    assert(all.drop_last() == held);
    assert(all.last() == Event::SetReleased);
    let shown = seq![Action::Nothing] + Seq::new(ticks.len(), |k: int| Action::ShowCode { index });
    assert(ran(count, idle, all).1 == shown + seq![
        Action::PostReturn,
        Action::ShowService { index },
    ]);
}

/// While the set button is held, each tick shows the code of the current entry.
proof fn lemma_held(count: nat, index: usize, ticks: Seq<Event>)
    requires
        count > 0,
        index < count,
        forall|k: int| 0 <= k < ticks.len() ==> ticks[k] == Event::TimerTick,
    ensures
        ran(count, Device { state: StateId::Idle, index }, seq![Event::SetHeld] + ticks).0 == (
        Device { state: StateId::Reveal, index }),
        ran(count, Device { state: StateId::Idle, index }, seq![Event::SetHeld] + ticks).1 == seq![
            Action::Nothing,
        ] + Seq::new(ticks.len(), |k: int| Action::ShowCode { index }),
    decreases ticks.len(),
{
    let idle = Device { state: StateId::Idle, index };
    let held = seq![Event::SetHeld] + ticks;
    if ticks.len() == 0 {
        assert(held.drop_last() == Seq::<Event>::empty());
        assert(held.last() == Event::SetHeld);
        assert(ran(count, idle, held.drop_last()) == (idle, Seq::<Action>::empty()));
        assert(ran(count, idle, held).1 =~= seq![Action::Nothing] + Seq::new(
            ticks.len(),
            |k: int| Action::ShowCode { index },
        ));
    } else {
        let fewer = ticks.drop_last();
        lemma_held(count, index, fewer);
        assert(held.drop_last() == seq![Event::SetHeld] + fewer);
        assert(held.last() == ticks[ticks.len() - 1]);
        assert(ran(count, idle, held).1 =~= seq![Action::Nothing] + Seq::new(
            ticks.len(),
            |k: int| Action::ShowCode { index },
        ));
    }
}

/// After the next-button was pressed `times` times in the idle state, the index has moved
/// on by `times`, around the entries.
pub proof fn lemma_next_presses(count: nat, device: Device, times: nat)
    requires
        count > 0,
        count <= usize::MAX,
        device.index < count,
        device.state == StateId::Idle,
    ensures
        repeated(count, device, Event::Next, times).state == StateId::Idle,
        repeated(count, device, Event::Next, times).index == (device.index + times) % (
        count as int),
    decreases times,
{
    if times == 0 {
        lemma_small_mod(device.index as nat, count);
    } else {
        lemma_next_presses(count, device, (times - 1) as nat);
        let before = repeated(count, device, Event::Next, (times - 1) as nat);
        lemma_add_mod_noop_right(1, device.index + times - 1, count as int);
        assert((1 + (device.index + times - 1) % (count as int)) % (count as int) == (1
            + device.index + times - 1) % (count as int));
        assert(0 <= (device.index + times) % (count as int) < count) by (nonlinear_arith)
            requires
                count > 0,
                device.index + times >= 0,
        ;
    }
}

/// The next-button and the previous-button walk a cycle through all `count` entries: `count`
/// presses of the next-button lead back to the start and fewer do not; the previous-button
/// leads from the first entry to the last; and each button undoes the other.
pub proof fn lemma_navigation_cycle(count: nat, device: Device)
    requires
        count > 0,
        count <= usize::MAX,
        device.index < count,
        device.state == StateId::Idle,
    ensures
        repeated(count, device, Event::Next, count) == device,
        forall|times: nat|
            0 < times < count ==> (#[trigger] repeated(count, device, Event::Next, times)).index
                != device.index,
        device.index == 0 ==> stepped(count, device, Event::Prev).0.index == count - 1,
        stepped(count, stepped(count, device, Event::Next).0, Event::Prev).0 == device,
        stepped(count, stepped(count, device, Event::Prev).0, Event::Next).0 == device,
{
    let m = count as int;
    let i = device.index as int;
    lemma_next_presses(count, device, count);
    lemma_mod_add_multiples_vanish(i, m);
    lemma_small_mod(i as nat, count);
    assert((i + count) % m == i);
    assert forall|times: nat| 0 < times < count implies (#[trigger] repeated(
        count,
        device,
        Event::Next,
        times,
    )).index != device.index by {
        lemma_next_presses(count, device, times);
        if i + times < count {
            lemma_small_mod((i + times) as nat, count);
        } else {
            lemma_mod_add_multiples_vanish(i + times - count, m);
            lemma_small_mod((i + times - count) as nat, count);
            assert((m + (i + times - count)) % m == (i + times) % m);
        }
    }
    // One step forward, one step back.
    if i + 1 < count {
        lemma_small_mod((i + 1) as nat, count);
        lemma_mod_add_multiples_vanish(i, m);
        assert((i + 1 + count - 1) % m == (m + i) % m);
    } else {
        lemma_mod_self_0(m);
        assert((i + 1) % m == 0);
        lemma_small_mod((count - 1) as nat, count);
    }
    if i > 0 {
        lemma_mod_add_multiples_vanish(i - 1, m);
        lemma_small_mod((i - 1) as nat, count);
        assert((i + count - 1) % m == (m + (i - 1)) % m);
        lemma_small_mod(i as nat, count);
    } else {
        lemma_small_mod((count - 1) as nat, count);
        lemma_mod_self_0(m);
    }
}

/// The event tables say what the program does: an event that a state's table sends to a
/// state leaves the device in that state, one that it sends out makes the program exit, and
/// one that it does not list changes nothing.
pub proof fn lemma_tables_match_steps(count: nat, device: Device, event: Event)
    ensures
        match target_of(events_of(device.state), event) {
            Some(Target::State(id)) => stepped(count, device, event).0.state.number() == id,
            Some(Target::Exit) => stepped(count, device, event).1 == Action::Exit,
            None => stepped(count, device, event) == (device, Action::Nothing),
        },
{
    reveal_with_fuel(target_of, 8);
}

} // verus!
