//! The terminal interface: what a key does to what is shown, and what it asks
//! for.
//!
//! [`TuiState::handle_key`] gives a command. Its caller carries it out and
//! hands the outcome to [`TuiState::completed`].
use vstd::prelude::*;
use vstd::string::StringExecFns;

use super::adjust::{
    adjust_i8, adjust_u64, adjust_u8, adjusted, clamp_index, clamped, class_position, cycle_index,
    cycle_io_class, fitting_priority, move_index, moved, normalize_io_priority,
};
use super::select::is_registered;
use crate::discovery::types::{ApplicationView, DiscoveredApplication};
use crate::integration::autostart::AutostartState;
use crate::order::{stable_sort, stable_sorted};
use crate::registry::model::{
    ApplicationSettingsUpdate, IoPriorityClass, PolicyView, RegisteredApplication, RegisteredView,
};
use crate::registry::operations::{AvailabilityView, RegisteredApplicationAvailability};
use crate::registry::validation::{id_taken, policy_problem, MAX_DELAY_SECONDS};
use crate::text::{
    contains_text, decimal, decimal_text, group_views, is_before, same_text, text_before, views,
};

verus! {

/// A key that the interface knows.
#[derive(Clone, Copy, Debug, PartialEq, Eq, Structural)]
pub enum Key {
    Esc,
    Enter,
    Up,
    Down,
    Left,
    Right,
    Home,
    End,
    Char(char),
    Other,
}

/// What is shown.
#[derive(Clone, Copy, Debug, PartialEq, Eq, Structural)]
pub enum Screen {
    Dashboard,
    Add,
    Configure,
    Doctor,
    Startup,
    Help,
    Confirm,
}

/// What waits for confirmation.
#[derive(Debug, PartialEq, Eq)]
pub enum PendingAction {
    Remove(String),
    StartupEnable { suppress_autostart: bool },
    StartupDisable,
}

/// A pending action by its contents.
pub enum PendingView {
    Remove(Seq<char>),
    StartupEnable { suppress_autostart: bool },
    StartupDisable,
}

impl View for PendingAction {
    type V = PendingView;

    open spec fn view(&self) -> PendingView {
        match self {
            PendingAction::Remove(id) => PendingView::Remove(id@),
            PendingAction::StartupEnable { suppress_autostart } => PendingView::StartupEnable {
                suppress_autostart: *suppress_autostart,
            },
            PendingAction::StartupDisable => PendingView::StartupDisable,
        }
    }
}

pub open spec fn pending_view(pending: Option<PendingAction>) -> Option<PendingView> {
    match pending {
        Some(action) => Some(action@),
        None => None,
    }
}

/// The fields of a draft.
pub const DRAFT_FIELDS: usize = 5;

/// The settings of an application while they are edited.
#[derive(Debug, PartialEq, Eq)]
pub struct ConfigureDraft {
    pub desktop_id: String,
    pub delay_seconds: u64,
    pub nice: i8,
    pub io_class: IoPriorityClass,
    pub io_priority: Option<u8>,
    pub enforce_process_tree: bool,
    /// The field that is edited.
    pub field: usize,
    /// Whether saving restores the defaults.
    pub reset_to_defaults: bool,
}

/// A draft by its contents.
pub struct DraftView {
    pub desktop_id: Seq<char>,
    pub policy: PolicyView,
    pub field: usize,
    pub reset_to_defaults: bool,
}

impl View for ConfigureDraft {
    type V = DraftView;

    open spec fn view(&self) -> DraftView {
        DraftView {
            desktop_id: self.desktop_id@,
            policy: PolicyView {
                delay_seconds: self.delay_seconds,
                nice: self.nice,
                io_class: self.io_class,
                io_priority: self.io_priority,
                enforce_process_tree: self.enforce_process_tree,
            },
            field: self.field,
            reset_to_defaults: self.reset_to_defaults,
        }
    }
}

/// The class at a position among those that are offered.
pub open spec fn class_at(position: int) -> IoPriorityClass {
    if position == 0 {
        IoPriorityClass::Unset
    } else if position == 1 {
        IoPriorityClass::BestEffort
    } else if position == 2 {
        IoPriorityClass::Realtime
    } else {
        IoPriorityClass::Idle
    }
}

impl DraftView {
    pub open spec fn of(application: RegisteredView) -> DraftView {
        DraftView {
            desktop_id: application.desktop_id,
            policy: application.policy,
            field: 0,
            reset_to_defaults: false,
        }
    }

    pub open spec fn with_policy(self, policy: PolicyView) -> DraftView {
        DraftView { policy, ..self }
    }

    /// The draft with another field to edit.
    pub open spec fn with_field_moved(self, delta: int) -> DraftView {
        DraftView { field: ((self.field + delta) % (DRAFT_FIELDS as int)) as usize, ..self }
    }

    /// The draft with its field stepped in a direction.
    pub open spec fn with_adjusted(self, delta: int, coarse: bool) -> DraftView {
        let kept = DraftView { reset_to_defaults: false, ..self };
        let policy = self.policy;
        if self.field == 0 {
            kept.with_policy(
                PolicyView {
                    delay_seconds: adjusted(
                        policy.delay_seconds as int,
                        delta,
                        if coarse {
                            10
                        } else {
                            1
                        },
                        0,
                        MAX_DELAY_SECONDS as int,
                    ) as u64,
                    ..policy
                },
            )
        } else if self.field == 1 {
            kept.with_policy(
                PolicyView {
                    nice: adjusted(
                        policy.nice as int,
                        delta,
                        if coarse {
                            5
                        } else {
                            1
                        },
                        -20,
                        19,
                    ) as i8,
                    ..policy
                },
            )
        } else if self.field == 2 {
            let class = class_at((class_position(policy.io_class) + delta) % 4);
            kept.with_policy(
                PolicyView {
                    io_class: class,
                    io_priority: fitting_priority(policy.io_priority, class),
                    ..policy
                },
            )
        } else if self.field == 3 {
            if policy.io_class == IoPriorityClass::BestEffort || policy.io_class
                == IoPriorityClass::Realtime {
                let current = match policy.io_priority {
                    Some(level) => level as int,
                    None => 4,
                };
                kept.with_policy(
                    PolicyView { io_priority: Some(adjusted(current, delta, 1, 0, 7) as u8), ..policy },
                )
            } else {
                kept
            }
        } else if self.field == 4 {
            kept.with_policy(
                PolicyView { enforce_process_tree: !policy.enforce_process_tree, ..policy },
            )
        } else {
            kept
        }
    }

    /// The settings that saving the draft asks for.
    pub open spec fn update(self) -> ApplicationSettingsUpdate {
        if self.reset_to_defaults {
            ApplicationSettingsUpdate {
                delay_seconds: None,
                nice: None,
                io_class: None,
                io_priority: None,
                enforce_process_tree: None,
                reset_to_defaults: true,
            }
        } else {
            ApplicationSettingsUpdate {
                delay_seconds: Some(self.policy.delay_seconds),
                nice: Some(self.policy.nice),
                io_class: Some(self.policy.io_class),
                io_priority: Some(self.policy.io_priority),
                enforce_process_tree: Some(self.policy.enforce_process_tree),
                reset_to_defaults: false,
            }
        }
    }
}

impl ConfigureDraft {
    /// A draft of the settings of an application.
    pub fn from_application(application: &RegisteredApplication) -> (out: Self)
        ensures
            out@ == DraftView::of(application@),
    {
        ConfigureDraft {
            desktop_id: application.desktop_id.clone(),
            delay_seconds: application.delay_seconds,
            nice: application.nice,
            io_class: application.io_class,
            io_priority: application.io_priority,
            enforce_process_tree: application.enforce_process_tree,
            field: 0,
            reset_to_defaults: false,
        }
    }

    /// Go to the next field in a direction.
    pub fn move_field(&mut self, delta: i32)
        requires
            i32::MIN <= old(self).field + delta <= i32::MAX,
        ensures
            final(self)@ == old(self)@.with_field_moved(delta as int),
            final(self).field < DRAFT_FIELDS,
    {
        self.field = cycle_index(self.field, DRAFT_FIELDS, delta);
    }

    /// Step the field in a direction.
    pub fn adjust(&mut self, delta: i32, coarse: bool)
        requires
            old(self).field == 2 ==> delta <= i32::MAX - 3,
        ensures
            final(self)@ == old(self)@.with_adjusted(delta as int, coarse),
            final(self).field == old(self).field,
    {
        self.reset_to_defaults = false;
        match self.field {
            0 => {
                let step: u64 = if coarse {
                    10
                } else {
                    1
                };
                self.delay_seconds = adjust_u64(self.delay_seconds, delta, step, 0, MAX_DELAY_SECONDS);
            },
            1 => {
                let step: i8 = if coarse {
                    5
                } else {
                    1
                };
                self.nice = adjust_i8(self.nice, delta, step, -20, 19);
            },
            2 => {
                self.io_class = cycle_io_class(self.io_class, delta);
                let mut priority = self.io_priority;
                normalize_io_priority(&mut priority, self.io_class);
                self.io_priority = priority;
            },
            3 => {
                if self.io_class == IoPriorityClass::BestEffort || self.io_class
                    == IoPriorityClass::Realtime {
                    let current: u8 = match self.io_priority {
                        Some(level) => level,
                        None => 4,
                    };
                    self.io_priority = Some(adjust_u8(current, delta, 1, 0, 7));
                }
            },
            4 => {
                self.enforce_process_tree = !self.enforce_process_tree;
            },
            _ => {},
        }
    }

    /// The settings that saving the draft asks for.
    pub fn update(&self) -> (out: ApplicationSettingsUpdate)
        ensures
            out == self@.update(),
    {
        if self.reset_to_defaults {
            ApplicationSettingsUpdate {
                delay_seconds: None,
                nice: None,
                io_class: None,
                io_priority: None,
                enforce_process_tree: None,
                reset_to_defaults: true,
            }
        } else {
            ApplicationSettingsUpdate {
                delay_seconds: Some(self.delay_seconds),
                nice: Some(self.nice),
                io_class: Some(self.io_class),
                io_priority: Some(self.io_priority),
                enforce_process_tree: Some(self.enforce_process_tree),
                reset_to_defaults: false,
            }
        }
    }
}

/// A message to the user.
#[derive(Debug, PartialEq, Eq)]
pub struct TuiMessage {
    pub text: String,
    pub is_error: bool,
}

/// What the interface shows and knows.
#[derive(Debug, PartialEq)]
pub struct TuiState {
    /// The registered applications.
    pub apps: Vec<RegisteredApplication>,
    pub selected: usize,
    pub screen: Screen,
    /// Applications that can be added.
    pub candidates: Vec<DiscoveredApplication>,
    /// The IDs of those that are chosen.
    pub chosen: Vec<String>,
    pub add_index: usize,
    pub configure: Option<ConfigureDraft>,
    /// How many checks the last diagnosis has.
    pub doctor_checks: usize,
    pub doctor_index: usize,
    pub pending: Option<PendingAction>,
    pub message: Option<TuiMessage>,
    pub should_quit: bool,
}

/// A state by its contents.
pub struct StateView {
    pub apps: Seq<RegisteredView>,
    pub selected: int,
    pub screen: Screen,
    pub candidates: Seq<ApplicationView>,
    pub chosen: Seq<Seq<char>>,
    pub add_index: int,
    pub configure: Option<DraftView>,
    pub doctor_checks: int,
    pub doctor_index: int,
    pub pending: Option<PendingView>,
    pub message: Option<(Seq<char>, bool)>,
    pub should_quit: bool,
}

pub open spec fn draft_view(draft: Option<ConfigureDraft>) -> Option<DraftView> {
    match draft {
        Some(draft) => Some(draft@),
        None => None,
    }
}

pub open spec fn message_view(message: Option<TuiMessage>) -> Option<(Seq<char>, bool)> {
    match message {
        Some(message) => Some((message.text@, message.is_error)),
        None => None,
    }
}

impl View for TuiState {
    type V = StateView;

    open spec fn view(&self) -> StateView {
        StateView {
            apps: views(self.apps@),
            selected: self.selected as int,
            screen: self.screen,
            candidates: views(self.candidates@),
            chosen: views(self.chosen@),
            add_index: self.add_index as int,
            configure: draft_view(self.configure),
            doctor_checks: self.doctor_checks as int,
            doctor_index: self.doctor_index as int,
            pending: pending_view(self.pending),
            message: message_view(self.message),
            should_quit: self.should_quit,
        }
    }
}

/// What a key asks for.
#[derive(Debug, PartialEq)]
pub enum TuiCommand {
    Nothing,
    SetEnabled { desktop_id: String, enabled: bool },
    /// Find the applications that can be added.
    Discover,
    Add(Vec<DiscoveredApplication>),
    Configure { desktop_id: String, update: ApplicationSettingsUpdate },
    Remove { desktop_id: String },
    /// Start the launcher for one application.
    Spawn { desktop_id: String, supervise: bool },
    Diagnose,
    RefreshStartup,
    RefreshAll,
    EnableStartup { suppress_autostart: bool },
    DisableStartup,
}

/// A command by its contents.
pub enum CommandView {
    Nothing,
    SetEnabled { desktop_id: Seq<char>, enabled: bool },
    Discover,
    Add(Seq<ApplicationView>),
    Configure { desktop_id: Seq<char>, update: ApplicationSettingsUpdate },
    Remove { desktop_id: Seq<char> },
    Spawn { desktop_id: Seq<char>, supervise: bool },
    Diagnose,
    RefreshStartup,
    RefreshAll,
    EnableStartup { suppress_autostart: bool },
    DisableStartup,
}

impl View for TuiCommand {
    type V = CommandView;

    open spec fn view(&self) -> CommandView {
        match self {
            TuiCommand::Nothing => CommandView::Nothing,
            TuiCommand::SetEnabled { desktop_id, enabled } => CommandView::SetEnabled {
                desktop_id: desktop_id@,
                enabled: *enabled,
            },
            TuiCommand::Discover => CommandView::Discover,
            TuiCommand::Add(all) => CommandView::Add(views(all@)),
            TuiCommand::Configure { desktop_id, update } => CommandView::Configure {
                desktop_id: desktop_id@,
                update: *update,
            },
            TuiCommand::Remove { desktop_id } => CommandView::Remove { desktop_id: desktop_id@ },
            TuiCommand::Spawn { desktop_id, supervise } => CommandView::Spawn {
                desktop_id: desktop_id@,
                supervise: *supervise,
            },
            TuiCommand::Diagnose => CommandView::Diagnose,
            TuiCommand::RefreshStartup => CommandView::RefreshStartup,
            TuiCommand::RefreshAll => CommandView::RefreshAll,
            TuiCommand::EnableStartup { suppress_autostart } => CommandView::EnableStartup {
                suppress_autostart: *suppress_autostart,
            },
            TuiCommand::DisableStartup => CommandView::DisableStartup,
        }
    }
}

/// A list of IDs with one put in, or taken out where it was there.
pub open spec fn toggled(chosen: Seq<Seq<char>>, id: Seq<char>) -> Seq<Seq<char>> {
    if chosen.contains(id) {
        chosen.filter(|other: Seq<char>| other != id)
    } else {
        chosen.push(id)
    }
}

/// The candidates that are chosen.
pub open spec fn chosen_candidates(candidates: Seq<ApplicationView>, chosen: Seq<Seq<char>>) -> Seq<
    ApplicationView,
> {
    candidates.filter(|one: ApplicationView| chosen.contains(one.desktop_id))
}

impl StateView {
    pub open spec fn with_error(self, text: Seq<char>) -> StateView {
        StateView { message: Some((text, true)), ..self }
    }

    pub open spec fn with_note(self, text: Seq<char>) -> StateView {
        StateView { message: Some((text, false)), ..self }
    }

    pub open spec fn on(self, screen: Screen) -> StateView {
        StateView { screen, ..self }
    }

    /// There is a selected application.
    pub open spec fn has_selection(self) -> bool {
        0 <= self.selected < self.apps.len()
    }

    pub open spec fn without_selection(self) -> (StateView, CommandView) {
        (self.with_error("no registered application selected"@), CommandView::Nothing)
    }

    /// A request to start the selected application.
    pub open spec fn spawning(self, supervise: bool) -> (StateView, CommandView) {
        if !self.has_selection() {
            self.without_selection()
        } else if !self.apps[self.selected].enabled {
            (self.with_error("selected application is disabled"@), CommandView::Nothing)
        } else {
            (
                self,
                CommandView::Spawn { desktop_id: self.apps[self.selected].desktop_id, supervise },
            )
        }
    }

    /// What a key does on the dashboard.
    pub open spec fn on_dashboard(self, key: Key) -> (StateView, CommandView) {
        let count = self.apps.len() as int;
        match key {
            Key::Char('q') | Key::Esc => (
                StateView { should_quit: true, ..self },
                CommandView::Nothing,
            ),
            Key::Down | Key::Char('j') => (
                StateView { selected: moved(self.selected, count, 1), ..self },
                CommandView::Nothing,
            ),
            Key::Up | Key::Char('k') => (
                StateView { selected: moved(self.selected, count, -1), ..self },
                CommandView::Nothing,
            ),
            Key::Home | Key::Char('g') => (StateView { selected: 0, ..self }, CommandView::Nothing),
            Key::End | Key::Char('G') => (
                StateView {
                    selected: if count == 0 {
                        0
                    } else {
                        count - 1
                    },
                    ..self
                },
                CommandView::Nothing,
            ),
            Key::Char(' ') => if self.has_selection() {
                (
                    self,
                    CommandView::SetEnabled {
                        desktop_id: self.apps[self.selected].desktop_id,
                        enabled: !self.apps[self.selected].enabled,
                    },
                )
            } else {
                self.without_selection()
            },
            Key::Char('a') => (self, CommandView::Discover),
            Key::Char('c') => if self.has_selection() {
                (
                    StateView {
                        configure: Some(DraftView::of(self.apps[self.selected])),
                        ..self
                    }.on(Screen::Configure),
                    CommandView::Nothing,
                )
            } else {
                self.without_selection()
            },
            Key::Char('x') => if self.has_selection() {
                (
                    StateView {
                        pending: Some(PendingView::Remove(self.apps[self.selected].desktop_id)),
                        ..self
                    }.on(Screen::Confirm),
                    CommandView::Nothing,
                )
            } else {
                self.without_selection()
            },
            Key::Char('r') => self.spawning(false),
            Key::Char('s') => self.spawning(true),
            Key::Char('d') => (self, CommandView::Diagnose),
            Key::Char('u') => (self.on(Screen::Startup), CommandView::RefreshStartup),
            Key::Char('f') => (self, CommandView::RefreshAll),
            Key::Char('?') => (self.on(Screen::Help), CommandView::Nothing),
            _ => (self, CommandView::Nothing),
        }
    }

    /// What a key does while applications are chosen.
    pub open spec fn on_add(self, key: Key) -> (StateView, CommandView) {
        let count = self.candidates.len() as int;
        match key {
            Key::Esc => (self.on(Screen::Dashboard), CommandView::Nothing),
            Key::Down | Key::Char('j') => (
                StateView { add_index: moved(self.add_index, count, 1), ..self },
                CommandView::Nothing,
            ),
            Key::Up | Key::Char('k') => (
                StateView { add_index: moved(self.add_index, count, -1), ..self },
                CommandView::Nothing,
            ),
            Key::Char(' ') => if 0 <= self.add_index < count {
                (
                    StateView {
                        chosen: toggled(self.chosen, self.candidates[self.add_index].desktop_id),
                        ..self
                    },
                    CommandView::Nothing,
                )
            } else {
                (self, CommandView::Nothing)
            },
            Key::Enter => if self.chosen.len() == 0 {
                (
                    self.with_error("select at least one application with Space"@),
                    CommandView::Nothing,
                )
            } else {
                (self, CommandView::Add(chosen_candidates(self.candidates, self.chosen)))
            },
            _ => (self, CommandView::Nothing),
        }
    }

    pub open spec fn with_draft(self, draft: DraftView) -> (StateView, CommandView) {
        (StateView { configure: Some(draft), ..self }, CommandView::Nothing)
    }

    /// What a key does while settings are edited.
    pub open spec fn on_configure(self, key: Key, coarse: bool) -> (StateView, CommandView) {
        match self.configure {
            None => (self.on(Screen::Dashboard), CommandView::Nothing),
            Some(draft) => match key {
                Key::Esc => (
                    StateView { configure: None, ..self }.on(Screen::Dashboard),
                    CommandView::Nothing,
                ),
                Key::Up | Key::Char('k') => self.with_draft(draft.with_field_moved(-1)),
                Key::Down | Key::Char('j') => self.with_draft(draft.with_field_moved(1)),
                Key::Left | Key::Char('h') => self.with_draft(draft.with_adjusted(-1, coarse)),
                Key::Right | Key::Char('l') | Key::Char(' ') => self.with_draft(
                    draft.with_adjusted(1, coarse),
                ),
                Key::Char('r') => self.with_draft(DraftView { reset_to_defaults: true, ..draft }),
                Key::Enter => (
                    self,
                    CommandView::Configure {
                        desktop_id: draft.desktop_id,
                        update: draft.update(),
                    },
                ),
                _ => (self, CommandView::Nothing),
            },
        }
    }

    /// What a key does while a diagnosis is shown.
    pub open spec fn on_doctor(self, key: Key) -> (StateView, CommandView) {
        match key {
            Key::Esc => (self.on(Screen::Dashboard), CommandView::Nothing),
            Key::Down | Key::Char('j') => (
                StateView {
                    doctor_index: moved(self.doctor_index, self.doctor_checks, 1),
                    ..self
                },
                CommandView::Nothing,
            ),
            Key::Up | Key::Char('k') => (
                StateView {
                    doctor_index: moved(self.doctor_index, self.doctor_checks, -1),
                    ..self
                },
                CommandView::Nothing,
            ),
            Key::Char('r') => (self, CommandView::Diagnose),
            _ => (self, CommandView::Nothing),
        }
    }

    pub open spec fn confirming(self, action: PendingView) -> (StateView, CommandView) {
        (StateView { pending: Some(action), ..self }.on(Screen::Confirm), CommandView::Nothing)
    }

    /// What a key does while startup integration is shown.
    pub open spec fn on_startup(self, key: Key) -> (StateView, CommandView) {
        match key {
            Key::Esc => (self.on(Screen::Dashboard), CommandView::Nothing),
            Key::Char('e') => self.confirming(
                PendingView::StartupEnable { suppress_autostart: false },
            ),
            Key::Char('a') => self.confirming(
                PendingView::StartupEnable { suppress_autostart: true },
            ),
            Key::Char('d') => self.confirming(PendingView::StartupDisable),
            Key::Char('r') => (self, CommandView::RefreshStartup),
            _ => (self, CommandView::Nothing),
        }
    }

    /// What a key does while something waits for confirmation.
    pub open spec fn on_confirm(self, key: Key) -> (StateView, CommandView) {
        let settled = StateView { pending: None, ..self }.on(Screen::Dashboard);
        match key {
            Key::Enter | Key::Char('y') => (
                settled,
                match self.pending {
                    None => CommandView::Nothing,
                    Some(PendingView::Remove(desktop_id)) => CommandView::Remove { desktop_id },
                    Some(PendingView::StartupEnable { suppress_autostart }) => {
                        CommandView::EnableStartup { suppress_autostart }
                    },
                    Some(PendingView::StartupDisable) => CommandView::DisableStartup,
                },
            ),
            Key::Esc | Key::Char('n') => (settled, CommandView::Nothing),
            _ => (self, CommandView::Nothing),
        }
    }

    /// What a key does.
    pub open spec fn on_key(self, key: Key, coarse: bool) -> (StateView, CommandView) {
        match self.screen {
            Screen::Dashboard => self.on_dashboard(key),
            Screen::Add => self.on_add(key),
            Screen::Configure => self.on_configure(key, coarse),
            Screen::Doctor => self.on_doctor(key),
            Screen::Startup => self.on_startup(key),
            Screen::Help => match key {
                Key::Esc | Key::Char('q') | Key::Char('?') => (
                    self.on(Screen::Dashboard),
                    CommandView::Nothing,
                ),
                _ => (self, CommandView::Nothing),
            },
            Screen::Confirm => self.on_confirm(key),
        }
    }

    /// The field of a draft is one of those that there are.
    pub open spec fn well_formed(self) -> bool {
        self.configure matches Some(draft) ==> draft.field < DRAFT_FIELDS
    }
}

fn toggle(chosen: &Vec<String>, id: &str) -> (out: Vec<String>)
    ensures
        views(out@) == toggled(views(chosen@), id@),
{
    broadcast use group_views;

    let ghost all = views(chosen@);
    let ghost other = |text: Seq<char>| text != id@;
    let mut out: Vec<String> = Vec::new();
    let mut found = false;
    let mut i: usize = 0;
    proof {
        reveal(Seq::filter);
        assert(all.take(0).filter(other) =~= Seq::empty());
    }
    while i < chosen.len()
        invariant
            i <= chosen@.len(),
            all == views(chosen@),
            other == (|text: Seq<char>| text != id@),
            found == all.take(i as int).contains(id@),
            views(out@) == all.take(i as int).filter(other),
            !found ==> views(out@) == all.take(i as int),
        decreases chosen.len() - i,
    {
        proof {
            let one = chosen@[i as int]@;
            assert(all.take(i + 1) =~= all.take(i as int).push(one));
            all.take(i as int).lemma_filter_push(one, other);
            let less = all.take(i as int);
            let more = all.take(i + 1);
            if found {
                let k = choose|k: int| 0 <= k < less.len() && less[k] == id@;
                assert(more[k] == id@);
            }
            if more.contains(id@) {
                let k = choose|k: int| 0 <= k < more.len() && more[k] == id@;
                if k < i {
                    assert(less[k] == id@);
                }
            }
            assert(more[i as int] == one);
        }
        if same_text(chosen[i].as_str(), id) {
            found = true;
        } else {
            out.push(chosen[i].clone());
        }
        i += 1;
    }
    assert(all.take(all.len() as int) =~= all);
    assert(other =~= (|text: Seq<char>| text != id@));
    if !found {
        out.push(id.to_owned());
    }
    out
}

fn take_chosen(candidates: &Vec<DiscoveredApplication>, chosen: &Vec<String>) -> (out: Vec<
    DiscoveredApplication,
>)
    ensures
        views(out@) == chosen_candidates(views(candidates@), views(chosen@)),
{
    broadcast use group_views;

    let ghost all = views(candidates@);
    let ghost keep = |one: ApplicationView| views(chosen@).contains(one.desktop_id);
    let mut out: Vec<DiscoveredApplication> = Vec::new();
    let mut i: usize = 0;
    proof {
        reveal(Seq::filter);
        assert(all.take(0).filter(keep) =~= Seq::empty());
    }
    while i < candidates.len()
        invariant
            i <= candidates@.len(),
            all == views(candidates@),
            keep == (|one: ApplicationView| views(chosen@).contains(one.desktop_id)),
            views(out@) == all.take(i as int).filter(keep),
        decreases candidates.len() - i,
    {
        proof {
            assert(all.take(i + 1) =~= all.take(i as int).push(candidates@[i as int]@));
            all.take(i as int).lemma_filter_push(candidates@[i as int]@, keep);
        }
        if contains_text(chosen, candidates[i].desktop_id.as_str()) {
            out.push(candidates[i].clone());
        }
        i += 1;
    }
    assert(all.take(all.len() as int) =~= all);
    out
}

impl TuiState {
    /// The interface at its beginning.
    pub fn new() -> (out: Self)
        ensures
            out@ == (StateView {
                apps: Seq::empty(),
                selected: 0,
                screen: Screen::Dashboard,
                candidates: Seq::empty(),
                chosen: Seq::empty(),
                add_index: 0,
                configure: None,
                doctor_checks: 0,
                doctor_index: 0,
                pending: None,
                message: None,
                should_quit: false,
            }),
            out@.well_formed(),
    {
        let out = TuiState {
            apps: Vec::new(),
            selected: 0,
            screen: Screen::Dashboard,
            candidates: Vec::new(),
            chosen: Vec::new(),
            add_index: 0,
            configure: None,
            doctor_checks: 0,
            doctor_index: 0,
            pending: None,
            message: None,
            should_quit: false,
        };
        assert(out@.apps =~= Seq::empty());
        assert(out@.candidates =~= Seq::empty());
        assert(out@.chosen =~= Seq::empty());
        out
    }

    /// Tell the user of an error.
    pub fn set_error(&mut self, text: String)
        ensures
            final(self)@ == old(self)@.with_error(text@),
    {
        self.message = Some(TuiMessage { text, is_error: true });
    }

    /// Tell the user of a success.
    pub fn set_ok(&mut self, text: String)
        ensures
            final(self)@ == old(self)@.with_note(text@),
    {
        self.message = Some(TuiMessage { text, is_error: false });
    }

    /// Take in the registered applications.
    pub fn set_applications(&mut self, apps: Vec<RegisteredApplication>)
        ensures
            final(self)@ == (StateView {
                apps: views(apps@),
                selected: if apps@.len() == 0 {
                    0
                } else {
                    clamped(old(self)@.selected, 0, apps@.len() - 1)
                },
                ..old(self)@
            }),
    {
        self.selected = clamp_index(self.selected, apps.len());
        self.apps = apps;
    }

    fn has_selection(&self) -> (out: bool)
        ensures
            out == self@.has_selection(),
    {
        assert(views(self.apps@).len() == self.apps@.len());
        self.selected < self.apps.len()
    }

    fn require_selection(&mut self) -> (out: TuiCommand)
        ensures
            (final(self)@, out@) == old(self)@.without_selection(),
    {
        self.set_error("no registered application selected".to_owned());
        TuiCommand::Nothing
    }

    fn spawn(&mut self, supervise: bool) -> (out: TuiCommand)
        ensures
            (final(self)@, out@) == old(self)@.spawning(supervise),
    {
        if !self.has_selection() {
            return self.require_selection();
        }
        assert(self@.apps[self@.selected] == self.apps@[self.selected as int]@);
        if !self.apps[self.selected].enabled {
            self.set_error("selected application is disabled".to_owned());
            TuiCommand::Nothing
        } else {
            TuiCommand::Spawn {
                desktop_id: self.apps[self.selected].desktop_id.clone(),
                supervise,
            }
        }
    }

    fn handle_dashboard_key(&mut self, key: Key) -> (out: TuiCommand)
        ensures
            (final(self)@, out@) == old(self)@.on_dashboard(key),
    {
        assert(views(self.apps@).len() == self.apps@.len());
        let count: usize = self.apps.len();
        match key {
            Key::Char('q') | Key::Esc => {
                self.should_quit = true;
                TuiCommand::Nothing
            },
            Key::Down | Key::Char('j') => {
                self.selected = move_index(self.selected, count, 1);
                TuiCommand::Nothing
            },
            Key::Up | Key::Char('k') => {
                self.selected = move_index(self.selected, count, -1);
                TuiCommand::Nothing
            },
            Key::Home | Key::Char('g') => {
                self.selected = 0;
                TuiCommand::Nothing
            },
            Key::End | Key::Char('G') => {
                self.selected =
                if count == 0 {
                    0
                } else {
                    count - 1
                };
                TuiCommand::Nothing
            },
            Key::Char(' ') => {
                if !self.has_selection() {
                    return self.require_selection();
                }
                assert(self@.apps[self@.selected] == self.apps@[self.selected as int]@);
                TuiCommand::SetEnabled {
                    desktop_id: self.apps[self.selected].desktop_id.clone(),
                    enabled: !self.apps[self.selected].enabled,
                }
            },
            Key::Char('a') => TuiCommand::Discover,
            Key::Char('c') => {
                if !self.has_selection() {
                    return self.require_selection();
                }
                assert(self@.apps[self@.selected] == self.apps@[self.selected as int]@);
                self.configure = Some(
                    ConfigureDraft::from_application(&self.apps[self.selected]),
                );
                self.screen = Screen::Configure;
                TuiCommand::Nothing
            },
            Key::Char('x') => {
                if !self.has_selection() {
                    return self.require_selection();
                }
                assert(self@.apps[self@.selected] == self.apps@[self.selected as int]@);
                self.pending = Some(
                    PendingAction::Remove(self.apps[self.selected].desktop_id.clone()),
                );
                self.screen = Screen::Confirm;
                TuiCommand::Nothing
            },
            Key::Char('r') => self.spawn(false),
            Key::Char('s') => self.spawn(true),
            Key::Char('d') => TuiCommand::Diagnose,
            Key::Char('u') => {
                self.screen = Screen::Startup;
                TuiCommand::RefreshStartup
            },
            Key::Char('f') => TuiCommand::RefreshAll,
            Key::Char('?') => {
                self.screen = Screen::Help;
                TuiCommand::Nothing
            },
            _ => TuiCommand::Nothing,
        }
    }

    fn handle_add_key(&mut self, key: Key) -> (out: TuiCommand)
        ensures
            (final(self)@, out@) == old(self)@.on_add(key),
    {
        assert(views(self.candidates@).len() == self.candidates@.len());
        assert(views(self.chosen@).len() == self.chosen@.len());
        let count: usize = self.candidates.len();
        match key {
            Key::Esc => {
                self.screen = Screen::Dashboard;
                TuiCommand::Nothing
            },
            Key::Down | Key::Char('j') => {
                self.add_index = move_index(self.add_index, count, 1);
                TuiCommand::Nothing
            },
            Key::Up | Key::Char('k') => {
                self.add_index = move_index(self.add_index, count, -1);
                TuiCommand::Nothing
            },
            Key::Char(' ') => {
                if self.add_index < count {
                    assert(self@.candidates[self@.add_index]
                        == self.candidates@[self.add_index as int]@);
                    self.chosen = toggle(
                        &self.chosen,
                        self.candidates[self.add_index].desktop_id.as_str(),
                    );
                }
                TuiCommand::Nothing
            },
            Key::Enter => {
                if self.chosen.len() == 0 {
                    self.set_error("select at least one application with Space".to_owned());
                    TuiCommand::Nothing
                } else {
                    TuiCommand::Add(take_chosen(&self.candidates, &self.chosen))
                }
            },
            _ => TuiCommand::Nothing,
        }
    }

    fn handle_configure_key(&mut self, key: Key, coarse: bool) -> (out: TuiCommand)
        requires
            old(self)@.well_formed(),
        ensures
            (final(self)@, out@) == old(self)@.on_configure(key, coarse),
            final(self)@.well_formed(),
    {
        let mut draft = match self.configure.take() {
            None => {
                self.screen = Screen::Dashboard;
                return TuiCommand::Nothing;
            },
            Some(draft) => draft,
        };
        let mut command = TuiCommand::Nothing;
        match key {
            Key::Esc => {
                self.screen = Screen::Dashboard;
                return TuiCommand::Nothing;
            },
            Key::Up | Key::Char('k') => {
                draft.move_field(-1);
            },
            Key::Down | Key::Char('j') => {
                draft.move_field(1);
            },
            Key::Left | Key::Char('h') => {
                draft.adjust(-1, coarse);
            },
            Key::Right | Key::Char('l') | Key::Char(' ') => {
                draft.adjust(1, coarse);
            },
            Key::Char('r') => {
                draft.reset_to_defaults = true;
            },
            Key::Enter => {
                command = TuiCommand::Configure {
                    desktop_id: draft.desktop_id.clone(),
                    update: draft.update(),
                };
            },
            _ => {},
        }
        self.configure = Some(draft);
        command
    }

    fn handle_doctor_key(&mut self, key: Key) -> (out: TuiCommand)
        ensures
            (final(self)@, out@) == old(self)@.on_doctor(key),
    {
        match key {
            Key::Esc => {
                self.screen = Screen::Dashboard;
                TuiCommand::Nothing
            },
            Key::Down | Key::Char('j') => {
                self.doctor_index = move_index(self.doctor_index, self.doctor_checks, 1);
                TuiCommand::Nothing
            },
            Key::Up | Key::Char('k') => {
                self.doctor_index = move_index(self.doctor_index, self.doctor_checks, -1);
                TuiCommand::Nothing
            },
            Key::Char('r') => TuiCommand::Diagnose,
            _ => TuiCommand::Nothing,
        }
    }

    fn confirm(&mut self, action: PendingAction) -> (out: TuiCommand)
        ensures
            (final(self)@, out@) == old(self)@.confirming(action@),
    {
        self.pending = Some(action);
        self.screen = Screen::Confirm;
        TuiCommand::Nothing
    }

    fn handle_startup_key(&mut self, key: Key) -> (out: TuiCommand)
        ensures
            (final(self)@, out@) == old(self)@.on_startup(key),
    {
        match key {
            Key::Esc => {
                self.screen = Screen::Dashboard;
                TuiCommand::Nothing
            },
            Key::Char('e') => self.confirm(
                PendingAction::StartupEnable { suppress_autostart: false },
            ),
            Key::Char('a') => self.confirm(
                PendingAction::StartupEnable { suppress_autostart: true },
            ),
            Key::Char('d') => self.confirm(PendingAction::StartupDisable),
            Key::Char('r') => TuiCommand::RefreshStartup,
            _ => TuiCommand::Nothing,
        }
    }

    fn handle_confirm_key(&mut self, key: Key) -> (out: TuiCommand)
        ensures
            (final(self)@, out@) == old(self)@.on_confirm(key),
    {
        match key {
            Key::Enter | Key::Char('y') => {
                self.screen = Screen::Dashboard;
                match self.pending.take() {
                    None => TuiCommand::Nothing,
                    Some(PendingAction::Remove(desktop_id)) => TuiCommand::Remove { desktop_id },
                    Some(PendingAction::StartupEnable { suppress_autostart }) => {
                        TuiCommand::EnableStartup { suppress_autostart }
                    },
                    Some(PendingAction::StartupDisable) => TuiCommand::DisableStartup,
                }
            },
            Key::Esc | Key::Char('n') => {
                self.pending = None;
                self.screen = Screen::Dashboard;
                TuiCommand::Nothing
            },
            _ => TuiCommand::Nothing,
        }
    }

    /// What a key does; it is given whether steps are coarse.
    pub fn handle_key(&mut self, key: Key, coarse: bool) -> (out: TuiCommand)
        requires
            old(self)@.well_formed(),
        ensures
            (final(self)@, out@) == old(self)@.on_key(key, coarse),
            final(self)@.well_formed(),
    {
        match self.screen {
            Screen::Dashboard => self.handle_dashboard_key(key),
            Screen::Add => self.handle_add_key(key),
            Screen::Configure => self.handle_configure_key(key, coarse),
            Screen::Doctor => self.handle_doctor_key(key),
            Screen::Startup => self.handle_startup_key(key),
            Screen::Help => {
                match key {
                    Key::Esc | Key::Char('q') | Key::Char('?') => {
                        self.screen = Screen::Dashboard;
                    },
                    _ => {},
                }
                TuiCommand::Nothing
            },
            Screen::Confirm => self.handle_confirm_key(key),
        }
    }
}

/// What came of a command. A failure comes with its message.
#[derive(Debug, PartialEq)]
pub enum TuiOutcome {
    EnabledSet { desktop_id: String, enabled: bool },
    Discovered(Vec<DiscoveredApplication>),
    DiscoveryFailed(String),
    /// How many applications were added.
    Added(usize),
    Configured { desktop_id: String },
    Removed { desktop_id: String },
    Spawned { desktop_id: String, supervise: bool, pid: u32 },
    SpawnFailed { supervise: bool, source: String },
    /// How many checks the diagnosis has.
    Diagnosed(usize),
    Refreshed,
    /// How many overrides were created.
    StartupEnabled(usize),
    /// How many overrides were removed.
    StartupDisabled(usize),
    Failed(String),
}

pub open spec fn candidate_before() -> spec_fn(ApplicationView, ApplicationView) -> bool {
    |a: ApplicationView, b: ApplicationView|
        text_before(a.name, b.name) || (a.name == b.name && text_before(a.desktop_id, b.desktop_id))
}

pub open spec fn is_new(apps: Seq<RegisteredView>) -> spec_fn(ApplicationView) -> bool {
    |one: ApplicationView| !id_taken(apps, one.desktop_id)
}

/// The applications that can be added: those that are not registered, by name
/// and ID.
pub open spec fn candidates_among(found: Seq<ApplicationView>, apps: Seq<RegisteredView>) -> Seq<
    ApplicationView,
> {
    stable_sorted(found.filter(is_new(apps)), candidate_before())
}

pub open spec fn spawn_name(supervise: bool) -> Seq<char> {
    if supervise {
        "supervise"@
    } else {
        "run"@
    }
}

impl StateView {
    /// The state after what came of a command.
    pub open spec fn after(self, outcome: TuiOutcome) -> StateView {
        match outcome {
            TuiOutcome::EnabledSet { desktop_id, enabled } => self.with_note(
                (if enabled {
                    "enabled"@
                } else {
                    "disabled"@
                }) + " "@ + desktop_id@,
            ),
            TuiOutcome::Discovered(found) => StateView {
                candidates: candidates_among(views(found@), self.apps),
                chosen: Seq::empty(),
                add_index: 0,
                screen: Screen::Add,
                ..self
            },
            TuiOutcome::DiscoveryFailed(source) => self.with_error(
                "discovery failed: "@ + source@,
            ),
            TuiOutcome::Added(count) => self.on(Screen::Dashboard).with_note(
                "added "@ + decimal(count as nat) + " application(s)"@,
            ),
            TuiOutcome::Configured { desktop_id } => StateView { configure: None, ..self }.on(
                Screen::Dashboard,
            ).with_note("configured "@ + desktop_id@),
            TuiOutcome::Removed { desktop_id } => self.with_note("removed "@ + desktop_id@),
            TuiOutcome::Spawned { desktop_id, supervise, pid } => self.with_note(
                "started "@ + spawn_name(supervise) + " request for "@ + desktop_id@ + " (PID "@
                    + decimal(pid as nat) + ")"@,
            ),
            TuiOutcome::SpawnFailed { supervise, source } => self.with_error(
                "failed to start "@ + spawn_name(supervise) + ": "@ + source@,
            ),
            TuiOutcome::Diagnosed(count) => StateView {
                doctor_checks: count as int,
                doctor_index: 0,
                ..self
            }.on(Screen::Doctor),
            TuiOutcome::Refreshed => self.with_note("refreshed dashboard state"@),
            TuiOutcome::StartupEnabled(count) => self.with_note(
                "startup enabled; "@ + decimal(count as nat) + " autostart override(s) changed"@,
            ),
            TuiOutcome::StartupDisabled(count) => self.with_note(
                "startup disabled; "@ + decimal(count as nat)
                    + " owned autostart override(s) removed"@,
            ),
            TuiOutcome::Failed(source) => self.with_error(source@),
        }
    }
}

fn is_candidate_before(a: &DiscoveredApplication, b: &DiscoveredApplication) -> (before: bool)
    ensures
        before == candidate_before()(a@, b@),
{
    is_before(a.name.as_str(), b.name.as_str()) || (same_text(a.name.as_str(), b.name.as_str())
        && is_before(a.desktop_id.as_str(), b.desktop_id.as_str()))
}

fn find_candidates(found: Vec<DiscoveredApplication>, apps: &Vec<RegisteredApplication>) -> (out: Vec<
    DiscoveredApplication,
>)
    ensures
        views(out@) == candidates_among(views(found@), views(apps@)),
{
    broadcast use group_views;

    let ghost all = views(found@);
    let ghost keep = is_new(views(apps@));
    let mut fresh: Vec<DiscoveredApplication> = Vec::new();
    let mut i: usize = 0;
    proof {
        reveal(Seq::filter);
        assert(all.take(0).filter(keep) =~= Seq::empty());
    }
    while i < found.len()
        invariant
            i <= found@.len(),
            all == views(found@),
            keep == is_new(views(apps@)),
            views(fresh@) == all.take(i as int).filter(keep),
        decreases found.len() - i,
    {
        proof {
            assert(all.take(i + 1) =~= all.take(i as int).push(found@[i as int]@));
            all.take(i as int).lemma_filter_push(found@[i as int]@, keep);
        }
        if !is_registered(apps, found[i].desktop_id.as_str()) {
            fresh.push(found[i].clone());
        }
        i += 1;
    }
    assert(all.take(all.len() as int) =~= all);
    let ghost before = |a: DiscoveredApplication, b: DiscoveredApplication|
        candidate_before()(a@, b@);
    proof {
        crate::order::lemma_stable_sorted_map(
            fresh@,
            |a: DiscoveredApplication| a@,
            before,
            candidate_before(),
        );
    }
    stable_sort(fresh, is_candidate_before, Ghost(before))
}

fn show_spawn_name(supervise: bool) -> (out: &'static str)
    ensures
        out@ == spawn_name(supervise),
{
    if supervise {
        "supervise"
    } else {
        "run"
    }
}

impl TuiState {
    /// Take in what came of a command.
    pub fn completed(&mut self, outcome: TuiOutcome)
        requires
            old(self)@.well_formed(),
        ensures
            final(self)@ == old(self)@.after(outcome),
            final(self)@.well_formed(),
    {
        broadcast use group_views;

        match outcome {
            TuiOutcome::EnabledSet { desktop_id, enabled } => {
                let word = if enabled {
                    "enabled"
                } else {
                    "disabled"
                };
                self.set_ok(word.to_owned().concat(" ").concat(desktop_id.as_str()));
            },
            TuiOutcome::Discovered(found) => {
                self.candidates = find_candidates(found, &self.apps);
                self.chosen = Vec::new();
                assert(views(self.chosen@) =~= Seq::empty());
                self.add_index = 0;
                self.screen = Screen::Add;
            },
            TuiOutcome::DiscoveryFailed(source) => {
                self.set_error("discovery failed: ".to_owned().concat(source.as_str()));
            },
            TuiOutcome::Added(count) => {
                self.screen = Screen::Dashboard;
                self.set_ok(
                    "added ".to_owned().concat(decimal_text(count as u64).as_str()).concat(
                        " application(s)",
                    ),
                );
            },
            TuiOutcome::Configured { desktop_id } => {
                self.configure = None;
                self.screen = Screen::Dashboard;
                self.set_ok("configured ".to_owned().concat(desktop_id.as_str()));
            },
            TuiOutcome::Removed { desktop_id } => {
                self.set_ok("removed ".to_owned().concat(desktop_id.as_str()));
            },
            TuiOutcome::Spawned { desktop_id, supervise, pid } => {
                self.set_ok(
                    "started ".to_owned().concat(show_spawn_name(supervise)).concat(
                        " request for ",
                    ).concat(desktop_id.as_str()).concat(" (PID ").concat(
                        decimal_text(pid as u64).as_str(),
                    ).concat(")"),
                );
            },
            TuiOutcome::SpawnFailed { supervise, source } => {
                self.set_error(
                    "failed to start ".to_owned().concat(show_spawn_name(supervise)).concat(
                        ": ",
                    ).concat(source.as_str()),
                );
            },
            TuiOutcome::Diagnosed(count) => {
                self.doctor_checks = count;
                self.doctor_index = 0;
                self.screen = Screen::Doctor;
            },
            TuiOutcome::Refreshed => {
                self.set_ok("refreshed dashboard state".to_owned());
            },
            TuiOutcome::StartupEnabled(count) => {
                self.set_ok(
                    "startup enabled; ".to_owned().concat(
                        decimal_text(count as u64).as_str(),
                    ).concat(" autostart override(s) changed"),
                );
            },
            TuiOutcome::StartupDisabled(count) => {
                self.set_ok(
                    "startup disabled; ".to_owned().concat(
                        decimal_text(count as u64).as_str(),
                    ).concat(" owned autostart override(s) removed"),
                );
            },
            TuiOutcome::Failed(source) => {
                self.set_error(source);
            },
        }
    }

    /// What is asked before a pending action is carried out.
    pub fn confirmation_prompt(&self) -> (out: String)
        ensures
            out@ == match self@.pending {
                None => "No pending action."@,
                Some(PendingView::Remove(id)) => "Remove "@ + id
                    + " from the explicit registry?\nRunning processes are untouched."@,
                Some(PendingView::StartupEnable { suppress_autostart }) => if suppress_autostart {
                    "Enable user startup and create owned Hidden=true overrides for matching duplicate desktop autostarts?\nExisting user overrides are never overwritten."@
                } else {
                    "Enable launcher-owned user startup?\nNo application is launched immediately."@
                },
                Some(PendingView::StartupDisable) => {
                    "Disable and remove only launcher-owned startup/autostart integration?\nRegistry and running applications are untouched."@
                },
            },
    {
        match &self.pending {
            None => "No pending action.".to_owned(),
            Some(PendingAction::Remove(id)) => "Remove ".to_owned().concat(id.as_str()).concat(
                " from the explicit registry?\nRunning processes are untouched.",
            ),
            Some(PendingAction::StartupEnable { suppress_autostart }) => {
                if *suppress_autostart {
                    "Enable user startup and create owned Hidden=true overrides for matching duplicate desktop autostarts?\nExisting user overrides are never overwritten.".to_owned()
                } else {
                    "Enable launcher-owned user startup?\nNo application is launched immediately.".to_owned()
                }
            },
            Some(PendingAction::StartupDisable) => {
                "Disable and remove only launcher-owned startup/autostart integration?\nRegistry and running applications are untouched.".to_owned()
            },
        }
    }
}

pub open spec fn autostart_text(state: AutostartState) -> Seq<char> {
    match state {
        AutostartState::NotPresent => "none"@,
        AutostartState::DuplicateRisk => "duplicate risk"@,
        AutostartState::SuppressedByLauncher => "suppressed by launcher"@,
        AutostartState::UserOverride => "user override"@,
    }
}

/// What is said of the autostart state of an application.
pub fn autostart_label(state: AutostartState) -> (out: &'static str)
    ensures
        out@ == autostart_text(state),
{
    match state {
        AutostartState::NotPresent => "none",
        AutostartState::DuplicateRisk => "duplicate risk",
        AutostartState::SuppressedByLauncher => "suppressed by launcher",
        AutostartState::UserOverride => "user override",
    }
}

pub open spec fn word_of(availability: Option<&RegisteredApplicationAvailability>) -> Seq<char> {
    match availability {
        Some(found) => match found@ {
            AvailabilityView::Available { .. } => "available"@,
            AvailabilityView::Unavailable => "unavailable"@,
            AvailabilityView::Unknown => "unknown"@,
        },
        None => "unknown"@,
    }
}

/// What is said of the availability of an application in the list.
pub fn availability_word(availability: Option<&RegisteredApplicationAvailability>) -> (out:
    &'static str)
    ensures
        out@ == word_of(availability),
{
    match availability {
        Some(RegisteredApplicationAvailability::Available { .. }) => "available",
        Some(RegisteredApplicationAvailability::Unavailable) => "unavailable",
        _ => "unknown",
    }
}

/// Editing a valid policy gives a valid policy.
pub proof fn drafts_stay_valid(draft: DraftView, delta: int, coarse: bool, prefix: Seq<char>)
    requires
        policy_problem(prefix, draft.policy) is None,
        delta == 1 || delta == -1,
    ensures
        policy_problem(prefix, draft.with_adjusted(delta, coarse).policy) is None,
{
    if draft.field == 2 {
        let position = (class_position(draft.policy.io_class) + delta) % 4;
        assert(0 <= position < 4);
    }
}

/// The selection of a list that is not empty is always one of its entries.
pub proof fn selections_stay_in_bounds(state: StateView, key: Key, coarse: bool)
    requires
        state.apps.len() > 0 ==> 0 <= state.selected < state.apps.len(),
        state.candidates.len() > 0 ==> 0 <= state.add_index < state.candidates.len(),
        state.doctor_checks > 0 ==> 0 <= state.doctor_index < state.doctor_checks,
    ensures
        ({
            let next = state.on_key(key, coarse).0;
            &&& next.apps == state.apps
            &&& state.apps.len() > 0 ==> 0 <= next.selected < next.apps.len()
            &&& state.candidates.len() > 0 ==> 0 <= next.add_index < next.candidates.len()
            &&& state.doctor_checks > 0 ==> 0 <= next.doctor_index < next.doctor_checks
        }),
{
}

/// Nothing is removed and startup is not changed without a confirmation that
/// was asked for.
pub proof fn changes_need_confirmation(state: StateView, key: Key, coarse: bool)
    requires
        ({
            let command = state.on_key(key, coarse).1;
            command is Remove || command is EnableStartup || command is DisableStartup
        }),
    ensures
        state.screen == Screen::Confirm,
        state.pending is Some,
        key == Key::Enter || key == Key::Char('y'),
{
}

} // verus!
