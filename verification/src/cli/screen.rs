//! The texts of the terminal interface.
use vstd::prelude::*;
use vstd::string::StrSliceExecFns;
use vstd::string::StringExecFns;

use super::adjust::{compact_cpus, format_cpus, truncate, truncated};
use super::present::{flag_word, pad, padded, state_word};
use super::reports::enabled_word;
use super::tui::{
    autostart_label, autostart_text, availability_word, word_of, ConfigureDraft, DraftView,
};
use crate::discovery::types::DiscoveredApplication;
use crate::doctor::checks::flag_text;
use crate::doctor::report::{CheckView, DoctorCheck, DoctorStatus};
use crate::integration::autostart::AssessmentView;
use crate::integration::startup::{StartupStatus, StatusView};
use crate::path::lossy_text;
use crate::registry::model::{io_class_text, RegisteredApplication, RegisteredView};
use crate::registry::operations::RegisteredApplicationAvailability;
use crate::text::{
    decimal, decimal_text, group_views, join, join_text, signed_decimal, signed_decimal_text, views,
};

verus! {

/// The smallest terminal that everything fits in.
pub const MINIMUM_WIDTH: u16 = 72;

/// The smallest terminal that everything fits in.
pub const MINIMUM_HEIGHT: u16 = 20;

/// What is shown in a terminal that is too small, and nothing where it is not.
pub open spec fn size_complaint(width: u16, height: u16) -> Option<Seq<char>> {
    if width < MINIMUM_WIDTH || height < MINIMUM_HEIGHT {
        Some(
            "ecore-launcher TUI needs at least 72x20.\nCurrent terminal: "@ + decimal(width as nat)
                + "x"@ + decimal(height as nat)
                + "\n\nResize the terminal or press q to quit."@,
        )
    } else {
        None
    }
}

/// What is shown in a terminal that is too small, and nothing where it is not.
pub fn complain_of_size(width: u16, height: u16) -> (out: Option<String>)
    ensures
        match size_complaint(width, height) {
            Some(text) => out matches Some(shown) && shown@ == text,
            None => out is None,
        },
{
    if width < MINIMUM_WIDTH || height < MINIMUM_HEIGHT {
        Some(
            "ecore-launcher TUI needs at least 72x20.\nCurrent terminal: ".to_owned().concat(
                decimal_text(width as u64).as_str(),
            ).concat("x").concat(decimal_text(height as u64).as_str()).concat(
                "\n\nResize the terminal or press q to quit.",
            ),
        )
    } else {
        None
    }
}

/// What the header says of the CPUs and of startup.
pub open spec fn header_text(cpus: Seq<u32>, enabled: Option<Option<bool>>) -> Seq<char> {
    "  E-cores "@ + compact_cpus(cpus) + "  "@ + (match enabled {
        Some(Some(true)) => "startup enabled"@,
        Some(Some(false)) => "startup disabled"@,
        Some(None) => "startup unknown"@,
        None => "startup ?"@,
    })
}

/// What the header says of the CPUs and of startup, as far as its state was
/// looked at.
pub fn show_header(cpus: &Vec<u32>, startup: Option<&StartupStatus>) -> (out: String)
    ensures
        out@ == header_text(
            cpus@,
            match startup {
                Some(status) => Some(status.enabled),
                None => None,
            },
        ),
{
    let word = match startup {
        Some(status) => match status.enabled {
            Some(true) => "startup enabled",
            Some(false) => "startup disabled",
            None => "startup unknown",
        },
        None => "startup ?",
    };
    "  E-cores ".to_owned().concat(format_cpus(cpus).as_str()).concat("  ").concat(word)
}

pub open spec fn mark_text(marked: bool) -> Seq<char> {
    if marked {
        "[x]"@
    } else {
        "[ ]"@
    }
}

/// The mark of what is enabled or chosen.
pub fn check_mark(marked: bool) -> (out: &'static str)
    ensures
        out@ == mark_text(marked),
{
    if marked {
        "[x]"
    } else {
        "[ ]"
    }
}

/// The name of an application in its column.
pub fn name_column(application: &RegisteredApplication) -> (out: String)
    ensures
        out@ == padded(truncated(application@.name, 23), 24),
{
    pad(truncate(application.name.as_str(), 23).as_str(), 24)
}

/// The line of an application that can be added.
pub fn candidate_row(application: &DiscoveredApplication, chosen: bool) -> (out: String)
    ensures
        out@ == mark_text(chosen) + " "@ + padded(truncated(application@.name, 27), 28) + " "@
            + application@.desktop_id,
{
    check_mark(chosen).to_owned().concat(" ").concat(
        pad(truncate(application.name.as_str(), 27).as_str(), 28).as_str(),
    ).concat(" ").concat(application.desktop_id.as_str())
}

pub open spec fn priority_text(priority: Option<u8>) -> Seq<char> {
    match priority {
        Some(level) => decimal(level as nat),
        None => "none"@,
    }
}

fn show_priority(priority: Option<u8>) -> (out: String)
    ensures
        out@ == priority_text(priority),
{
    match priority {
        Some(level) => decimal_text(level as u64),
        None => "none".to_owned(),
    }
}

/// What is shown of the selected application below its name.
pub open spec fn details_lines(one: RegisteredView, availability: Seq<char>) -> Seq<Seq<char>> {
    seq![
        "ID: "@ + one.desktop_id,
        "State: "@ + state_word(one.enabled),
        "Availability: "@ + availability,
        ""@,
        "Delay: "@ + decimal(one.policy.delay_seconds as nat) + "s"@,
        "Nice: "@ + signed_decimal(one.policy.nice as int),
        "I/O class: "@ + io_class_text(one.policy.io_class),
        "I/O priority: "@ + priority_text(one.policy.io_priority),
        "Process tree: "@ + (if one.policy.enforce_process_tree {
            "enforced by supervise"@
        } else {
            "inherit only"@
        }),
    ] + (match one.desktop_file {
        Some(path) => seq![""@, "Desktop: "@ + lossy_text(path)],
        None => Seq::empty(),
    })
}

/// What is shown of the selected application below its name.
pub fn show_details(
    one: &RegisteredApplication,
    availability: Option<&RegisteredApplicationAvailability>,
) -> (out: Vec<String>)
    ensures
        views(out@) == details_lines(one@, word_of(availability)),
{
    broadcast use group_views;

    let state = if one.enabled {
        "enabled"
    } else {
        "disabled"
    };
    let tree = if one.enforce_process_tree {
        "enforced by supervise"
    } else {
        "inherit only"
    };
    let mut out: Vec<String> = Vec::new();
    out.push("ID: ".to_owned().concat(one.desktop_id.as_str()));
    out.push("State: ".to_owned().concat(state));
    out.push("Availability: ".to_owned().concat(availability_word(availability)));
    out.push("".to_owned());
    out.push("Delay: ".to_owned().concat(decimal_text(one.delay_seconds).as_str()).concat("s"));
    out.push("Nice: ".to_owned().concat(signed_decimal_text(one.nice as i64).as_str()));
    out.push("I/O class: ".to_owned().concat(one.io_class.name().as_str()));
    out.push("I/O priority: ".to_owned().concat(show_priority(one.io_priority).as_str()));
    out.push("Process tree: ".to_owned().concat(tree));
    match &one.desktop_file {
        Some(path) => {
            out.push("".to_owned());
            out.push("Desktop: ".to_owned().concat(path.display().as_str()));
        },
        None => {},
    }
    assert(views(out@) =~= details_lines(one@, word_of(availability)));
    out
}

/// The line of one field of a draft.
pub open spec fn field_line(edited: bool, name: Seq<char>, value: Seq<char>) -> Seq<char> {
    (if edited {
        ">"@
    } else {
        " "@
    }) + " "@ + padded(name, 16) + " "@ + value
}

/// The lines of the fields of a draft, in their order.
pub open spec fn draft_lines(draft: DraftView) -> Seq<Seq<char>> {
    seq![
        field_line(
            draft.field == 0,
            "Delay"@,
            decimal(draft.policy.delay_seconds as nat) + "s"@,
        ),
        field_line(draft.field == 1, "Nice"@, signed_decimal(draft.policy.nice as int)),
        field_line(draft.field == 2, "I/O class"@, io_class_text(draft.policy.io_class)),
        field_line(draft.field == 3, "I/O priority"@, priority_text(draft.policy.io_priority)),
        field_line(
            draft.field == 4,
            "Process tree"@,
            if draft.policy.enforce_process_tree {
                "enforce"@
            } else {
                "inherit only"@
            },
        ),
    ]
}

fn show_field(edited: bool, name: &str, value: &str) -> (out: String)
    ensures
        out@ == field_line(edited, name@, value@),
{
    let mark = if edited {
        ">"
    } else {
        " "
    };
    mark.to_owned().concat(" ").concat(pad(name, 16).as_str()).concat(" ").concat(value)
}

/// The lines of the fields of a draft, in their order.
pub fn show_draft(draft: &ConfigureDraft) -> (out: Vec<String>)
    ensures
        views(out@) == draft_lines(draft@),
{
    broadcast use group_views;

    let tree = if draft.enforce_process_tree {
        "enforce"
    } else {
        "inherit only"
    };
    let mut out: Vec<String> = Vec::new();
    out.push(
        show_field(
            draft.field == 0,
            "Delay",
            decimal_text(draft.delay_seconds).concat("s").as_str(),
        ),
    );
    out.push(
        show_field(draft.field == 1, "Nice", signed_decimal_text(draft.nice as i64).as_str()),
    );
    out.push(show_field(draft.field == 2, "I/O class", draft.io_class.name().as_str()));
    out.push(
        show_field(draft.field == 3, "I/O priority", show_priority(draft.io_priority).as_str()),
    );
    out.push(show_field(draft.field == 4, "Process tree", tree));
    assert(views(out@) =~= draft_lines(draft@));
    out
}

pub open spec fn status_name(status: DoctorStatus) -> Seq<char> {
    match status {
        DoctorStatus::Ready => "Ok"@,
        DoctorStatus::Warning => "Warning"@,
        DoctorStatus::Error => "Error"@,
    }
}

/// The name of a status.
pub fn name_status(status: DoctorStatus) -> (out: &'static str)
    ensures
        out@ == status_name(status),
{
    match status {
        DoctorStatus::Ready => "Ok",
        DoctorStatus::Warning => "Warning",
        DoctorStatus::Error => "Error",
    }
}

/// What is said of a diagnosis as a whole.
pub fn diagnosis_summary(status: DoctorStatus, checks: usize) -> (out: String)
    ensures
        out@ == "Overall: "@ + status_name(status) + " · "@ + decimal(checks as nat) + " checks"@,
{
    "Overall: ".to_owned().concat(name_status(status)).concat(" · ").concat(
        decimal_text(checks as u64).as_str(),
    ).concat(" checks")
}

/// The name of a check in its column.
pub fn check_column(check: &DoctorCheck) -> (out: String)
    ensures
        out@ == padded(check@.id, 24),
{
    pad(check.id.as_str(), 24)
}

pub open spec fn detail_pair() -> spec_fn((Seq<char>, Seq<char>)) -> Seq<char> {
    |detail: (Seq<char>, Seq<char>)| detail.0 + "="@ + detail.1
}

/// What is shown of the selected check.
pub open spec fn check_text(check: CheckView) -> Seq<char> {
    check.summary + "\n"@ + join(check.details.map_values(detail_pair()), " · "@)
        + "\nEsc close · r refresh"@
}

/// What is shown of the selected check, or where there is none.
pub fn show_check(check: Option<&DoctorCheck>) -> (out: String)
    ensures
        out@ == match check {
            Some(check) => check_text(check@),
            None => "Esc close · r refresh"@,
        },
{
    broadcast use group_views;

    let check = match check {
        Some(check) => check,
        None => {
            return "Esc close · r refresh".to_owned();
        },
    };
    let ghost all = check@.details;
    let ghost shown = detail_pair();
    let mut pairs: Vec<String> = Vec::new();
    let mut i: usize = 0;
    assert(views(pairs@) =~= all.take(0).map_values(shown));
    while i < check.details.len()
        invariant
            i <= check.details@.len(),
            all == views(check.details@),
            shown == detail_pair(),
            views(pairs@) == all.take(i as int).map_values(shown),
        decreases check.details.len() - i,
    {
        let detail = &check.details[i];
        let ghost before = views(pairs@);
        pairs.push(detail.key.clone().concat("=").concat(detail.value.as_str()));
        assert(views(pairs@) == before.push(shown(all[i as int])));
        assert(all.take(i + 1).map_values(shown) =~= before.push(shown(all[i as int])));
        i += 1;
    }
    assert(all.take(all.len() as int) =~= all);
    check.summary.clone().concat("\n").concat(join_text(&pairs, " · ").as_str()).concat(
        "\nEsc close · r refresh",
    )
}

pub open spec fn autostart_row() -> spec_fn(AssessmentView) -> Seq<char> {
    |one: AssessmentView| "  "@ + padded(one.desktop_id, 30) + " "@ + autostart_text(one.state)
}

/// What is shown of the unit and of systemd.
pub open spec fn startup_head(status: StatusView) -> Seq<Seq<char>> {
    seq![
        "Unit: "@ + lossy_text(status.unit_path),
        "Present: "@ + flag_text(status.unit_present),
        "Launcher-owned: "@ + flag_text(status.unit_owned),
        "Current: "@ + flag_text(status.unit_current),
        "Enabled: "@ + enabled_word(status.enabled),
        "Manager environment ready: "@ + flag_text(
            status.manager_environment is Some && status.manager_environment->0.ready(),
        ),
        ""@,
        "Autostart:"@,
    ]
}

/// What is shown of the state of startup.
pub open spec fn startup_lines(status: StatusView) -> Seq<Seq<char>> {
    startup_head(status) + (if status.autostart.len() == 0 {
        seq!["  no enabled registered applications"@]
    } else {
        status.autostart.map_values(autostart_row())
    })
}

fn begin_startup(status: &StartupStatus) -> (out: Vec<String>)
    ensures
        views(out@) == startup_head(status@),
{
    broadcast use group_views;

    let enabled = match status.enabled {
        Some(enabled) => if enabled {
            "yes"
        } else {
            "no"
        },
        None => "unknown",
    };
    let ready = match &status.manager_environment {
        Some(environment) => environment.is_ready(),
        None => false,
    };
    let mut out: Vec<String> = Vec::new();
    out.push("Unit: ".to_owned().concat(status.unit_path.display().as_str()));
    out.push("Present: ".to_owned().concat(flag_word(status.unit_present)));
    out.push("Launcher-owned: ".to_owned().concat(flag_word(status.unit_owned)));
    out.push("Current: ".to_owned().concat(flag_word(status.unit_current)));
    out.push("Enabled: ".to_owned().concat(enabled));
    out.push("Manager environment ready: ".to_owned().concat(flag_word(ready)));
    out.push("".to_owned());
    out.push("Autostart:".to_owned());
    assert(views(out@) =~= startup_head(status@));
    out
}

/// What is shown of the state of startup.
pub fn show_startup(status: &StartupStatus) -> (out: Vec<String>)
    ensures
        views(out@) == startup_lines(status@),
{
    broadcast use group_views;

    let ghost all = status@.autostart;
    let ghost shown = autostart_row();
    let mut out = begin_startup(status);
    let ghost head = views(out@);
    assert(all.len() == status.autostart@.len());
    if status.autostart.len() == 0 {
        out.push("  no enabled registered applications".to_owned());
        assert(views(out@) =~= startup_lines(status@));
        return out;
    }
    let mut i: usize = 0;
    assert(views(out@) =~= head + all.take(0).map_values(shown));
    while i < status.autostart.len()
        invariant
            i <= status.autostart@.len(),
            all == views(status.autostart@),
            shown == autostart_row(),
            views(out@) == head + all.take(i as int).map_values(shown),
        decreases status.autostart.len() - i,
    {
        let one = &status.autostart[i];
        let ghost before = views(out@);
        out.push(
            "  ".to_owned().concat(pad(one.desktop_id.as_str(), 30).as_str()).concat(" ").concat(
                autostart_label(one.state),
            ),
        );
        assert(views(out@) == before.push(shown(all[i as int])));
        assert(all.take(i + 1).map_values(shown) =~= all.take(i as int).map_values(shown).push(
            shown(all[i as int]),
        ));
        assert(views(out@) =~= head + all.take(i + 1).map_values(shown));
        i += 1;
    }
    assert(all.take(all.len() as int) =~= all);
    assert(views(out@) =~= startup_lines(status@));
    out
}

} // verus!
