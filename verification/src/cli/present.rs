//! What the commands tell the user, line by line.
use vstd::prelude::*;
use vstd::string::StrSliceExecFns;
use vstd::string::StringExecFns;
use vstd::utf8::encode_utf8;

use super::select::{availability_label, availability_text, plural};
use crate::discovery::types::{
    ApplicationView, DiscoveredApplication, DiscoveryReport, DiscoveryWarning, ReportView,
    WarningView,
};
use crate::doctor::checks::flag_text;
use crate::doctor::report::{CheckView, DoctorCheck, DoctorStatus};
use crate::launcher::error::{failure_text, InitiatedView, LaunchReport, LaunchReportView};
use crate::launcher::plan::{LaunchPlan, LaunchPlanView, PlannedApplication, PlannedView};
use crate::path::lossy_text;
use crate::registry::model::io_class_text;
use crate::registry::operations::{
    AddApplicationsResult, AvailabilityView, RegisteredApplicationAvailability,
    RegisteredApplicationStatus, RegistryMutationResult,
};
use crate::registry::model::RegisteredView;
use crate::supervisor::types::{SupervisionReport, SupervisionView};
use crate::text::{
    decimal, decimal_text, group_views, number_list, number_list_text, signed_decimal,
    signed_decimal_text, views,
};
use crate::topology::grouping::{debug_strings, debug_text};
use crate::topology::parser::{cpu_list_text, format_cpu_list};
use crate::topology::types::{core_class_text, PhysicalCore, PhysicalCoreView};

verus! {

/// Some spaces.
pub open spec fn spaces(n: int) -> Seq<char> {
    Seq::new(
        if n > 0 {
            n as nat
        } else {
            0
        },
        |i: int| ' ',
    )
}

/// A text with spaces behind it, up to a width.
pub open spec fn padded(s: Seq<char>, width: int) -> Seq<char> {
    s + spaces(width - s.len())
}

/// A text with spaces behind it, up to a width.
pub fn pad(s: &str, width: usize) -> (out: String)
    ensures
        out@ == padded(s@, width as int),
{
    let mut out = s.to_owned();
    let start: usize = s.unicode_len();
    let mut length: usize = start;
    assert(out@ =~= s@ + spaces(length - s@.len()));
    while length < width
        invariant
            s@.len() == start,
            start <= length,
            length <= width || length == start,
            out@ == s@ + spaces(length - s@.len()),
        decreases width - length,
    {
        out.push(' ');
        length += 1;
        assert(out@ =~= s@ + spaces(length - s@.len()));
    }
    assert(s@ + spaces(length - s@.len()) =~= padded(s@, width as int));
    out
}

pub open spec fn plural_text(count: nat) -> Seq<char> {
    if count == 1 {
        ""@
    } else {
        "s"@
    }
}

/// CPUs as a list, or the word for none.
pub open spec fn shown_cpus(cpus: Seq<u32>) -> Seq<char> {
    if cpus.len() == 0 {
        "none"@
    } else {
        cpu_list_text(cpus)
    }
}

/// CPUs as a list, or the word for none.
pub fn display_cpu_list(cpus: &Vec<u32>) -> (out: String)
    ensures
        out@ == shown_cpus(cpus@),
{
    if cpus.len() == 0 {
        "none".to_owned()
    } else {
        format_cpu_list(cpus)
    }
}

/// The longest of some IDs in bytes, and no less than the heading.
pub open spec fn id_width(all: Seq<ApplicationView>) -> int
    decreases all.len(),
{
    if all.len() == 0 {
        2
    } else {
        let front = id_width(all.drop_last());
        let length = encode_utf8(all.last().desktop_id).len() as int;
        if length > front {
            length
        } else {
            front
        }
    }
}

/// The longest of some names in bytes, and no less than the heading.
pub open spec fn name_width(all: Seq<ApplicationView>) -> int
    decreases all.len(),
{
    if all.len() == 0 {
        11
    } else {
        let front = name_width(all.drop_last());
        let length = encode_utf8(all.last().name).len() as int;
        if length > front {
            length
        } else {
            front
        }
    }
}

pub open spec fn application_line(one: ApplicationView, ids: int, names: int) -> Seq<char> {
    padded(one.desktop_id, ids) + "  "@ + padded(one.name, names) + "  "@ + lossy_text(
        one.executable,
    )
}

/// How many warnings are about an entry that was left out.
pub open spec fn skipped_count(warnings: Seq<WarningView>) -> nat
    decreases warnings.len(),
{
    if warnings.len() == 0 {
        0
    } else if warnings.last().skipped {
        skipped_count(warnings.drop_last()) + 1
    } else {
        skipped_count(warnings.drop_last())
    }
}

pub open spec fn application_lines(all: Seq<ApplicationView>) -> Seq<Seq<char>> {
    if all.len() == 0 {
        seq!["No usable desktop applications were found."@]
    } else {
        seq![padded("ID"@, id_width(all)) + "  "@ + padded("Application"@, name_width(all))
            + "  Executable"@] + all.map_values(
            |one: ApplicationView| application_line(one, id_width(all), name_width(all)),
        )
    }
}

/// What is told of a discovery.
pub open spec fn discovery_lines(report: ReportView) -> Seq<Seq<char>> {
    let found = report.applications.len();
    let skipped = skipped_count(report.warnings);
    seq!["Installed applications"@, ""@] + application_lines(report.applications) + seq![
        ""@,
        "Found "@ + decimal(found) + " application"@ + plural_text(found) + "."@,
        "Skipped "@ + decimal(skipped)
            + " invalid, unavailable, filtered, overridden, or duplicate entr"@ + (if skipped
            == 1 {
            "y"@
        } else {
            "ies"@
        }) + "."@,
    ]
}

fn measure(all: &Vec<DiscoveredApplication>) -> (out: (usize, usize))
    ensures
        out.0 == id_width(views(all@)),
        out.1 == name_width(views(all@)),
{
    let ghost whole = views(all@);
    let mut ids: usize = 2;
    let mut names: usize = 11;
    let mut i: usize = 0;
    assert(whole.take(0) =~= Seq::empty());
    while i < all.len()
        invariant
            i <= all@.len(),
            whole == views(all@),
            ids == id_width(whole.take(i as int)),
            names == name_width(whole.take(i as int)),
        decreases all.len() - i,
    {
        assert(whole.take(i + 1).drop_last() =~= whole.take(i as int));
        assert(whole.take(i + 1).last() == all@[i as int]@);
        let id_length: usize = all[i].desktop_id.as_str().as_bytes().len();
        let name_length: usize = all[i].name.as_str().as_bytes().len();
        if id_length > ids {
            ids = id_length;
        }
        if name_length > names {
            names = name_length;
        }
        i += 1;
    }
    assert(whole.take(whole.len() as int) =~= whole);
    (ids, names)
}

fn count_skipped(warnings: &Vec<DiscoveryWarning>) -> (out: usize)
    ensures
        out == skipped_count(views(warnings@)),
{
    let ghost all = views(warnings@);
    let mut count: usize = 0;
    let mut i: usize = 0;
    assert(all.take(0) =~= Seq::empty());
    while i < warnings.len()
        invariant
            i <= warnings@.len(),
            all == views(warnings@),
            count <= i,
            count == skipped_count(all.take(i as int)),
        decreases warnings.len() - i,
    {
        assert(all.take(i + 1).drop_last() =~= all.take(i as int));
        assert(all.take(i + 1).last() == warnings@[i as int]@);
        if warnings[i].skipped {
            count += 1;
        }
        i += 1;
    }
    assert(all.take(all.len() as int) =~= all);
    count
}

fn show_applications(all: &Vec<DiscoveredApplication>) -> (out: Vec<String>)
    ensures
        views(out@) == application_lines(views(all@)),
{
    broadcast use group_views;

    let ghost whole = views(all@);
    assert(whole.len() == all@.len());
    let mut out: Vec<String> = Vec::new();
    if all.len() == 0 {
        out.push("No usable desktop applications were found.".to_owned());
        assert(views(out@) =~= application_lines(whole));
        return out;
    }
    let (ids, names) = measure(all);
    let ghost shown = |one: ApplicationView|
        application_line(one, id_width(whole), name_width(whole));
    let head = pad("ID", ids).concat("  ").concat(pad("Application", names).as_str()).concat(
        "  Executable",
    );
    let ghost first = head@;
    out.push(head);
    assert(views(out@) =~= seq![first] + whole.take(0).map_values(shown));
    let mut i: usize = 0;
    while i < all.len()
        invariant
            i <= all@.len(),
            whole == views(all@),
            ids == id_width(whole),
            names == name_width(whole),
            shown == (|one: ApplicationView|
                application_line(one, id_width(whole), name_width(whole))),
            views(out@) == seq![first] + whole.take(i as int).map_values(shown),
        decreases all.len() - i,
    {
        let one = &all[i];
        let line = pad(one.desktop_id.as_str(), ids).concat("  ").concat(
            pad(one.name.as_str(), names).as_str(),
        ).concat("  ").concat(one.executable.display().as_str());
        assert(line@ == shown(whole[i as int]));
        let ghost before = views(out@);
        out.push(line);
        assert(views(out@) == before.push(shown(whole[i as int])));
        assert(whole.take(i + 1).map_values(shown) =~= whole.take(i as int).map_values(shown).push(
            shown(whole[i as int]),
        ));
        assert(views(out@) =~= seq![first] + whole.take(i + 1).map_values(shown));
        i += 1;
    }
    assert(whole.take(whole.len() as int) =~= whole);
    assert(views(out@) =~= application_lines(whole));
    out
}

/// What is told of a discovery.
pub fn discovery_report(report: &DiscoveryReport) -> (out: Vec<String>)
    ensures
        views(out@) == discovery_lines(report@),
{
    broadcast use group_views;

    assert(views(report.applications@).len() == report.applications@.len());
    let mut out: Vec<String> = Vec::new();
    out.push("Installed applications".to_owned());
    out.push("".to_owned());
    assert(views(out@) =~= seq!["Installed applications"@, ""@]);
    let mut table = show_applications(&report.applications);
    out.append(&mut table);
    let ghost front = views(out@);
    let found: usize = report.applications.len();
    let skipped: usize = count_skipped(&report.warnings);
    out.push("".to_owned());
    out.push(
        "Found ".to_owned().concat(decimal_text(found as u64).as_str()).concat(
            " application",
        ).concat(plural(found)).concat("."),
    );
    out.push(
        "Skipped ".to_owned().concat(decimal_text(skipped as u64).as_str()).concat(
            " invalid, unavailable, filtered, overridden, or duplicate entr",
        ).concat(
            if skipped == 1 {
                "y"
            } else {
                "ies"
            },
        ).concat("."),
    );
    assert(views(out@) =~= discovery_lines(report@));
    out
}

/// A word for the state of an application.
pub open spec fn state_word(enabled: bool) -> Seq<char> {
    if enabled {
        "enabled"@
    } else {
        "disabled"@
    }
}

pub open spec fn availability_short(availability: AvailabilityView) -> Seq<char> {
    match availability {
        AvailabilityView::Available { .. } => "available"@,
        AvailabilityView::Unavailable => "unavailable"@,
        AvailabilityView::Unknown => "unchecked"@,
    }
}

pub open spec fn registered_line(one: (RegisteredView, AvailabilityView)) -> Seq<char> {
    padded(state_word(one.0.enabled), 9) + " "@ + padded(availability_short(one.1), 13) + " "@
        + one.0.desktop_id + "  "@ + one.0.name + "  "@ + decimal(
        one.0.policy.delay_seconds as nat,
    ) + "s  "@ + signed_decimal(one.0.policy.nice as int)
}

/// What is told of the registered applications.
pub open spec fn list_lines(all: Seq<(RegisteredView, AvailabilityView)>) -> Seq<Seq<char>> {
    seq!["Managed applications"@, ""@] + (if all.len() == 0 {
        seq!["No applications are registered."@]
    } else {
        seq!["STATE     AVAILABILITY  ID  APPLICATION  DELAY  NICE"@] + all.map_values(
            |one: (RegisteredView, AvailabilityView)| registered_line(one),
        )
    }) + seq![
        ""@,
        decimal(all.len()) + " registered application"@ + plural_text(all.len()) + "."@,
    ]
}

fn show_registered(one: &RegisteredApplicationStatus) -> (out: String)
    ensures
        out@ == registered_line(one@),
{
    let state = if one.application.enabled {
        "enabled"
    } else {
        "disabled"
    };
    let availability = match &one.availability {
        RegisteredApplicationAvailability::Available { .. } => "available",
        RegisteredApplicationAvailability::Unavailable => "unavailable",
        RegisteredApplicationAvailability::Unknown => "unchecked",
    };
    pad(state, 9).concat(" ").concat(pad(availability, 13).as_str()).concat(" ").concat(
        one.application.desktop_id.as_str(),
    ).concat("  ").concat(one.application.name.as_str()).concat("  ").concat(
        decimal_text(one.application.delay_seconds).as_str(),
    ).concat("s  ").concat(signed_decimal_text(one.application.nice as i64).as_str())
}

/// What is told of the registered applications.
pub fn registry_list(all: &Vec<RegisteredApplicationStatus>) -> (out: Vec<String>)
    ensures
        views(out@) == list_lines(views(all@)),
{
    broadcast use group_views;

    let ghost whole = views(all@);
    let ghost shown = |one: (RegisteredView, AvailabilityView)| registered_line(one);
    assert(whole.len() == all@.len());
    let mut out: Vec<String> = Vec::new();
    out.push("Managed applications".to_owned());
    out.push("".to_owned());
    if all.len() == 0 {
        out.push("No applications are registered.".to_owned());
    } else {
        out.push("STATE     AVAILABILITY  ID  APPLICATION  DELAY  NICE".to_owned());
    }
    let ghost start = views(out@);
    let mut i: usize = 0;
    assert(start =~= start + whole.take(0).map_values(shown));
    while i < all.len()
        invariant
            i <= all@.len(),
            whole == views(all@),
            shown == (|one: (RegisteredView, AvailabilityView)| registered_line(one)),
            views(out@) == start + whole.take(i as int).map_values(shown),
        decreases all.len() - i,
    {
        let line = show_registered(&all[i]);
        let ghost before = views(out@);
        out.push(line);
        assert(views(out@) == before.push(shown(whole[i as int])));
        assert(whole.take(i + 1).map_values(shown) =~= whole.take(i as int).map_values(shown).push(
            shown(whole[i as int]),
        ));
        assert(views(out@) =~= start + whole.take(i + 1).map_values(shown));
        i += 1;
    }
    assert(whole.take(whole.len() as int) =~= whole);
    out.push("".to_owned());
    out.push(
        decimal_text(all.len() as u64).concat(" registered application").concat(
            plural(all.len()),
        ).concat("."),
    );
    assert(views(out@) =~= list_lines(whole));
    out
}

/// What is told of one registered application.
pub open spec fn show_lines(one: (RegisteredView, AvailabilityView)) -> Seq<Seq<char>> {
    let policy = one.0.policy;
    seq![
        "Managed application"@,
        ""@,
        "ID:                   "@ + one.0.desktop_id,
        "Name:                 "@ + one.0.name,
        "Enabled:              "@ + flag_text(one.0.enabled),
        "Delay:                "@ + decimal(policy.delay_seconds as nat) + "s"@,
        "Nice:                 "@ + signed_decimal(policy.nice as int),
        "I/O class:            "@ + io_class_text(policy.io_class),
        "I/O priority:         "@ + (match policy.io_priority {
            Some(level) => decimal(level as nat),
            None => "not applicable"@,
        }),
        "Process tree:         "@ + flag_text(policy.enforce_process_tree),
        "Desktop file snapshot: "@ + (match one.0.desktop_file {
            Some(path) => lossy_text(path),
            None => "unavailable"@,
        }),
        "Availability:         "@ + availability_text(one.1),
    ]
}

pub(crate) fn flag_word(flag: bool) -> (out: &'static str)
    ensures
        out@ == flag_text(flag),
{
    if flag {
        "true"
    } else {
        "false"
    }
}

/// What is told of one registered application.
pub fn registry_entry(one: &RegisteredApplicationStatus) -> (out: Vec<String>)
    ensures
        views(out@) == show_lines(one@),
{
    broadcast use group_views;

    let application = &one.application;
    let mut out: Vec<String> = Vec::new();
    out.push("Managed application".to_owned());
    out.push("".to_owned());
    out.push("ID:                   ".to_owned().concat(application.desktop_id.as_str()));
    out.push("Name:                 ".to_owned().concat(application.name.as_str()));
    out.push("Enabled:              ".to_owned().concat(flag_word(application.enabled)));
    out.push(
        "Delay:                ".to_owned().concat(
            decimal_text(application.delay_seconds).as_str(),
        ).concat("s"),
    );
    out.push(
        "Nice:                 ".to_owned().concat(
            signed_decimal_text(application.nice as i64).as_str(),
        ),
    );
    out.push("I/O class:            ".to_owned().concat(application.io_class.name().as_str()));
    let priority = match application.io_priority {
        Some(level) => decimal_text(level as u64),
        None => "not applicable".to_owned(),
    };
    out.push("I/O priority:         ".to_owned().concat(priority.as_str()));
    out.push(
        "Process tree:         ".to_owned().concat(flag_word(application.enforce_process_tree)),
    );
    let file = match &application.desktop_file {
        Some(path) => path.display(),
        None => "unavailable".to_owned(),
    };
    out.push("Desktop file snapshot: ".to_owned().concat(file.as_str()));
    out.push(
        "Availability:         ".to_owned().concat(availability_label(&one.availability).as_str()),
    );
    assert(views(out@) =~= show_lines(one@));
    out
}

/// Texts, each with the same beginning.
pub open spec fn prefixed(prefix: Seq<char>, all: Seq<Seq<char>>) -> Seq<Seq<char>> {
    all.map_values(|text: Seq<char>| prefix + text)
}

fn push_prefixed(out: &mut Vec<String>, prefix: &str, all: &Vec<String>)
    ensures
        views(final(out)@) == views(old(out)@) + prefixed(prefix@, views(all@)),
{
    broadcast use group_views;

    let ghost whole = views(all@);
    let ghost start = views(out@);
    let ghost shown = |text: Seq<char>| prefix@ + text;
    let mut i: usize = 0;
    assert(start =~= start + whole.take(0).map_values(shown));
    while i < all.len()
        invariant
            i <= all@.len(),
            whole == views(all@),
            start == views(old(out)@),
            shown == (|text: Seq<char>| prefix@ + text),
            views(out@) == start + whole.take(i as int).map_values(shown),
        decreases all.len() - i,
    {
        let ghost before = views(out@);
        out.push(prefix.to_owned().concat(all[i].as_str()));
        assert(views(out@) == before.push(shown(whole[i as int])));
        assert(whole.take(i + 1).map_values(shown) =~= whole.take(i as int).map_values(shown).push(
            shown(whole[i as int]),
        ));
        assert(views(out@) =~= start + whole.take(i + 1).map_values(shown));
        i += 1;
    }
    assert(whole.take(whole.len() as int) =~= whole);
}

/// What is told of an addition.
pub open spec fn added_lines(added: Seq<Seq<char>>, known: Seq<Seq<char>>) -> Seq<Seq<char>> {
    (if added.len() == 0 {
        seq!["No new applications were added."@]
    } else {
        seq!["Added "@ + decimal(added.len()) + " application"@ + plural_text(added.len()) + "."@]
            + prefixed("  added: "@, added)
    }) + prefixed("  already registered: "@, known)
}

/// What is told of an addition.
pub fn addition_report(result: &AddApplicationsResult) -> (out: Vec<String>)
    ensures
        views(out@) == added_lines(views(result.added@), views(result.already_registered@)),
{
    broadcast use group_views;

    assert(views(result.added@).len() == result.added@.len());
    let mut out: Vec<String> = Vec::new();
    if result.added.len() == 0 {
        out.push("No new applications were added.".to_owned());
        assert(views(out@) =~= seq!["No new applications were added."@]);
    } else {
        out.push(
            "Added ".to_owned().concat(decimal_text(result.added.len() as u64).as_str()).concat(
                " application",
            ).concat(plural(result.added.len())).concat("."),
        );
        assert(views(out@) =~= seq![
            "Added "@ + decimal(result.added@.len()) + " application"@ + plural_text(
                result.added@.len(),
            ) + "."@,
        ]);
        push_prefixed(&mut out, "  added: ", &result.added);
    }
    push_prefixed(&mut out, "  already registered: ", &result.already_registered);
    out
}

/// What is told of a change to some applications.
pub open spec fn mutation_lines(
    action: Seq<char>,
    changed: Seq<Seq<char>>,
    unchanged: Seq<Seq<char>>,
) -> Seq<Seq<char>> {
    seq![action + " "@ + decimal(changed.len()) + " application"@ + plural_text(changed.len())
        + "."@] + prefixed("  changed: "@, changed) + prefixed("  unchanged: "@, unchanged)
}

/// What is told of a change to some applications.
pub fn mutation_report(action: &str, result: &RegistryMutationResult) -> (out: Vec<String>)
    ensures
        views(out@) == mutation_lines(action@, views(result.changed@), views(result.unchanged@)),
{
    broadcast use group_views;

    assert(views(result.changed@).len() == result.changed@.len());
    let mut out: Vec<String> = Vec::new();
    out.push(
        action.to_owned().concat(" ").concat(
            decimal_text(result.changed.len() as u64).as_str(),
        ).concat(" application").concat(plural(result.changed.len())).concat("."),
    );
    assert(views(out@) =~= seq![
        action@ + " "@ + decimal(result.changed@.len()) + " application"@ + plural_text(
            result.changed@.len(),
        ) + "."@,
    ]);
    push_prefixed(&mut out, "  changed: ", &result.changed);
    push_prefixed(&mut out, "  unchanged: ", &result.unchanged);
    out
}

pub open spec fn planned_lines(one: PlannedView) -> Seq<Seq<char>> {
    seq![
        "  "@ + one.desktop_id + ": "@ + lossy_text(one.executable) + " "@ + debug_text(
            one.arguments,
        ),
        "    delay="@ + decimal(one.policy.delay_seconds as nat) + "s nice="@ + signed_decimal(
            one.policy.nice as int,
        ) + " io_class="@ + io_class_text(one.policy.io_class) + " io_priority="@ + (
        match one.policy.io_priority {
            Some(level) => decimal(level as nat),
            None => "none"@,
        }) + " enforce_process_tree="@ + flag_text(one.policy.enforce_process_tree),
    ]
}

pub open spec fn all_planned_lines(all: Seq<PlannedView>) -> Seq<Seq<char>>
    decreases all.len(),
{
    if all.len() == 0 {
        Seq::empty()
    } else {
        all_planned_lines(all.drop_last()) + planned_lines(all.last())
    }
}

pub open spec fn initiated_line(one: InitiatedView) -> Seq<char> {
    "Exec succeeded for "@ + one.desktop_id + " (PID "@ + decimal(one.pid as nat)
        + "); application completion is not monitored."@
}

/// What is told of a launch.
pub open spec fn run_lines(plan: LaunchPlanView, report: LaunchReportView, dry_run: bool) -> Seq<
    Seq<char>,
> {
    if plan.applications.len() == 0 {
        seq!["No enabled registered applications to launch."@]
    } else if dry_run {
        seq!["Validated launch plan (dry run):"@] + all_planned_lines(plan.applications) + seq![
            "E-core CPUs: "@ + number_list(plan.efficiency_cpus),
        ]
    } else {
        report.initiated.map_values(|one: InitiatedView| initiated_line(one)) + (
        match report.failure {
            Some(failure) => seq!["Failed before exec: "@ + failure_text(failure)],
            None => Seq::empty(),
        })
    }
}

fn push_planned(out: &mut Vec<String>, one: &PlannedApplication)
    ensures
        views(final(out)@) == views(old(out)@) + planned_lines(one@),
{
    broadcast use group_views;

    let ghost before = views(out@);
    out.push(
        "  ".to_owned().concat(one.desktop_id.as_str()).concat(": ").concat(
            one.executable.display().as_str(),
        ).concat(" ").concat(debug_strings(&one.arguments).as_str()),
    );
    let priority = match one.io_priority {
        Some(level) => decimal_text(level as u64),
        None => "none".to_owned(),
    };
    out.push(
        "    delay=".to_owned().concat(decimal_text(one.delay_seconds).as_str()).concat(
            "s nice=",
        ).concat(signed_decimal_text(one.nice as i64).as_str()).concat(" io_class=").concat(
            one.io_class.name().as_str(),
        ).concat(" io_priority=").concat(priority.as_str()).concat(
            " enforce_process_tree=",
        ).concat(flag_word(one.enforce_process_tree)),
    );
    assert(views(out@) =~= before + planned_lines(one@));
}

fn show_plan(plan: &LaunchPlan) -> (out: Vec<String>)
    ensures
        views(out@) == seq!["Validated launch plan (dry run):"@] + all_planned_lines(
            plan@.applications,
        ) + seq!["E-core CPUs: "@ + number_list(plan@.efficiency_cpus)],
{
    broadcast use group_views;

    let ghost all = plan@.applications;
    let ghost head = seq!["Validated launch plan (dry run):"@];
    let mut out: Vec<String> = Vec::new();
    out.push("Validated launch plan (dry run):".to_owned());
    let mut i: usize = 0;
    assert(all.take(0) =~= Seq::empty());
    assert(views(out@) =~= head + all_planned_lines(all.take(0)));
    while i < plan.applications.len()
        invariant
            i <= plan.applications@.len(),
            all == views(plan.applications@),
            views(out@) == head + all_planned_lines(all.take(i as int)),
        decreases plan.applications.len() - i,
    {
        assert(all.take(i + 1).drop_last() =~= all.take(i as int));
        assert(all.take(i + 1).last() == plan.applications@[i as int]@);
        push_planned(&mut out, &plan.applications[i]);
        assert(views(out@) =~= head + all_planned_lines(all.take(i + 1)));
        i += 1;
    }
    assert(all.take(all.len() as int) =~= all);
    out.push(
        "E-core CPUs: ".to_owned().concat(number_list_text(&plan.efficiency_cpus).as_str()),
    );
    assert(views(out@) =~= head + all_planned_lines(all) + seq![
        "E-core CPUs: "@ + number_list(plan@.efficiency_cpus),
    ]);
    out
}

/// What is told of a launch.
pub fn run_report(plan: &LaunchPlan, report: &LaunchReport, dry_run: bool) -> (out: Vec<String>)
    ensures
        views(out@) == run_lines(plan@, report@, dry_run),
{
    broadcast use group_views;

    assert(views(plan.applications@).len() == plan.applications@.len());
    let mut out: Vec<String> = Vec::new();
    if plan.applications.len() == 0 {
        out.push("No enabled registered applications to launch.".to_owned());
        assert(views(out@) =~= run_lines(plan@, report@, dry_run));
        return out;
    }
    if dry_run {
        return show_plan(plan);
    }
    let ghost all = report@.initiated;
    let ghost shown = |one: InitiatedView| initiated_line(one);
    let mut i: usize = 0;
    assert(views(out@) =~= all.take(0).map_values(shown));
    while i < report.initiated.len()
        invariant
            i <= report.initiated@.len(),
            all == views(report.initiated@),
            shown == (|one: InitiatedView| initiated_line(one)),
            views(out@) == all.take(i as int).map_values(shown),
        decreases report.initiated.len() - i,
    {
        let one = &report.initiated[i];
        let ghost before = views(out@);
        out.push(
            "Exec succeeded for ".to_owned().concat(one.desktop_id.as_str()).concat(
                " (PID ",
            ).concat(decimal_text(one.pid as u64).as_str()).concat(
                "); application completion is not monitored.",
            ),
        );
        assert(views(out@) == before.push(shown(all[i as int])));
        assert(all.take(i + 1).map_values(shown) =~= before.push(shown(all[i as int])));
        i += 1;
    }
    assert(all.take(all.len() as int) =~= all);
    match &report.failure {
        Some(failure) => {
            out.push("Failed before exec: ".to_owned().concat(failure.message().as_str()));
        },
        None => {},
    }
    assert(views(out@) =~= run_lines(plan@, report@, dry_run));
    out
}

/// What is told of a supervision that has ended.
pub open spec fn supervision_line(report: SupervisionView) -> Seq<char> {
    match report.termination_signal {
        Some(signal) => "Supervision stopped cleanly after "@ + signal
            + "; managed applications were not signalled."@,
        None => if report.tracked_roots == 0 {
            "No enforce-enabled live process tree required monitoring."@
        } else {
            "Supervision ended after "@ + decimal(report.polls as nat) + " poll(s); "@ + decimal(
                report.affinity_updates as nat,
            ) + " affinity update(s), "@ + decimal(report.completed_roots as nat)
                + " root(s) completed."@
        },
    }
}

/// What is told of a supervision that has ended.
pub fn supervision_summary(report: &SupervisionReport) -> (out: String)
    ensures
        out@ == supervision_line(report@),
{
    match &report.termination_signal {
        Some(signal) => "Supervision stopped cleanly after ".to_owned().concat(
            signal.as_str(),
        ).concat("; managed applications were not signalled."),
        None => {
            if report.tracked_roots == 0 {
                "No enforce-enabled live process tree required monitoring.".to_owned()
            } else {
                "Supervision ended after ".to_owned().concat(
                    decimal_text(report.polls).as_str(),
                ).concat(" poll(s); ").concat(
                    decimal_text(report.affinity_updates).as_str(),
                ).concat(" affinity update(s), ").concat(
                    decimal_text(report.completed_roots as u64).as_str(),
                ).concat(" root(s) completed.")
            }
        },
    }
}

pub open spec fn severity_word(status: DoctorStatus) -> Seq<char> {
    match status {
        DoctorStatus::Ready => "OK"@,
        DoctorStatus::Warning => "WARNING"@,
        DoctorStatus::Error => "ERROR"@,
    }
}

/// The details of a check that have a value.
pub open spec fn detail_lines(details: Seq<(Seq<char>, Seq<char>)>) -> Seq<Seq<char>>
    decreases details.len(),
{
    if details.len() == 0 {
        Seq::empty()
    } else {
        let front = detail_lines(details.drop_last());
        let last = details.last();
        if last.1.len() == 0 {
            front
        } else {
            front.push("  "@ + last.0 + ": "@ + last.1)
        }
    }
}

/// What is told of a check.
pub open spec fn check_lines(check: CheckView) -> Seq<Seq<char>> {
    seq!["["@ + severity_word(check.status) + "] "@ + check.id + ": "@ + check.summary]
        + detail_lines(check.details)
}

/// What is told of a check.
pub fn check_report(check: &DoctorCheck) -> (out: Vec<String>)
    ensures
        views(out@) == check_lines(check@),
{
    broadcast use group_views;

    let word = match check.status {
        DoctorStatus::Ready => "OK",
        DoctorStatus::Warning => "WARNING",
        DoctorStatus::Error => "ERROR",
    };
    let mut out: Vec<String> = Vec::new();
    out.push(
        "[".to_owned().concat(word).concat("] ").concat(check.id.as_str()).concat(": ").concat(
            check.summary.as_str(),
        ),
    );
    let ghost head = seq!["["@ + severity_word(check.status) + "] "@ + check.id@ + ": "@
        + check.summary@];
    let ghost all = views(check.details@);
    let mut i: usize = 0;
    assert(all.take(0) =~= Seq::empty());
    assert(views(out@) =~= head + detail_lines(all.take(0)));
    while i < check.details.len()
        invariant
            i <= check.details@.len(),
            all == views(check.details@),
            views(out@) == head + detail_lines(all.take(i as int)),
        decreases check.details.len() - i,
    {
        let one = &check.details[i];
        assert(all.take(i + 1).drop_last() =~= all.take(i as int));
        assert(all.take(i + 1).last() == one@);
        if one.value.as_str().unicode_len() > 0 {
            let ghost before = views(out@);
            out.push(
                "  ".to_owned().concat(one.key.as_str()).concat(": ").concat(one.value.as_str()),
            );
            assert(views(out@) == before.push("  "@ + one.key@ + ": "@ + one.value@));
            assert(views(out@) =~= head + detail_lines(all.take(i + 1)));
        }
        i += 1;
    }
    assert(all.take(all.len() as int) =~= all);
    out
}

pub open spec fn number_or_unknown(number: Option<u32>) -> Seq<char> {
    match number {
        Some(n) => decimal(n as nat),
        None => "unknown"@,
    }
}

fn show_number(number: Option<u32>) -> (out: String)
    ensures
        out@ == number_or_unknown(number),
{
    match number {
        Some(n) => decimal_text(n as u64),
        None => "unknown".to_owned(),
    }
}

/// What is told of a physical core.
pub open spec fn core_line(core: PhysicalCoreView) -> Seq<char> {
    "  package "@ + number_or_unknown(core.package_id) + ", core "@ + number_or_unknown(
        core.core_id,
    ) + ": "@ + (if core.logical_cpus.len() == 1 {
        "CPU"@
    } else {
        "CPUs"@
    }) + " "@ + padded(crate::doctor::checks::cpus_text(core.logical_cpus), 10) + " "@
        + core_class_text(core.core_class)
}

/// What is told of a physical core.
pub fn core_report(core: &PhysicalCore) -> (out: String)
    ensures
        out@ == core_line(core@),
{
    let label = if core.logical_cpus.len() == 1 {
        "CPU"
    } else {
        "CPUs"
    };
    let logical = crate::doctor::checks::join_cpus(&core.logical_cpus);
    "  package ".to_owned().concat(show_number(core.package_id).as_str()).concat(
        ", core ",
    ).concat(show_number(core.core_id).as_str()).concat(": ").concat(label).concat(" ").concat(
        pad(logical.as_str(), 10).as_str(),
    ).concat(" ").concat(core.core_class.name().as_str())
}

} // verus!
