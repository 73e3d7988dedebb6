//! Choosing applications on the command line.
use vstd::prelude::*;
use vstd::string::StrSliceExecFns;
use vstd::string::StringExecFns;

use crate::discovery::scanner::{DiscoveryOptions, OptionsView};
use crate::discovery::types::{ApplicationView, DiscoveredApplication, DiscoveryReport};
use crate::launcher::plan::{discovered_with, find_discovered};
use crate::path::{copy_paths, optional_path, UnixPath};
use crate::registry::error::{RegistryError, RegistryErrorView};
use crate::registry::model::{
    io_class_text, AppRegistry, IoPriorityClass, RegisteredApplication, RegisteredView,
};
use crate::registry::operations::{
    AvailabilityView, RegisteredApplicationAvailability, RegisteredApplicationStatus,
};
use crate::registry::validation::id_taken;
use crate::text::{
    decimal, decimal_text, distinct_texts, group_views, parse_u64, same_text, split, split_text,
    text_set, trim, trim_text, unsigned_value, views,
};

verus! {

/// The ending of a noun for a number of things.
pub fn plural(count: usize) -> (out: &'static str)
    ensures
        out@ == if count == 1 {
            ""@
        } else {
            "s"@
        },
{
    if count == 1 {
        ""
    } else {
        "s"
    }
}

/// Discovery settings with what was asked for: explicit data roots replace
/// those of the environment and have to exist.
pub open spec fn asked_options(
    options: OptionsView,
    include_no_display: bool,
    ignore_desktop_filter: bool,
    data_home: Option<Seq<u8>>,
    data_dirs: Seq<Seq<u8>>,
) -> OptionsView {
    let explicit = data_home is Some || data_dirs.len() > 0;
    OptionsView {
        data_home: if explicit {
            data_home
        } else {
            options.data_home
        },
        data_dirs: if explicit {
            data_dirs
        } else {
            options.data_dirs
        },
        require_existing_roots: explicit || options.require_existing_roots,
        include_no_display,
        ignore_desktop_filter,
        ..options
    }
}

/// Discovery settings with what was asked for.
pub fn discovery_options(
    environment: DiscoveryOptions,
    include_no_display: bool,
    ignore_desktop_filter: bool,
    data_home: &Option<UnixPath>,
    data_dirs: &Vec<UnixPath>,
) -> (out: DiscoveryOptions)
    ensures
        out@ == asked_options(
            environment@,
            include_no_display,
            ignore_desktop_filter,
            optional_path(*data_home),
            views(data_dirs@),
        ),
{
    let mut options = environment;
    assert(views(data_dirs@).len() == data_dirs@.len());
    if data_home.is_some() || data_dirs.len() > 0 {
        options.data_home =
        match data_home {
            Some(path) => Some(path.clone()),
            None => None,
        };
        options.data_dirs = copy_paths(data_dirs);
        options.require_existing_roots = true;
    }
    options.include_no_display = include_no_display;
    options.ignore_desktop_filter = ignore_desktop_filter;
    options
}

/// The discovered applications with some IDs.
pub open spec fn requested_applications(current: Seq<ApplicationView>, ids: Seq<Seq<char>>) -> Result<
    Seq<ApplicationView>,
    RegistryErrorView,
>
    decreases ids.len(),
{
    if ids.len() == 0 {
        Ok(Seq::empty())
    } else {
        match requested_applications(current, ids.drop_last()) {
            Err(e) => Err(e),
            Ok(front) => match discovered_with(current, ids.last()) {
                None => Err(
                    RegistryErrorView::UnknownDiscoveredApplication { desktop_id: ids.last() },
                ),
                Some(application) => Ok(front.push(application)),
            },
        }
    }
}

proof fn lemma_requested_error(current: Seq<ApplicationView>, ids: Seq<Seq<char>>, k: int)
    requires
        0 <= k <= ids.len(),
        requested_applications(current, ids.take(k)) is Err,
    ensures
        requested_applications(current, ids) == requested_applications(current, ids.take(k)),
    decreases ids.len(),
{
    if k < ids.len() {
        assert(ids.drop_last().take(k) =~= ids.take(k));
        lemma_requested_error(current, ids.drop_last(), k);
    } else {
        assert(ids.take(k) =~= ids);
    }
}

/// Applications or an error, by contents.
pub open spec fn applications_outcome(
    out: Result<Vec<DiscoveredApplication>, RegistryError>,
) -> Result<Seq<ApplicationView>, RegistryErrorView> {
    match out {
        Ok(all) => Ok(views(all@)),
        Err(e) => Err(e@),
    }
}

/// The discovered applications with the requested IDs, each once and in the
/// order of the IDs.
pub fn select_ids(report: &DiscoveryReport, requested: &Vec<String>) -> (out: Result<
    Vec<DiscoveredApplication>,
    RegistryError,
>)
    ensures
        applications_outcome(out) == requested_applications(
            report@.applications,
            text_set(views(requested@)),
        ),
{
    broadcast use group_views;

    let ids = distinct_texts(requested);
    let ghost all = views(ids@);
    let ghost current = report@.applications;
    let mut selected: Vec<DiscoveredApplication> = Vec::new();
    let mut i: usize = 0;
    assert(all.take(0) =~= Seq::empty());
    while i < ids.len()
        invariant
            i <= ids@.len(),
            all == views(ids@),
            all == text_set(views(requested@)),
            current == views(report.applications@),
            current == report@.applications,
            requested_applications(current, all.take(i as int)) == Ok::<
                Seq<ApplicationView>,
                RegistryErrorView,
            >(views(selected@)),
        decreases ids.len() - i,
    {
        proof {
            assert(all.take(i + 1).drop_last() =~= all.take(i as int));
            assert(all.take(i + 1).last() == ids@[i as int]@);
        }
        match find_discovered(&report.applications, ids[i].as_str()) {
            None => {
                proof {
                    lemma_requested_error(current, all, i + 1);
                }
                return Err(
                    RegistryError::UnknownDiscoveredApplication { desktop_id: ids[i].clone() },
                );
            },
            Some(application) => {
                let ghost before = views(selected@);
                selected.push(application.clone());
                assert(views(selected@) == before.push(application@));
            },
        }
        i += 1;
    }
    assert(all.take(all.len() as int) =~= all);
    Ok(selected)
}

/// A number with at least three characters.
pub open spec fn number_column(n: nat) -> Seq<char> {
    let digits = decimal(n);
    if digits.len() == 1 {
        "  "@ + digits
    } else if digits.len() == 2 {
        " "@ + digits
    } else {
        digits
    }
}

fn show_number_column(n: u64) -> (out: String)
    ensures
        out@ == number_column(n as nat),
{
    let digits = decimal_text(n);
    let length: usize = digits.as_str().unicode_len();
    if length == 1 {
        "  ".to_owned().concat(digits.as_str())
    } else if length == 2 {
        " ".to_owned().concat(digits.as_str())
    } else {
        digits
    }
}

/// One line of the menu.
pub open spec fn menu_line(position: int, one: ApplicationView, apps: Seq<RegisteredView>) -> Seq<
    char,
> {
    number_column((position + 1) as nat) + ". ["@ + (if id_taken(apps, one.desktop_id) {
        "registered"@
    } else {
        " "@
    }) + "] "@ + one.name + " ("@ + one.desktop_id + ")"@
}

/// The menu of discovered applications.
pub open spec fn menu_lines(all: Seq<ApplicationView>, apps: Seq<RegisteredView>) -> Seq<Seq<char>> {
    Seq::new(all.len(), |i: int| menu_line(i, all[i], apps))
}

pub(crate) fn is_registered(apps: &Vec<RegisteredApplication>, id: &str) -> (out: bool)
    ensures
        out == id_taken(views(apps@), id@),
{
    let ghost all = views(apps@);
    let mut i: usize = 0;
    while i < apps.len()
        invariant
            i <= apps@.len(),
            all == views(apps@),
            forall|k: int| 0 <= k < i ==> (#[trigger] all[k]).desktop_id != id@,
        decreases apps.len() - i,
    {
        assert(all[i as int] == apps@[i as int]@);
        if same_text(apps[i].desktop_id.as_str(), id) {
            return true;
        }
        i += 1;
    }
    false
}

/// The menu of discovered applications.
pub fn selection_menu(report: &DiscoveryReport, registry: &AppRegistry) -> (out: Vec<String>)
    ensures
        views(out@) == menu_lines(report@.applications, registry@.apps),
{
    broadcast use group_views;

    let ghost all = report@.applications;
    let ghost apps = registry@.apps;
    let mut out: Vec<String> = Vec::new();
    let mut i: usize = 0;
    assert(views(out@) =~= menu_lines(all, apps).take(0));
    while i < report.applications.len()
        invariant
            i <= report.applications@.len(),
            all == views(report.applications@),
            apps == registry@.apps,
            apps == views(registry.apps@),
            views(out@) == menu_lines(all, apps).take(i as int),
        decreases report.applications.len() - i,
    {
        let one = &report.applications[i];
        let marker = if is_registered(&registry.apps, one.desktop_id.as_str()) {
            "registered"
        } else {
            " "
        };
        let line = show_number_column(i as u64 + 1).concat(". [").concat(marker).concat(
            "] ",
        ).concat(one.name.as_str()).concat(" (").concat(one.desktop_id.as_str()).concat(")");
        assert(line@ == menu_line(i as int, all[i as int], apps));
        let ghost before = views(out@);
        out.push(line);
        assert(views(out@) == before.push(menu_line(i as int, all[i as int], apps)));
        assert(menu_lines(all, apps).take(i + 1) =~= before.push(
            menu_lines(all, apps)[i as int],
        ));
        i += 1;
    }
    assert(menu_lines(all, apps).take(all.len() as int) =~= menu_lines(all, apps));
    out
}

/// What came of asking the user for a line. A failure comes with the system's
/// message.
#[derive(Debug, PartialEq, Eq)]
pub enum LineRead {
    Line(String),
    FlushFailed(String),
    ReadFailed(String),
}

/// A line or an error, by contents.
pub open spec fn line_read(read: LineRead) -> Result<Seq<char>, RegistryErrorView> {
    match read {
        LineRead::Line(line) => Ok(line@),
        LineRead::FlushFailed(source) => Err(
            RegistryErrorView::InteractiveIo { operation: "stdout flush"@, source: source@ },
        ),
        LineRead::ReadFailed(source) => Err(
            RegistryErrorView::InteractiveIo { operation: "stdin read"@, source: source@ },
        ),
    }
}

fn take_line(read: LineRead) -> (out: Result<String, RegistryError>)
    ensures
        match line_read(read) {
            Ok(line) => out matches Ok(found) && found@ == line,
            Err(e) => out matches Err(error) && error@ == e,
        },
{
    match read {
        LineRead::Line(line) => Ok(line),
        LineRead::FlushFailed(source) => Err(
            RegistryError::InteractiveIo { operation: "stdout flush".to_owned(), source },
        ),
        LineRead::ReadFailed(source) => Err(
            RegistryError::InteractiveIo { operation: "stdin read".to_owned(), source },
        ),
    }
}

/// The numbers that a selection names, between 1 and a count.
pub open spec fn picked(values: Seq<Seq<char>>, count: nat) -> Result<Seq<nat>, RegistryErrorView>
    decreases values.len(),
{
    if values.len() == 0 {
        Ok(Seq::empty())
    } else {
        match picked(values.drop_last(), count) {
            Err(e) => Err(e),
            Ok(front) => {
                let value = trim(values.last());
                if value.len() == 0 {
                    Ok(front)
                } else if unsigned_value(value) is Some && 1 <= unsigned_value(value)->0 <= count {
                    Ok(front.push(unsigned_value(value)->0))
                } else {
                    Err(RegistryErrorView::InvalidInteractiveSelection { value })
                }
            },
        }
    }
}

/// The applications at some of the positions, counted from 1.
pub open spec fn applications_at(all: Seq<ApplicationView>, picks: Seq<nat>) -> Seq<ApplicationView>
    decreases all.len(),
{
    if all.len() == 0 {
        Seq::empty()
    } else {
        let front = applications_at(all.drop_last(), picks);
        if picks.contains(all.len()) {
            front.push(all.last())
        } else {
            front
        }
    }
}

/// What a selection comes to.
pub open spec fn selection(all: Seq<ApplicationView>, line: Seq<char>) -> Result<
    Seq<ApplicationView>,
    RegistryErrorView,
> {
    if trim(line).len() == 0 {
        Err(RegistryErrorView::InteractiveCanceled)
    } else {
        match picked(split(trim(line), ','), all.len()) {
            Err(e) => Err(e),
            Ok(picks) => if picks.len() == 0 {
                Err(RegistryErrorView::InteractiveCanceled)
            } else {
                Ok(applications_at(all, picks))
            },
        }
    }
}

proof fn lemma_picked_error(values: Seq<Seq<char>>, count: nat, k: int)
    requires
        0 <= k <= values.len(),
        picked(values.take(k), count) is Err,
    ensures
        picked(values, count) == picked(values.take(k), count),
    decreases values.len(),
{
    if k < values.len() {
        assert(values.drop_last().take(k) =~= values.take(k));
        lemma_picked_error(values.drop_last(), count, k);
    } else {
        assert(values.take(k) =~= values);
    }
}

pub open spec fn as_nats(picks: Seq<u64>) -> Seq<nat> {
    picks.map_values(|n: u64| n as nat)
}

fn parse_picks(values: &Vec<String>, count: usize) -> (out: Result<Vec<u64>, RegistryError>)
    ensures
        match picked(views(values@), count as nat) {
            Ok(picks) => out matches Ok(found) && as_nats(found@) == picks,
            Err(e) => out matches Err(error) && error@ == e,
        },
{
    let ghost all = views(values@);
    let mut picks: Vec<u64> = Vec::new();
    let mut i: usize = 0;
    assert(all.take(0) =~= Seq::empty());
    assert(as_nats(picks@) =~= Seq::empty());
    while i < values.len()
        invariant
            i <= values@.len(),
            all == views(values@),
            picked(all.take(i as int), count as nat) == Ok::<Seq<nat>, RegistryErrorView>(
                as_nats(picks@),
            ),
        decreases values.len() - i,
    {
        proof {
            assert(all.take(i + 1).drop_last() =~= all.take(i as int));
            assert(all.take(i + 1).last() == values@[i as int]@);
            if picked(all.take(i + 1), count as nat) is Err {
                lemma_picked_error(all, count as nat, i + 1);
            }
        }
        let value = trim_text(values[i].as_str());
        if value.unicode_len() > 0 {
            match parse_u64(value) {
                Some(n) => {
                    if n < 1 || n > count as u64 {
                        return Err(
                            RegistryError::InvalidInteractiveSelection { value: value.to_owned() },
                        );
                    }
                    let ghost before = as_nats(picks@);
                    picks.push(n);
                    assert(as_nats(picks@) =~= before.push(n as nat));
                },
                None => {
                    return Err(
                        RegistryError::InvalidInteractiveSelection { value: value.to_owned() },
                    );
                },
            }
        }
        i += 1;
    }
    assert(all.take(all.len() as int) =~= all);
    Ok(picks)
}

fn is_picked(picks: &Vec<u64>, n: u64) -> (found: bool)
    ensures
        found == as_nats(picks@).contains(n as nat),
{
    let mut i: usize = 0;
    while i < picks.len()
        invariant
            i <= picks@.len(),
            forall|k: int| 0 <= k < i ==> picks@[k] != n,
        decreases picks.len() - i,
    {
        if picks[i] == n {
            assert(as_nats(picks@)[i as int] == n as nat);
            return true;
        }
        i += 1;
    }
    proof {
        if as_nats(picks@).contains(n as nat) {
            let k = choose|k: int| 0 <= k < as_nats(picks@).len() && as_nats(picks@)[k] == n as nat;
            assert(picks@[k] == n);
        }
    }
    false
}

fn take_picked(applications: &Vec<DiscoveredApplication>, picks: &Vec<u64>) -> (out: Vec<
    DiscoveredApplication,
>)
    ensures
        views(out@) == applications_at(views(applications@), as_nats(picks@)),
{
    broadcast use group_views;

    let ghost all = views(applications@);
    let mut out: Vec<DiscoveredApplication> = Vec::new();
    let mut i: usize = 0;
    assert(all.take(0) =~= Seq::empty());
    while i < applications.len()
        invariant
            i <= applications@.len(),
            all == views(applications@),
            views(out@) == applications_at(all.take(i as int), as_nats(picks@)),
        decreases applications.len() - i,
    {
        assert(all.take(i + 1).drop_last() =~= all.take(i as int));
        assert(all.take(i + 1).last() == applications@[i as int]@);
        if is_picked(picks, i as u64 + 1) {
            out.push(applications[i].clone());
        }
        i += 1;
    }
    assert(all.take(all.len() as int) =~= all);
    out
}

/// Why there can be no interactive selection.
pub open spec fn selection_obstacle(all: Seq<ApplicationView>, terminal: bool) -> Option<
    RegistryErrorView,
> {
    if !terminal {
        Some(RegistryErrorView::InteractiveInputUnavailable)
    } else if all.len() == 0 {
        Some(RegistryErrorView::InteractiveCanceled)
    } else {
        None
    }
}

/// Whether the user can be asked: there is a terminal and something to choose
/// from.
pub fn can_select(report: &DiscoveryReport, terminal: bool) -> (out: Result<(), RegistryError>)
    ensures
        match selection_obstacle(report@.applications, terminal) {
            Some(e) => out matches Err(error) && error@ == e,
            None => out is Ok,
        },
{
    assert(views(report.applications@).len() == report.applications@.len());
    if !terminal {
        Err(RegistryError::InteractiveInputUnavailable)
    } else if report.applications.len() == 0 {
        Err(RegistryError::InteractiveCanceled)
    } else {
        Ok(())
    }
}

/// The applications that the user's answer names.
pub open spec fn interactive_choice(all: Seq<ApplicationView>, terminal: bool, read: LineRead) -> Result<
    Seq<ApplicationView>,
    RegistryErrorView,
> {
    match selection_obstacle(all, terminal) {
        Some(e) => Err(e),
        None => match line_read(read) {
            Err(e) => Err(e),
            Ok(line) => selection(all, line),
        },
    }
}

/// The applications that the user's answer to the menu names.
pub fn interactive_selection(report: &DiscoveryReport, terminal: bool, read: LineRead) -> (out: Result<
    Vec<DiscoveredApplication>,
    RegistryError,
>)
    ensures
        applications_outcome(out) == interactive_choice(report@.applications, terminal, read),
{
    match can_select(report, terminal) {
        Ok(_) => {},
        Err(e) => {
            return Err(e);
        },
    }
    let line = match take_line(read) {
        Ok(line) => line,
        Err(e) => {
            return Err(e);
        },
    };
    let answer = trim_text(line.as_str());
    if answer.unicode_len() == 0 {
        return Err(RegistryError::InteractiveCanceled);
    }
    let values = split_text(answer, ',');
    assert(views(report.applications@).len() == report.applications@.len());
    let picks = match parse_picks(&values, report.applications.len()) {
        Ok(picks) => picks,
        Err(e) => {
            return Err(e);
        },
    };
    assert(as_nats(picks@).len() == picks@.len());
    if picks.len() == 0 {
        return Err(RegistryError::InteractiveCanceled);
    }
    Ok(take_picked(&report.applications, &picks))
}

/// An answer that confirms.
pub open spec fn confirms(line: Seq<char>) -> bool {
    let answer = trim(line);
    answer == "y"@ || answer == "Y"@ || answer == "yes"@ || answer == "YES"@
}

/// Why a removal is not confirmed.
pub open spec fn removal_obstacle(terminal: bool, read: LineRead) -> Option<RegistryErrorView> {
    if !terminal {
        Some(RegistryErrorView::InteractiveInputUnavailable)
    } else {
        match line_read(read) {
            Err(e) => Some(e),
            Ok(line) => if confirms(line) {
                None
            } else {
                Some(RegistryErrorView::InteractiveCanceled)
            },
        }
    }
}

/// Whether the user's answer confirms a removal.
pub fn confirm_removal(terminal: bool, read: LineRead) -> (out: Result<(), RegistryError>)
    ensures
        match removal_obstacle(terminal, read) {
            Some(e) => out matches Err(error) && error@ == e,
            None => out is Ok,
        },
{
    if !terminal {
        return Err(RegistryError::InteractiveInputUnavailable);
    }
    let line = match take_line(read) {
        Ok(line) => line,
        Err(e) => {
            return Err(e);
        },
    };
    let answer = trim_text(line.as_str());
    if same_text(answer, "y") || same_text(answer, "Y") || same_text(answer, "yes") || same_text(
        answer,
        "YES",
    ) {
        Ok(())
    } else {
        Err(RegistryError::InteractiveCanceled)
    }
}

pub open spec fn availability_text(availability: AvailabilityView) -> Seq<char> {
    match availability {
        AvailabilityView::Available { current_name } => "available ("@ + current_name + ")"@,
        AvailabilityView::Unavailable => "unavailable"@,
        AvailabilityView::Unknown => "not checked"@,
    }
}

/// What is said of the availability of an application.
pub fn availability_label(availability: &RegisteredApplicationAvailability) -> (out: String)
    ensures
        out@ == availability_text(availability@),
{
    match availability {
        RegisteredApplicationAvailability::Available { current_name } => {
            "available (".to_owned().concat(current_name.as_str()).concat(")")
        },
        RegisteredApplicationAvailability::Unavailable => "unavailable".to_owned(),
        RegisteredApplicationAvailability::Unknown => "not checked".to_owned(),
    }
}

/// The I/O class with a name.
pub fn parse_io_class(value: &str) -> (out: Result<IoPriorityClass, String>)
    ensures
        match out {
            Ok(class) => io_class_text(class) == value@,
            Err(message) => message@ == "unsupported I/O class `"@ + value@ + "`"@ && forall|
                class: IoPriorityClass,
            |
                #[trigger] io_class_text(class) != value@,
        },
{
    if same_text(value, "none") {
        Ok(IoPriorityClass::Unset)
    } else if same_text(value, "best-effort") {
        Ok(IoPriorityClass::BestEffort)
    } else if same_text(value, "realtime") {
        Ok(IoPriorityClass::Realtime)
    } else if same_text(value, "idle") {
        Ok(IoPriorityClass::Idle)
    } else {
        Err("unsupported I/O class `".to_owned().concat(value).concat("`"))
    }
}

/// The first application with an ID among some.
pub open spec fn status_with(
    all: Seq<(RegisteredView, AvailabilityView)>,
    desktop_id: Seq<char>,
) -> Option<(RegisteredView, AvailabilityView)>
    decreases all.len(),
{
    if all.len() == 0 {
        None
    } else if all[0].0.desktop_id == desktop_id {
        Some(all[0])
    } else {
        status_with(all.drop_first(), desktop_id)
    }
}

/// The first application with an ID among some; it is an error where there is
/// none.
pub fn find_status(all: Vec<RegisteredApplicationStatus>, desktop_id: &str) -> (out: Result<
    RegisteredApplicationStatus,
    RegistryError,
>)
    ensures
        match out {
            Ok(one) => status_with(views(all@), desktop_id@) == Some(one@),
            Err(e) => status_with(views(all@), desktop_id@) is None && e@
                == (RegistryErrorView::UnknownRegisteredApplication { desktop_id: desktop_id@ }),
        },
{
    let ghost whole = views(all@);
    let mut left = all;
    let mut i: usize = 0;
    assert(whole.skip(0) =~= whole);
    while i < left.len()
        invariant
            i <= left@.len(),
            whole == views(left@),
            whole == views(all@),
            status_with(whole, desktop_id@) == status_with(whole.skip(i as int), desktop_id@),
        decreases left.len() - i,
    {
        assert(whole.skip(i as int)[0] == left@[i as int]@);
        assert(whole.skip(i as int).drop_first() =~= whole.skip(i + 1));
        if same_text(left[i].application.desktop_id.as_str(), desktop_id) {
            return Ok(left.swap_remove(i));
        }
        i += 1;
    }
    Err(RegistryError::UnknownRegisteredApplication { desktop_id: desktop_id.to_owned() })
}

} // verus!
