//! The files that the launcher owns: what they hold and how they are told
//! apart from those of the user.
use vstd::prelude::*;
use vstd::string::StrSliceExecFns;
use vstd::string::StringExecFns;

use super::error::{IntegrationError, IntegrationErrorView};
use super::paths::failure;
use crate::path::{path_text, UnixPath};
use crate::text::{
    contains_char, contains_control, group_views, has_control, has_prefix, join, join_text, lines,
    lines_of, same_text, starts_with, views,
};

verus! {

/// What stands at a path that is read without following a symbolic link.
#[derive(Debug, PartialEq, Eq)]
pub enum FileState {
    Missing,
    Symlink,
    /// Neither a symbolic link nor a regular file.
    NotFile,
    /// A regular file with this text.
    Text(String),
    /// A regular file that could not be read as text; the system's message.
    Unreadable(String),
    /// The path could not be inspected; the system's message.
    Failed(String),
}

/// A file state by its contents.
pub enum FileStateView {
    Missing,
    Symlink,
    NotFile,
    Text(Seq<char>),
    Unreadable(Seq<char>),
    Failed(Seq<char>),
}

impl View for FileState {
    type V = FileStateView;

    open spec fn view(&self) -> FileStateView {
        match self {
            FileState::Missing => FileStateView::Missing,
            FileState::Symlink => FileStateView::Symlink,
            FileState::NotFile => FileStateView::NotFile,
            FileState::Text(text) => FileStateView::Text(text@),
            FileState::Unreadable(source) => FileStateView::Unreadable(source@),
            FileState::Failed(source) => FileStateView::Failed(source@),
        }
    }
}

impl Clone for FileState {
    fn clone(&self) -> (out: Self)
        ensures
            out@ == self@,
    {
        match self {
            FileState::Missing => FileState::Missing,
            FileState::Symlink => FileState::Symlink,
            FileState::NotFile => FileState::NotFile,
            FileState::Text(text) => FileState::Text(text.clone()),
            FileState::Unreadable(source) => FileState::Unreadable(source.clone()),
            FileState::Failed(source) => FileState::Failed(source.clone()),
        }
    }
}

/// The text of a regular file, where there is one.
pub open spec fn regular_text(path: Seq<u8>, state: FileStateView) -> Result<
    Option<Seq<char>>,
    IntegrationErrorView,
> {
    match state {
        FileStateView::Missing => Ok(None),
        FileStateView::Symlink => Err(IntegrationErrorView::SymlinkRejected { path }),
        FileStateView::NotFile => Err(IntegrationErrorView::UnownedFile { path }),
        FileStateView::Text(text) => Ok(Some(text)),
        FileStateView::Unreadable(source) => Err(IntegrationErrorView::FileSystem { path, source }),
        FileStateView::Failed(source) => Err(IntegrationErrorView::FileSystem { path, source }),
    }
}

/// A text that may be absent, or an error, by contents.
pub open spec fn text_outcome(out: Result<Option<String>, IntegrationError>) -> Result<
    Option<Seq<char>>,
    IntegrationErrorView,
> {
    match out {
        Ok(text) => Ok(crate::text::optional_text_view(text)),
        Err(e) => Err(e@),
    }
}

/// The text of a regular file, where there is one. Symbolic links and what is
/// no file are rejected.
pub fn read_optional_regular(path: &UnixPath, state: &FileState) -> (out: Result<
    Option<String>,
    IntegrationError,
>)
    ensures
        text_outcome(out) == regular_text(path@, state@),
{
    match state {
        FileState::Missing => Ok(None),
        FileState::Symlink => Err(IntegrationError::SymlinkRejected { path: path.clone() }),
        FileState::NotFile => Err(IntegrationError::UnownedFile { path: path.clone() }),
        FileState::Text(text) => Ok(Some(text.clone())),
        FileState::Unreadable(source) => Err(
            IntegrationError::FileSystem { path: path.clone(), source: source.clone() },
        ),
        FileState::Failed(source) => Err(
            IntegrationError::FileSystem { path: path.clone(), source: source.clone() },
        ),
    }
}

/// The contents of the file that marks startup as enabled by the launcher.
pub open spec fn startup_marker() -> Seq<char> {
    "ecore-launcher startup ownership v1\n"@
}

/// The contents of the file that marks startup as enabled by the launcher.
pub fn startup_marker_text() -> (out: String)
    ensures
        out@ == startup_marker(),
{
    "ecore-launcher startup ownership v1\n".to_owned()
}

/// The contents of the override that suppresses the autostart of an
/// application.
pub open spec fn owned_override(desktop_id: Seq<char>) -> Seq<char> {
    "[Desktop Entry]\nType=Application\nHidden=true\nX-Ecore-Launcher-Owned=true\nX-Ecore-Launcher-DesktopId="@
        + desktop_id + "\n"@
}

/// The contents of the override that suppresses the autostart of an
/// application.
pub fn owned_autostart_contents(desktop_id: &str) -> (out: String)
    ensures
        out@ == owned_override(desktop_id@),
{
    "[Desktop Entry]\nType=Application\nHidden=true\nX-Ecore-Launcher-Owned=true\nX-Ecore-Launcher-DesktopId=".to_owned().concat(
        desktop_id,
    ).concat("\n")
}

/// A character as it stands between double quotes in a unit.
pub open spec fn escaped_char(c: char) -> Seq<char> {
    if c == '%' {
        seq!['%', '%']
    } else if c == '\\' {
        seq!['\\', '\\']
    } else if c == '"' {
        seq!['\\', '"']
    } else {
        seq![c]
    }
}

/// A text as it stands between double quotes in a unit.
pub open spec fn escaped(s: Seq<char>) -> Seq<char>
    decreases s.len(),
{
    if s.len() == 0 {
        Seq::empty()
    } else {
        escaped(s.drop_last()) + escaped_char(s.last())
    }
}

/// A text in double quotes, as a unit takes it for one word.
pub open spec fn quoted(s: Seq<char>) -> Seq<char> {
    "\""@ + escaped(s) + "\""@
}

/// A path as one word of a unit.
pub open spec fn quoted_path(path: Seq<u8>, field: Seq<char>) -> Result<
    Seq<char>,
    IntegrationErrorView,
> {
    match path_text(path) {
        None => Err(IntegrationErrorView::NonUtf8Path { field }),
        Some(text) => if has_control(text) {
            Err(
                IntegrationErrorView::InvalidPath {
                    field,
                    path,
                    reason: "control characters are not permitted"@,
                },
            )
        } else {
            Ok(quoted(text))
        },
    }
}

/// A text or an error, by contents.
pub open spec fn string_outcome(out: Result<String, IntegrationError>) -> Result<
    Seq<char>,
    IntegrationErrorView,
> {
    match out {
        Ok(text) => Ok(text@),
        Err(e) => Err(e@),
    }
}

/// A path as one word of a unit.
pub fn systemd_quote_path(path: &UnixPath, field: &str) -> (out: Result<String, IntegrationError>)
    ensures
        string_outcome(out) == quoted_path(path@, field@),
{
    let text = match path.to_text() {
        None => {
            return Err(IntegrationError::NonUtf8Path { field: field.to_owned() });
        },
        Some(text) => text,
    };
    if contains_control(text.as_str()) {
        return Err(
            IntegrationError::InvalidPath {
                field: field.to_owned(),
                path: path.clone(),
                reason: "control characters are not permitted".to_owned(),
            },
        );
    }
    let mut inner = String::new();
    for c in it: text.as_str().chars()
        invariant
            it.seq() == text@,
            inner@ == escaped(text@.take(it.index() as int)),
    {
        let ghost i = it.index() as int;
        assert(text@.take(i + 1).drop_last() =~= text@.take(i));
        assert(text@.take(i + 1).last() == c);
        let ghost before = inner@;
        if c == '%' {
            inner.push('%');
            inner.push('%');
        } else if c == '\\' {
            inner.push('\\');
            inner.push('\\');
        } else if c == '"' {
            inner.push('\\');
            inner.push('"');
        } else {
            inner.push(c);
        }
        assert(inner@ =~= before + escaped_char(c));
    }
    assert(text@.take(text@.len() as int) =~= text@);
    Ok("\"".to_owned().concat(inner.as_str()).concat("\""))
}

/// The lines of the unit that starts the launcher.
pub open spec fn unit_lines(executable: Seq<char>, registry: Seq<char>) -> Seq<Seq<char>> {
    seq![
        "# Generated and owned by ecore-launcher."@,
        "[Unit]"@,
        "Description=Launch explicitly managed desktop applications on detected E-cores"@,
        "After=graphical-session.target"@,
        "PartOf=graphical-session.target"@,
        ""@,
        "[Service]"@,
        "Type=simple"@,
        "ExecStart=:"@ + executable + " --config "@ + registry + " supervise"@,
        "KillMode=process"@,
        "Restart=no"@,
        ""@,
        "[Install]"@,
        "WantedBy=graphical-session.target"@,
    ]
}

/// The unit that starts the launcher with the graphical session.
pub open spec fn unit_text(executable: Seq<char>, registry: Seq<char>) -> Seq<char> {
    join(unit_lines(executable, registry), seq!['\n']).push('\n')
}

/// The unit for an executable and a registry file, each given by its path.
pub open spec fn unit_for(executable: Seq<u8>, registry: Seq<u8>) -> Result<
    Seq<char>,
    IntegrationErrorView,
> {
    match quoted_path(executable, "launcher executable"@) {
        Err(e) => Err(e),
        Ok(program) => match quoted_path(registry, "registry configuration"@) {
            Err(e) => Err(e),
            Ok(configuration) => Ok(unit_text(program, configuration)),
        },
    }
}

/// The unit for an executable and a registry file.
pub fn unit_contents(executable: &UnixPath, registry: &UnixPath) -> (out: Result<
    String,
    IntegrationError,
>)
    ensures
        string_outcome(out) == unit_for(executable@, registry@),
{
    broadcast use group_views;

    let program = match systemd_quote_path(executable, "launcher executable") {
        Ok(text) => text,
        Err(e) => {
            return Err(e);
        },
    };
    let configuration = match systemd_quote_path(registry, "registry configuration") {
        Ok(text) => text,
        Err(e) => {
            return Err(e);
        },
    };
    let mut parts: Vec<String> = Vec::new();
    parts.push("# Generated and owned by ecore-launcher.".to_owned());
    parts.push("[Unit]".to_owned());
    parts.push(
        "Description=Launch explicitly managed desktop applications on detected E-cores".to_owned(),
    );
    parts.push("After=graphical-session.target".to_owned());
    parts.push("PartOf=graphical-session.target".to_owned());
    parts.push("".to_owned());
    parts.push("[Service]".to_owned());
    parts.push("Type=simple".to_owned());
    parts.push(
        "ExecStart=:".to_owned().concat(program.as_str()).concat(" --config ").concat(
            configuration.as_str(),
        ).concat(" supervise"),
    );
    parts.push("KillMode=process".to_owned());
    parts.push("Restart=no".to_owned());
    parts.push("".to_owned());
    parts.push("[Install]".to_owned());
    parts.push("WantedBy=graphical-session.target".to_owned());
    assert(views(parts@) =~= unit_lines(program@, configuration@));
    let mut out = join_text(&parts, "\n");
    proof {
        reveal_strlit("\n");
        assert("\n"@ =~= seq!['\n']);
    }
    out.push('\n');
    Ok(out)
}

/// The line at a position, where there is one, is the given one.
pub open spec fn line_is(lines: Seq<Seq<char>>, at: int, line: Seq<char>) -> bool {
    0 <= at < lines.len() && lines[at] == line
}

/// The line at a position, where there is one, begins with the given text.
pub open spec fn line_begins(lines: Seq<Seq<char>>, at: int, beginning: Seq<char>) -> bool {
    0 <= at < lines.len() && starts_with(lines[at], beginning)
}

/// The lines that a unit of the launcher ends with, from a position on.
pub open spec fn unit_body(lines: Seq<Seq<char>>, at: int, command: Seq<char>) -> bool {
    &&& lines.len() == at + 9
    &&& line_is(lines, at, ""@)
    &&& line_is(lines, at + 1, "[Service]"@)
    &&& line_is(lines, at + 2, "Type=simple"@)
    &&& line_begins(lines, at + 3, command)
    &&& line_is(lines, at + 4, "KillMode=process"@)
    &&& line_is(lines, at + 5, "Restart=no"@)
    &&& line_is(lines, at + 6, ""@)
    &&& line_is(lines, at + 7, "[Install]"@)
    &&& line_is(lines, at + 8, "WantedBy=graphical-session.target"@)
}

/// The lines that a unit of the launcher begins with, after the first.
pub open spec fn unit_header(lines: Seq<Seq<char>>) -> bool {
    &&& line_is(lines, 1, "[Unit]"@)
    &&& line_is(
        lines,
        2,
        "Description=Launch explicitly managed desktop applications on detected E-cores"@,
    )
    &&& line_is(lines, 3, "After=graphical-session.target"@)
}

/// A unit that the launcher wrote: in its present format, or in the one
/// before it, which did not stop with the session and let the manager expand
/// the command.
pub open spec fn generated_unit(contents: Seq<char>) -> bool {
    let all = lines(contents);
    &&& starts_with(contents, "# Generated and owned by ecore-launcher.\n"@)
    &&& !contents.contains('\0')
    &&& unit_header(all)
    &&& {
        ||| line_is(all, 4, "PartOf=graphical-session.target"@) && unit_body(
            all,
            5,
            "ExecStart=:"@,
        )
        ||| unit_body(all, 4, "ExecStart="@)
    }
}

fn is_line(lines: &Vec<String>, at: usize, line: &str) -> (out: bool)
    ensures
        out == line_is(views(lines@), at as int, line@),
{
    at < lines.len() && same_text(lines[at].as_str(), line)
}

fn line_has_prefix(lines: &Vec<String>, at: usize, beginning: &str) -> (out: bool)
    ensures
        out == line_begins(views(lines@), at as int, beginning@),
{
    at < lines.len() && has_prefix(lines[at].as_str(), beginning)
}

fn has_unit_body(lines: &Vec<String>, at: usize, command: &str) -> (out: bool)
    requires
        at <= 5,
    ensures
        out == unit_body(views(lines@), at as int, command@),
{
    assert(views(lines@).len() == lines@.len());
    lines.len() == at + 9 && is_line(lines, at, "") && is_line(lines, at + 1, "[Service]")
        && is_line(lines, at + 2, "Type=simple") && line_has_prefix(lines, at + 3, command)
        && is_line(lines, at + 4, "KillMode=process") && is_line(lines, at + 5, "Restart=no")
        && is_line(lines, at + 6, "") && is_line(lines, at + 7, "[Install]") && is_line(
        lines,
        at + 8,
        "WantedBy=graphical-session.target",
    )
}

/// Whether a unit was written by the launcher.
pub fn is_generated_unit(contents: &str) -> (out: bool)
    ensures
        out == generated_unit(contents@),
{
    if !has_prefix(contents, "# Generated and owned by ecore-launcher.\n") {
        return false;
    }
    if contains_char(contents, '\0') {
        return false;
    }
    let all = lines_of(contents);
    is_line(&all, 1, "[Unit]") && is_line(
        &all,
        2,
        "Description=Launch explicitly managed desktop applications on detected E-cores",
    ) && is_line(&all, 3, "After=graphical-session.target") && ((is_line(
        &all,
        4,
        "PartOf=graphical-session.target",
    ) && has_unit_body(&all, 5, "ExecStart=:")) || has_unit_body(&all, 4, "ExecStart="))
}

/// Which files at a path belong to the launcher.
#[derive(Debug, PartialEq, Eq)]
pub enum OwnedFile {
    /// Units that the launcher wrote.
    Unit,
    /// Files with exactly this text.
    Exactly(String),
}

/// Owned files by their contents.
pub enum OwnedView {
    Unit,
    Exactly(Seq<char>),
}

impl View for OwnedFile {
    type V = OwnedView;

    open spec fn view(&self) -> OwnedView {
        match self {
            OwnedFile::Unit => OwnedView::Unit,
            OwnedFile::Exactly(text) => OwnedView::Exactly(text@),
        }
    }
}

impl OwnedView {
    /// Whether a file with the given text is an owned one.
    pub open spec fn owns(self, text: Seq<char>) -> bool {
        match self {
            OwnedView::Unit => generated_unit(text),
            OwnedView::Exactly(expected) => text == expected,
        }
    }
}

impl OwnedFile {
    /// Whether a file with the given text is an owned one.
    pub fn owns(&self, text: &str) -> (out: bool)
        ensures
            out == self@.owns(text@),
    {
        match self {
            OwnedFile::Unit => is_generated_unit(text),
            OwnedFile::Exactly(expected) => same_text(text, expected.as_str()),
        }
    }
}

/// Why a file at a path is not one that may be replaced or removed.
pub open spec fn ownership_failure(path: Seq<u8>, owned: OwnedView, state: FileStateView) -> Option<
    IntegrationErrorView,
> {
    match regular_text(path, state) {
        Err(e) => Some(e),
        Ok(None) => None,
        Ok(Some(text)) => if owned.owns(text) {
            None
        } else {
            Some(IntegrationErrorView::UnownedFile { path })
        },
    }
}

/// Reject a file that does not belong to the launcher.
pub fn reject_unowned(path: &UnixPath, owned: &OwnedFile, state: &FileState) -> (out: Result<
    (),
    IntegrationError,
>)
    ensures
        failure(out) == ownership_failure(path@, owned@, state@),
{
    match read_optional_regular(path, state) {
        Err(e) => Err(e),
        Ok(None) => Ok(()),
        Ok(Some(text)) => if owned.owns(text.as_str()) {
            Ok(())
        } else {
            Err(IntegrationError::UnownedFile { path: path.clone() })
        },
    }
}

} // verus!
