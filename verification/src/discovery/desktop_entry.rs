//! The main group of a desktop-entry file.
use vstd::prelude::*;
use vstd::string::StrSliceExecFns;
use vstd::string::StringExecFns;

use crate::order::insert_sorted;
use crate::text::{
    chars_of, decimal, decimal_text, equal_ignoring_case, find_char, find_in, group_views,
    has_prefix, is_before, nonempty_pieces, optional_text_view, pieces, same_ignoring_case,
    same_text, split, split_text, starts_with, text_before, trim, trim_text, views,
};

verus! {

/// Keys with their values, in the order of the keys.
pub type TableView = Seq<(Seq<char>, Seq<char>)>;

pub open spec fn key_before() -> spec_fn((Seq<char>, Seq<char>), (Seq<char>, Seq<char>)) -> bool {
    |a: (Seq<char>, Seq<char>), b: (Seq<char>, Seq<char>)| text_before(a.0, b.0)
}

/// The value of a key.
pub open spec fn lookup(table: TableView, key: Seq<char>) -> Option<Seq<char>>
    decreases table.len(),
{
    if table.len() == 0 {
        None
    } else if table.last().0 == key {
        Some(table.last().1)
    } else {
        lookup(table.drop_last(), key)
    }
}

fn find_value(table: &Vec<(String, String)>, key: &str) -> (out: Option<String>)
    ensures
        optional_text_view(out) == lookup(views(table@), key@),
{
    let ghost all = views(table@);
    let mut i: usize = table.len();
    assert(all.take(all.len() as int) =~= all);
    while i > 0
        invariant
            i <= table@.len(),
            all == views(table@),
            lookup(all, key@) == lookup(all.take(i as int), key@),
        decreases i,
    {
        assert(all.take(i as int).drop_last() =~= all.take(i - 1));
        assert(all.take(i as int).last() == table@[i - 1]@);
        if same_text(table[i - 1].0.as_str(), key) {
            return Some(table[i - 1].1.clone());
        }
        i -= 1;
    }
    None
}

fn insert_value(table: &mut Vec<(String, String)>, key: &str, value: &str)
    ensures
        views(final(table)@) == insert_sorted(views(old(table)@), (key@, value@), key_before()),
{
    let ghost all = views(table@);
    let mut i: usize = table.len();
    while i > 0 && is_before(key, table[i - 1].0.as_str())
        invariant
            i <= table@.len(),
            table@ == old(table)@,
            all == views(table@),
            forall|k: int|
                i <= k < all.len() ==> key_before()((key@, value@), #[trigger] all[k]),
        decreases i,
    {
        assert(all[i - 1] == table@[i - 1]@);
        i -= 1;
    }
    proof {
        if i > 0 {
            assert(all[i - 1] == table@[i - 1]@);
        }
        crate::order::lemma_insert_sorted_at(all, (key@, value@), key_before(), i as int);
    }
    table.insert(i, (key.to_owned(), value.to_owned()));
    assert(views(table@) =~= all.insert(i as int, (key@, value@)));
}

/// A value with translations.
#[derive(Debug, PartialEq, Eq)]
pub struct LocalizedValue {
    pub unlocalized: Option<String>,
    pub localized: Vec<(String, String)>,
}

/// A translated value by its contents.
pub struct LocalizedView {
    pub unlocalized: Option<Seq<char>>,
    pub localized: TableView,
}

impl View for LocalizedValue {
    type V = LocalizedView;

    open spec fn view(&self) -> LocalizedView {
        LocalizedView {
            unlocalized: optional_text_view(self.unlocalized),
            localized: views(self.localized@),
        }
    }
}

/// Parsed values from the main `[Desktop Entry]` group.
#[derive(Debug, PartialEq, Eq)]
pub struct DesktopEntry {
    pub entry_type: Option<String>,
    pub names: LocalizedValue,
    pub generic_names: LocalizedValue,
    pub command: Option<String>,
    pub icon: Option<String>,
    pub hidden: bool,
    pub no_display: bool,
    pub terminal: bool,
    pub try_exec: Option<String>,
    pub only_show_in: Vec<String>,
    pub not_show_in: Vec<String>,
    pub categories: Vec<String>,
    pub startup_wm_class: Option<String>,
}

/// A desktop entry by its contents.
pub struct DesktopEntryView {
    pub entry_type: Option<Seq<char>>,
    pub names: LocalizedView,
    pub generic_names: LocalizedView,
    pub command: Option<Seq<char>>,
    pub icon: Option<Seq<char>>,
    pub hidden: bool,
    pub no_display: bool,
    pub terminal: bool,
    pub try_exec: Option<Seq<char>>,
    pub only_show_in: Seq<Seq<char>>,
    pub not_show_in: Seq<Seq<char>>,
    pub categories: Seq<Seq<char>>,
    pub startup_wm_class: Option<Seq<char>>,
}

impl View for DesktopEntry {
    type V = DesktopEntryView;

    open spec fn view(&self) -> DesktopEntryView {
        DesktopEntryView {
            entry_type: optional_text_view(self.entry_type),
            names: self.names@,
            generic_names: self.generic_names@,
            command: optional_text_view(self.command),
            icon: optional_text_view(self.icon),
            hidden: self.hidden,
            no_display: self.no_display,
            terminal: self.terminal,
            try_exec: optional_text_view(self.try_exec),
            only_show_in: views(self.only_show_in@),
            not_show_in: views(self.not_show_in@),
            categories: views(self.categories@),
            startup_wm_class: optional_text_view(self.startup_wm_class),
        }
    }
}

/// Syntax or supported-value error in a desktop entry.
#[derive(Debug, PartialEq, Eq)]
pub enum DesktopEntryParseError {
    /// No main desktop-entry group was present.
    MissingDesktopEntryGroup,
    /// The main group appeared more than once.
    DuplicateDesktopEntryGroup,
    /// A line in the main group was not a key/value pair.
    MalformedLine { line: usize },
    /// A supported key was repeated.
    DuplicateKey { line: usize, key: String },
    /// A boolean used syntax other than lowercase `true` or `false`.
    InvalidBoolean { key: String, value: String },
    /// A string used an unsupported escape sequence.
    InvalidEscape { key: String, escape: char },
    /// A string ended with a bare backslash.
    IncompleteEscape { key: String },
}

/// A desktop-entry error by its contents.
pub enum EntryErrorView {
    MissingDesktopEntryGroup,
    DuplicateDesktopEntryGroup,
    MalformedLine { line: int },
    DuplicateKey { line: int, key: Seq<char> },
    InvalidBoolean { key: Seq<char>, value: Seq<char> },
    InvalidEscape { key: Seq<char>, escape: char },
    IncompleteEscape { key: Seq<char> },
}

impl View for DesktopEntryParseError {
    type V = EntryErrorView;

    open spec fn view(&self) -> EntryErrorView {
        match self {
            DesktopEntryParseError::MissingDesktopEntryGroup => {
                EntryErrorView::MissingDesktopEntryGroup
            },
            DesktopEntryParseError::DuplicateDesktopEntryGroup => {
                EntryErrorView::DuplicateDesktopEntryGroup
            },
            DesktopEntryParseError::MalformedLine { line } => EntryErrorView::MalformedLine {
                line: *line as int,
            },
            DesktopEntryParseError::DuplicateKey { line, key } => EntryErrorView::DuplicateKey {
                line: *line as int,
                key: key@,
            },
            DesktopEntryParseError::InvalidBoolean { key, value } => {
                EntryErrorView::InvalidBoolean { key: key@, value: value@ }
            },
            DesktopEntryParseError::InvalidEscape { key, escape } => EntryErrorView::InvalidEscape {
                key: key@,
                escape: *escape,
            },
            DesktopEntryParseError::IncompleteEscape { key } => EntryErrorView::IncompleteEscape {
                key: key@,
            },
        }
    }
}

/// The message of a desktop-entry error.
pub open spec fn entry_error_text(e: EntryErrorView) -> Seq<char> {
    match e {
        EntryErrorView::MissingDesktopEntryGroup => "missing [Desktop Entry] group"@,
        EntryErrorView::DuplicateDesktopEntryGroup => {
            "[Desktop Entry] group appears more than once"@
        },
        EntryErrorView::MalformedLine { line } => "line "@ + decimal(line as nat)
            + " in [Desktop Entry] is not a key/value pair"@,
        EntryErrorView::DuplicateKey { line, key } => "line "@ + decimal(line as nat)
            + " repeats desktop-entry key `"@ + key + "`"@,
        EntryErrorView::InvalidBoolean { key, value } => "key `"@ + key
            + "` has invalid boolean value `"@ + value + "`"@,
        EntryErrorView::InvalidEscape { key, escape } => "key `"@ + key
            + "` contains unsupported escape `\\"@ + seq![escape] + "`"@,
        EntryErrorView::IncompleteEscape { key } => "key `"@ + key
            + "` ends with an incomplete escape"@,
    }
}

impl DesktopEntryParseError {
    /// The message shown to the user.
    pub fn message(&self) -> (out: String)
        ensures
            out@ == entry_error_text(self@),
    {
        match self {
            DesktopEntryParseError::MissingDesktopEntryGroup => {
                "missing [Desktop Entry] group".to_owned()
            },
            DesktopEntryParseError::DuplicateDesktopEntryGroup => {
                "[Desktop Entry] group appears more than once".to_owned()
            },
            DesktopEntryParseError::MalformedLine { line } => {
                "line ".to_owned().concat(decimal_text(*line as u64).as_str()).concat(
                    " in [Desktop Entry] is not a key/value pair",
                )
            },
            DesktopEntryParseError::DuplicateKey { line, key } => {
                "line ".to_owned().concat(decimal_text(*line as u64).as_str()).concat(
                    " repeats desktop-entry key `",
                ).concat(key.as_str()).concat("`")
            },
            DesktopEntryParseError::InvalidBoolean { key, value } => {
                "key `".to_owned().concat(key.as_str()).concat(
                    "` has invalid boolean value `",
                ).concat(value.as_str()).concat("`")
            },
            DesktopEntryParseError::InvalidEscape { key, escape } => {
                let mut letter = String::new();
                letter.push(*escape);
                assert(letter@ =~= seq![*escape]);
                "key `".to_owned().concat(key.as_str()).concat(
                    "` contains unsupported escape `\\",
                ).concat(letter.as_str()).concat("`")
            },
            DesktopEntryParseError::IncompleteEscape { key } => {
                "key `".to_owned().concat(key.as_str()).concat("` ends with an incomplete escape")
            },
        }
    }
}

/// The locale that a key such as `Name[fr]` holds behind its base.
pub open spec fn key_locale(key: Seq<char>, base: Seq<char>) -> Option<Seq<char>> {
    let rest = key.skip(base.len() as int);
    if starts_with(key, base) && rest.len() >= 3 && rest[0] == '[' && rest.last() == ']' {
        Some(rest.subrange(1, rest.len() - 1))
    } else {
        None
    }
}

pub open spec fn supported_key(key: Seq<char>) -> bool {
    ||| key == "Type"@
    ||| key == "Name"@
    ||| key == "GenericName"@
    ||| key == "Exec"@
    ||| key == "Icon"@
    ||| key == "Hidden"@
    ||| key == "NoDisplay"@
    ||| key == "Terminal"@
    ||| key == "TryExec"@
    ||| key == "OnlyShowIn"@
    ||| key == "NotShowIn"@
    ||| key == "Categories"@
    ||| key == "StartupWMClass"@
}

fn localized_key<'a>(key: &'a str, base: &str) -> (out: Option<&'a str>)
    ensures
        match out {
            Some(locale) => key_locale(key@, base@) == Some(locale@),
            None => key_locale(key@, base@) is None,
        },
{
    if !has_prefix(key, base) {
        return None;
    }
    let from: usize = base.unicode_len();
    let chars = chars_of(key);
    let to: usize = chars.len();
    let ghost rest = key@.skip(from as int);
    if to - from < 3 {
        return None;
    }
    assert(rest[0] == chars@[from as int]);
    assert(rest.last() == chars@[to - 1]);
    if chars[from] != '[' || chars[to - 1] != ']' {
        return None;
    }
    assert(rest.subrange(1, rest.len() - 1) =~= key@.subrange(from + 1, to - 1));
    Some(key.substring_char(from + 1, to - 1))
}

fn is_supported_key(key: &str) -> (out: bool)
    ensures
        out == supported_key(key@),
{
    same_text(key, "Type") || same_text(key, "Name") || same_text(key, "GenericName") || same_text(
        key,
        "Exec",
    ) || same_text(key, "Icon") || same_text(key, "Hidden") || same_text(key, "NoDisplay")
        || same_text(key, "Terminal") || same_text(key, "TryExec") || same_text(key, "OnlyShowIn")
        || same_text(key, "NotShowIn") || same_text(key, "Categories") || same_text(
        key,
        "StartupWMClass",
    )
}

/// How far a file has been read.
pub struct EntryState {
    pub values: TableView,
    pub names: TableView,
    pub generic_names: TableView,
    pub in_main: bool,
    pub saw_main: bool,
}

/// A table with a further key, which must be new.
pub open spec fn unique(table: TableView, key: Seq<char>, value: Seq<char>, line: int) -> Result<
    TableView,
    EntryErrorView,
> {
    if lookup(table, key) is Some {
        Err(EntryErrorView::DuplicateKey { line, key })
    } else {
        Ok(insert_sorted(table, (key, value), key_before()))
    }
}

/// One line of the main group.
pub open spec fn read_pair(state: EntryState, line: Seq<char>, number: int) -> Result<
    EntryState,
    EntryErrorView,
> {
    let at = find_char(line, '=');
    let key = trim(line.take(at));
    let value = trim(line.skip(at + 1));
    if at == line.len() {
        Err(EntryErrorView::MalformedLine { line: number })
    } else if key_locale(key, "Name"@) is Some {
        match unique(state.names, key_locale(key, "Name"@)->0, value, number) {
            Ok(names) => Ok(EntryState { names, ..state }),
            Err(e) => Err(e),
        }
    } else if key_locale(key, "GenericName"@) is Some {
        match unique(state.generic_names, key_locale(key, "GenericName"@)->0, value, number) {
            Ok(generic_names) => Ok(EntryState { generic_names, ..state }),
            Err(e) => Err(e),
        }
    } else if supported_key(key) {
        match unique(state.values, key, value, number) {
            Ok(values) => Ok(EntryState { values, ..state }),
            Err(e) => Err(e),
        }
    } else {
        Ok(state)
    }
}

pub open spec fn is_group_line(line: Seq<char>) -> bool {
    line.len() > 0 && line[0] == '[' && line.last() == ']'
}

/// One line of the file, without the white space around it.
pub open spec fn read_line(state: EntryState, line: Seq<char>, number: int) -> Result<
    EntryState,
    EntryErrorView,
> {
    if line.len() == 0 || line[0] == '#' {
        Ok(state)
    } else if is_group_line(line) {
        if line.subrange(1, line.len() - 1) == "Desktop Entry"@ {
            if state.saw_main {
                Err(EntryErrorView::DuplicateDesktopEntryGroup)
            } else {
                Ok(EntryState { in_main: true, saw_main: true, ..state })
            }
        } else {
            Ok(EntryState { in_main: false, ..state })
        }
    } else if !state.in_main {
        Ok(state)
    } else {
        read_pair(state, line, number)
    }
}

/// The lines of a file read from its start, or the first error.
pub open spec fn read_lines(lines: Seq<Seq<char>>) -> Result<EntryState, EntryErrorView>
    decreases lines.len(),
{
    if lines.len() == 0 {
        Ok(
            EntryState {
                values: Seq::empty(),
                names: Seq::empty(),
                generic_names: Seq::empty(),
                in_main: false,
                saw_main: false,
            },
        )
    } else {
        match read_lines(lines.drop_last()) {
            Err(e) => Err(e),
            Ok(state) => read_line(state, trim(lines.last()), lines.len() as int),
        }
    }
}

/// The character that an escape stands for.
pub open spec fn escape_char(c: char) -> Option<char> {
    if c == 's' {
        Some(' ')
    } else if c == 'n' {
        Some('\n')
    } else if c == 't' {
        Some('\t')
    } else if c == 'r' {
        Some('\r')
    } else if c == '\\' {
        Some('\\')
    } else {
        None
    }
}

/// A value with its escapes replaced, or the error of the first bad one.
pub open spec fn unescaped(key: Seq<char>, value: Seq<char>) -> Result<Seq<char>, EntryErrorView>
    decreases value.len(),
{
    if value.len() == 0 {
        Ok(value)
    } else if value[0] != '\\' {
        match unescaped(key, value.drop_first()) {
            Ok(rest) => Ok(seq![value[0]] + rest),
            Err(e) => Err(e),
        }
    } else if value.len() == 1 {
        Err(EntryErrorView::IncompleteEscape { key })
    } else {
        match escape_char(value[1]) {
            None => Err(EntryErrorView::InvalidEscape { key, escape: value[1] }),
            Some(c) => match unescaped(key, value.skip(2)) {
                Ok(rest) => Ok(seq![c] + rest),
                Err(e) => Err(e),
            },
        }
    }
}

spec fn prefixed(front: Seq<char>, rest: Result<Seq<char>, EntryErrorView>) -> Result<
    Seq<char>,
    EntryErrorView,
> {
    match rest {
        Ok(text) => Ok(front + text),
        Err(e) => Err(e),
    }
}

proof fn lemma_prefixed(front: Seq<char>, c: char, rest: Result<Seq<char>, EntryErrorView>)
    ensures
        prefixed(
            front,
            match rest {
                Ok(text) => Ok(seq![c] + text),
                Err(e) => Err(e),
            },
        ) == prefixed(front.push(c), rest),
{
    match rest {
        Ok(text) => {
            assert(front + (seq![c] + text) =~= front.push(c) + text);
        },
        Err(_) => {},
    }
}

fn read_escape(c: char) -> (out: Option<char>)
    ensures
        out == escape_char(c),
{
    if c == 's' {
        Some(' ')
    } else if c == 'n' {
        Some('\n')
    } else if c == 't' {
        Some('\t')
    } else if c == 'r' {
        Some('\r')
    } else if c == '\\' {
        Some('\\')
    } else {
        None
    }
}

fn unescape(key: &str, value: &str) -> (out: Result<String, DesktopEntryParseError>)
    ensures
        match out {
            Ok(text) => unescaped(key@, value@) == Ok::<Seq<char>, EntryErrorView>(text@),
            Err(e) => unescaped(key@, value@) == Err::<Seq<char>, EntryErrorView>(e@),
        },
{
    let chars = chars_of(value);
    let mut result = String::new();
    let mut i: usize = 0;
    assert(value@.skip(0) =~= value@);
    assert(unescaped(key@, value@) == prefixed(result@, unescaped(key@, value@))) by {
        match unescaped(key@, value@) {
            Ok(rest) => {
                assert(result@ + rest =~= rest);
            },
            Err(_) => {},
        }
    }
    while i < chars.len()
        invariant
            i <= chars@.len(),
            chars@ == value@,
            unescaped(key@, value@) == prefixed(result@, unescaped(key@, value@.skip(i as int))),
        decreases chars.len() - i,
    {
        let ghost rest = value@.skip(i as int);
        let ghost before = result@;
        let c = chars[i];
        assert(rest[0] == c);
        if c != '\\' {
            assert(rest.drop_first() =~= value@.skip(i + 1));
            result.push(c);
            i += 1;
            proof {
                lemma_prefixed(before, c, unescaped(key@, value@.skip(i as int)));
            }
            continue ;
        }
        if i + 1 >= chars.len() {
            return Err(DesktopEntryParseError::IncompleteEscape { key: key.to_owned() });
        }
        let escape = chars[i + 1];
        assert(rest[1] == escape);
        match read_escape(escape) {
            Some(replaced) => {
                assert(rest.skip(2) =~= value@.skip(i + 2));
                result.push(replaced);
                i += 2;
                proof {
                    lemma_prefixed(before, replaced, unescaped(key@, value@.skip(i as int)));
                }
            },
            None => {
                return Err(DesktopEntryParseError::InvalidEscape { key: key.to_owned(), escape });
            },
        }
    }
    assert(value@.skip(i as int) =~= Seq::empty());
    assert(result@ + Seq::<char>::empty() =~= result@);
    Ok(result)
}

/// A string value; an empty one counts as absent.
pub open spec fn string_value(table: TableView, key: Seq<char>) -> Result<
    Option<Seq<char>>,
    EntryErrorView,
> {
    match lookup(table, key) {
        None => Ok(None),
        Some(raw) => match unescaped(key, raw) {
            Err(e) => Err(e),
            Ok(text) => if text.len() == 0 {
                Ok(None)
            } else {
                Ok(Some(text))
            },
        },
    }
}

fn optional_string(table: &Vec<(String, String)>, key: &str) -> (out: Result<
    Option<String>,
    DesktopEntryParseError,
>)
    ensures
        match out {
            Ok(text) => string_value(views(table@), key@) == Ok::<
                Option<Seq<char>>,
                EntryErrorView,
            >(optional_text_view(text)),
            Err(e) => string_value(views(table@), key@) == Err::<
                Option<Seq<char>>,
                EntryErrorView,
            >(e@),
        },
{
    match find_value(table, key) {
        None => Ok(None),
        Some(raw) => match unescape(key, raw.as_str()) {
            Err(e) => Err(e),
            Ok(text) => if text.as_str().is_empty() {
                Ok(None)
            } else {
                Ok(Some(text))
            },
        },
    }
}

/// The `Exec` value as it stands; an empty one counts as absent.
pub open spec fn raw_value(table: TableView, key: Seq<char>) -> Option<Seq<char>> {
    match lookup(table, key) {
        Some(raw) => if raw.len() == 0 {
            None
        } else {
            Some(raw)
        },
        None => None,
    }
}

fn nonempty_raw(table: &Vec<(String, String)>, key: &str) -> (out: Option<String>)
    ensures
        optional_text_view(out) == raw_value(views(table@), key@),
{
    match find_value(table, key) {
        None => None,
        Some(raw) => if raw.as_str().is_empty() {
            None
        } else {
            Some(raw)
        },
    }
}

/// A boolean value; an absent one counts as false.
pub open spec fn boolean_value(table: TableView, key: Seq<char>) -> Result<bool, EntryErrorView> {
    match lookup(table, key) {
        None => Ok(false),
        Some(raw) => if raw == "false"@ {
            Ok(false)
        } else if raw == "true"@ {
            Ok(true)
        } else {
            Err(EntryErrorView::InvalidBoolean { key, value: raw })
        },
    }
}

fn parse_boolean(table: &Vec<(String, String)>, key: &str) -> (out: Result<
    bool,
    DesktopEntryParseError,
>)
    ensures
        match out {
            Ok(b) => boolean_value(views(table@), key@) == Ok::<bool, EntryErrorView>(b),
            Err(e) => boolean_value(views(table@), key@) == Err::<bool, EntryErrorView>(e@),
        },
{
    match find_value(table, key) {
        None => Ok(false),
        Some(raw) => if same_text(raw.as_str(), "false") {
            Ok(false)
        } else if same_text(raw.as_str(), "true") {
            proof {
                reveal_strlit("true");
                reveal_strlit("false");
                assert("true"@.len() != "false"@.len());
            }
            Ok(true)
        } else {
            Err(DesktopEntryParseError::InvalidBoolean { key: key.to_owned(), value: raw })
        },
    }
}

/// The non-empty items of a list value.
pub open spec fn list_value(table: TableView, key: Seq<char>) -> Result<
    Seq<Seq<char>>,
    EntryErrorView,
> {
    match lookup(table, key) {
        None => Ok(Seq::empty()),
        Some(raw) => match unescaped(key, raw) {
            Err(e) => Err(e),
            Ok(text) => Ok(pieces(text, ';')),
        },
    }
}

fn parse_list(table: &Vec<(String, String)>, key: &str) -> (out: Result<
    Vec<String>,
    DesktopEntryParseError,
>)
    ensures
        match out {
            Ok(items) => list_value(views(table@), key@) == Ok::<Seq<Seq<char>>, EntryErrorView>(
                views(items@),
            ),
            Err(e) => list_value(views(table@), key@) == Err::<Seq<Seq<char>>, EntryErrorView>(e@),
        },
{
    broadcast use group_views;

    match find_value(table, key) {
        None => Ok(Vec::new()),
        Some(raw) => match unescape(key, raw.as_str()) {
            Err(e) => Err(e),
            Ok(text) => Ok(nonempty_pieces(text.as_str(), ';')),
        },
    }
}

/// Translations with their escapes replaced, or the error of the first bad
/// one in the order of the locales.
pub open spec fn unescaped_table(key: Seq<char>, table: TableView) -> Result<
    TableView,
    EntryErrorView,
>
    decreases table.len(),
{
    if table.len() == 0 {
        Ok(table)
    } else {
        match unescaped_table(key, table.drop_last()) {
            Err(e) => Err(e),
            Ok(front) => match unescaped(key, table.last().1) {
                Err(e) => Err(e),
                Ok(text) => Ok(front.push((table.last().0, text))),
            },
        }
    }
}

proof fn lemma_table_error(key: Seq<char>, table: TableView, k: int)
    requires
        0 <= k <= table.len(),
        unescaped_table(key, table.take(k)) is Err,
    ensures
        unescaped_table(key, table) == unescaped_table(key, table.take(k)),
    decreases table.len() - k,
{
    if k == table.len() {
        assert(table.take(k) =~= table);
    } else {
        assert(table.take(k + 1).drop_last() =~= table.take(k));
        lemma_table_error(key, table, k + 1);
    }
}

/// A translated value.
pub open spec fn localized_value(table: TableView, key: Seq<char>, translations: TableView) -> Result<
    LocalizedView,
    EntryErrorView,
> {
    match string_value(table, key) {
        Err(e) => Err(e),
        Ok(unlocalized) => match unescaped_table(key, translations) {
            Err(e) => Err(e),
            Ok(localized) => Ok(LocalizedView { unlocalized, localized }),
        },
    }
}

fn parse_localized(
    table: &Vec<(String, String)>,
    key: &str,
    translations: &Vec<(String, String)>,
) -> (out: Result<LocalizedValue, DesktopEntryParseError>)
    ensures
        match out {
            Ok(value) => localized_value(views(table@), key@, views(translations@)) == Ok::<
                LocalizedView,
                EntryErrorView,
            >(value@),
            Err(e) => localized_value(views(table@), key@, views(translations@)) == Err::<
                LocalizedView,
                EntryErrorView,
            >(e@),
        },
{
    broadcast use group_views;

    let unlocalized = match optional_string(table, key) {
        Ok(text) => text,
        Err(e) => {
            return Err(e);
        },
    };
    let ghost all = views(translations@);
    let mut localized: Vec<(String, String)> = Vec::new();
    let mut i: usize = 0;
    assert(all.take(0) =~= Seq::empty());
    while i < translations.len()
        invariant
            i <= translations@.len(),
            all == views(translations@),
            string_value(views(table@), key@) == Ok::<Option<Seq<char>>, EntryErrorView>(
                optional_text_view(unlocalized),
            ),
            unescaped_table(key@, all.take(i as int)) == Ok::<TableView, EntryErrorView>(
                views(localized@),
            ),
        decreases translations.len() - i,
    {
        let ghost upto = all.take(i + 1);
        assert(upto.drop_last() =~= all.take(i as int));
        assert(upto.last() == translations@[i as int]@);
        match unescape(key, translations[i].1.as_str()) {
            Ok(text) => {
                let ghost before = views(localized@);
                localized.push((translations[i].0.clone(), text));
                assert(views(localized@) =~= before.push((translations@[i as int].0@, text@)));
            },
            Err(e) => {
                proof {
                    lemma_table_error(key@, all, i + 1);
                }
                return Err(e);
            },
        }
        i += 1;
    }
    assert(all.take(all.len() as int) =~= all);
    Ok(LocalizedValue { unlocalized, localized })
}

/// The entry that the collected values form.
pub open spec fn entry_of(state: EntryState) -> Result<DesktopEntryView, EntryErrorView> {
    let values = state.values;
    let names = localized_value(values, "Name"@, state.names);
    let generic_names = localized_value(values, "GenericName"@, state.generic_names);
    let entry_type = string_value(values, "Type"@);
    let icon = string_value(values, "Icon"@);
    let hidden = boolean_value(values, "Hidden"@);
    let no_display = boolean_value(values, "NoDisplay"@);
    let terminal = boolean_value(values, "Terminal"@);
    let try_exec = string_value(values, "TryExec"@);
    let only_show_in = list_value(values, "OnlyShowIn"@);
    let not_show_in = list_value(values, "NotShowIn"@);
    let categories = list_value(values, "Categories"@);
    let startup_wm_class = string_value(values, "StartupWMClass"@);
    if names is Err {
        Err(names->Err_0)
    } else if generic_names is Err {
        Err(generic_names->Err_0)
    } else if entry_type is Err {
        Err(entry_type->Err_0)
    } else if icon is Err {
        Err(icon->Err_0)
    } else if hidden is Err {
        Err(hidden->Err_0)
    } else if no_display is Err {
        Err(no_display->Err_0)
    } else if terminal is Err {
        Err(terminal->Err_0)
    } else if try_exec is Err {
        Err(try_exec->Err_0)
    } else if only_show_in is Err {
        Err(only_show_in->Err_0)
    } else if not_show_in is Err {
        Err(not_show_in->Err_0)
    } else if categories is Err {
        Err(categories->Err_0)
    } else if startup_wm_class is Err {
        Err(startup_wm_class->Err_0)
    } else {
        Ok(
            DesktopEntryView {
                entry_type: entry_type->Ok_0,
                names: names->Ok_0,
                generic_names: generic_names->Ok_0,
                command: raw_value(values, "Exec"@),
                icon: icon->Ok_0,
                hidden: hidden->Ok_0,
                no_display: no_display->Ok_0,
                terminal: terminal->Ok_0,
                try_exec: try_exec->Ok_0,
                only_show_in: only_show_in->Ok_0,
                not_show_in: not_show_in->Ok_0,
                categories: categories->Ok_0,
                startup_wm_class: startup_wm_class->Ok_0,
            },
        )
    }
}

/// The entry in a desktop file, or why it holds none.
pub open spec fn desktop_entry(input: Seq<char>) -> Result<DesktopEntryView, EntryErrorView> {
    match read_lines(split(input, '\n')) {
        Err(e) => Err(e),
        Ok(state) => if !state.saw_main {
            Err(EntryErrorView::MissingDesktopEntryGroup)
        } else {
            entry_of(state)
        },
    }
}

/// The values collected while reading a file.
struct Collected {
    values: Vec<(String, String)>,
    names: Vec<(String, String)>,
    generic_names: Vec<(String, String)>,
    in_main: bool,
    saw_main: bool,
}

impl Collected {
    spec fn state(self) -> EntryState {
        EntryState {
            values: views(self.values@),
            names: views(self.names@),
            generic_names: views(self.generic_names@),
            in_main: self.in_main,
            saw_main: self.saw_main,
        }
    }
}

fn insert_unique(table: &mut Vec<(String, String)>, key: &str, value: &str, line: usize) -> (out:
    Result<(), DesktopEntryParseError>)
    ensures
        match out {
            Ok(_) => unique(views(old(table)@), key@, value@, line as int) == Ok::<
                TableView,
                EntryErrorView,
            >(views(final(table)@)),
            Err(e) => unique(views(old(table)@), key@, value@, line as int) == Err::<
                TableView,
                EntryErrorView,
            >(e@),
        },
{
    if find_value(table, key).is_some() {
        return Err(DesktopEntryParseError::DuplicateKey { line, key: key.to_owned() });
    }
    insert_value(table, key, value);
    Ok(())
}

fn collect_pair(state: &mut Collected, line: &str, number: usize) -> (out: Result<
    (),
    DesktopEntryParseError,
>)
    ensures
        match out {
            Ok(_) => read_pair(old(state).state(), line@, number as int) == Ok::<
                EntryState,
                EntryErrorView,
            >(final(state).state()),
            Err(e) => read_pair(old(state).state(), line@, number as int) == Err::<
                EntryState,
                EntryErrorView,
            >(e@),
        },
{
    let at: usize = find_in(line, '=');
    let len: usize = line.unicode_len();
    if at == len {
        return Err(DesktopEntryParseError::MalformedLine { line: number });
    }
    assert(line@.take(at as int) =~= line@.subrange(0, at as int));
    assert(line@.skip(at + 1) =~= line@.subrange(at + 1, len as int));
    let key = trim_text(line.substring_char(0, at));
    let value = trim_text(line.substring_char(at + 1, len));
    match localized_key(key, "Name") {
        Some(locale) => {
            return insert_unique(&mut state.names, locale, value, number);
        },
        None => {},
    }
    match localized_key(key, "GenericName") {
        Some(locale) => {
            return insert_unique(&mut state.generic_names, locale, value, number);
        },
        None => {},
    }
    if is_supported_key(key) {
        return insert_unique(&mut state.values, key, value, number);
    }
    Ok(())
}

fn collect_line(state: &mut Collected, line: &str, number: usize) -> (out: Result<
    (),
    DesktopEntryParseError,
>)
    ensures
        match out {
            Ok(_) => read_line(old(state).state(), line@, number as int) == Ok::<
                EntryState,
                EntryErrorView,
            >(final(state).state()),
            Err(e) => read_line(old(state).state(), line@, number as int) == Err::<
                EntryState,
                EntryErrorView,
            >(e@),
        },
{
    let chars = chars_of(line);
    if chars.len() == 0 || chars[0] == '#' {
        return Ok(());
    }
    if chars[0] == '[' && chars[chars.len() - 1] == ']' {
        assert(chars@.len() >= 2);
        if same_text(line.substring_char(1, chars.len() - 1), "Desktop Entry") {
            if state.saw_main {
                return Err(DesktopEntryParseError::DuplicateDesktopEntryGroup);
            }
            state.saw_main = true;
            state.in_main = true;
        } else {
            state.in_main = false;
        }
        return Ok(());
    }
    if !state.in_main {
        return Ok(());
    }
    collect_pair(state, line, number)
}

proof fn lemma_lines_error(lines: Seq<Seq<char>>, k: int)
    requires
        0 <= k <= lines.len(),
        read_lines(lines.take(k)) is Err,
    ensures
        read_lines(lines) == read_lines(lines.take(k)),
    decreases lines.len() - k,
{
    if k == lines.len() {
        assert(lines.take(k) =~= lines);
    } else {
        assert(lines.take(k + 1).drop_last() =~= lines.take(k));
        lemma_lines_error(lines, k + 1);
    }
}

fn build_entry(collected: &Collected) -> (out: Result<DesktopEntry, DesktopEntryParseError>)
    ensures
        match out {
            Ok(entry) => entry_of(collected.state()) == Ok::<DesktopEntryView, EntryErrorView>(
                entry@,
            ),
            Err(e) => entry_of(collected.state()) == Err::<DesktopEntryView, EntryErrorView>(e@),
        },
{
    let values = &collected.values;
    let names = match parse_localized(values, "Name", &collected.names) {
        Ok(names) => names,
        Err(e) => {
            return Err(e);
        },
    };
    let generic_names = match parse_localized(values, "GenericName", &collected.generic_names) {
        Ok(generic_names) => generic_names,
        Err(e) => {
            return Err(e);
        },
    };
    let entry_type = match optional_string(values, "Type") {
        Ok(entry_type) => entry_type,
        Err(e) => {
            return Err(e);
        },
    };
    let icon = match optional_string(values, "Icon") {
        Ok(icon) => icon,
        Err(e) => {
            return Err(e);
        },
    };
    let hidden = match parse_boolean(values, "Hidden") {
        Ok(hidden) => hidden,
        Err(e) => {
            return Err(e);
        },
    };
    let no_display = match parse_boolean(values, "NoDisplay") {
        Ok(no_display) => no_display,
        Err(e) => {
            return Err(e);
        },
    };
    let terminal = match parse_boolean(values, "Terminal") {
        Ok(terminal) => terminal,
        Err(e) => {
            return Err(e);
        },
    };
    let try_exec = match optional_string(values, "TryExec") {
        Ok(try_exec) => try_exec,
        Err(e) => {
            return Err(e);
        },
    };
    let only_show_in = match parse_list(values, "OnlyShowIn") {
        Ok(only_show_in) => only_show_in,
        Err(e) => {
            return Err(e);
        },
    };
    let not_show_in = match parse_list(values, "NotShowIn") {
        Ok(not_show_in) => not_show_in,
        Err(e) => {
            return Err(e);
        },
    };
    let categories = match parse_list(values, "Categories") {
        Ok(categories) => categories,
        Err(e) => {
            return Err(e);
        },
    };
    let startup_wm_class = match optional_string(values, "StartupWMClass") {
        Ok(startup_wm_class) => startup_wm_class,
        Err(e) => {
            return Err(e);
        },
    };
    Ok(
        DesktopEntry {
            entry_type,
            names,
            generic_names,
            command: nonempty_raw(values, "Exec"),
            icon,
            hidden,
            no_display,
            terminal,
            try_exec,
            only_show_in,
            not_show_in,
            categories,
            startup_wm_class,
        },
    )
}

/// Parse only the main `[Desktop Entry]` group.
///
/// Desktop action groups and unknown keys are ignored. Supported string
/// escapes are `\s`, `\n`, `\t`, `\r`, and `\\`. Duplicate supported keys,
/// malformed supported booleans, and malformed lines in the main group reject
/// the entry rather than silently guessing.
pub fn parse_desktop_entry(input: &str) -> (out: Result<DesktopEntry, DesktopEntryParseError>)
    ensures
        match out {
            Ok(entry) => desktop_entry(input@) == Ok::<DesktopEntryView, EntryErrorView>(entry@),
            Err(e) => desktop_entry(input@) == Err::<DesktopEntryView, EntryErrorView>(e@),
        },
{
    broadcast use group_views;

    let lines = split_text(input, '\n');
    let ghost all = views(lines@);
    let mut collected = Collected {
        values: Vec::new(),
        names: Vec::new(),
        generic_names: Vec::new(),
        in_main: false,
        saw_main: false,
    };
    let mut index: usize = 0;
    assert(all.take(0) =~= Seq::empty());
    while index < lines.len()
        invariant
            index <= lines@.len(),
            all == views(lines@),
            all == split(input@, '\n'),
            read_lines(all.take(index as int)) == Ok::<EntryState, EntryErrorView>(
                collected.state(),
            ),
        decreases lines.len() - index,
    {
        let ghost upto = all.take(index + 1);
        assert(upto.drop_last() =~= all.take(index as int));
        assert(upto.last() == lines@[index as int]@);
        match collect_line(&mut collected, trim_text(lines[index].as_str()), index + 1) {
            Ok(_) => {},
            Err(e) => {
                proof {
                    lemma_lines_error(all, index + 1);
                }
                return Err(e);
            },
        }
        index += 1;
    }
    assert(all.take(all.len() as int) =~= all);
    if !collected.saw_main {
        return Err(DesktopEntryParseError::MissingDesktopEntryGroup);
    }
    build_entry(&collected)
}

/// A locale name without its encoding, with its modifier.
pub open spec fn without_encoding(locale: Seq<char>) -> Seq<char> {
    let dot = find_char(locale, '.');
    let modifier = find_char(locale, '@');
    if dot < locale.len() && modifier < locale.len() && dot < modifier {
        locale.take(dot) + locale.skip(modifier)
    } else {
        locale.take(dot)
    }
}

/// The locales whose translations fit, the most specific first.
pub open spec fn locale_candidates(locale: Option<Seq<char>>) -> Seq<Seq<char>> {
    match locale {
        None => Seq::empty(),
        Some(text) => {
            let name = trim(text);
            if name.len() == 0 || same_ignoring_case(name, "C"@) || same_ignoring_case(
                name,
                "POSIX"@,
            ) {
                Seq::empty()
            } else {
                let full = without_encoding(name);
                let base = full.take(find_char(full, '@'));
                let language = base.take(find_char(base, '_'));
                let first = if base != full {
                    seq![full, base]
                } else {
                    seq![full]
                };
                if first.contains(language) {
                    first
                } else {
                    first.push(language)
                }
            }
        },
    }
}

fn prefix_of(s: &str, to: usize) -> (out: String)
    requires
        to <= s@.len(),
    ensures
        out@ == s@.take(to as int),
{
    assert(s@.take(to as int) =~= s@.subrange(0, to as int));
    s.substring_char(0, to).to_owned()
}

fn find_locale_candidates(locale: &Option<String>) -> (out: Vec<String>)
    ensures
        views(out@) == locale_candidates(optional_text_view(*locale)),
{
    broadcast use group_views;

    let name = match locale {
        None => {
            return Vec::new();
        },
        Some(text) => trim_text(text.as_str()),
    };
    if name.is_empty() || equal_ignoring_case(name, "C") || equal_ignoring_case(name, "POSIX") {
        return Vec::new();
    }
    let len: usize = name.unicode_len();
    let dot: usize = find_in(name, '.');
    let modifier: usize = find_in(name, '@');
    let full = if dot < len && modifier < len && dot < modifier {
        assert(name@.skip(modifier as int) =~= name@.subrange(modifier as int, len as int));
        prefix_of(name, dot).concat(name.substring_char(modifier, len))
    } else {
        prefix_of(name, dot)
    };
    let base = prefix_of(full.as_str(), find_in(full.as_str(), '@'));
    let language = prefix_of(base.as_str(), find_in(base.as_str(), '_'));
    let different = !same_text(base.as_str(), full.as_str());
    let in_full = same_text(language.as_str(), full.as_str());
    let in_base = same_text(language.as_str(), base.as_str());
    let ghost first = if base@ != full@ {
        seq![full@, base@]
    } else {
        seq![full@]
    };
    assert(first.contains(language@) <==> in_full || (different && in_base)) by {
        assert(first[0] == full@);
        if different {
            assert(first[1] == base@);
        }
    }
    let mut out: Vec<String> = Vec::new();
    out.push(full);
    if different {
        out.push(base);
    }
    assert(views(out@) =~= first);
    if !(in_full || (different && in_base)) {
        out.push(language);
    }
    out
}

/// The first translation whose locale is the given one, but for the case of
/// letters.
pub open spec fn similar_key(table: TableView, key: Seq<char>) -> Option<Seq<char>>
    decreases table.len(),
{
    if table.len() == 0 {
        None
    } else if same_ignoring_case(table[0].0, key) {
        Some(table[0].1)
    } else {
        similar_key(table.drop_first(), key)
    }
}

/// The translation for the first fitting locale that has one.
pub open spec fn translation(table: TableView, candidates: Seq<Seq<char>>) -> Option<Seq<char>>
    decreases candidates.len(),
{
    if candidates.len() == 0 {
        None
    } else if lookup(table, candidates[0]) is Some {
        lookup(table, candidates[0])
    } else if similar_key(table, candidates[0]) is Some {
        similar_key(table, candidates[0])
    } else {
        translation(table, candidates.drop_first())
    }
}

/// The value for a locale: the most specific translation, else the plain one.
pub open spec fn resolved(value: LocalizedView, locale: Option<Seq<char>>) -> Option<Seq<char>> {
    match translation(value.localized, locale_candidates(locale)) {
        Some(text) => Some(text),
        None => value.unlocalized,
    }
}

fn find_similar(table: &Vec<(String, String)>, key: &str) -> (out: Option<String>)
    ensures
        optional_text_view(out) == similar_key(views(table@), key@),
{
    let ghost all = views(table@);
    let mut i: usize = 0;
    assert(all.skip(0) =~= all);
    while i < table.len()
        invariant
            i <= table@.len(),
            all == views(table@),
            similar_key(all, key@) == similar_key(all.skip(i as int), key@),
        decreases table.len() - i,
    {
        assert(all.skip(i as int)[0] == table@[i as int]@);
        assert(all.skip(i as int).drop_first() =~= all.skip(i + 1));
        if equal_ignoring_case(table[i].0.as_str(), key) {
            return Some(table[i].1.clone());
        }
        i += 1;
    }
    None
}

impl LocalizedValue {
    /// The value for a locale.
    pub fn resolve(&self, locale: &Option<String>) -> (out: Option<String>)
        ensures
            optional_text_view(out) == resolved(self@, optional_text_view(*locale)),
    {
        let candidates = find_locale_candidates(locale);
        let ghost all = views(candidates@);
        let ghost table = views(self.localized@);
        let mut i: usize = 0;
        assert(all.skip(0) =~= all);
        while i < candidates.len()
            invariant
                i <= candidates@.len(),
                all == views(candidates@),
                all == locale_candidates(optional_text_view(*locale)),
                table == views(self.localized@),
                translation(table, all) == translation(table, all.skip(i as int)),
            decreases candidates.len() - i,
        {
            assert(all.skip(i as int)[0] == candidates@[i as int]@);
            assert(all.skip(i as int).drop_first() =~= all.skip(i + 1));
            match find_value(&self.localized, candidates[i].as_str()) {
                Some(value) => {
                    return Some(value);
                },
                None => {},
            }
            match find_similar(&self.localized, candidates[i].as_str()) {
                Some(value) => {
                    return Some(value);
                },
                None => {},
            }
            i += 1;
        }
        self.unlocalized.clone()
    }
}

} // verus!
