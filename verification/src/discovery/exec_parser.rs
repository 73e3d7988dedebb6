//! The `Exec` value of a desktop entry as a command, without a shell.
use vstd::prelude::*;
use vstd::string::StringExecFns;

use crate::path::{path_text, UnixPath};
use crate::text::{chars_of, group_views, views};

verus! {

/// A safely tokenized desktop-entry command before executable resolution.
#[derive(Debug, PartialEq, Eq)]
pub struct ParsedExec {
    /// Executable name or path from the first token.
    pub executable: String,
    /// Static process arguments after supported field-code handling.
    pub arguments: Vec<String>,
}

/// A parsed command by its contents.
pub struct ParsedExecView {
    pub executable: Seq<char>,
    pub arguments: Seq<Seq<char>>,
}

impl View for ParsedExec {
    type V = ParsedExecView;

    open spec fn view(&self) -> ParsedExecView {
        ParsedExecView { executable: self.executable@, arguments: views(self.arguments@) }
    }
}

/// A reason an `Exec` value cannot be represented safely.
#[derive(Clone, Copy, Debug, PartialEq, Eq)]
pub enum ExecParseError {
    /// No token remained for the executable.
    MissingExecutable,
    /// A double-quoted token was not terminated.
    UnterminatedQuote,
    /// A trailing backslash had no character to escape.
    IncompleteEscape,
    /// A token cannot be passed to a process API.
    ContainsNul,
    /// A percent sign did not introduce a field code.
    TrailingPercent,
    /// The field code is not supported by this launcher.
    UnsupportedFieldCode { code: char },
    /// A dynamic field code appeared inside a larger token.
    EmbeddedFieldCode { code: char },
    /// A field code attempted to alter the executable token.
    ExecutableFieldCode { code: char },
    /// `%k` could not be represented as UTF-8 in the public argument API.
    NonUtf8DesktopPath,
}

/// The message of an `Exec` error.
pub open spec fn exec_error_text(e: ExecParseError) -> Seq<char> {
    match e {
        ExecParseError::MissingExecutable => "Exec contains no executable"@,
        ExecParseError::UnterminatedQuote => "Exec contains an unterminated double quote"@,
        ExecParseError::IncompleteEscape => "Exec ends with an incomplete escape"@,
        ExecParseError::ContainsNul => "Exec contains a NUL byte"@,
        ExecParseError::TrailingPercent => "Exec contains a trailing percent sign"@,
        ExecParseError::UnsupportedFieldCode { code } => {
            "Exec contains unsupported field code `%"@ + seq![code] + "`"@
        },
        ExecParseError::EmbeddedFieldCode { code } => "Exec field code `%"@ + seq![code]
            + "` must occupy a complete argument"@,
        ExecParseError::ExecutableFieldCode { code } => "Exec field code `%"@ + seq![code]
            + "` is not allowed in the executable token"@,
        ExecParseError::NonUtf8DesktopPath => "desktop-file path for `%k` is not valid UTF-8"@,
    }
}

fn one_char(c: char) -> (out: String)
    ensures
        out@ == seq![c],
{
    let mut out = String::new();
    out.push(c);
    assert(out@ =~= seq![c]);
    out
}

impl ExecParseError {
    /// The message shown to the user.
    pub fn message(self) -> (out: String)
        ensures
            out@ == exec_error_text(self),
    {
        match self {
            ExecParseError::MissingExecutable => "Exec contains no executable".to_owned(),
            ExecParseError::UnterminatedQuote => {
                "Exec contains an unterminated double quote".to_owned()
            },
            ExecParseError::IncompleteEscape => "Exec ends with an incomplete escape".to_owned(),
            ExecParseError::ContainsNul => "Exec contains a NUL byte".to_owned(),
            ExecParseError::TrailingPercent => "Exec contains a trailing percent sign".to_owned(),
            ExecParseError::UnsupportedFieldCode { code } => {
                "Exec contains unsupported field code `%".to_owned().concat(
                    one_char(code).as_str(),
                ).concat("`")
            },
            ExecParseError::EmbeddedFieldCode { code } => {
                "Exec field code `%".to_owned().concat(one_char(code).as_str()).concat(
                    "` must occupy a complete argument",
                )
            },
            ExecParseError::ExecutableFieldCode { code } => {
                "Exec field code `%".to_owned().concat(one_char(code).as_str()).concat(
                    "` is not allowed in the executable token",
                )
            },
            ExecParseError::NonUtf8DesktopPath => {
                "desktop-file path for `%k` is not valid UTF-8".to_owned()
            },
        }
    }
}

/// How far a command has been read: the tokens so far, and the one that is
/// being read.
pub struct TokenState {
    pub tokens: Seq<Seq<char>>,
    pub token: Seq<char>,
    pub started: bool,
    pub quoted: bool,
    pub escaped: bool,
}

/// One more character of a command.
pub open spec fn read_char(state: TokenState, c: char) -> TokenState {
    if state.escaped {
        TokenState { token: state.token.push(c), started: true, escaped: false, ..state }
    } else if c == '\\' {
        TokenState { started: true, escaped: true, ..state }
    } else if c == '"' {
        TokenState { started: true, quoted: !state.quoted, ..state }
    } else if (c == ' ' || c == '\t') && !state.quoted {
        if state.started {
            TokenState {
                tokens: state.tokens.push(state.token),
                token: Seq::empty(),
                started: false,
                ..state
            }
        } else {
            state
        }
    } else {
        TokenState { token: state.token.push(c), started: true, ..state }
    }
}

/// A command read from its start.
pub open spec fn read_chars(input: Seq<char>) -> TokenState
    decreases input.len(),
{
    if input.len() == 0 {
        TokenState {
            tokens: Seq::empty(),
            token: Seq::empty(),
            started: false,
            quoted: false,
            escaped: false,
        }
    } else {
        read_char(read_chars(input.drop_last()), input.last())
    }
}

/// The tokens of a command: separated by blanks outside double quotes, with a
/// backslash before a character that is taken as it stands.
pub open spec fn tokens(input: Seq<char>) -> Result<Seq<Seq<char>>, ExecParseError> {
    let state = read_chars(input);
    if input.contains('\0') {
        Err(ExecParseError::ContainsNul)
    } else if state.escaped {
        Err(ExecParseError::IncompleteEscape)
    } else if state.quoted {
        Err(ExecParseError::UnterminatedQuote)
    } else if state.started {
        Ok(state.tokens.push(state.token))
    } else {
        Ok(state.tokens)
    }
}

fn has_nul(chars: &Vec<char>) -> (out: bool)
    ensures
        out == chars@.contains('\0'),
{
    let mut i: usize = 0;
    while i < chars.len()
        invariant
            i <= chars@.len(),
            forall|k: int| 0 <= k < i ==> chars@[k] != '\0',
        decreases chars.len() - i,
    {
        if chars[i] == '\0' {
            assert(chars@[i as int] == '\0');
            return true;
        }
        i += 1;
    }
    false
}

fn tokenize(input: &str) -> (out: Result<Vec<String>, ExecParseError>)
    ensures
        match out {
            Ok(list) => tokens(input@) == Ok::<Seq<Seq<char>>, ExecParseError>(views(list@)),
            Err(e) => tokens(input@) == Err::<Seq<Seq<char>>, ExecParseError>(e),
        },
{
    broadcast use group_views;

    let chars = chars_of(input);
    if has_nul(&chars) {
        return Err(ExecParseError::ContainsNul);
    }
    let mut list: Vec<String> = Vec::new();
    let mut token = String::new();
    let mut started = false;
    let mut quoted = false;
    let mut escaped = false;
    let mut i: usize = 0;
    assert(input@.take(0) =~= Seq::empty());
    while i < chars.len()
        invariant
            i <= chars@.len(),
            chars@ == input@,
            ({
                let state = read_chars(input@.take(i as int));
                &&& views(list@) == state.tokens
                &&& token@ == state.token
                &&& started == state.started
                &&& quoted == state.quoted
                &&& escaped == state.escaped
            }),
        decreases chars.len() - i,
    {
        assert(input@.take(i + 1).drop_last() =~= input@.take(i as int));
        let c = chars[i];
        if escaped {
            token.push(c);
            started = true;
            escaped = false;
        } else if c == '\\' {
            escaped = true;
            started = true;
        } else if c == '"' {
            quoted = !quoted;
            started = true;
        } else if (c == ' ' || c == '\t') && !quoted {
            if started {
                list.push(token);
                token = String::new();
                started = false;
            }
        } else {
            token.push(c);
            started = true;
        }
        i += 1;
    }
    assert(input@.take(input@.len() as int) =~= input@);
    if escaped {
        return Err(ExecParseError::IncompleteEscape);
    }
    if quoted {
        return Err(ExecParseError::UnterminatedQuote);
    }
    if started {
        list.push(token);
    }
    Ok(list)
}

pub open spec fn recognized_code(code: char) -> bool {
    code == 'f' || code == 'F' || code == 'u' || code == 'U' || code == 'i' || code == 'c' || code
        == 'k'
}

/// A token with each `%%` as one percent sign, or the error of its first field
/// code.
pub open spec fn expanded(token: Seq<char>, in_executable: bool) -> Result<
    Seq<char>,
    ExecParseError,
>
    decreases token.len(),
{
    if token.len() == 0 {
        Ok(token)
    } else if token[0] != '%' {
        match expanded(token.drop_first(), in_executable) {
            Ok(rest) => Ok(seq![token[0]] + rest),
            Err(e) => Err(e),
        }
    } else if token.len() == 1 {
        Err(ExecParseError::TrailingPercent)
    } else if token[1] == '%' {
        match expanded(token.skip(2), in_executable) {
            Ok(rest) => Ok(seq!['%'] + rest),
            Err(e) => Err(e),
        }
    } else if recognized_code(token[1]) {
        if in_executable {
            Err(ExecParseError::ExecutableFieldCode { code: token[1] })
        } else {
            Err(ExecParseError::EmbeddedFieldCode { code: token[1] })
        }
    } else {
        Err(ExecParseError::UnsupportedFieldCode { code: token[1] })
    }
}

fn is_recognized_code(code: char) -> (out: bool)
    ensures
        out == recognized_code(code),
{
    code == 'f' || code == 'F' || code == 'u' || code == 'U' || code == 'i' || code == 'c' || code
        == 'k'
}

fn expand(token: &str, in_executable: bool) -> (out: Result<String, ExecParseError>)
    ensures
        match out {
            Ok(text) => expanded(token@, in_executable) == Ok::<Seq<char>, ExecParseError>(text@),
            Err(e) => expanded(token@, in_executable) == Err::<Seq<char>, ExecParseError>(e),
        },
{
    let chars = chars_of(token);
    let mut output = String::new();
    let mut i: usize = 0;
    assert(token@.skip(0) =~= token@);
    assert(expanded(token@, in_executable) == prefixed(output@, expanded(token@, in_executable)))
        by {
        match expanded(token@, in_executable) {
            Ok(rest) => {
                assert(output@ + rest =~= rest);
            },
            Err(_) => {},
        }
    }
    while i < chars.len()
        invariant
            i <= chars@.len(),
            chars@ == token@,
            expanded(token@, in_executable) == prefixed(
                output@,
                expanded(token@.skip(i as int), in_executable),
            ),
        decreases chars.len() - i,
    {
        let ghost rest = token@.skip(i as int);
        let ghost before = output@;
        let c = chars[i];
        assert(rest[0] == c);
        if c != '%' {
            assert(rest.drop_first() =~= token@.skip(i + 1));
            output.push(c);
            i += 1;
            proof {
                lemma_prefixed(before, c, expanded(token@.skip(i as int), in_executable));
            }
            continue ;
        }
        if i + 1 >= chars.len() {
            return Err(ExecParseError::TrailingPercent);
        }
        let code = chars[i + 1];
        assert(rest[1] == code);
        if code == '%' {
            assert(rest.skip(2) =~= token@.skip(i + 2));
            output.push('%');
            i += 2;
            proof {
                lemma_prefixed(before, '%', expanded(token@.skip(i as int), in_executable));
            }
        } else if is_recognized_code(code) {
            return if in_executable {
                Err(ExecParseError::ExecutableFieldCode { code })
            } else {
                Err(ExecParseError::EmbeddedFieldCode { code })
            };
        } else {
            return Err(ExecParseError::UnsupportedFieldCode { code });
        }
    }
    assert(token@.skip(i as int) =~= Seq::empty());
    assert(output@ + Seq::<char>::empty() =~= output@);
    Ok(output)
}

/// A result with text in front of it.
spec fn prefixed(front: Seq<char>, rest: Result<Seq<char>, ExecParseError>) -> Result<
    Seq<char>,
    ExecParseError,
> {
    match rest {
        Ok(text) => Ok(front + text),
        Err(e) => Err(e),
    }
}

proof fn lemma_prefixed(front: Seq<char>, c: char, rest: Result<Seq<char>, ExecParseError>)
    ensures
        prefixed(
            front,
            match rest {
                Ok(text) => Ok(seq![c] + text),
                Err(e) => Err(e),
            },
        ) == prefixed(front.push(c), rest),
{
    match rest {
        Ok(text) => {
            assert(front + (seq![c] + text) =~= front.push(c) + text);
        },
        Err(_) => {},
    }
}

/// A token that consists of one field code.
pub open spec fn is_complete_code(token: Seq<char>) -> bool {
    token.len() == 2 && token[0] == '%' && token[1] != '%'
}

/// The argument that a token stands for; a code for files, URLs or an icon
/// stands for none.
pub open spec fn argument(token: Seq<char>, name: Seq<char>, desktop_path: Seq<char>) -> Result<
    Option<Seq<char>>,
    ExecParseError,
> {
    if is_complete_code(token) {
        if token[1] == 'c' {
            Ok(Some(name))
        } else if token[1] == 'k' {
            Ok(Some(desktop_path))
        } else if recognized_code(token[1]) {
            Ok(None)
        } else {
            Err(ExecParseError::UnsupportedFieldCode { code: token[1] })
        }
    } else {
        match expanded(token, false) {
            Ok(text) => Ok(Some(text)),
            Err(e) => Err(e),
        }
    }
}

/// The arguments of tokens, or the first error among them.
pub open spec fn arguments(list: Seq<Seq<char>>, name: Seq<char>, desktop_path: Seq<char>) -> Result<
    Seq<Seq<char>>,
    ExecParseError,
>
    decreases list.len(),
{
    if list.len() == 0 {
        Ok(Seq::empty())
    } else {
        match arguments(list.drop_last(), name, desktop_path) {
            Err(e) => Err(e),
            Ok(front) => match argument(list.last(), name, desktop_path) {
                Err(e) => Err(e),
                Ok(Some(text)) => Ok(front.push(text)),
                Ok(None) => Ok(front),
            },
        }
    }
}

/// The command that an `Exec` value stands for.
pub open spec fn exec_command(input: Seq<char>, name: Seq<char>, desktop_file: Seq<u8>) -> Result<
    ParsedExecView,
    ExecParseError,
> {
    match tokens(input) {
        Err(e) => Err(e),
        Ok(list) => if list.len() == 0 || list[0].len() == 0 {
            Err(ExecParseError::MissingExecutable)
        } else {
            match expanded(list[0], true) {
                Err(e) => Err(e),
                Ok(executable) => match path_text(desktop_file) {
                    None => Err(ExecParseError::NonUtf8DesktopPath),
                    Some(desktop_path) => match arguments(list.drop_first(), name, desktop_path) {
                        Err(e) => Err(e),
                        Ok(list) => Ok(ParsedExecView { executable, arguments: list }),
                    },
                },
            }
        },
    }
}

fn expand_argument(token: &str, name: &str, desktop_path: &str) -> (out: Result<
    Option<String>,
    ExecParseError,
>)
    ensures
        match out {
            Ok(Some(text)) => argument(token@, name@, desktop_path@) == Ok::<
                Option<Seq<char>>,
                ExecParseError,
            >(Some(text@)),
            Ok(None) => argument(token@, name@, desktop_path@) == Ok::<
                Option<Seq<char>>,
                ExecParseError,
            >(None),
            Err(e) => argument(token@, name@, desktop_path@) == Err::<
                Option<Seq<char>>,
                ExecParseError,
            >(e),
        },
{
    let chars = chars_of(token);
    if chars.len() == 2 && chars[0] == '%' && chars[1] != '%' {
        let code = chars[1];
        return if code == 'c' {
            Ok(Some(name.to_owned()))
        } else if code == 'k' {
            Ok(Some(desktop_path.to_owned()))
        } else if is_recognized_code(code) {
            Ok(None)
        } else {
            Err(ExecParseError::UnsupportedFieldCode { code })
        };
    }
    match expand(token, false) {
        Ok(text) => Ok(Some(text)),
        Err(e) => Err(e),
    }
}

proof fn lemma_arguments_error(
    list: Seq<Seq<char>>,
    name: Seq<char>,
    desktop_path: Seq<char>,
    k: int,
)
    requires
        0 <= k <= list.len(),
        arguments(list.take(k), name, desktop_path) is Err,
    ensures
        arguments(list, name, desktop_path) == arguments(list.take(k), name, desktop_path),
    decreases list.len() - k,
{
    if k == list.len() {
        assert(list.take(k) =~= list);
    } else {
        assert(list.take(k + 1).drop_last() =~= list.take(k));
        lemma_arguments_error(list, name, desktop_path, k + 1);
    }
}

/// Parse a desktop-entry `Exec` value without invoking or emulating a shell.
///
/// Double quotes group text, and a backslash escapes the following character.
/// Outside quotes, spaces and tabs separate tokens. Shell metacharacters have
/// no special meaning. `%f`, `%F`, `%u`, `%U`, and `%i` are removed; `%c` and
/// `%k` become complete arguments; `%%` becomes a literal percent sign.
/// Dynamic field codes embedded in a larger token are rejected.
pub fn parse_exec(input: &str, application_name: &str, desktop_file: &UnixPath) -> (out: Result<
    ParsedExec,
    ExecParseError,
>)
    ensures
        match out {
            Ok(parsed) => exec_command(input@, application_name@, desktop_file@) == Ok::<
                ParsedExecView,
                ExecParseError,
            >(parsed@),
            Err(e) => exec_command(input@, application_name@, desktop_file@) == Err::<
                ParsedExecView,
                ExecParseError,
            >(e),
        },
{
    broadcast use group_views;

    let list = match tokenize(input) {
        Ok(list) => list,
        Err(e) => {
            return Err(e);
        },
    };
    let ghost all = views(list@);
    if list.len() == 0 {
        return Err(ExecParseError::MissingExecutable);
    }
    assert(all[0] == list@[0]@);
    if list[0].as_str().is_empty() {
        return Err(ExecParseError::MissingExecutable);
    }
    let executable = match expand(list[0].as_str(), true) {
        Ok(executable) => executable,
        Err(e) => {
            return Err(e);
        },
    };
    let desktop_path = match desktop_file.to_text() {
        Some(text) => text,
        None => {
            return Err(ExecParseError::NonUtf8DesktopPath);
        },
    };
    let ghost rest = all.drop_first();
    let mut collected: Vec<String> = Vec::new();
    let mut i: usize = 1;
    assert(rest.take(0) =~= Seq::empty());
    while i < list.len()
        invariant
            1 <= i <= list@.len(),
            all == views(list@),
            rest == all.drop_first(),
            tokens(input@) == Ok::<Seq<Seq<char>>, ExecParseError>(all),
            all[0].len() > 0,
            expanded(all[0], true) == Ok::<Seq<char>, ExecParseError>(executable@),
            path_text(desktop_file@) == Some(desktop_path@),
            arguments(rest.take(i - 1), application_name@, desktop_path@) == Ok::<
                Seq<Seq<char>>,
                ExecParseError,
            >(views(collected@)),
        decreases list.len() - i,
    {
        let ghost upto = rest.take(i as int);
        assert(upto.drop_last() =~= rest.take(i - 1));
        assert(upto.last() == list@[i as int]@);
        match expand_argument(list[i].as_str(), application_name, desktop_path.as_str()) {
            Ok(Some(text)) => {
                let ghost before = views(collected@);
                collected.push(text);
                assert(views(collected@) == before.push(text@));
                assert(arguments(upto, application_name@, desktop_path@) is Ok);
                assert(arguments(upto, application_name@, desktop_path@)->Ok_0 == before.push(text@));
            },
            Ok(None) => {
                assert(arguments(upto, application_name@, desktop_path@) is Ok);
            },
            Err(e) => {
                proof {
                    lemma_arguments_error(rest, application_name@, desktop_path@, i as int);
                }
                return Err(e);
            },
        }
        i += 1;
        assert(rest.take(i - 1) == upto);
    }
    assert(rest.take(rest.len() as int) =~= rest);
    Ok(ParsedExec { executable, arguments: collected })
}

/// A character that neither groups nor escapes nor separates.
pub open spec fn is_plain(c: char) -> bool {
    c != '\\' && c != '"' && c != ' ' && c != '\t' && c != '\0'
}

/// Words put behind one another with single blanks between them.
pub open spec fn spaced(words: Seq<Seq<char>>) -> Seq<char> {
    crate::text::join(words, seq![' '])
}

proof fn lemma_read_word(front: Seq<char>, word: Seq<char>)
    requires
        forall|i: int| 0 <= i < word.len() ==> is_plain(#[trigger] word[i]),
        !read_chars(front).quoted,
        !read_chars(front).escaped,
    ensures
        ({
            let before = read_chars(front);
            let after = read_chars(front + word);
            &&& after.tokens == before.tokens
            &&& after.token == before.token + word
            &&& after.started == (before.started || word.len() > 0)
            &&& !after.quoted
            &&& !after.escaped
        }),
    decreases word.len(),
{
    if word.len() == 0 {
        assert(front + word =~= front);
        assert(read_chars(front).token + word =~= read_chars(front).token);
    } else {
        lemma_read_word(front, word.drop_last());
        assert((front + word).drop_last() =~= front + word.drop_last());
        assert(is_plain(word[word.len() - 1]));
        assert((read_chars(front).token + word.drop_last()).push(word.last())
            =~= read_chars(front).token + word);
    }
}

proof fn lemma_read_words(words: Seq<Seq<char>>)
    requires
        words.len() > 0,
        forall|k: int| 0 <= k < words.len() ==> (#[trigger] words[k]).len() > 0,
        forall|k: int, i: int|
            0 <= k < words.len() && 0 <= i < words[k].len() ==> is_plain(#[trigger] words[k][i]),
    ensures
        ({
            let state = read_chars(spaced(words));
            &&& state.tokens == words.drop_last()
            &&& state.token == words.last()
            &&& state.started
            &&& !state.quoted
            &&& !state.escaped
        }),
        forall|i: int| 0 <= i < spaced(words).len() ==> #[trigger] spaced(words)[i] != '\0',
    decreases words.len(),
{
    let last = words.last();
    assert(words[words.len() - 1].len() > 0);
    assert forall|i: int| 0 <= i < last.len() implies is_plain(#[trigger] last[i]) by {
        assert(is_plain(words[words.len() - 1][i]));
    }
    if words.len() == 1 {
        lemma_read_word(Seq::empty(), last);
        assert(Seq::<char>::empty() + last =~= last);
        assert(words.drop_last() =~= Seq::empty());
    } else {
        let front = words.drop_last();
        assert forall|k: int, i: int|
            0 <= k < front.len() && 0 <= i < front[k].len() implies is_plain(
            #[trigger] front[k][i],
        ) by {
            assert(is_plain(words[k][i]));
        }
        assert forall|k: int| 0 <= k < front.len() implies (#[trigger] front[k]).len() > 0 by {
            assert(words[k].len() > 0);
        }
        lemma_read_words(front);
        let text = spaced(front).push(' ');
        assert(text.drop_last() =~= spaced(front));
        assert(front.drop_last().push(front.last()) =~= front);
        lemma_read_word(text, last);
        assert(spaced(words) =~= text + last);
        assert(Seq::<char>::empty() + last =~= last);
    }
}

/// Blank-separated words are tokens as they stand: no character but the quote,
/// the backslash and the blanks has a meaning of its own, so that no shell
/// metacharacter is interpreted.
pub proof fn plain_words_are_tokens(words: Seq<Seq<char>>)
    requires
        words.len() > 0,
        forall|k: int| 0 <= k < words.len() ==> (#[trigger] words[k]).len() > 0,
        forall|k: int, i: int|
            0 <= k < words.len() && 0 <= i < words[k].len() ==> is_plain(#[trigger] words[k][i]),
    ensures
        tokens(spaced(words)) == Ok::<Seq<Seq<char>>, ExecParseError>(words),
{
    lemma_read_words(words);
    assert(words.drop_last().push(words.last()) =~= words);
    assert(!spaced(words).contains('\0'));
}

proof fn lemma_expanded_plain(token: Seq<char>, in_executable: bool)
    requires
        forall|i: int| 0 <= i < token.len() ==> #[trigger] token[i] != '%',
    ensures
        expanded(token, in_executable) == Ok::<Seq<char>, ExecParseError>(token),
    decreases token.len(),
{
    if token.len() > 0 {
        let rest = token.drop_first();
        assert forall|i: int| 0 <= i < rest.len() implies #[trigger] rest[i] != '%' by {
            assert(token[i + 1] != '%');
        }
        assert(token[0] != '%');
        lemma_expanded_plain(rest, in_executable);
        assert(seq![token[0]] + rest =~= token);
    }
}

proof fn lemma_plain_arguments(words: Seq<Seq<char>>, name: Seq<char>, desktop_path: Seq<char>)
    requires
        forall|k: int, i: int|
            0 <= k < words.len() && 0 <= i < words[k].len() ==> #[trigger] words[k][i] != '%',
    ensures
        arguments(words, name, desktop_path) == Ok::<Seq<Seq<char>>, ExecParseError>(words),
    decreases words.len(),
{
    if words.len() > 0 {
        let front = words.drop_last();
        assert forall|k: int, i: int|
            0 <= k < front.len() && 0 <= i < front[k].len() implies #[trigger] front[k][i]
            != '%' by {
            assert(words[k][i] != '%');
        }
        lemma_plain_arguments(front, name, desktop_path);
        let last = words.last();
        assert forall|i: int| 0 <= i < last.len() implies #[trigger] last[i] != '%' by {
            assert(words[words.len() - 1][i] != '%');
        }
        if last.len() == 2 {
            assert(last[0] != '%');
        }
        lemma_expanded_plain(last, false);
        assert(front.push(last) =~= words);
    } else {
        assert(words =~= Seq::empty());
    }
}

/// A command of plain words without percent signs runs its first word with
/// the others as arguments, letter for letter.
pub proof fn plain_words_are_the_command(
    words: Seq<Seq<char>>,
    name: Seq<char>,
    desktop_file: Seq<u8>,
)
    requires
        words.len() > 0,
        forall|k: int| 0 <= k < words.len() ==> (#[trigger] words[k]).len() > 0,
        forall|k: int, i: int|
            0 <= k < words.len() && 0 <= i < words[k].len() ==> is_plain(#[trigger] words[k][i])
                && words[k][i] != '%',
        path_text(desktop_file) is Some,
    ensures
        exec_command(spaced(words), name, desktop_file) == Ok::<ParsedExecView, ExecParseError>(
            ParsedExecView { executable: words[0], arguments: words.drop_first() },
        ),
{
    plain_words_are_tokens(words);
    assert(words[0].len() > 0);
    assert forall|i: int| 0 <= i < words[0].len() implies #[trigger] words[0][i] != '%' by {
        assert(is_plain(words[0][i]));
    }
    lemma_expanded_plain(words[0], true);
    let rest = words.drop_first();
    assert forall|k: int, i: int| 0 <= k < rest.len() && 0 <= i < rest[k].len() implies
        #[trigger] rest[k][i] != '%' by {
        assert(is_plain(words[k + 1][i]));
    }
    lemma_plain_arguments(rest, name, path_text(desktop_file)->0);
}

/// A character between double quotes: the quote and the backslash stand behind
/// a backslash.
pub open spec fn spelled_char(c: char) -> Seq<char> {
    if c == '"' || c == '\\' {
        seq!['\\', c]
    } else {
        seq![c]
    }
}

pub open spec fn spelled_body(word: Seq<char>) -> Seq<char>
    decreases word.len(),
{
    if word.len() == 0 {
        word
    } else {
        spelled_body(word.drop_last()) + spelled_char(word.last())
    }
}

/// A word between double quotes.
pub open spec fn spelled() -> spec_fn(Seq<char>) -> Seq<char> {
    |word: Seq<char>| seq!['"'] + spelled_body(word) + seq!['"']
}

proof fn lemma_read_body(front: Seq<char>, word: Seq<char>)
    requires
        read_chars(front).started,
        read_chars(front).quoted,
        !read_chars(front).escaped,
    ensures
        read_chars(front + spelled_body(word)) == (TokenState {
            token: read_chars(front).token + word,
            ..read_chars(front)
        }),
    decreases word.len(),
{
    let before = read_chars(front);
    if word.len() == 0 {
        assert(front + spelled_body(word) =~= front);
        assert(before.token + word =~= before.token);
    } else {
        let rest = word.drop_last();
        let c = word.last();
        let text = front + spelled_body(rest);
        lemma_read_body(front, rest);
        assert((before.token + rest).push(c) =~= before.token + word);
        if c == '"' || c == '\\' {
            let half = text.push('\\');
            assert(half.drop_last() =~= text);
            assert(half.push(c).drop_last() =~= half);
            assert(read_chars(half) == read_char(read_chars(text), '\\'));
            assert(read_chars(half.push(c)) == read_char(read_chars(half), c));
            assert(front + spelled_body(word) =~= half.push(c));
        } else {
            assert(text.push(c).drop_last() =~= text);
            assert(read_chars(text.push(c)) == read_char(read_chars(text), c));
            assert(front + spelled_body(word) =~= text.push(c));
        }
    }
}

proof fn lemma_read_spelled(front: Seq<char>, word: Seq<char>)
    requires
        !read_chars(front).started,
        !read_chars(front).quoted,
        !read_chars(front).escaped,
        read_chars(front).token.len() == 0,
    ensures
        read_chars(front + spelled()(word)) == (TokenState {
            token: word,
            started: true,
            ..read_chars(front)
        }),
{
    let opened = front.push('"');
    assert(opened.drop_last() =~= front);
    lemma_read_body(opened, word);
    let text = opened + spelled_body(word);
    assert(text.push('"').drop_last() =~= text);
    assert(front + spelled()(word) =~= text.push('"'));
    assert(read_chars(front).token + word =~= word);
}

proof fn lemma_read_spelled_words(words: Seq<Seq<char>>)
    requires
        words.len() > 0,
    ensures
        read_chars(spaced(words.map_values(spelled()))) == (TokenState {
            tokens: words.drop_last(),
            token: words.last(),
            started: true,
            quoted: false,
            escaped: false,
        }),
    decreases words.len(),
{
    let all = words.map_values(spelled());
    let last = words.last();
    if words.len() == 1 {
        lemma_read_spelled(Seq::empty(), last);
        assert(Seq::<char>::empty() + spelled()(last) =~= spelled()(last));
        assert(spaced(all) == spelled()(last));
        assert(words.drop_last() =~= Seq::empty());
    } else {
        let front = words.drop_last();
        lemma_read_spelled_words(front);
        assert(all.drop_last() =~= front.map_values(spelled()));
        let text = spaced(all.drop_last()).push(' ');
        assert(text.drop_last() =~= spaced(all.drop_last()));
        assert(front.drop_last().push(front.last()) =~= front);
        lemma_read_spelled(text, last);
        assert(spaced(all) =~= text + spelled()(last));
    }
}

proof fn lemma_spelled_body_holds(word: Seq<char>)
    requires
        !word.contains('\0'),
    ensures
        !spelled_body(word).contains('\0'),
    decreases word.len(),
{
    if word.len() > 0 {
        let rest = word.drop_last();
        if rest.contains('\0') {
            let i = choose|i: int| 0 <= i < rest.len() && rest[i] == '\0';
            assert(word[i] == '\0');
        }
        lemma_spelled_body_holds(rest);
        assert(word[word.len() - 1] != '\0') by {
            assert(word.contains(word[word.len() - 1]));
        }
        let body = spelled_body(word);
        if body.contains('\0') {
            let i = choose|i: int| 0 <= i < body.len() && body[i] == '\0';
            if i < spelled_body(rest).len() {
                assert(spelled_body(rest)[i] == '\0');
                assert(spelled_body(rest).contains('\0'));
            }
        }
    }
}

proof fn lemma_spelled_words_hold(words: Seq<Seq<char>>)
    requires
        forall|k: int| 0 <= k < words.len() ==> !(#[trigger] words[k]).contains('\0'),
    ensures
        !spaced(words.map_values(spelled())).contains('\0'),
    decreases words.len(),
{
    let all = words.map_values(spelled());
    let text = spaced(all);
    if words.len() > 0 {
        let front = words.drop_last();
        assert forall|k: int| 0 <= k < front.len() implies !(#[trigger] front[k]).contains(
            '\0',
        ) by {
            assert(!words[k].contains('\0'));
        }
        lemma_spelled_words_hold(front);
        assert(all.drop_last() =~= front.map_values(spelled()));
        assert(!words[words.len() - 1].contains('\0'));
        lemma_spelled_body_holds(words.last());
        let body = spelled_body(words.last());
        let word = spelled()(words.last());
        let before = spaced(front.map_values(spelled()));
        if text.contains('\0') {
            let i = choose|i: int| 0 <= i < text.len() && text[i] == '\0';
            let start: int = if words.len() == 1 {
                0
            } else {
                (before.len() + 1) as int
            };
            if words.len() > 1 && i < before.len() {
                assert(before[i] == '\0');
                assert(before.contains('\0'));
            } else if i >= start {
                assert(word[i - start] == '\0');
                assert(body[i - start - 1] == '\0');
                assert(body.contains('\0'));
            }
        }
    }
}

/// Every list of words can be written as a command: put between double quotes,
/// with a backslash before each quote and backslash in them, words are read as
/// they were, whatever blanks they hold.
pub proof fn quoted_words_are_tokens(words: Seq<Seq<char>>)
    requires
        forall|k: int| 0 <= k < words.len() ==> !(#[trigger] words[k]).contains('\0'),
    ensures
        tokens(spaced(words.map_values(spelled()))) == Ok::<Seq<Seq<char>>, ExecParseError>(words),
{
    lemma_spelled_words_hold(words);
    if words.len() > 0 {
        lemma_read_spelled_words(words);
        assert(words.drop_last().push(words.last()) =~= words);
    } else {
        assert(words =~= Seq::empty());
    }
}

} // verus!
