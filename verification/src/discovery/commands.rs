//! Commands as they are written and as they are run.
use vstd::prelude::*;

use super::environment::{active_locale, data_dirs, data_home};
use super::exec_parser::{
    argument, arguments, exec_command, expanded, quoted_words_are_tokens, spaced, spelled, tokens,
    ExecParseError, ParsedExecView,
};
use crate::order::lemma_filter_holds;
use crate::text::{pieces, split};
use crate::path::{absolute, path_text};

verus! {

/// A text with each percent sign twice, as it stands in a command.
pub open spec fn doubled(text: Seq<char>) -> Seq<char>
    decreases text.len(),
{
    if text.len() == 0 {
        text
    } else if text[0] == '%' {
        seq!['%', '%'] + doubled(text.drop_first())
    } else {
        seq![text[0]] + doubled(text.drop_first())
    }
}

/// What was written with its percent signs doubled is read as it was.
pub proof fn doubled_percents_are_read_back(text: Seq<char>, in_executable: bool)
    ensures
        expanded(doubled(text), in_executable) == Ok::<Seq<char>, ExecParseError>(text),
    decreases text.len(),
{
    if text.len() > 0 {
        let rest = text.drop_first();
        doubled_percents_are_read_back(rest, in_executable);
        assert(seq![text[0]] + rest =~= text);
        if text[0] == '%' {
            assert(doubled(text).skip(2) =~= doubled(rest));
        } else {
            assert(doubled(text).drop_first() =~= doubled(rest));
        }
    }
}

/// Texts with their percent signs doubled.
pub open spec fn all_doubled(words: Seq<Seq<char>>) -> Seq<Seq<char>> {
    words.map_values(|word: Seq<char>| doubled(word))
}

proof fn lemma_doubled_argument(word: Seq<char>, name: Seq<char>, desktop_path: Seq<char>)
    ensures
        argument(doubled(word), name, desktop_path) == Ok::<Option<Seq<char>>, ExecParseError>(
            Some(word),
        ),
{
    doubled_percents_are_read_back(word, false);
    let token = doubled(word);
    if word.len() > 0 && word[0] == '%' {
        assert(token[1] == '%');
    }
}

proof fn lemma_doubled_arguments(
    words: Seq<Seq<char>>,
    name: Seq<char>,
    desktop_path: Seq<char>,
)
    ensures
        arguments(all_doubled(words), name, desktop_path) == Ok::<Seq<Seq<char>>, ExecParseError>(
            words,
        ),
    decreases words.len(),
{
    let list = all_doubled(words);
    if words.len() > 0 {
        assert(list.drop_last() =~= all_doubled(words.drop_last()));
        lemma_doubled_arguments(words.drop_last(), name, desktop_path);
        lemma_doubled_argument(words.last(), name, desktop_path);
        assert(words.drop_last().push(words.last()) =~= words);
    } else {
        assert(words =~= Seq::empty());
    }
}

proof fn lemma_doubled_no_nul(word: Seq<char>)
    requires
        !word.contains('\0'),
    ensures
        !doubled(word).contains('\0'),
        word.len() > 0 ==> doubled(word).len() > 0,
    decreases word.len(),
{
    if word.len() > 0 {
        let rest = word.drop_first();
        assert(!rest.contains('\0')) by {
            if rest.contains('\0') {
                let i = choose|i: int| 0 <= i < rest.len() && rest[i] == '\0';
                assert(word[i + 1] == '\0');
            }
        }
        lemma_doubled_no_nul(rest);
        assert(word[0] != '\0') by {
            if word[0] == '\0' {
                assert(word.contains('\0'));
            }
        }
        if doubled(word).contains('\0') {
            let i = choose|i: int| 0 <= i < doubled(word).len() && doubled(word)[i] == '\0';
            let n: int = if word[0] == '%' {
                2
            } else {
                1
            };
            assert(i >= n);
            assert(doubled(rest)[i - n] == '\0');
            assert(doubled(rest).contains('\0'));
        }
    }
}

/// Every program and every list of arguments can be written as a command: each
/// word between quotes and with its percent signs doubled. The command runs
/// that program with those arguments, letter for letter.
pub proof fn every_command_can_be_written(
    words: Seq<Seq<char>>,
    name: Seq<char>,
    desktop_file: Seq<u8>,
)
    requires
        words.len() > 0,
        words[0].len() > 0,
        forall|k: int| 0 <= k < words.len() ==> !(#[trigger] words[k]).contains('\0'),
        path_text(desktop_file) is Some,
    ensures
        exec_command(spaced(all_doubled(words).map_values(spelled())), name, desktop_file) == Ok::<
            ParsedExecView,
            ExecParseError,
        >(ParsedExecView { executable: words[0], arguments: words.drop_first() }),
{
    let list = all_doubled(words);
    assert forall|k: int| 0 <= k < list.len() implies !(#[trigger] list[k]).contains('\0') by {
        lemma_doubled_no_nul(words[k]);
    }
    quoted_words_are_tokens(list);
    lemma_doubled_no_nul(words[0]);
    doubled_percents_are_read_back(words[0], true);
    assert(list.drop_first() =~= all_doubled(words.drop_first()));
    lemma_doubled_arguments(words.drop_first(), name, path_text(desktop_file)->0);
}

/// A token that stands for files, URLs or an icon, none of which is passed.
pub open spec fn passes_nothing(token: Seq<char>) -> bool {
    &&& token.len() == 2
    &&& token[0] == '%'
    &&& (token[1] == 'f' || token[1] == 'F' || token[1] == 'u' || token[1] == 'U' || token[1]
        == 'i')
}

/// What a token passes on: the name for `%c`, the desktop file for `%k`, and
/// else its own text.
pub open spec fn passes(
    token: Seq<char>,
    name: Seq<char>,
    desktop_path: Seq<char>,
    text: Seq<char>,
) -> bool {
    if token == seq!['%', 'c'] {
        text == name
    } else if token == seq!['%', 'k'] {
        text == desktop_path
    } else {
        expanded(token, false) == Ok::<Seq<char>, ExecParseError>(text)
    }
}

/// The tokens of a command that pass something on, in order, are what its
/// arguments come from, one each.
pub proof fn arguments_come_from_the_tokens(
    list: Seq<Seq<char>>,
    name: Seq<char>,
    desktop_path: Seq<char>,
)
    ensures
        arguments(list, name, desktop_path) matches Ok(found) ==> ({
            let passing = list.filter(|token: Seq<char>| !passes_nothing(token));
            &&& found.len() == passing.len()
            &&& forall|k: int|
                0 <= k < found.len() ==> passes(
                    passing[k],
                    name,
                    desktop_path,
                    #[trigger] found[k],
                )
        }),
    decreases list.len(),
{
    reveal(Seq::filter);
    let keep = |token: Seq<char>| !passes_nothing(token);
    if list.len() > 0 && arguments(list, name, desktop_path) is Ok {
        let front = list.drop_last();
        let last = list.last();
        arguments_come_from_the_tokens(front, name, desktop_path);
        let earlier = arguments(front, name, desktop_path)->Ok_0;
        let found = arguments(list, name, desktop_path)->Ok_0;
        let passing = list.filter(keep);
        let before = front.filter(keep);
        if passes_nothing(last) {
            assert(passing == before);
            assert(found == earlier);
        } else {
            assert(passing == before.push(last));
            if last.len() == 2 && last[0] == '%' && last[1] == 'c' {
                assert(last =~= seq!['%', 'c']);
            }
            if last.len() == 2 && last[0] == '%' && last[1] == 'k' {
                assert(last =~= seq!['%', 'k']);
            }
            assert forall|k: int| 0 <= k < found.len() implies passes(
                passing[k],
                name,
                desktop_path,
                #[trigger] found[k],
            ) by {
                if k < earlier.len() {
                    assert(found[k] == earlier[k]);
                    assert(passing[k] == before[k]);
                }
            }
        }
    }
}

/// The system data roots are the absolute ones of those listed; the usual two
/// stand in exactly where none is.
pub proof fn data_roots_are_the_absolute_ones(listed: Seq<Seq<u8>>, root: Seq<u8>)
    ensures
        (exists|k: int| 0 <= k < listed.len() && absolute(#[trigger] listed[k])) ==> (data_dirs(
            listed,
        ).contains(root) <==> listed.contains(root) && absolute(root)),
        !(exists|k: int| 0 <= k < listed.len() && absolute(#[trigger] listed[k])) ==> data_dirs(
            listed,
        ) == seq![
            vstd::utf8::encode_utf8("/usr/local/share"@),
            vstd::utf8::encode_utf8("/usr/share"@),
        ],
        data_dirs(listed).len() > 0,
{
    let keep = |path: Seq<u8>| absolute(path);
    let usable = listed.filter(keep);
    lemma_filter_holds(listed, keep, root);
    if exists|k: int| 0 <= k < listed.len() && absolute(#[trigger] listed[k]) {
        let k = choose|k: int| 0 <= k < listed.len() && absolute(#[trigger] listed[k]);
        lemma_filter_holds(listed, keep, listed[k]);
        assert(listed.contains(listed[k]));
    } else if usable.len() > 0 {
        lemma_filter_holds(listed, keep, usable[0]);
        assert(usable.contains(usable[0]));
        let k = choose|k: int| 0 <= k < listed.len() && listed[k] == usable[0];
        assert(absolute(listed[k]));
    }
}

/// There is a user data root exactly where one of the two directories is
/// absolute, and the one that is meant for data goes before the home directory.
/// A relative one counts for nothing.
pub proof fn user_data_needs_an_absolute_root(xdg: Option<Seq<u8>>, home: Option<Seq<u8>>)
    ensures
        data_home(xdg, home) is Some <==> (xdg is Some && absolute(xdg->0)) || (home is Some
            && absolute(home->0)),
        xdg is Some && absolute(xdg->0) ==> data_home(xdg, home) == xdg,
        !(xdg is Some && absolute(xdg->0)) ==> data_home(xdg, home) == data_home(None, home),
{
}

/// The locale is never empty: it is that of the first variable with a value.
pub proof fn locales_are_never_empty(
    lc_all: Option<Seq<char>>,
    lc_messages: Option<Seq<char>>,
    lang: Option<Seq<char>>,
)
    ensures
        ({
            let found = active_locale(lc_all, lc_messages, lang);
            let variables = seq![lc_all, lc_messages, lang];
            match found {
                Some(text) => text.len() > 0 && exists|k: int|
                    0 <= k < 3 && #[trigger] variables[k] == found && forall|j: int|
                        0 <= j < k ==> {
                            ||| (#[trigger] variables[j]) is None
                            ||| variables[j] == Some(Seq::<char>::empty())
                        },
                None => forall|j: int|
                    0 <= j < 3 ==> {
                        ||| (#[trigger] variables[j]) is None
                        ||| variables[j] == Some(Seq::<char>::empty())
                    },
            }
        }),
{
    let variables = seq![lc_all, lc_messages, lang];
    assert(variables[0] == lc_all && variables[1] == lc_messages && variables[2] == lang);
    assert forall|j: int|
        0 <= j < 3 && variables[j] is Some && variables[j]->0.len() == 0 implies (
    #[trigger] variables[j]) == Some(Seq::<char>::empty()) by {
        assert(variables[j]->0 =~= Seq::<char>::empty());
    }
}

/// The names between colons, or other separators, are exactly those pieces
/// that are not empty.
pub proof fn pieces_are_not_empty(text: Seq<char>, separator: char, piece: Seq<char>)
    ensures
        pieces(text, separator).contains(piece) <==> split(text, separator).contains(piece)
            && piece.len() > 0,
{
    let keep = |one: Seq<char>| one.len() > 0;
    lemma_filter_holds(split(text, separator), keep, piece);
}

} // verus!
