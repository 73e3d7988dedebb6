//! What a desktop file says, by its lines.
use vstd::prelude::*;

use super::desktop_entry::{
    desktop_entry, is_group_line, key_before, key_locale, list_value, locale_candidates, lookup,
    read_lines, read_pair, resolved, similar_key, string_value, supported_key, translation,
    unescaped, unescaped_table, EntryErrorView, EntryState, LocalizedView, TableView,
};
use crate::order::{insert_sorted, lemma_filter_holds};
use crate::text::{find_char, lemma_find_char, same_ignoring_case, split, trim};

verus! {

/// A line begins the main group.
pub open spec fn begins_main(line: Seq<char>) -> bool {
    trim(line) == "[Desktop Entry]"@
}

/// A line begins a group.
pub open spec fn begins_group(line: Seq<char>) -> bool {
    is_group_line(trim(line))
}

pub open spec fn in_main_since(lines: Seq<Seq<char>>, h: int, k: int) -> bool {
    &&& 0 <= h < k <= lines.len()
    &&& begins_main(lines[h])
    &&& forall|j: int| h < j < k ==> !begins_group(#[trigger] lines[j])
}

/// A position is in the main group: that is the last group that began before.
pub open spec fn in_main_at(lines: Seq<Seq<char>>, k: int) -> bool {
    exists|h: int| in_main_since(lines, h, k)
}

/// A text is a key and a value with an equals sign between them, the first one
/// that it has, and white space around either.
pub open spec fn pairs(text: Seq<char>, at: int, key: Seq<char>, value: Seq<char>) -> bool {
    &&& 0 <= at < text.len()
    &&& text[at] == '='
    &&& forall|j: int| 0 <= j < at ==> #[trigger] text[j] != '='
    &&& key == trim(text.take(at))
    &&& value == trim(text.skip(at + 1))
}

/// A line gives a key a value.
pub open spec fn gives(line: Seq<char>, key: Seq<char>, value: Seq<char>) -> bool {
    let text = trim(line);
    &&& text.len() > 0
    &&& text[0] != '#'
    &&& !is_group_line(text)
    &&& exists|at: int| pairs(text, at, key, value)
}

pub open spec fn states_at(
    lines: Seq<Seq<char>>,
    k: int,
    key: Seq<char>,
    value: Seq<char>,
) -> bool {
    &&& 0 <= k < lines.len()
    &&& in_main_at(lines, k)
    &&& gives(lines[k], key, value)
}

/// A line of the main group gives a key a value.
pub open spec fn states(lines: Seq<Seq<char>>, key: Seq<char>, value: Seq<char>) -> bool {
    exists|k: int| states_at(lines, k, key, value)
}

/// The keys that make a difference.
pub open spec fn keys() -> Seq<Seq<char>> {
    seq![
        "Type"@,
        "Name"@,
        "GenericName"@,
        "Exec"@,
        "Icon"@,
        "Hidden"@,
        "NoDisplay"@,
        "Terminal"@,
        "TryExec"@,
        "OnlyShowIn"@,
        "NotShowIn"@,
        "Categories"@,
        "StartupWMClass"@,
    ]
}

/// A key with a locale.
pub open spec fn localized_key(base: Seq<char>, locale: Seq<char>) -> Seq<char> {
    base + seq!['['] + locale + seq![']']
}

proof fn lemma_found(s: Seq<char>, c: char)
    ensures
        0 <= find_char(s, c) <= s.len(),
        forall|j: int| 0 <= j < find_char(s, c) ==> #[trigger] s[j] != c,
        find_char(s, c) < s.len() ==> s[find_char(s, c)] == c,
    decreases s.len(),
{
    if s.len() > 0 && s[0] != c {
        lemma_found(s.drop_first(), c);
        assert forall|j: int| 0 <= j < find_char(s, c) implies #[trigger] s[j] != c by {
            if j > 0 {
                assert(s.drop_first()[j - 1] == s[j]);
            }
        }
    }
}

proof fn lemma_pairs(text: Seq<char>, at: int, key: Seq<char>, value: Seq<char>)
    ensures
        pairs(text, at, key, value) <==> at == find_char(text, '=') && at < text.len() && key
            == trim(text.take(at)) && value == trim(text.skip(at + 1)),
{
    lemma_found(text, '=');
    if pairs(text, at, key, value) {
        lemma_find_char(text, '=', at);
    }
}

proof fn lemma_gives(line: Seq<char>, key: Seq<char>, value: Seq<char>)
    ensures
        gives(line, key, value) <==> ({
            let text = trim(line);
            let at = find_char(text, '=');
            &&& text.len() > 0
            &&& text[0] != '#'
            &&& !is_group_line(text)
            &&& at < text.len()
            &&& key == trim(text.take(at))
            &&& value == trim(text.skip(at + 1))
        }),
{
    let text = trim(line);
    let at = find_char(text, '=');
    lemma_pairs(text, at, key, value);
    if gives(line, key, value) {
        let other = choose|other: int| pairs(text, other, key, value);
        lemma_pairs(text, other, key, value);
    }
}

proof fn lemma_key_locale(key: Seq<char>, base: Seq<char>)
    ensures
        key_locale(key, base) matches Some(locale) ==> key == localized_key(base, locale)
            && locale.len() > 0,
        forall|locale: Seq<char>|
            locale.len() > 0 && key == #[trigger] localized_key(base, locale) ==> key_locale(
                key,
                base,
            ) == Some(locale),
{
    let rest = key.skip(base.len() as int);
    if key_locale(key, base) is Some {
        let locale = key_locale(key, base)->0;
        assert(key.take(base.len() as int) == base);
        assert(key =~= localized_key(base, locale)) by {
            assert(key =~= base + rest);
            assert(rest =~= seq!['['] + locale + seq![']']);
        }
    }
    assert forall|locale: Seq<char>|
        locale.len() > 0 && key == #[trigger] localized_key(base, locale) implies key_locale(
        key,
        base,
    ) == Some(locale) by {
        assert(key.take(base.len() as int) =~= base);
        assert(rest =~= seq!['['] + locale + seq![']']);
        assert(rest.subrange(1, rest.len() - 1) =~= locale);
    }
}

proof fn lemma_keys(key: Seq<char>)
    ensures
        supported_key(key) <==> keys().contains(key),
        supported_key(key) ==> key_locale(key, "Name"@) is None && key_locale(
            key,
            "GenericName"@,
        ) is None,
{
    reveal_strlit("Type");
    reveal_strlit("Name");
    reveal_strlit("GenericName");
    reveal_strlit("Exec");
    reveal_strlit("Icon");
    reveal_strlit("Hidden");
    reveal_strlit("NoDisplay");
    reveal_strlit("Terminal");
    reveal_strlit("TryExec");
    reveal_strlit("OnlyShowIn");
    reveal_strlit("NotShowIn");
    reveal_strlit("Categories");
    reveal_strlit("StartupWMClass");
    let all = keys();
    assert(all[0] == "Type"@);
    assert(all[1] == "Name"@);
    assert(all[2] == "GenericName"@);
    assert(all[3] == "Exec"@);
    assert(all[4] == "Icon"@);
    assert(all[5] == "Hidden"@);
    assert(all[6] == "NoDisplay"@);
    assert(all[7] == "Terminal"@);
    assert(all[8] == "TryExec"@);
    assert(all[9] == "OnlyShowIn"@);
    assert(all[10] == "NotShowIn"@);
    assert(all[11] == "Categories"@);
    assert(all[12] == "StartupWMClass"@);
    if supported_key(key) {
        lemma_key_locale(key, "Name"@);
        lemma_key_locale(key, "GenericName"@);
        assert(key.last() != ']');
    }
}

proof fn lemma_lookup_inserted(table: TableView, key: Seq<char>, value: Seq<char>, other: Seq<char>)
    requires
        lookup(table, key) is None,
    ensures
        lookup(insert_sorted(table, (key, value), key_before()), other) == if other == key {
            Some(value)
        } else {
            lookup(table, other)
        },
    decreases table.len(),
{
    let after = insert_sorted(table, (key, value), key_before());
    if table.len() > 0 && key_before()((key, value), table.last()) {
        lemma_lookup_inserted(table.drop_last(), key, value, other);
        assert(after.drop_last() =~= insert_sorted(
            table.drop_last(),
            (key, value),
            key_before(),
        ));
    } else {
        assert(after.drop_last() =~= table);
    }
}

proof fn lemma_main_step(lines: Seq<Seq<char>>, k: int)
    requires
        0 <= k < lines.len(),
    ensures
        begins_main(lines[k]) ==> in_main_at(lines, k + 1),
        begins_group(lines[k]) && !begins_main(lines[k]) ==> !in_main_at(lines, k + 1),
        !begins_group(lines[k]) ==> (in_main_at(lines, k + 1) <==> in_main_at(lines, k)),
{
    lemma_main_is_group(lines[k]);
    if begins_main(lines[k]) {
        assert(in_main_since(lines, k, k + 1));
    }
    let next = k + 1;
    if in_main_at(lines, next) {
        let h = choose|h: int| in_main_since(lines, h, next);
        if h < k {
            assert(!begins_group(lines[k]));
            assert(in_main_since(lines, h, k));
        }
    }
    if in_main_at(lines, k) && !begins_group(lines[k]) {
        let h = choose|h: int| in_main_since(lines, h, k);
        assert(in_main_since(lines, h, next));
    }
}

proof fn lemma_main_is_group(line: Seq<char>)
    ensures
        begins_main(line) ==> begins_group(line),
        begins_main(line) <==> begins_group(line) && trim(line).subrange(1, trim(line).len() - 1)
            == "Desktop Entry"@,
{
    reveal_strlit("[Desktop Entry]");
    reveal_strlit("Desktop Entry");
    let text = trim(line);
    if begins_main(line) {
        assert(text.subrange(1, text.len() - 1) =~= "Desktop Entry"@);
    }
    if begins_group(line) && text.subrange(1, text.len() - 1) == "Desktop Entry"@ {
        assert(text.len() == 15) by {
            assert(text.subrange(1, text.len() - 1).len() == 13);
        }
        assert forall|i: int| 0 <= i < 15 implies text[i] == "[Desktop Entry]"@[i] by {
            if 0 < i < 14 {
                assert(text[i] == "Desktop Entry"@[i - 1]);
            }
        }
        assert(text =~= "[Desktop Entry]"@);
    }
}

proof fn lemma_main_of_front(lines: Seq<Seq<char>>, k: int)
    requires
        lines.len() > 0,
        k < lines.len(),
    ensures
        in_main_at(lines.drop_last(), k) <==> in_main_at(lines, k),
{
    let front = lines.drop_last();
    if in_main_at(front, k) {
        let h = choose|h: int| in_main_since(front, h, k);
        assert forall|j: int| h < j < k implies !begins_group(#[trigger] lines[j]) by {
            assert(front[j] == lines[j]);
        }
        assert(in_main_since(lines, h, k));
    }
    if in_main_at(lines, k) {
        let h = choose|h: int| in_main_since(lines, h, k);
        assert forall|j: int| h < j < k implies !begins_group(#[trigger] front[j]) by {
            assert(front[j] == lines[j]);
        }
        assert(in_main_since(front, h, k));
    }
}

/// A statement is one of the lines before, or of the last one.
proof fn lemma_states_step(lines: Seq<Seq<char>>, key: Seq<char>, value: Seq<char>)
    requires
        lines.len() > 0,
    ensures
        states(lines, key, value) <==> states(lines.drop_last(), key, value) || states_at(
            lines,
            lines.len() - 1,
            key,
            value,
        ),
{
    let front = lines.drop_last();
    if states(front, key, value) {
        let k = choose|k: int| states_at(front, k, key, value);
        lemma_main_of_front(lines, k);
        assert(states_at(lines, k, key, value));
    }
    if states(lines, key, value) {
        let k = choose|k: int| states_at(lines, k, key, value);
        if k < front.len() {
            lemma_main_of_front(lines, k);
            assert(states_at(front, k, key, value));
        }
    }
}

/// What is collected from some lines is what they state.
pub open spec fn collected(
    lines: Seq<Seq<char>>,
    state: EntryState,
    key: Seq<char>,
    value: Seq<char>,
) -> bool {
    &&& state.in_main <==> in_main_at(lines, lines.len() as int)
    &&& keys().contains(key) ==> (lookup(state.values, key) == Some(value) <==> states(
        lines,
        key,
        value,
    ))
    &&& key.len() > 0 ==> (lookup(state.names, key) == Some(value) <==> states(
        lines,
        localized_key("Name"@, key),
        value,
    ))
    &&& key.len() > 0 ==> (lookup(state.generic_names, key) == Some(value) <==> states(
        lines,
        localized_key("GenericName"@, key),
        value,
    ))
}

proof fn lemma_collected(lines: Seq<Seq<char>>, key: Seq<char>, value: Seq<char>)
    ensures
        read_lines(lines) matches Ok(state) ==> collected(lines, state, key, value),
    decreases lines.len(),
{
    let name = localized_key("Name"@, key);
    let generic = localized_key("GenericName"@, key);
    if lines.len() == 0 {
        assert(!in_main_at(lines, 0));
    } else if read_lines(lines) is Ok {
        let front = lines.drop_last();
        let before = read_lines(front)->Ok_0;
        let line = lines.last();
        let n = lines.len() - 1;
        assert(lines[n] == line);
        lemma_collected(front, key, value);
        lemma_states_step(lines, key, value);
        lemma_states_step(lines, name, value);
        lemma_states_step(lines, generic, value);
        lemma_main_step(lines, n);
        lemma_main_of_front(lines, n);
        lemma_main_is_group(line);
        lemma_gives(line, key, value);
        lemma_gives(line, name, value);
        lemma_gives(line, generic, value);
        let text = trim(line);
        if text.len() > 0 && text[0] != '#' && !is_group_line(text) && before.in_main {
            lemma_collected_pair(before, line, n + 1, key);
        }
    }
}

/// What one line of the main group adds to what is collected.
proof fn lemma_collected_pair(state: EntryState, line: Seq<char>, number: int, key: Seq<char>)
    ensures
        read_pair(state, trim(line), number) matches Ok(after) ==> ({
            let text = trim(line);
            let at = find_char(text, '=');
            let found = trim(text.take(at));
            let value = trim(text.skip(at + 1));
            &&& at < text.len()
            &&& after.in_main == state.in_main
            &&& keys().contains(key) && key == found ==> lookup(state.values, key) is None
                && lookup(after.values, key) == Some(value)
            &&& keys().contains(key) && key != found ==> lookup(after.values, key) == lookup(
                state.values,
                key,
            )
            &&& key.len() > 0 && localized_key("Name"@, key) == found ==> lookup(
                state.names,
                key,
            ) is None && lookup(after.names, key) == Some(value)
            &&& key.len() > 0 && localized_key("Name"@, key) != found ==> lookup(after.names, key)
                == lookup(state.names, key)
            &&& key.len() > 0 && localized_key("GenericName"@, key) == found ==> lookup(
                state.generic_names,
                key,
            ) is None && lookup(after.generic_names, key) == Some(value)
            &&& key.len() > 0 && localized_key("GenericName"@, key) != found ==> lookup(
                after.generic_names,
                key,
            ) == lookup(state.generic_names, key)
        }),
{
    let text = trim(line);
    let at = find_char(text, '=');
    let found = trim(text.take(at));
    let value = trim(text.skip(at + 1));
    lemma_found(text, '=');
    lemma_keys(key);
    lemma_keys(found);
    lemma_key_locale(found, "Name"@);
    lemma_key_locale(found, "GenericName"@);
    assert(localized_key("Name"@, key)[0] == 'N' && localized_key("GenericName"@, key)[0]
        == 'G') by {
        reveal_strlit("Name");
        reveal_strlit("GenericName");
    }
    if key_locale(found, "Name"@) is Some {
        let locale = key_locale(found, "Name"@)->0;
        assert(found[0] == 'N') by {
            reveal_strlit("Name");
        }
        if lookup(state.names, locale) is None {
            lemma_lookup_inserted(state.names, locale, value, key);
        }
    } else if key_locale(found, "GenericName"@) is Some {
        let locale = key_locale(found, "GenericName"@)->0;
        if lookup(state.generic_names, locale) is None {
            lemma_lookup_inserted(state.generic_names, locale, value, key);
        }
    } else if supported_key(found) {
        if lookup(state.values, found) is None {
            lemma_lookup_inserted(state.values, found, value, key);
        }
    }
}

/// A flag of a desktop file is set exactly where a line of the main group says
/// `true`.
pub proof fn flags_are_those_stated(input: Seq<char>)
    ensures
        desktop_entry(input) matches Ok(entry) ==> ({
            let lines = split(input, '\n');
            &&& entry.hidden <==> states(lines, "Hidden"@, "true"@)
            &&& entry.no_display <==> states(lines, "NoDisplay"@, "true"@)
            &&& entry.terminal <==> states(lines, "Terminal"@, "true"@)
        }),
{
    let lines = split(input, '\n');
    if desktop_entry(input) is Ok {
        let state = read_lines(lines)->Ok_0;
        assert("true"@ != "false"@) by {
            reveal_strlit("true");
            reveal_strlit("false");
            assert("true"@.len() != "false"@.len());
        }
        lemma_stated(lines, "Hidden"@, "true"@);
        lemma_stated(lines, "NoDisplay"@, "true"@);
        lemma_stated(lines, "Terminal"@, "true"@);
    }
}

proof fn lemma_stated(lines: Seq<Seq<char>>, key: Seq<char>, value: Seq<char>)
    requires
        supported_key(key),
    ensures
        read_lines(lines) matches Ok(state) ==> (lookup(state.values, key) == Some(value)
            <==> states(lines, key, value)),
{
    lemma_keys(key);
    lemma_collected(lines, key, value);
}

/// A line of the main group gives a key a value whose escapes stand for the
/// text.
pub open spec fn states_text(lines: Seq<Seq<char>>, key: Seq<char>, text: Seq<char>) -> bool {
    exists|raw: Seq<char>| #[trigger]
        states(lines, key, raw) && unescaped(key, raw) == Ok::<Seq<char>, EntryErrorView>(text)
}

proof fn lemma_stated_text(lines: Seq<Seq<char>>, key: Seq<char>, text: Seq<char>)
    requires
        supported_key(key),
    ensures
        read_lines(lines) matches Ok(state) ==> (string_value(state.values, key) == Ok::<
            Option<Seq<char>>,
            EntryErrorView,
        >(Some(text)) <==> text.len() > 0 && states_text(lines, key, text)),
{
    if read_lines(lines) is Ok {
        let state = read_lines(lines)->Ok_0;
        if lookup(state.values, key) is Some {
            lemma_stated(lines, key, lookup(state.values, key)->0);
        }
        if states_text(lines, key, text) {
            let raw = choose|raw: Seq<char>| #[trigger]
                states(lines, key, raw) && unescaped(key, raw) == Ok::<Seq<char>, EntryErrorView>(
                    text,
                );
            lemma_stated(lines, key, raw);
        }
    }
}

/// A text of a desktop file is the one that a line of the main group gives,
/// with its escapes replaced; an empty one counts as none. The command alone is
/// taken as it stands.
pub proof fn texts_are_those_stated(input: Seq<char>, text: Seq<char>)
    requires
        text.len() > 0,
    ensures
        desktop_entry(input) matches Ok(entry) ==> ({
            let lines = split(input, '\n');
            &&& entry.entry_type == Some(text) <==> states_text(lines, "Type"@, text)
            &&& entry.names.unlocalized == Some(text) <==> states_text(lines, "Name"@, text)
            &&& entry.generic_names.unlocalized == Some(text) <==> states_text(
                lines,
                "GenericName"@,
                text,
            )
            &&& entry.icon == Some(text) <==> states_text(lines, "Icon"@, text)
            &&& entry.try_exec == Some(text) <==> states_text(lines, "TryExec"@, text)
            &&& entry.startup_wm_class == Some(text) <==> states_text(
                lines,
                "StartupWMClass"@,
                text,
            )
            &&& entry.command == Some(text) <==> states(lines, "Exec"@, text)
        }),
{
    let lines = split(input, '\n');
    if desktop_entry(input) is Ok {
        lemma_stated_text(lines, "Type"@, text);
        lemma_stated_text(lines, "Name"@, text);
        lemma_stated_text(lines, "GenericName"@, text);
        lemma_stated_text(lines, "Icon"@, text);
        lemma_stated_text(lines, "TryExec"@, text);
        lemma_stated_text(lines, "StartupWMClass"@, text);
        lemma_stated(lines, "Exec"@, text);
    }
}

/// A line of the main group lists an item.
pub open spec fn states_item(lines: Seq<Seq<char>>, key: Seq<char>, item: Seq<char>) -> bool {
    &&& item.len() > 0
    &&& exists|text: Seq<char>| #[trigger]
        states_text(lines, key, text) && split(text, ';').contains(item)
}

proof fn lemma_stated_item(lines: Seq<Seq<char>>, key: Seq<char>, item: Seq<char>)
    requires
        supported_key(key),
    ensures
        read_lines(lines) matches Ok(state) ==> (list_value(state.values, key) matches Ok(found)
            ==> (found.contains(item) <==> states_item(lines, key, item))),
{
    if read_lines(lines) is Ok {
        let state = read_lines(lines)->Ok_0;
        let keep = |piece: Seq<char>| piece.len() > 0;
        if list_value(state.values, key) is Ok {
            if lookup(state.values, key) is Some {
                let raw = lookup(state.values, key)->0;
                let text = unescaped(key, raw)->Ok_0;
                lemma_stated(lines, key, raw);
                assert(states_text(lines, key, text));
                lemma_filter_holds(split(text, ';'), keep, item);
            }
            if states_item(lines, key, item) {
                let text = choose|text: Seq<char>| #[trigger]
                    states_text(lines, key, text) && split(text, ';').contains(item);
                let raw = choose|raw: Seq<char>| #[trigger]
                    states(lines, key, raw) && unescaped(key, raw) == Ok::<
                        Seq<char>,
                        EntryErrorView,
                    >(text);
                lemma_stated(lines, key, raw);
            }
        }
    }
}

/// A list of a desktop file holds exactly the items, not empty, that a line of
/// the main group lists between semicolons.
pub proof fn items_are_those_listed(input: Seq<char>, item: Seq<char>)
    ensures
        desktop_entry(input) matches Ok(entry) ==> ({
            let lines = split(input, '\n');
            &&& entry.only_show_in.contains(item) <==> states_item(lines, "OnlyShowIn"@, item)
            &&& entry.not_show_in.contains(item) <==> states_item(lines, "NotShowIn"@, item)
            &&& entry.categories.contains(item) <==> states_item(lines, "Categories"@, item)
        }),
{
    let lines = split(input, '\n');
    if desktop_entry(input) is Ok {
        lemma_stated_item(lines, "OnlyShowIn"@, item);
        lemma_stated_item(lines, "NotShowIn"@, item);
        lemma_stated_item(lines, "Categories"@, item);
    }
}

proof fn lemma_unescaped_lookup(key: Seq<char>, table: TableView, locale: Seq<char>)
    requires
        unescaped_table(key, table) is Ok,
    ensures
        match lookup(table, locale) {
            None => lookup(unescaped_table(key, table)->Ok_0, locale) is None,
            Some(raw) => unescaped(key, raw) is Ok && lookup(
                unescaped_table(key, table)->Ok_0,
                locale,
            ) == Some(unescaped(key, raw)->Ok_0),
        },
    decreases table.len(),
{
    if table.len() > 0 {
        lemma_unescaped_lookup(key, table.drop_last(), locale);
        let after = unescaped_table(key, table)->Ok_0;
        assert(after.drop_last() =~= unescaped_table(key, table.drop_last())->Ok_0);
    }
}

/// A translation of a name is the one that a line of the main group gives for
/// its locale.
pub proof fn translations_are_those_stated(input: Seq<char>, locale: Seq<char>, text: Seq<char>)
    requires
        locale.len() > 0,
    ensures
        desktop_entry(input) matches Ok(entry) ==> ({
            let lines = split(input, '\n');
            &&& lookup(entry.names.localized, locale) == Some(text) <==> exists|raw: Seq<char>|
                #[trigger] states(lines, localized_key("Name"@, locale), raw) && unescaped(
                    "Name"@,
                    raw,
                ) == Ok::<Seq<char>, EntryErrorView>(text)
            &&& lookup(entry.generic_names.localized, locale) == Some(text) <==> exists|
                raw: Seq<char>,
            |
                #[trigger] states(lines, localized_key("GenericName"@, locale), raw) && unescaped(
                    "GenericName"@,
                    raw,
                ) == Ok::<Seq<char>, EntryErrorView>(text)
        }),
{
    let lines = split(input, '\n');
    if desktop_entry(input) is Ok {
        let state = read_lines(lines)->Ok_0;
        lemma_unescaped_lookup("Name"@, state.names, locale);
        lemma_unescaped_lookup("GenericName"@, state.generic_names, locale);
        if lookup(state.names, locale) is Some {
            lemma_collected(lines, locale, lookup(state.names, locale)->0);
        }
        if lookup(state.generic_names, locale) is Some {
            lemma_collected(lines, locale, lookup(state.generic_names, locale)->0);
        }
        assert forall|raw: Seq<char>| true implies (lookup(state.names, locale) == Some(raw)
            <==> #[trigger] states(lines, localized_key("Name"@, locale), raw)) by {
            lemma_collected(lines, locale, raw);
        }
        assert forall|raw: Seq<char>| true implies (lookup(state.generic_names, locale) == Some(
            raw,
        ) <==> #[trigger] states(lines, localized_key("GenericName"@, locale), raw)) by {
            lemma_collected(lines, locale, raw);
        }
    }
}

/// A text as it is written in a value: with a backslash for each one, and
/// letters behind a backslash for tabs and line ends.
pub open spec fn escaped(text: Seq<char>) -> Seq<char>
    decreases text.len(),
{
    if text.len() == 0 {
        text
    } else {
        let rest = escaped(text.drop_first());
        if text[0] == '\\' {
            seq!['\\', '\\'] + rest
        } else if text[0] == '\n' {
            seq!['\\', 'n'] + rest
        } else if text[0] == '\t' {
            seq!['\\', 't'] + rest
        } else if text[0] == '\r' {
            seq!['\\', 'r'] + rest
        } else if text[0] == ' ' {
            seq!['\\', 's'] + rest
        } else {
            seq![text[0]] + rest
        }
    }
}

/// Every text can be written as a value: what was escaped is read as it was.
pub proof fn escaped_texts_are_read_back(key: Seq<char>, text: Seq<char>)
    ensures
        unescaped(key, escaped(text)) == Ok::<Seq<char>, EntryErrorView>(text),
    decreases text.len(),
{
    if text.len() > 0 {
        let value = escaped(text);
        let rest = escaped(text.drop_first());
        escaped_texts_are_read_back(key, text.drop_first());
        assert(seq![text[0]] + text.drop_first() =~= text);
        if value[0] == '\\' {
            assert(value.skip(2) =~= rest);
        } else {
            assert(value.drop_first() =~= rest);
        }
    }
}

/// Text without a backslash is read as it stands.
pub proof fn plain_texts_are_read_as_they_stand(key: Seq<char>, text: Seq<char>)
    requires
        forall|i: int| 0 <= i < text.len() ==> #[trigger] text[i] != '\\',
    ensures
        unescaped(key, text) == Ok::<Seq<char>, EntryErrorView>(text),
    decreases text.len(),
{
    if text.len() > 0 {
        let rest = text.drop_first();
        assert forall|i: int| 0 <= i < rest.len() implies #[trigger] rest[i] != '\\' by {
            assert(rest[i] == text[i + 1]);
        }
        plain_texts_are_read_as_they_stand(key, rest);
        assert(seq![text[0]] + rest =~= text);
    }
}

/// A table has a translation for a locale, but for the case of letters.
pub open spec fn translates(table: TableView, locale: Seq<char>) -> bool {
    exists|i: int| 0 <= i < table.len() && same_ignoring_case(#[trigger] table[i].0, locale)
}

proof fn lemma_similar_key(table: TableView, key: Seq<char>)
    ensures
        match similar_key(table, key) {
            Some(text) => exists|i: int|
                0 <= i < table.len() && same_ignoring_case(#[trigger] table[i].0, key)
                    && table[i].1 == text,
            None => !translates(table, key),
        },
    decreases table.len(),
{
    if table.len() > 0 && !same_ignoring_case(table[0].0, key) {
        let rest = table.drop_first();
        lemma_similar_key(rest, key);
        match similar_key(rest, key) {
            Some(text) => {
                let i = choose|i: int|
                    0 <= i < rest.len() && same_ignoring_case(#[trigger] rest[i].0, key)
                        && rest[i].1 == text;
                assert(table[i + 1] == rest[i]);
            },
            None => {
                assert forall|i: int| 0 <= i < table.len() implies !same_ignoring_case(
                    #[trigger] table[i].0,
                    key,
                ) by {
                    if i > 0 {
                        assert(rest[i - 1] == table[i]);
                    }
                }
            },
        }
    } else if table.len() > 0 {
        assert(same_ignoring_case(table[0].0, key));
    }
}

proof fn lemma_lookup_holds(table: TableView, key: Seq<char>)
    ensures
        lookup(table, key) matches Some(text) ==> exists|i: int|
            0 <= i < table.len() && (#[trigger] table[i].0) == key && table[i].1 == text,
    decreases table.len(),
{
    if table.len() > 0 {
        lemma_lookup_holds(table.drop_last(), key);
        if table.last().0 == key {
            assert(table[table.len() - 1].0 == key);
        } else if lookup(table, key) is Some {
            let front = table.drop_last();
            let i = choose|i: int|
                0 <= i < front.len() && (#[trigger] front[i].0) == key && front[i].1 == lookup(
                    table,
                    key,
                )->0;
            assert(table[i].0 == key);
        }
    }
}

/// The translation that is taken is the one for the first of the candidates
/// that has any: an exact one where there is one, else one that differs in the
/// case of letters alone.
pub open spec fn translated_by(
    table: TableView,
    candidates: Seq<Seq<char>>,
    k: int,
    text: Seq<char>,
) -> bool {
    &&& 0 <= k < candidates.len()
    &&& forall|j: int| 0 <= j < k ==> !translates(table, #[trigger] candidates[j])
    &&& lookup(table, candidates[k]) matches Some(exact) ==> text == exact
    &&& exists|i: int|
        0 <= i < table.len() && same_ignoring_case(#[trigger] table[i].0, candidates[k])
            && table[i].1 == text
}

proof fn lemma_same_as_itself(text: Seq<char>)
    ensures
        same_ignoring_case(text, text),
{
}

pub proof fn first_candidates_are_taken(table: TableView, candidates: Seq<Seq<char>>)
    ensures
        match translation(table, candidates) {
            Some(text) => exists|k: int| translated_by(table, candidates, k, text),
            None => forall|k: int|
                0 <= k < candidates.len() ==> !translates(table, #[trigger] candidates[k]),
        },
    decreases candidates.len(),
{
    if candidates.len() > 0 {
        let rest = candidates.drop_first();
        let first = candidates[0];
        first_candidates_are_taken(table, rest);
        lemma_lookup_holds(table, first);
        lemma_similar_key(table, first);
        lemma_same_as_itself(first);
        if lookup(table, first) is Some || similar_key(table, first) is Some {
            if lookup(table, first) is Some {
                let i = choose|i: int|
                    0 <= i < table.len() && (#[trigger] table[i].0) == first && table[i].1
                        == lookup(table, first)->0;
                assert(same_ignoring_case(table[i].0, first));
            }
            assert(translated_by(table, candidates, 0, translation(table, candidates)->0));
        } else {
            match translation(table, rest) {
                Some(text) => {
                    let k = choose|k: int| translated_by(table, rest, k, text);
                    assert forall|j: int| 0 <= j < k + 1 implies !translates(
                        table,
                        #[trigger] candidates[j],
                    ) by {
                        if j > 0 {
                            assert(rest[j - 1] == candidates[j]);
                        }
                    }
                    assert(rest[k] == candidates[k + 1]);
                    assert(translated_by(table, candidates, k + 1, text));
                },
                None => {
                    assert forall|j: int| 0 <= j < candidates.len() implies !translates(
                        table,
                        #[trigger] candidates[j],
                    ) by {
                        if j > 0 {
                            assert(rest[j - 1] == candidates[j]);
                        }
                    }
                },
            }
        }
    }
}

/// A value is its translation where one fits, and else the plain one.
pub proof fn plain_values_stand_in(value: LocalizedView, locale: Option<Seq<char>>)
    ensures
        ({
            let candidates = locale_candidates(locale);
            (forall|k: int|
                0 <= k < candidates.len() ==> !translates(
                    value.localized,
                    #[trigger] candidates[k],
                )) ==> resolved(value, locale) == value.unlocalized
        }),
        ({
            let candidates = locale_candidates(locale);
            forall|k: int|
                0 <= k < candidates.len() && translates(
                    value.localized,
                    #[trigger] candidates[k],
                ) ==> resolved(value, locale) is Some && exists|m: int|
                    m <= k && translated_by(
                        value.localized,
                        candidates,
                        m,
                        resolved(value, locale)->0,
                    )
        }),
{
    let candidates = locale_candidates(locale);
    first_candidates_are_taken(value.localized, candidates);
    assert forall|k: int|
        0 <= k < candidates.len() && translates(
            value.localized,
            #[trigger] candidates[k],
        ) implies resolved(value, locale) is Some && exists|m: int|
        m <= k && translated_by(value.localized, candidates, m, resolved(value, locale)->0) by {
        if translation(value.localized, candidates) is Some {
            let text = translation(value.localized, candidates)->0;
            let m = choose|m: int| translated_by(value.localized, candidates, m, text);
            if m > k {
                assert(!translates(value.localized, candidates[k]));
            }
        }
    }
    if forall|k: int|
        0 <= k < candidates.len() ==> !translates(value.localized, #[trigger] candidates[k]) {
        if translation(value.localized, candidates) is Some {
            let text = translation(value.localized, candidates)->0;
            let m = choose|m: int| translated_by(value.localized, candidates, m, text);
            assert(translates(value.localized, candidates[m]));
        }
    }
}

/// A part of a locale: without blanks and without the marks between parts.
pub open spec fn locale_part(s: Seq<char>) -> bool {
    &&& s.len() > 0
    &&& forall|i: int|
        0 <= i < s.len() ==> #[trigger] s[i] != '_' && s[i] != '.' && s[i] != '@'
            && !crate::text::is_space(s[i])
}

/// A locale that names a language, a country, an encoding and a modifier is
/// looked for without the encoding, then without the modifier, then by its
/// language alone.
pub proof fn locales_are_looked_for_from_the_most_specific(
    language: Seq<char>,
    country: Seq<char>,
    encoding: Seq<char>,
    modifier: Seq<char>,
)
    requires
        locale_part(language),
        locale_part(country),
        locale_part(encoding),
        locale_part(modifier),
    ensures
        ({
            let base = language + seq!['_'] + country;
            let full = base + seq!['@'] + modifier;
            &&& locale_candidates(Some(base + seq!['.'] + encoding + seq!['@'] + modifier))
                == seq![full, base, language]
            &&& locale_candidates(Some(full)) == seq![full, base, language]
            &&& locale_candidates(Some(base + seq!['.'] + encoding)) == seq![base, language]
            &&& locale_candidates(Some(base)) == seq![base, language]
        }),
{
    let base = language + seq!['_'] + country;
    let full = base + seq!['@'] + modifier;
    let long = base + seq!['.'] + encoding + seq!['@'] + modifier;
    let coded = base + seq!['.'] + encoding;
    lemma_base(language, country, base);
    lemma_find_char(long, '.', base.len() as int);
    lemma_find_char(long, '@', coded.len() as int);
    assert(long.take(base.len() as int) + long.skip(coded.len() as int) =~= full);
    lemma_find_char(full, '.', full.len() as int);
    lemma_find_char(full, '@', base.len() as int);
    assert(full.take(full.len() as int) =~= full);
    assert(full.take(base.len() as int) =~= base);
    lemma_find_char(coded, '.', base.len() as int);
    lemma_find_char(coded, '@', coded.len() as int);
    assert(coded.take(base.len() as int) =~= base);
    lemma_find_char(base, '.', base.len() as int);
    lemma_find_char(base, '@', base.len() as int);
    assert(base.take(base.len() as int) =~= base);
    lemma_find_char(base, '_', language.len() as int);
    assert(base.take(language.len() as int) =~= language);
    lemma_own_name(long, language.len() as int);
    lemma_own_name(full, language.len() as int);
    lemma_own_name(coded, language.len() as int);
    lemma_own_name(base, language.len() as int);
    assert(full.len() > base.len() > language.len());
    assert(!seq![full, base].contains(language));
    assert(!seq![base].contains(language));
    assert(seq![full, base].push(language) =~= seq![full, base, language]);
    assert(seq![base].push(language) =~= seq![base, language]);
}

proof fn lemma_base(language: Seq<char>, country: Seq<char>, base: Seq<char>)
    requires
        locale_part(language),
        locale_part(country),
        base == language + seq!['_'] + country,
    ensures
        forall|i: int|
            0 <= i < base.len() ==> #[trigger] base[i] != '.' && base[i] != '@'
                && !crate::text::is_space(base[i]),
        forall|i: int| 0 <= i < language.len() ==> #[trigger] base[i] != '_',
        base[language.len() as int] == '_',
{
}

/// A text without blanks at its ends and with an underscore in it is a name of
/// its own.
proof fn lemma_own_name(text: Seq<char>, at: int)
    requires
        0 < at < text.len() - 1,
        text[at] == '_',
        !crate::text::is_space(text[0]),
        !crate::text::is_space(text.last()),
    ensures
        trim(text) == text,
        !same_ignoring_case(text, "C"@),
        !same_ignoring_case(text, "POSIX"@),
{
    reveal_strlit("C");
    reveal_strlit("POSIX");
    assert(crate::text::trim_start(text) == text);
    assert(crate::text::trim_end(text) == text);
}

/// A line of the main group that says something without an equals sign.
pub open spec fn says_nothing(line: Seq<char>) -> bool {
    let text = trim(line);
    &&& text.len() > 0
    &&& text[0] != '#'
    &&& !is_group_line(text)
    &&& forall|i: int| 0 <= i < text.len() ==> #[trigger] text[i] != '='
}

proof fn lemma_lines_in_order(lines: Seq<Seq<char>>, k: int, h: int)
    requires
        read_lines(lines) is Ok,
        0 <= k < lines.len(),
    ensures
        in_main_at(lines, k) ==> !says_nothing(lines[k]),
        0 <= h < k && begins_main(lines[h]) ==> !begins_main(lines[k]),
        begins_main(lines[k]) ==> read_lines(lines)->Ok_0.saw_main,
    decreases lines.len(),
{
    let front = lines.drop_last();
    if k < front.len() {
        lemma_lines_in_order(front, k, h);
        lemma_main_of_front(lines, k);
        assert(front[k] == lines[k]);
        if h >= 0 && h < k {
            assert(front[h] == lines[h]);
        }
    } else {
        let line = lines[k];
        assert(line == lines.last());
        lemma_main_of_front(lines, k);
        lemma_collected(front, Seq::empty(), Seq::empty());
        lemma_main_is_group(line);
        if in_main_at(lines, k) && says_nothing(line) {
            lemma_found(trim(line), '=');
        }
        if 0 <= h < k && begins_main(lines[h]) {
            assert(front[h] == lines[h]);
            lemma_lines_in_order(front, h, -1);
        }
    }
}

proof fn lemma_main_was_seen(lines: Seq<Seq<char>>)
    ensures
        read_lines(lines) matches Ok(state) ==> (state.saw_main ==> exists|h: int|
            0 <= h < lines.len() && begins_main(#[trigger] lines[h])),
    decreases lines.len(),
{
    if lines.len() > 0 && read_lines(lines) is Ok {
        let front = lines.drop_last();
        lemma_main_was_seen(front);
        lemma_main_is_group(lines.last());
        assert(lines[lines.len() - 1] == lines.last());
        if read_lines(front)->Ok_0.saw_main {
            let h = choose|h: int| 0 <= h < front.len() && begins_main(#[trigger] front[h]);
            assert(begins_main(lines[h]));
        }
    }
}

/// A file holds an entry only where its main group is there, once, and every
/// line of it that says something gives a key a value.
pub proof fn entries_need_one_main_group(input: Seq<char>, k: int, h: int)
    requires
        desktop_entry(input) is Ok,
        0 <= h < k < split(input, '\n').len(),
    ensures
        ({
            let lines = split(input, '\n');
            &&& exists|m: int| 0 <= m < lines.len() && begins_main(#[trigger] lines[m])
            &&& !(begins_main(lines[h]) && begins_main(lines[k]))
            &&& in_main_at(lines, k) ==> !says_nothing(lines[k])
        }),
{
    let lines = split(input, '\n');
    lemma_lines_in_order(lines, k, h);
    lemma_main_was_seen(lines);
}

/// A flag that is stated says `true` or `false`, or the file holds no entry.
pub proof fn flags_are_true_or_false(input: Seq<char>, value: Seq<char>)
    requires
        desktop_entry(input) is Ok,
        ({
            let lines = split(input, '\n');
            states(lines, "Hidden"@, value) || states(lines, "NoDisplay"@, value) || states(
                lines,
                "Terminal"@,
                value,
            )
        }),
    ensures
        value == "true"@ || value == "false"@,
{
    let lines = split(input, '\n');
    lemma_stated(lines, "Hidden"@, value);
    lemma_stated(lines, "NoDisplay"@, value);
    lemma_stated(lines, "Terminal"@, value);
}

} // verus!
