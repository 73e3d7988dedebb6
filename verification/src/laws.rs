//! Texts and paths: what is put together is taken apart again.
use vstd::prelude::*;

use crate::path::{
    components, components_upto, file_at, file_name, joined, parent, piece_component, prefix_end,
    with_component, ComponentView, FileReadView,
};
use crate::text::{is_space, trim, trim_end, trim_start, words};

verus! {

/// A text that consists of white space.
pub open spec fn blank(s: Seq<char>) -> bool {
    forall|i: int| 0 <= i < s.len() ==> is_space(#[trigger] s[i])
}

/// Trimming takes away the white space around a text and nothing of the text.
pub proof fn trimming_takes_the_white_space(left: Seq<char>, s: Seq<char>, right: Seq<char>)
    requires
        blank(left),
        blank(right),
        s.len() > 0 ==> !is_space(s[0]) && !is_space(s.last()),
    ensures
        trim(left + s + right) == s,
{
    if s.len() > 0 {
        assert(left + s + right =~= left + (s + right));
        lemma_trim_start(left, s + right);
        lemma_trim_end(s, right);
    } else {
        let all = left + s + right;
        assert forall|i: int| 0 <= i < all.len() implies is_space(#[trigger] all[i]) by {
            if i < left.len() {
                assert(all[i] == left[i]);
            } else {
                assert(all[i] == right[i - left.len()]);
            }
        }
        assert(all + s =~= all);
        lemma_trim_start(all, s);
        assert(s =~= Seq::empty());
    }
}

proof fn lemma_trim_start(left: Seq<char>, s: Seq<char>)
    requires
        blank(left),
        s.len() > 0 ==> !is_space(s[0]),
    ensures
        trim_start(left + s) == s,
    decreases left.len(),
{
    if left.len() > 0 {
        let rest = left.drop_first();
        assert forall|i: int| 0 <= i < rest.len() implies is_space(#[trigger] rest[i]) by {
            assert(rest[i] == left[i + 1]);
        }
        assert((left + s)[0] == left[0]);
        assert((left + s).drop_first() =~= rest + s);
        lemma_trim_start(rest, s);
    } else {
        assert(left + s =~= s);
    }
}

proof fn lemma_trim_end(s: Seq<char>, right: Seq<char>)
    requires
        blank(right),
        s.len() > 0 ==> !is_space(s.last()),
    ensures
        trim_end(s + right) == s,
    decreases right.len(),
{
    if right.len() > 0 {
        let rest = right.drop_last();
        assert forall|i: int| 0 <= i < rest.len() implies is_space(#[trigger] rest[i]) by {
            assert(rest[i] == right[i]);
        }
        assert((s + right).last() == right[right.len() - 1]);
        assert((s + right).drop_last() =~= s + rest);
        lemma_trim_end(s, rest);
    } else {
        assert(s + right =~= s);
    }
}

/// A text without white space is one word.
pub proof fn solid_texts_are_words(s: Seq<char>)
    requires
        s.len() > 0,
        forall|i: int| 0 <= i < s.len() ==> !is_space(#[trigger] s[i]),
    ensures
        words(s) == seq![s],
    decreases s.len(),
{
    let front = s.drop_last();
    assert(s.last() == s[s.len() - 1]);
    if front.len() > 0 {
        assert forall|i: int| 0 <= i < front.len() implies !is_space(#[trigger] front[i]) by {
            assert(front[i] == s[i]);
        }
        solid_texts_are_words(front);
        assert(!is_space(s[s.len() - 2]));
        assert(front.push(s.last()) =~= s);
        assert(seq![front].drop_last().push(s) =~= seq![s]);
    } else {
        assert(s =~= seq![s.last()]);
        assert(words(front) =~= Seq::empty());
        assert(words(s) =~= seq![s]);
    }
}

proof fn lemma_words_exist(s: Seq<char>)
    ensures
        s.len() > 0 && !is_space(s.last()) ==> words(s).len() > 0,
    decreases s.len(),
{
    if s.len() > 1 {
        lemma_words_exist(s.drop_last());
    }
}

/// White space parts words: those of two texts with white space between them
/// are those of the one and then those of the other.
pub proof fn white_space_parts_words(a: Seq<char>, space: char, b: Seq<char>)
    requires
        is_space(space),
    ensures
        words(a.push(space) + b) == words(a) + words(b),
    decreases b.len(),
{
    let whole = a.push(space) + b;
    if b.len() == 0 {
        assert(whole =~= a.push(space));
        assert(whole.drop_last() =~= a);
        assert(words(a) + words(b) =~= words(a));
    } else {
        let front = b.drop_last();
        white_space_parts_words(a, space, front);
        assert(whole.drop_last() =~= a.push(space) + front);
        assert(whole.last() == b.last());
        if !is_space(b.last()) {
            if b.len() > 1 {
                assert(whole[whole.len() - 2] == b[b.len() - 2]);
                if !is_space(b[b.len() - 2]) {
                    lemma_words_exist(front);
                    let all = words(a) + words(front);
                    assert(all.last() == words(front).last());
                    assert(all.drop_last() =~= words(a) + words(front).drop_last());
                    assert(words(whole) =~= words(a) + words(b));
                } else {
                    assert(words(whole) =~= words(a) + words(b));
                }
            } else {
                assert(whole[whole.len() - 2] == space);
                assert(front =~= Seq::empty());
                assert(words(whole) =~= words(a) + words(b));
            }
        }
    }
}

proof fn lemma_components_upto(a: Seq<u8>, b: Seq<u8>, end: int)
    requires
        0 <= end <= a.len(),
        end <= b.len(),
        a.take(end) == b.take(end),
    ensures
        components_upto(a, end) == components_upto(b, end),
        0 <= components_upto(a, end).1 <= end,
    decreases end,
{
    if end > 0 {
        assert(a.take(end - 1) =~= a.take(end).take(end - 1));
        assert(b.take(end - 1) =~= b.take(end).take(end - 1));
        lemma_components_upto(a, b, end - 1);
        assert(a[end - 1] == a.take(end)[end - 1]);
        assert(b[end - 1] == b.take(end)[end - 1]);
        let start = components_upto(a, end - 1).1;
        assert(a.subrange(start, end - 1) =~= a.take(end).subrange(start, end - 1));
        assert(b.subrange(start, end - 1) =~= b.take(end).subrange(start, end - 1));
    }
}

proof fn lemma_no_separator(path: Seq<u8>, from: int, end: int)
    requires
        0 <= from <= end <= path.len(),
        forall|i: int| from <= i < end ==> #[trigger] path[i] != 0x2F,
    ensures
        components_upto(path, end) == components_upto(path, from),
    decreases end - from,
{
    if from < end {
        lemma_no_separator(path, from, end - 1);
        assert(path[end - 1] != 0x2F);
    }
}

/// Bytes that are one name: not empty, without a separator, and neither the
/// current directory nor its parent.
pub open spec fn plain_name(name: Seq<u8>) -> bool {
    &&& name.len() > 0
    &&& forall|i: int| 0 <= i < name.len() ==> #[trigger] name[i] != 0x2F
    &&& name != seq![0x2Eu8]
    &&& name != seq![0x2Eu8, 0x2Eu8]
}

/// A name put behind a path is its last component, and those before are those
/// of the path.
pub proof fn names_go_behind_their_directory(base: Seq<u8>, name: Seq<u8>)
    requires
        base.len() > 0,
        plain_name(name),
    ensures
        components(joined(base, name)) == components(base).push(ComponentView::Normal(name)),
        file_name(joined(base, name)) == Some(name),
        parent(joined(base, name)) is Some,
        components(parent(joined(base, name))->0) == components(base),
{
    let path = joined(base, name);
    let n = base.len() as int;
    let (front, start) = components_upto(base, n);
    assert(path.take(n) =~= base.take(n));
    lemma_components_upto(path, base, n);
    let own = piece_component(base.subrange(start, n), start == 0);
    assert(name[0] != 0x2F);
    if base.last() == 0x2F {
        assert(path == base + name);
        assert(base[n - 1] == 0x2F);
        assert(start == n);
        assert(base.subrange(start, n) =~= Seq::empty());
        assert forall|i: int| n <= i < path.len() implies #[trigger] path[i] != 0x2F by {
            assert(path[i] == name[i - n]);
        }
        lemma_no_separator(path, n, path.len() as int);
        assert(path.subrange(n, path.len() as int) =~= name);
    } else {
        assert(path == base.push(0x2F) + name);
        assert(path[n] == 0x2F);
        assert(path.subrange(start, n) =~= base.subrange(start, n));
        assert(components_upto(path, n + 1) == (with_component(front, own), n + 1));
        assert forall|i: int| n + 1 <= i < path.len() implies #[trigger] path[i] != 0x2F by {
            assert(path[i] == name[i - n - 1]);
        }
        lemma_no_separator(path, n + 1, path.len() as int);
        assert(path.subrange(n + 1, path.len() as int) =~= name);
    }
    assert(path[0] == base[0]);
    assert(components(path) =~= components(base).push(ComponentView::Normal(name)));
    let parts = components(path);
    assert(parts.drop_last() =~= components(base));
    assert(path.take(n) =~= base);
    lemma_prefix_end(path, components(base), 0, n);
}

proof fn lemma_prefix_end(path: Seq<u8>, parts: Seq<ComponentView>, from: int, n: int)
    requires
        0 <= from <= n <= path.len(),
        components(path.take(n)) == parts,
    ensures
        from <= prefix_end(path, parts, from) <= n,
        components(path.take(prefix_end(path, parts, from))) == parts,
    decreases n - from,
{
    if from < n && components(path.take(from)) != parts {
        lemma_prefix_end(path, parts, from + 1, n);
    }
}

/// What was seen last of a path counts, and what was seen of another makes no
/// difference.
pub proof fn what_was_seen_last_counts(
    files: Seq<(Seq<u8>, FileReadView)>,
    path: Seq<u8>,
    seen: FileReadView,
    other: Seq<u8>,
)
    ensures
        file_at(files.push((path, seen)), path) == seen,
        other != path ==> file_at(files.push((path, seen)), other) == file_at(files, other),
        file_at(Seq::empty(), path) is Missing,
{
    assert(files.push((path, seen)).drop_last() =~= files);
}

} // verus!
