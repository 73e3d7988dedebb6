//! File paths as sequences of bytes, and snapshots of what stands at them.
use vstd::prelude::*;
use vstd::utf8::{decode_utf8, encode_utf8, valid_utf8};

use crate::text::views;

verus! {

/// A Unix path: any bytes, with `/` between the components.
#[derive(Debug, PartialEq, Eq)]
pub struct UnixPath {
    pub bytes: Vec<u8>,
}

impl View for UnixPath {
    type V = Seq<u8>;

    open spec fn view(&self) -> Seq<u8> {
        self.bytes@
    }
}

impl Clone for UnixPath {
    fn clone(&self) -> (out: Self)
        ensures
            out@ == self@,
    {
        UnixPath { bytes: copy_bytes(&self.bytes) }
    }
}

/// A path that may be absent, by its contents.
pub open spec fn optional_path(path: Option<UnixPath>) -> Option<Seq<u8>> {
    match path {
        Some(path) => Some(path@),
        None => None,
    }
}

/// What stands for the bytes of a path in a message.
pub uninterp spec fn lossy_text(bytes: Seq<u8>) -> Seq<char>;

/// `String::from_utf8_lossy`: text of the given bytes in which what is not
/// UTF-8 is replaced. Claimed: the text depends on the bytes alone, and bytes
/// that are UTF-8 are decoded as they stand.
#[verifier::external_body]
pub(crate) fn lossy(bytes: &Vec<u8>) -> (out: String)
    ensures
        out@ == lossy_text(bytes@),
        valid_utf8(bytes@) ==> out@ == decode_utf8(bytes@),
{
    String::from_utf8_lossy(bytes.as_slice()).into_owned()
}

/// What the standard library says of bytes that are not UTF-8.
pub uninterp spec fn utf8_error_text(bytes: Seq<u8>) -> Seq<char>;

/// `std::str::from_utf8`: the text of bytes that are UTF-8. Claimed: it
/// succeeds on valid UTF-8 and on nothing else, gives the decoded text, and
/// fails with a message that depends on the bytes alone.
#[verifier::external_body]
pub(crate) fn utf8(bytes: &Vec<u8>) -> (out: Result<String, String>)
    ensures
        out is Ok <==> valid_utf8(bytes@),
        out matches Ok(text) ==> text@ == decode_utf8(bytes@),
        out matches Err(message) ==> message@ == utf8_error_text(bytes@),
{
    std::str::from_utf8(bytes.as_slice()).map(|text| text.to_owned()).map_err(
        |error| error.to_string(),
    )
}

/// The first path with the second behind it; an absolute second path stands
/// alone.
pub open spec fn joined(base: Seq<u8>, part: Seq<u8>) -> Seq<u8> {
    if part.len() > 0 && part[0] == 0x2F {
        part
    } else if base.len() == 0 || base.last() == 0x2F {
        base + part
    } else {
        base.push(0x2F) + part
    }
}

/// A path with a further component, given as text.
pub open spec fn child(base: Seq<u8>, name: Seq<char>) -> Seq<u8> {
    joined(base, encode_utf8(name))
}

/// The text of a path that is UTF-8.
pub open spec fn path_text(path: Seq<u8>) -> Option<Seq<char>> {
    if valid_utf8(path) {
        Some(decode_utf8(path))
    } else {
        None
    }
}

/// Bytes once more.
pub fn copy_bytes(v: &Vec<u8>) -> (out: Vec<u8>)
    ensures
        out@ == v@,
{
    let out = v.clone();
    assert(out@ =~= v@);
    out
}

/// Put bytes behind others.
pub fn append_bytes(out: &mut Vec<u8>, more: &[u8])
    ensures
        final(out)@ == old(out)@ + more@,
{
    let mut i: usize = 0;
    assert(old(out)@ =~= old(out)@ + more@.take(0));
    while i < more.len()
        invariant
            i <= more@.len(),
            out@ == old(out)@ + more@.take(i as int),
        decreases more.len() - i,
    {
        out.push(more[i]);
        i += 1;
        assert(out@ =~= old(out)@ + more@.take(i as int));
    }
    assert(more@.take(more@.len() as int) =~= more@);
}

/// Whether two byte strings are equal.
pub fn same_bytes(a: &[u8], b: &[u8]) -> (same: bool)
    ensures
        same == (a@ == b@),
{
    if a.len() != b.len() {
        return false;
    }
    let mut i: usize = 0;
    while i < a.len()
        invariant
            i <= a@.len(),
            a@.len() == b@.len(),
            forall|k: int| 0 <= k < i ==> a@[k] == b@[k],
        decreases a.len() - i,
    {
        if a[i] != b[i] {
            assert(a@[i as int] != b@[i as int]);
            return false;
        }
        i += 1;
    }
    assert(a@ =~= b@);
    true
}

/// Lexicographic order by byte.
pub open spec fn bytes_before(a: Seq<u8>, b: Seq<u8>) -> bool
    decreases a.len(),
{
    if b.len() == 0 {
        false
    } else if a.len() == 0 {
        true
    } else if a[0] != b[0] {
        a[0] < b[0]
    } else {
        bytes_before(a.drop_first(), b.drop_first())
    }
}

/// Whether the first bytes come before the second.
pub fn are_bytes_before(a: &[u8], b: &[u8]) -> (before: bool)
    ensures
        before == bytes_before(a@, b@),
{
    let mut i: usize = 0;
    assert(a@.skip(0) =~= a@);
    assert(b@.skip(0) =~= b@);
    while i < a.len() && i < b.len() && a[i] == b[i]
        invariant
            i <= a@.len(),
            i <= b@.len(),
            bytes_before(a@, b@) == bytes_before(a@.skip(i as int), b@.skip(i as int)),
        decreases a.len() - i,
    {
        assert(a@.skip(i as int).drop_first() =~= a@.skip(i + 1));
        assert(b@.skip(i as int).drop_first() =~= b@.skip(i + 1));
        i += 1;
    }
    if i >= b.len() {
        false
    } else if i >= a.len() {
        true
    } else {
        a[i] < b[i]
    }
}

impl UnixPath {
    /// The path that a text denotes.
    pub fn from_text(text: &str) -> (out: UnixPath)
        ensures
            out@ == encode_utf8(text@),
    {
        let mut bytes: Vec<u8> = Vec::new();
        append_bytes(&mut bytes, text.as_bytes());
        assert(bytes@ =~= encode_utf8(text@));
        UnixPath { bytes }
    }

    /// The text of the path, where it is UTF-8.
    pub fn to_text(&self) -> (out: Option<String>)
        ensures
            out is Some <==> path_text(self@) is Some,
            out is Some ==> path_text(self@) == Some(out->0@),
    {
        utf8(&self.bytes).ok()
    }

    /// The path as it is shown in a message.
    pub fn display(&self) -> (out: String)
        ensures
            out@ == lossy_text(self@),
            valid_utf8(self@) ==> out@ == decode_utf8(self@),
    {
        lossy(&self.bytes)
    }

    /// The path with another one behind it.
    pub fn join_path(&self, part: &UnixPath) -> (out: UnixPath)
        ensures
            out@ == joined(self@, part@),
    {
        if part.bytes.len() > 0 && part.bytes[0] == 0x2F {
            return part.clone();
        }
        let mut bytes = copy_bytes(&self.bytes);
        if bytes.len() > 0 && bytes[bytes.len() - 1] != 0x2F {
            bytes.push(0x2F);
        }
        append_bytes(&mut bytes, part.bytes.as_slice());
        UnixPath { bytes }
    }

    /// The path with a further component.
    pub fn join(&self, name: &str) -> (out: UnixPath)
        ensures
            out@ == child(self@, name@),
    {
        self.join_path(&UnixPath::from_text(name))
    }

    /// Whether two paths are equal byte by byte.
    pub fn same(&self, other: &UnixPath) -> (same: bool)
        ensures
            same == (self@ == other@),
    {
        same_bytes(self.bytes.as_slice(), other.bytes.as_slice())
    }
}

pub(crate) fn copy_paths(paths: &Vec<UnixPath>) -> (out: Vec<UnixPath>)
    ensures
        views(out@) == views(paths@),
{
    broadcast use crate::text::group_views;

    let mut out: Vec<UnixPath> = Vec::new();
    let mut i: usize = 0;
    assert(views(out@) =~= views(paths@).take(0));
    while i < paths.len()
        invariant
            i <= paths@.len(),
            views(out@) == views(paths@).take(i as int),
        decreases paths.len() - i,
    {
        assert(views(paths@).take(i + 1) =~= views(paths@).take(i as int).push(paths@[i as int]@));
        out.push(paths[i].clone());
        i += 1;
    }
    assert(views(paths@).take(paths@.len() as int) =~= views(paths@));
    out
}

/// One component of a path.
#[derive(Debug, PartialEq, Eq)]
pub enum Component {
    Root,
    Current,
    Parent,
    Normal(Vec<u8>),
}

/// A path component by its contents.
pub enum ComponentView {
    Root,
    Current,
    Parent,
    Normal(Seq<u8>),
}

impl View for Component {
    type V = ComponentView;

    open spec fn view(&self) -> ComponentView {
        match self {
            Component::Root => ComponentView::Root,
            Component::Current => ComponentView::Current,
            Component::Parent => ComponentView::Parent,
            Component::Normal(name) => ComponentView::Normal(name@),
        }
    }
}

/// What the piece of a path between two separators contributes: nothing where
/// it is empty, or where it is `.` and not the start of a relative path.
pub open spec fn piece_component(piece: Seq<u8>, at_start: bool) -> Option<ComponentView> {
    if piece.len() == 0 {
        None
    } else if piece == seq![0x2Eu8] {
        if at_start {
            Some(ComponentView::Current)
        } else {
            None
        }
    } else if piece == seq![0x2Eu8, 0x2Eu8] {
        Some(ComponentView::Parent)
    } else {
        Some(ComponentView::Normal(piece))
    }
}

/// The components of the pieces that end before `end`, where `start` is the
/// beginning of the piece that is being read.
pub open spec fn components_upto(path: Seq<u8>, end: int) -> (Seq<ComponentView>, int)
    decreases end,
{
    if end <= 0 {
        (Seq::empty(), 0)
    } else {
        let (front, start) = components_upto(path, end - 1);
        if path[end - 1] == 0x2F {
            (
                with_component(front, piece_component(path.subrange(start, end - 1), start == 0)),
                end,
            )
        } else {
            (front, start)
        }
    }
}

pub open spec fn with_component(
    front: Seq<ComponentView>,
    component: Option<ComponentView>,
) -> Seq<ComponentView> {
    match component {
        Some(c) => front.push(c),
        None => front,
    }
}

/// The components of a path: repeated and trailing separators do not count,
/// nor does `.` except at the start of a relative path.
pub open spec fn components(path: Seq<u8>) -> Seq<ComponentView> {
    let (front, start) = components_upto(path, path.len() as int);
    let names = with_component(
        front,
        piece_component(path.subrange(start, path.len() as int), start == 0),
    );
    if path.len() > 0 && path[0] == 0x2F {
        seq![ComponentView::Root] + names
    } else {
        names
    }
}

/// Two paths with the same components.
pub open spec fn same_path(a: Seq<u8>, b: Seq<u8>) -> bool {
    components(a) == components(b)
}

pub open spec fn component_rank(c: ComponentView) -> int {
    match c {
        ComponentView::Root => 0,
        ComponentView::Current => 1,
        ComponentView::Parent => 2,
        ComponentView::Normal(_) => 3,
    }
}

pub open spec fn component_before(a: ComponentView, b: ComponentView) -> bool {
    match (a, b) {
        (ComponentView::Normal(x), ComponentView::Normal(y)) => bytes_before(x, y),
        _ => component_rank(a) < component_rank(b),
    }
}

/// The order of component sequences.
pub open spec fn components_before(a: Seq<ComponentView>, b: Seq<ComponentView>) -> bool
    decreases a.len(),
{
    if b.len() == 0 {
        false
    } else if a.len() == 0 {
        true
    } else if a[0] != b[0] {
        component_before(a[0], b[0])
    } else {
        components_before(a.drop_first(), b.drop_first())
    }
}

/// The order of paths: component by component.
pub open spec fn path_before(a: Seq<u8>, b: Seq<u8>) -> bool {
    components_before(components(a), components(b))
}

fn slice_bytes(v: &Vec<u8>, from: usize, to: usize) -> (out: Vec<u8>)
    requires
        from <= to <= v@.len(),
    ensures
        out@ == v@.subrange(from as int, to as int),
{
    let mut out: Vec<u8> = Vec::new();
    let mut i: usize = from;
    while i < to
        invariant
            from <= i <= to <= v@.len(),
            out@ == v@.subrange(from as int, i as int),
        decreases to - i,
    {
        out.push(v[i]);
        i += 1;
    }
    out
}

fn read_piece(piece: Vec<u8>, at_start: bool) -> (out: Option<Component>)
    ensures
        match out {
            Some(c) => piece_component(piece@, at_start) == Some(c@),
            None => piece_component(piece@, at_start) is None,
        },
{
    if piece.len() == 0 {
        return None;
    }
    if piece.len() == 1 && piece[0] == 0x2E {
        assert(piece@ =~= seq![0x2Eu8]);
        return if at_start {
            Some(Component::Current)
        } else {
            None
        };
    }
    if piece.len() == 2 && piece[0] == 0x2E && piece[1] == 0x2E {
        assert(piece@ =~= seq![0x2Eu8, 0x2Eu8]);
        return Some(Component::Parent);
    }
    Some(Component::Normal(piece))
}

fn add_piece(out: &mut Vec<Component>, piece: Vec<u8>, at_start: bool)
    ensures
        views(final(out)@) == with_component(
            views(old(out)@),
            piece_component(piece@, at_start),
        ),
{
    broadcast use crate::text::group_views;

    match read_piece(piece, at_start) {
        Some(c) => {
            out.push(c);
        },
        None => {},
    }
}

/// Whether two components are equal.
pub fn same_component(a: &Component, b: &Component) -> (same: bool)
    ensures
        same == (a@ == b@),
{
    match (a, b) {
        (Component::Root, Component::Root) => true,
        (Component::Current, Component::Current) => true,
        (Component::Parent, Component::Parent) => true,
        (Component::Normal(x), Component::Normal(y)) => same_bytes(x.as_slice(), y.as_slice()),
        _ => false,
    }
}

fn rank_of(c: &Component) -> (rank: u8)
    ensures
        rank == component_rank(c@),
{
    match c {
        Component::Root => 0,
        Component::Current => 1,
        Component::Parent => 2,
        Component::Normal(_) => 3,
    }
}

fn is_component_before(a: &Component, b: &Component) -> (before: bool)
    ensures
        before == component_before(a@, b@),
{
    match (a, b) {
        (Component::Normal(x), Component::Normal(y)) => are_bytes_before(
            x.as_slice(),
            y.as_slice(),
        ),
        _ => rank_of(a) < rank_of(b),
    }
}

impl UnixPath {
    /// The components of the path.
    pub fn components(&self) -> (out: Vec<Component>)
        ensures
            views(out@) == components(self@),
    {
        broadcast use crate::text::group_views;

        let mut out: Vec<Component> = Vec::new();
        let ghost path = self@;
        let absolute = self.bytes.len() > 0 && self.bytes[0] == 0x2F;
        let ghost prefix = if absolute {
            seq![ComponentView::Root]
        } else {
            Seq::empty()
        };
        if absolute {
            out.push(Component::Root);
        }
        assert(views(out@) =~= prefix);
        let mut names: Vec<Component> = Vec::new();
        let mut start: usize = 0;
        let mut end: usize = 0;
        while end < self.bytes.len()
            invariant
                start <= end <= self.bytes@.len(),
                path == self.bytes@,
                (views(names@), start as int) == components_upto(path, end as int),
            decreases self.bytes.len() - end,
        {
            if self.bytes[end] == 0x2F {
                add_piece(&mut names, slice_bytes(&self.bytes, start, end), start == 0);
                start = end + 1;
            }
            end += 1;
        }
        add_piece(&mut names, slice_bytes(&self.bytes, start, end), start == 0);
        out.append(&mut names);
        out
    }

    /// Whether two paths have the same components.
    pub fn is_same_path(&self, other: &UnixPath) -> (same: bool)
        ensures
            same == same_path(self@, other@),
    {
        let a = self.components();
        let b = other.components();
        if a.len() != b.len() {
            assert(views(a@).len() != views(b@).len());
            return false;
        }
        let mut i: usize = 0;
        while i < a.len()
            invariant
                i <= a@.len(),
                a@.len() == b@.len(),
                views(a@) == components(self@),
                views(b@) == components(other@),
                forall|k: int| 0 <= k < i ==> (#[trigger] a@[k])@ == b@[k]@,
            decreases a.len() - i,
        {
            if !same_component(&a[i], &b[i]) {
                assert(views(a@)[i as int] != views(b@)[i as int]);
                return false;
            }
            i += 1;
        }
        assert(views(a@) =~= views(b@));
        true
    }

    /// Whether this path comes before another, component by component.
    pub fn is_before(&self, other: &UnixPath) -> (before: bool)
        ensures
            before == path_before(self@, other@),
    {
        let a = self.components();
        let b = other.components();
        let ghost x = views(a@);
        let ghost y = views(b@);
        let mut i: usize = 0;
        assert(x.skip(0) =~= x);
        assert(y.skip(0) =~= y);
        while i < a.len() && i < b.len() && same_component(&a[i], &b[i])
            invariant
                i <= a@.len(),
                i <= b@.len(),
                x == views(a@),
                y == views(b@),
                components_before(x, y) == components_before(x.skip(i as int), y.skip(i as int)),
            decreases a.len() - i,
        {
            assert(x[i as int] == a@[i as int]@ && y[i as int] == b@[i as int]@);
            assert(x.skip(i as int).drop_first() =~= x.skip(i + 1));
            assert(y.skip(i as int).drop_first() =~= y.skip(i + 1));
            i += 1;
        }
        if i >= b.len() {
            false
        } else if i >= a.len() {
            true
        } else {
            is_component_before(&a[i], &b[i])
        }
    }

    /// Whether the path starts at the root.
    pub fn is_absolute(&self) -> (out: bool)
        ensures
            out == absolute(self@),
    {
        self.bytes.len() > 0 && self.bytes[0] == 0x2F
    }
}

pub open spec fn absolute(path: Seq<u8>) -> bool {
    path.len() > 0 && path[0] == 0x2F
}

/// Where the shortest beginning of a path that has the given components ends,
/// looked for from a position on.
pub open spec fn prefix_end(path: Seq<u8>, parts: Seq<ComponentView>, from: int) -> int
    decreases path.len() - from,
{
    if from >= path.len() || components(path.take(from)) == parts {
        from
    } else {
        prefix_end(path, parts, from + 1)
    }
}

/// The directory that a path stands in: the beginning of the path with all
/// components but the last. The root and the empty path stand in none.
pub open spec fn parent(path: Seq<u8>) -> Option<Seq<u8>> {
    let parts = components(path);
    if parts.len() == 0 || parts.last() is Root {
        None
    } else {
        Some(path.take(prefix_end(path, parts.drop_last(), 0)))
    }
}

/// The name in which a path ends.
pub open spec fn file_name(path: Seq<u8>) -> Option<Seq<u8>> {
    let parts = components(path);
    if parts.len() > 0 && parts.last() is Normal {
        Some(parts.last()->Normal_0)
    } else {
        None
    }
}

fn have_components(parts: &Vec<Component>, others: &Vec<Component>, count: usize) -> (same: bool)
    requires
        count <= others@.len(),
    ensures
        same == (views(parts@) == views(others@).take(count as int)),
{
    if parts.len() != count {
        assert(views(parts@).len() != views(others@).take(count as int).len());
        return false;
    }
    let mut i: usize = 0;
    while i < count
        invariant
            i <= count == parts@.len() <= others@.len(),
            forall|k: int| 0 <= k < i ==> (#[trigger] parts@[k])@ == others@[k]@,
        decreases count - i,
    {
        if !same_component(&parts[i], &others[i]) {
            assert(views(parts@)[i as int] != views(others@).take(count as int)[i as int]);
            return false;
        }
        i += 1;
    }
    assert(views(parts@) =~= views(others@).take(count as int));
    true
}

impl UnixPath {
    /// The directory that the path stands in.
    pub fn parent(&self) -> (out: Option<UnixPath>)
        ensures
            optional_path(out) == parent(self@),
    {
        let parts = self.components();
        assert(views(parts@).len() == parts@.len());
        if parts.len() == 0 {
            return None;
        }
        assert(views(parts@).last() == parts@.last()@);
        match &parts[parts.len() - 1] {
            Component::Root => {
                return None;
            },
            _ => {},
        }
        let ghost target = components(self@).drop_last();
        assert(target =~= views(parts@).take(parts@.len() - 1));
        let mut end: usize = 0;
        while end < self.bytes.len()
            invariant
                end <= self.bytes@.len(),
                0 < parts@.len(),
                target == views(parts@).take(parts@.len() - 1),
                prefix_end(self@, target, 0) == prefix_end(self@, target, end as int),
                parent(self@) == Some(self@.take(prefix_end(self@, target, 0))),
            decreases self.bytes.len() - end,
        {
            let beginning = UnixPath { bytes: slice_bytes(&self.bytes, 0, end) };
            assert(beginning@ =~= self@.take(end as int));
            if have_components(&beginning.components(), &parts, parts.len() - 1) {
                return Some(beginning);
            }
            end += 1;
        }
        assert(self@.take(end as int) =~= self@);
        Some(self.clone())
    }

    /// The name in which the path ends.
    pub fn file_name(&self) -> (out: Option<UnixPath>)
        ensures
            optional_path(out) == file_name(self@),
    {
        let mut parts = self.components();
        assert(views(parts@).len() == parts@.len());
        assert(parts@.len() > 0 ==> views(parts@).last() == parts@.last()@);
        match parts.pop() {
            Some(Component::Normal(bytes)) => Some(UnixPath { bytes }),
            _ => None,
        }
    }
}

/// The outcome of reading a file as text.
#[derive(Debug, PartialEq, Eq)]
pub enum FileRead {
    Contents(String),
    /// There is no such file.
    Missing,
    /// Reading failed otherwise; the system's message.
    Failed(String),
}

/// A read outcome by its contents.
pub enum FileReadView {
    Contents(Seq<char>),
    Missing,
    Failed(Seq<char>),
}

impl View for FileRead {
    type V = FileReadView;

    open spec fn view(&self) -> FileReadView {
        match self {
            FileRead::Contents(text) => FileReadView::Contents(text@),
            FileRead::Missing => FileReadView::Missing,
            FileRead::Failed(message) => FileReadView::Failed(message@),
        }
    }
}

impl Clone for FileRead {
    fn clone(&self) -> (out: Self)
        ensures
            out@ == self@,
    {
        match self {
            FileRead::Contents(text) => FileRead::Contents(text.clone()),
            FileRead::Missing => FileRead::Missing,
            FileRead::Failed(message) => FileRead::Failed(message.clone()),
        }
    }
}

/// One item that listing a directory gives.
#[derive(Debug, PartialEq, Eq)]
pub enum ListingEntry {
    /// The name of an entry.
    Name(UnixPath),
    /// The entry could not be read; the system's message.
    Failed(String),
}

/// A listing item by its contents.
pub enum ListingEntryView {
    Name(Seq<u8>),
    Failed(Seq<char>),
}

impl View for ListingEntry {
    type V = ListingEntryView;

    open spec fn view(&self) -> ListingEntryView {
        match self {
            ListingEntry::Name(name) => ListingEntryView::Name(name@),
            ListingEntry::Failed(message) => ListingEntryView::Failed(message@),
        }
    }
}

/// The outcome of listing a directory.
#[derive(Debug, PartialEq, Eq)]
pub enum Listing {
    Entries(Vec<ListingEntry>),
    /// There is no such directory.
    Missing,
    /// Listing failed otherwise; the system's message.
    Failed(String),
}

/// A listing by its contents.
pub enum ListingView {
    Entries(Seq<ListingEntryView>),
    Missing,
    Failed(Seq<char>),
}

impl View for Listing {
    type V = ListingView;

    open spec fn view(&self) -> ListingView {
        match self {
            Listing::Entries(entries) => ListingView::Entries(views(entries@)),
            Listing::Missing => ListingView::Missing,
            Listing::Failed(message) => ListingView::Failed(message@),
        }
    }
}

/// What was read at one path.
#[derive(Debug, PartialEq, Eq)]
pub struct TreeFile {
    pub path: UnixPath,
    pub read: FileRead,
}

impl View for TreeFile {
    type V = (Seq<u8>, FileReadView);

    open spec fn view(&self) -> (Seq<u8>, FileReadView) {
        (self.path@, self.read@)
    }
}

/// What was listed at one path.
#[derive(Debug, PartialEq, Eq)]
pub struct TreeDirectory {
    pub path: UnixPath,
    pub listing: Listing,
}

impl View for TreeDirectory {
    type V = (Seq<u8>, ListingView);

    open spec fn view(&self) -> (Seq<u8>, ListingView) {
        (self.path@, self.listing@)
    }
}

/// The files and directories that were read; whatever is not in the snapshot
/// does not exist.
#[derive(Debug, PartialEq, Eq)]
pub struct FileTree {
    pub files: Vec<TreeFile>,
    pub directories: Vec<TreeDirectory>,
}

/// A snapshot by its contents.
pub struct FileTreeView {
    pub files: Seq<(Seq<u8>, FileReadView)>,
    pub directories: Seq<(Seq<u8>, ListingView)>,
}

impl View for FileTree {
    type V = FileTreeView;

    open spec fn view(&self) -> FileTreeView {
        FileTreeView { files: views(self.files@), directories: views(self.directories@) }
    }
}

pub open spec fn file_at(files: Seq<(Seq<u8>, FileReadView)>, path: Seq<u8>) -> FileReadView
    decreases files.len(),
{
    if files.len() == 0 {
        FileReadView::Missing
    } else if files.last().0 == path {
        files.last().1
    } else {
        file_at(files.drop_last(), path)
    }
}

pub open spec fn listing_at(
    directories: Seq<(Seq<u8>, ListingView)>,
    path: Seq<u8>,
) -> ListingView
    decreases directories.len(),
{
    if directories.len() == 0 {
        ListingView::Missing
    } else if directories.last().0 == path {
        directories.last().1
    } else {
        listing_at(directories.drop_last(), path)
    }
}

impl FileTreeView {
    /// What reading the file at a path gives.
    pub open spec fn read(self, path: Seq<u8>) -> FileReadView {
        file_at(self.files, path)
    }

    /// What listing the directory at a path gives.
    pub open spec fn list(self, path: Seq<u8>) -> ListingView {
        listing_at(self.directories, path)
    }
}

impl FileTree {
    /// A tree of which nothing is known.
    pub fn new() -> (out: FileTree)
        ensures
            out@.files == Seq::<(Seq<u8>, FileReadView)>::empty(),
            out@.directories == Seq::<(Seq<u8>, ListingView)>::empty(),
    {
        let out = FileTree { files: Vec::new(), directories: Vec::new() };
        assert(out@.files =~= Seq::empty());
        assert(out@.directories =~= Seq::empty());
        out
    }

    /// What reading the file at a path gives.
    pub fn read(&self, path: &UnixPath) -> (out: FileRead)
        ensures
            out@ == self@.read(path@),
    {
        let ghost all = self@.files;
        let mut i: usize = self.files.len();
        assert(all.take(all.len() as int) =~= all);
        while i > 0
            invariant
                i <= self.files@.len(),
                all == self@.files,
                file_at(all, path@) == file_at(all.take(i as int), path@),
            decreases i,
        {
            assert(all.take(i as int).drop_last() =~= all.take(i - 1));
            assert(all.take(i as int).last() == self.files@[i - 1]@);
            if self.files[i - 1].path.same(path) {
                return self.files[i - 1].read.clone();
            }
            i -= 1;
        }
        FileRead::Missing
    }

    /// What listing the directory at a path gives.
    pub fn list(&self, path: &UnixPath) -> (out: &Listing)
        ensures
            out@ == self@.list(path@),
    {
        let ghost all = self@.directories;
        let mut i: usize = self.directories.len();
        assert(all.take(all.len() as int) =~= all);
        while i > 0
            invariant
                i <= self.directories@.len(),
                all == self@.directories,
                listing_at(all, path@) == listing_at(all.take(i as int), path@),
            decreases i,
        {
            assert(all.take(i as int).drop_last() =~= all.take(i - 1));
            assert(all.take(i as int).last() == self.directories@[i - 1]@);
            if self.directories[i - 1].path.same(path) {
                return &self.directories[i - 1].listing;
            }
            i -= 1;
        }
        &Listing::Missing
    }
}

/// Byte order is irreflexive.
pub proof fn lemma_bytes_irreflexive(a: Seq<u8>)
    ensures
        !bytes_before(a, a),
    decreases a.len(),
{
    if a.len() > 0 {
        lemma_bytes_irreflexive(a.drop_first());
    }
}

/// Byte order is transitive.
pub proof fn lemma_bytes_transitive(a: Seq<u8>, b: Seq<u8>, c: Seq<u8>)
    requires
        bytes_before(a, b),
        bytes_before(b, c),
    ensures
        bytes_before(a, c),
    decreases a.len(),
{
    if a.len() > 0 && b.len() > 0 && c.len() > 0 && a[0] == b[0] && b[0] == c[0] {
        lemma_bytes_transitive(a.drop_first(), b.drop_first(), c.drop_first());
    }
}

/// Of two different byte sequences one comes before the other.
pub proof fn lemma_bytes_total(a: Seq<u8>, b: Seq<u8>)
    ensures
        a == b || bytes_before(a, b) || bytes_before(b, a),
    decreases a.len(),
{
    if a.len() > 0 && b.len() > 0 && a[0] == b[0] {
        lemma_bytes_total(a.drop_first(), b.drop_first());
        if a.drop_first() == b.drop_first() {
            assert(a =~= seq![a[0]] + a.drop_first());
            assert(b =~= seq![b[0]] + b.drop_first());
        }
    } else if a.len() == 0 && b.len() == 0 {
        assert(a =~= b);
    }
}

proof fn lemma_component_transitive(a: ComponentView, b: ComponentView, c: ComponentView)
    requires
        component_before(a, b),
        component_before(b, c),
    ensures
        component_before(a, c),
{
    match (a, b, c) {
        (ComponentView::Normal(x), ComponentView::Normal(y), ComponentView::Normal(z)) => {
            lemma_bytes_transitive(x, y, z);
        },
        _ => {},
    }
}

proof fn lemma_component_irreflexive(a: ComponentView)
    ensures
        !component_before(a, a),
{
    match a {
        ComponentView::Normal(x) => {
            lemma_bytes_irreflexive(x);
        },
        _ => {},
    }
}

proof fn lemma_component_total(a: ComponentView, b: ComponentView)
    ensures
        a == b || component_before(a, b) || component_before(b, a),
{
    match (a, b) {
        (ComponentView::Normal(x), ComponentView::Normal(y)) => {
            lemma_bytes_total(x, y);
        },
        _ => {},
    }
}

/// No path comes before itself.
pub proof fn lemma_components_irreflexive(a: Seq<ComponentView>)
    ensures
        !components_before(a, a),
    decreases a.len(),
{
    if a.len() > 0 {
        lemma_components_irreflexive(a.drop_first());
    }
}

/// What comes before a path comes before those behind it.
pub proof fn lemma_components_transitive(
    a: Seq<ComponentView>,
    b: Seq<ComponentView>,
    c: Seq<ComponentView>,
)
    requires
        components_before(a, b),
        components_before(b, c),
    ensures
        components_before(a, c),
    decreases a.len(),
{
    if a.len() > 0 && b.len() > 0 && c.len() > 0 {
        if a[0] == b[0] && b[0] == c[0] {
            lemma_components_transitive(a.drop_first(), b.drop_first(), c.drop_first());
        } else if a[0] != b[0] && b[0] != c[0] {
            lemma_component_transitive(a[0], b[0], c[0]);
            if a[0] == c[0] {
                lemma_component_irreflexive(a[0]);
            }
        }
    }
}

/// Of two paths one comes first, unless they are the same.
pub proof fn lemma_components_total(a: Seq<ComponentView>, b: Seq<ComponentView>)
    ensures
        a == b || components_before(a, b) || components_before(b, a),
    decreases a.len(),
{
    if a.len() > 0 && b.len() > 0 {
        if a[0] == b[0] {
            lemma_components_total(a.drop_first(), b.drop_first());
            if a.drop_first() == b.drop_first() {
                assert(a =~= seq![a[0]] + a.drop_first());
                assert(b =~= seq![b[0]] + b.drop_first());
            }
        } else {
            lemma_component_total(a[0], b[0]);
        }
    } else if a.len() == 0 && b.len() == 0 {
        assert(a =~= b);
    }
}

} // verus!
