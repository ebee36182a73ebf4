//! Paths as the list of their components.

use vstd::prelude::*;
use vstd::string::*;
use vstd::utf8::{decode_utf8, valid_utf8};

use crate::outside::{from_utf16_lossy, from_utf8_lossy, lossy_text};
use crate::text::{texts, wide_text};

verus! {

/// Text as the operating system holds it.
pub enum RawText {
    /// In bytes, which need not be UTF-8.
    Bytes(Vec<u8>),
    /// In units of 16 bits, which need not be UTF-16.
    Wide(Vec<u16>),
}

/// The drive or the share that a path begins with, whichever way it is written.
pub enum PathPrefix {
    /// A verbatim name.
    Verbatim(RawText),
    /// A verbatim server and share.
    VerbatimUnc(RawText, RawText),
    /// The letter of a verbatim drive.
    VerbatimDisk(u8),
    /// A device.
    DeviceNs(RawText),
    /// A server and share.
    Unc(RawText, RawText),
    /// The letter of a drive.
    Disk(u8),
}

/// One component of a path.
pub enum PathPart {
    /// The drive or the share that a path begins with.
    Prefix(PathPrefix),
    /// The root of the file system.
    RootDir,
    /// The directory itself.
    CurDir,
    /// The parent directory.
    ParentDir,
    /// A name.
    Normal(RawText),
}

/// A path: what it is written as, and its components in order, as
/// `std::path::Path::components` lists them.
pub struct ProjectPath {
    pub raw: RawText,
    pub parts: Vec<PathPart>,
}

/// Text as the operating system holds it, as a mathematical value.
#[verifier::ext_equal]
pub enum RawModel {
    Bytes(Seq<u8>),
    Wide(Seq<u16>),
}

/// The beginning of a path, as a mathematical value.
#[verifier::ext_equal]
pub enum PrefixModel {
    Verbatim(RawModel),
    VerbatimUnc(RawModel, RawModel),
    VerbatimDisk(u8),
    DeviceNs(RawModel),
    Unc(RawModel, RawModel),
    Disk(u8),
}

/// One component of a path, as a mathematical value.
pub enum PartModel {
    Prefix(PrefixModel),
    RootDir,
    CurDir,
    ParentDir,
    Normal(RawModel),
}

/// A path, as a mathematical value.
#[verifier::ext_equal]
pub struct PathModel {
    pub raw: RawModel,
    pub parts: Seq<PartModel>,
}

impl View for RawText {
    type V = RawModel;

    open spec fn view(&self) -> RawModel {
        match self {
            RawText::Bytes(bytes) => RawModel::Bytes(bytes@),
            RawText::Wide(units) => RawModel::Wide(units@),
        }
    }
}

impl View for PathPrefix {
    type V = PrefixModel;

    open spec fn view(&self) -> PrefixModel {
        match self {
            PathPrefix::Verbatim(name) => PrefixModel::Verbatim(name@),
            PathPrefix::VerbatimUnc(server, share) => PrefixModel::VerbatimUnc(server@, share@),
            PathPrefix::VerbatimDisk(letter) => PrefixModel::VerbatimDisk(*letter),
            PathPrefix::DeviceNs(name) => PrefixModel::DeviceNs(name@),
            PathPrefix::Unc(server, share) => PrefixModel::Unc(server@, share@),
            PathPrefix::Disk(letter) => PrefixModel::Disk(*letter),
        }
    }
}

impl View for PathPart {
    type V = PartModel;

    open spec fn view(&self) -> PartModel {
        match self {
            PathPart::Prefix(prefix) => PartModel::Prefix(prefix@),
            PathPart::RootDir => PartModel::RootDir,
            PathPart::CurDir => PartModel::CurDir,
            PathPart::ParentDir => PartModel::ParentDir,
            PathPart::Normal(name) => PartModel::Normal(name@),
        }
    }
}

/// The components of a list, as mathematical values.
pub open spec fn part_models(parts: Seq<PathPart>) -> Seq<PartModel> {
    Seq::new(parts.len(), |i: int| parts[i]@)
}

impl View for ProjectPath {
    type V = PathModel;

    open spec fn view(&self) -> PathModel {
        PathModel { raw: self.raw@, parts: part_models(self.parts@) }
    }
}

impl RawModel {
    /// The text, with a replacement for what cannot be read.
    pub open spec fn text(self) -> Seq<char> {
        match self {
            RawModel::Bytes(bytes) => lossy_text(bytes),
            RawModel::Wide(units) => wide_text(units),
        }
    }

    /// The text is in bytes that are UTF-8.
    pub open spec fn is_utf8(self) -> bool {
        self is Bytes && valid_utf8(self->Bytes_0)
    }
}

impl PathModel {
    /// Two paths lead the same way: their components are the same, however the
    /// paths are written.
    pub open spec fn same_as(self, other: PathModel) -> bool {
        self.parts == other.parts
    }

    /// The path leads into `base` or to `base` itself.
    pub open spec fn under(self, base: PathModel) -> bool {
        base.parts.is_prefix_of(self.parts)
    }

    /// The last component, where it is a name.
    pub open spec fn file_name(self) -> Option<RawModel> {
        if self.parts.len() > 0 && self.parts.last() is Normal {
            Some(self.parts.last()->Normal_0)
        } else {
            None
        }
    }

    /// The path as text.
    pub open spec fn text(self) -> Seq<char> {
        self.raw.text()
    }

    /// The last component as text, or the whole path where that is no name.
    pub open spec fn display_name(self) -> Seq<char> {
        match self.file_name() {
            Some(name) => name.text(),
            None => self.text(),
        }
    }

    /// The names of the directories that the path leads through, from the top,
    /// without the last component.
    pub open spec fn parent_names(self) -> Seq<Seq<char>> {
        if self.parts.len() == 0 {
            seq![]
        } else {
            names(self.parts.drop_last())
        }
    }

    /// The way to the path in words.
    pub open spec fn breadcrumb(self) -> Seq<char> {
        way(self.parent_names(), self.display_name(), self.text())
    }
}

/// The names among the components of a path, as text.
pub open spec fn names(parts: Seq<PartModel>) -> Seq<Seq<char>>
    decreases parts.len(),
{
    if parts.len() == 0 {
        seq![]
    } else {
        match parts.last() {
            PartModel::Normal(name) => names(parts.drop_last()).push(name.text()),
            _ => names(parts.drop_last()),
        }
    }
}

/// Names with a separator between them.
pub open spec fn joined(crumbs: Seq<Seq<char>>) -> Seq<char>
    decreases crumbs.len(),
{
    if crumbs.len() == 0 {
        seq![]
    } else if crumbs.len() == 1 {
        crumbs[0]
    } else {
        joined(crumbs.drop_last()) + " › "@ + crumbs.last()
    }
}

/// The names of the directories above and the name behind them, or the path as
/// text where there are no directories above.
pub open spec fn way(parents: Seq<Seq<char>>, name: Seq<char>, text: Seq<char>) -> Seq<char> {
    if parents.len() == 0 {
        text
    } else {
        joined(parents.push(name))
    }
}

/// Puts the names of a way together.
pub fn join_way(parents: &Vec<String>, name: &str, text: &str) -> (r: String)
    ensures
        r@ == way(texts(parents@), name@, text@),
{
    if parents.len() == 0 {
        return text.to_owned();
    }
    let ghost crumbs = texts(parents@);
    let mut r = parents[0].clone();
    let mut i: usize = 1;
    assert(crumbs.take(1) == seq![parents@[0]@]);
    while i < parents.len()
        invariant
            1 <= i <= parents.len(),
            crumbs == texts(parents@),
            r@ == joined(crumbs.take(i as int)),
        decreases parents.len() - i,
    {
        assert(crumbs.take(i + 1).drop_last() == crumbs.take(i as int));
        r.append(" › ");
        r.append(parents[i].as_str());
        i = i + 1;
    }
    assert(crumbs.take(i as int) == crumbs);
    assert(crumbs.push(name@).drop_last() == crumbs);
    r.append(" › ");
    r.append(name);
    r
}

/// A copy of a row of numbers.
fn copy_row<T: Copy>(row: &Vec<T>) -> (r: Vec<T>)
    ensures
        r@ == row@,
{
    let mut r: Vec<T> = Vec::new();
    let mut i: usize = 0;
    while i < row.len()
        invariant
            i <= row.len(),
            r@ == row@.take(i as int),
        decreases row.len() - i,
    {
        r.push(row[i]);
        i = i + 1;
    }
    r
}

/// Whether two rows of bytes are the same.
fn same_bytes(a: &Vec<u8>, b: &Vec<u8>) -> (r: bool)
    ensures
        r == (a@ == b@),
{
    if a.len() != b.len() {
        return false;
    }
    let mut i: usize = 0;
    while i < a.len()
        invariant
            i <= a.len(),
            a.len() == b.len(),
            forall|j: int| 0 <= j < i ==> a@[j] == b@[j],
        decreases a.len() - i,
    {
        if a[i] != b[i] {
            return false;
        }
        i = i + 1;
    }
    assert(a@ == b@);
    true
}

/// Whether two rows of 16-bit units are the same.
fn same_units(a: &Vec<u16>, b: &Vec<u16>) -> (r: bool)
    ensures
        r == (a@ == b@),
{
    if a.len() != b.len() {
        return false;
    }
    let mut i: usize = 0;
    while i < a.len()
        invariant
            i <= a.len(),
            a.len() == b.len(),
            forall|j: int| 0 <= j < i ==> a@[j] == b@[j],
        decreases a.len() - i,
    {
        if a[i] != b[i] {
            return false;
        }
        i = i + 1;
    }
    assert(a@ == b@);
    true
}

impl Clone for RawText {
    fn clone(&self) -> (r: Self)
        ensures
            r@ == self@,
    {
        match self {
            RawText::Bytes(bytes) => RawText::Bytes(copy_row(bytes)),
            RawText::Wide(units) => RawText::Wide(copy_row(units)),
        }
    }
}

impl RawText {
    /// Whether two texts are held the same way.
    pub fn same_as(&self, other: &RawText) -> (r: bool)
        ensures
            r == (self@ == other@),
    {
        match (self, other) {
            (RawText::Bytes(a), RawText::Bytes(b)) => same_bytes(a, b),
            (RawText::Wide(a), RawText::Wide(b)) => same_units(a, b),
            _ => false,
        }
    }

    /// The text, with a replacement for what cannot be read.
    pub fn text(&self) -> (r: String)
        ensures
            r@ == self@.text(),
            self@.is_utf8() ==> r@ == decode_utf8(self@->Bytes_0),
    {
        match self {
            RawText::Bytes(bytes) => from_utf8_lossy(bytes),
            RawText::Wide(units) => from_utf16_lossy(units),
        }
    }
}

impl Clone for PathPrefix {
    fn clone(&self) -> (r: Self)
        ensures
            r@ == self@,
    {
        match self {
            PathPrefix::Verbatim(name) => PathPrefix::Verbatim(name.clone()),
            PathPrefix::VerbatimUnc(server, share) => PathPrefix::VerbatimUnc(
                server.clone(),
                share.clone(),
            ),
            PathPrefix::VerbatimDisk(letter) => PathPrefix::VerbatimDisk(*letter),
            PathPrefix::DeviceNs(name) => PathPrefix::DeviceNs(name.clone()),
            PathPrefix::Unc(server, share) => PathPrefix::Unc(server.clone(), share.clone()),
            PathPrefix::Disk(letter) => PathPrefix::Disk(*letter),
        }
    }
}

impl PathPrefix {
    /// Whether two paths begin with the same drive or share.
    pub fn same_as(&self, other: &PathPrefix) -> (r: bool)
        ensures
            r == (self@ == other@),
    {
        match (self, other) {
            (PathPrefix::Verbatim(a), PathPrefix::Verbatim(b)) => a.same_as(b),
            (PathPrefix::VerbatimUnc(a, c), PathPrefix::VerbatimUnc(b, d)) => a.same_as(b)
                && c.same_as(d),
            (PathPrefix::VerbatimDisk(a), PathPrefix::VerbatimDisk(b)) => *a == *b,
            (PathPrefix::DeviceNs(a), PathPrefix::DeviceNs(b)) => a.same_as(b),
            (PathPrefix::Unc(a, c), PathPrefix::Unc(b, d)) => a.same_as(b) && c.same_as(d),
            (PathPrefix::Disk(a), PathPrefix::Disk(b)) => *a == *b,
            _ => false,
        }
    }
}

impl Clone for PathPart {
    fn clone(&self) -> (r: Self)
        ensures
            r@ == self@,
    {
        match self {
            PathPart::Prefix(prefix) => PathPart::Prefix(prefix.clone()),
            PathPart::RootDir => PathPart::RootDir,
            PathPart::CurDir => PathPart::CurDir,
            PathPart::ParentDir => PathPart::ParentDir,
            PathPart::Normal(name) => PathPart::Normal(name.clone()),
        }
    }
}

impl PathPart {
    /// Whether two components are the same.
    pub fn same_as(&self, other: &PathPart) -> (r: bool)
        ensures
            r == (self@ == other@),
    {
        match (self, other) {
            (PathPart::Prefix(a), PathPart::Prefix(b)) => a.same_as(b),
            (PathPart::RootDir, PathPart::RootDir) => true,
            (PathPart::CurDir, PathPart::CurDir) => true,
            (PathPart::ParentDir, PathPart::ParentDir) => true,
            (PathPart::Normal(a), PathPart::Normal(b)) => a.same_as(b),
            _ => false,
        }
    }
}

impl Clone for ProjectPath {
    fn clone(&self) -> (r: Self)
        ensures
            r@ == self@,
    {
        let mut parts: Vec<PathPart> = Vec::new();
        let mut i: usize = 0;
        while i < self.parts.len()
            invariant
                i <= self.parts.len(),
                parts.len() == i,
                forall|j: int| 0 <= j < i ==> (#[trigger] parts@[j])@ == self.parts@[j]@,
            decreases self.parts.len() - i,
        {
            parts.push(self.parts[i].clone());
            i = i + 1;
        }
        assert(part_models(parts@) == part_models(self.parts@));
        ProjectPath { raw: self.raw.clone(), parts }
    }
}

impl ProjectPath {
    /// Whether two paths have the same components.
    pub fn same_as(&self, other: &ProjectPath) -> (r: bool)
        ensures
            r == self@.same_as(other@),
    {
        assert(self@.parts.len() == self.parts.len() && other@.parts.len() == other.parts.len());
        proof {
            if self@.parts.len() == other@.parts.len() && self@.under(other@) {
                assert(self@.parts == other@.parts);
            }
        }
        self.parts.len() == other.parts.len() && self.starts_with(other)
    }

    /// Whether the path begins with all the components of `base`.
    pub fn starts_with(&self, base: &ProjectPath) -> (r: bool)
        ensures
            r == self@.under(base@),
    {
        if base.parts.len() > self.parts.len() {
            return false;
        }
        let mut i: usize = 0;
        while i < base.parts.len()
            invariant
                i <= base.parts.len() <= self.parts.len(),
                forall|j: int| 0 <= j < i ==> self@.parts[j] == base@.parts[j],
            decreases base.parts.len() - i,
        {
            if !self.parts[i].same_as(&base.parts[i]) {
                assert(self@.parts[i as int] != base@.parts[i as int]);
                return false;
            }
            i = i + 1;
        }
        assert(self@.parts.take(base@.parts.len() as int) == base@.parts);
        true
    }

    /// The path as text.
    pub fn text(&self) -> (r: String)
        ensures
            r@ == self@.text(),
            self@.raw.is_utf8() ==> r@ == decode_utf8(self@.raw->Bytes_0),
    {
        self.raw.text()
    }

    /// The last component as text, or the whole path where that is no name.
    pub fn display_name(&self) -> (r: String)
        ensures
            r@ == self@.display_name(),
            self@.file_name() matches Some(name) ==> name.is_utf8() ==> r@ == decode_utf8(
                name->Bytes_0,
            ),
            self@.file_name() is None && self@.raw.is_utf8() ==> r@ == decode_utf8(
                self@.raw->Bytes_0,
            ),
    {
        if self.parts.len() > 0 {
            assert(self@.parts.last() == self.parts@.last()@);
            if let PathPart::Normal(name) = &self.parts[self.parts.len() - 1] {
                return name.text();
            }
        }
        self.text()
    }

    /// The names of the directories above the path, from the top.
    pub fn parent_names(&self) -> (r: Vec<String>)
        ensures
            texts(r@) == self@.parent_names(),
    {
        let mut r: Vec<String> = Vec::new();
        let mut i: usize = 0;
        assert(self@.parts.take(0) == Seq::<PartModel>::empty());
        while i + 1 < self.parts.len()
            invariant
                i <= self.parts.len(),
                self.parts.len() > 0 ==> i < self.parts.len(),
                texts(r@) == names(self@.parts.take(i as int)),
            decreases self.parts.len() - i,
        {
            proof {
                let after = self@.parts.take(i + 1);
                assert(after.drop_last() == self@.parts.take(i as int));
                assert(after.last() == self.parts@[i as int]@);
            }
            if let PathPart::Normal(name) = &self.parts[i] {
                let ghost before = texts(r@);
                r.push(name.text());
                assert(texts(r@) == before.push(name@.text()));
            }
            i = i + 1;
        }
        if self.parts.len() > 0 {
            assert(self@.parts.take(i as int) == self@.parts.drop_last());
        }
        r
    }

    /// The way to the path in words: the names of the directories above it and
    /// its own, or the path as text where there are no directories above it.
    pub fn breadcrumb(&self) -> (r: String)
        ensures
            r@ == self@.breadcrumb(),
    {
        let parents = self.parent_names();
        let name = self.display_name();
        let text = self.text();
        join_way(&parents, name.as_str(), text.as_str())
    }
}

/// Paths lead the same way exactly if each leads into the other.
pub proof fn law_same_is_under_both_ways(a: PathModel, b: PathModel)
    ensures
        a.same_as(b) == (a.under(b) && b.under(a)),
{
    if a.under(b) && b.under(a) {
        assert(a.parts == b.parts);
    }
    if a.same_as(b) {
        assert(b.parts.is_prefix_of(a.parts));
    }
}

/// What leads into a directory leads into every directory above that.
pub proof fn law_under_is_transitive(a: PathModel, b: PathModel, c: PathModel)
    requires
        a.under(b),
        b.under(c),
    ensures
        a.under(c),
{
}

/// Two paths lead the same way if their components are the same, one by one, and
/// one leads into the other if it begins with all the components of that.
pub proof fn law_components(a: PathModel, b: PathModel)
    ensures
        a.same_as(b) <==> a.parts.len() == b.parts.len() && forall|i: int|
            0 <= i < a.parts.len() ==> #[trigger] a.parts[i] == b.parts[i],
        a.under(b) <==> b.parts.len() <= a.parts.len() && forall|i: int|
            0 <= i < b.parts.len() ==> #[trigger] a.parts[i] == b.parts[i],
{
    if a.parts.len() == b.parts.len() && forall|i: int|
        0 <= i < a.parts.len() ==> #[trigger] a.parts[i] == b.parts[i] {
        assert(a.parts == b.parts);
    }
    if b.parts.len() <= a.parts.len() && forall|i: int|
        0 <= i < b.parts.len() ==> #[trigger] a.parts[i] == b.parts[i] {
        assert(b.parts == a.parts.subrange(0, b.parts.len() as int));
    }
}

/// A path is listed under its last component where that is a name, and else under
/// all that it is written as.
pub proof fn law_name_of_a_path(path: PathModel)
    ensures
        path.text() == path.raw.text(),
        match path.raw {
            RawModel::Bytes(bytes) => path.raw.text() == lossy_text(bytes),
            RawModel::Wide(units) => path.raw.text() == wide_text(units),
        },
        path.parts.len() == 0 ==> path.display_name() == path.raw.text(),
        path.parts.len() > 0 ==> path.display_name() == match path.parts[path.parts.len() - 1] {
            PartModel::Normal(RawModel::Bytes(bytes)) => lossy_text(bytes),
            PartModel::Normal(RawModel::Wide(units)) => wide_text(units),
            _ => path.raw.text(),
        },
{
}

/// The directories above a path are the names among all its components but the
/// last, in order.
pub proof fn law_parent_names(path: PathModel)
    ensures
        path.parts.len() == 0 ==> path.parent_names().len() == 0,
        path.parts.len() > 0 ==> path.parent_names() == path.parts.drop_last().filter(
            |part: PartModel| part is Normal,
        ).map_values(|part: PartModel| part->Normal_0.text()),
{
    if path.parts.len() > 0 {
        lemma_names(path.parts.drop_last());
    }
}

/// The names among components are picked out one by one.
proof fn lemma_names(parts: Seq<PartModel>)
    ensures
        names(parts) == parts.filter(|part: PartModel| part is Normal).map_values(
            |part: PartModel| part->Normal_0.text(),
        ),
    decreases parts.len(),
{
    let pred = |part: PartModel| part is Normal;
    let text = |part: PartModel| part->Normal_0.text();
    reveal(Seq::filter);
    if parts.len() > 0 {
        lemma_names(parts.drop_last());
        let before = parts.drop_last().filter(pred);
        if pred(parts.last()) {
            assert(parts.filter(pred) == before.push(parts.last()));
            assert(parts.filter(pred).map_values(text) == before.map_values(text).push(
                text(parts.last()),
            ));
        }
    } else {
        assert(parts.filter(pred).map_values(text) == Seq::<Seq<char>>::empty());
    }
}

/// The way to a path names the directories above it and the path behind them, each
/// after a separator but the first; where there are none above, it is all that the
/// path is written as.
pub proof fn law_way(path: PathModel, crumbs: Seq<Seq<char>>, crumb: Seq<char>)
    ensures
        joined(seq![crumb]) == crumb,
        crumbs.len() > 0 ==> joined(crumbs.push(crumb)) == joined(crumbs) + " › "@ + crumb,
        path.parent_names().len() == 0 ==> path.breadcrumb() == path.raw.text(),
        path.parent_names().len() > 0 ==> path.breadcrumb() == joined(path.parent_names())
            + " › "@ + path.display_name(),
{
    assert(crumbs.push(crumb).drop_last() == crumbs);
    let parents = path.parent_names();
    assert(parents.push(path.display_name()).drop_last() == parents);
}

/// What is said of a path is said of its components and of what it is written as,
/// with nothing left out.
pub proof fn law_views(path: ProjectPath, text: RawText, part: PathPart, prefix: PathPrefix)
    ensures
        path@.raw == path.raw@ && path@.parts.len() == path.parts@.len(),
        forall|i: int| 0 <= i < path.parts@.len() ==> #[trigger] path@.parts[i] == path.parts@[i]@,
        match text {
            RawText::Bytes(bytes) => text@ == RawModel::Bytes(bytes@),
            RawText::Wide(units) => text@ == RawModel::Wide(units@),
        },
        match part {
            PathPart::Prefix(prefix) => part@ == PartModel::Prefix(prefix@),
            PathPart::RootDir => part@ == PartModel::RootDir,
            PathPart::CurDir => part@ == PartModel::CurDir,
            PathPart::ParentDir => part@ == PartModel::ParentDir,
            PathPart::Normal(name) => part@ == PartModel::Normal(name@),
        },
        match prefix {
            PathPrefix::Verbatim(a) => prefix@ == PrefixModel::Verbatim(a@),
            PathPrefix::VerbatimUnc(a, b) => prefix@ == PrefixModel::VerbatimUnc(a@, b@),
            PathPrefix::VerbatimDisk(a) => prefix@ == PrefixModel::VerbatimDisk(a),
            PathPrefix::DeviceNs(a) => prefix@ == PrefixModel::DeviceNs(a@),
            PathPrefix::Unc(a, b) => prefix@ == PrefixModel::Unc(a@, b@),
            PathPrefix::Disk(a) => prefix@ == PrefixModel::Disk(a),
        },
{
}

} // verus!
