//! Projects and their entries in the list.

use vstd::prelude::*;
use vstd::string::*;

use crate::outside::{lowercase, to_lowercase};
use crate::path::{PathModel, ProjectPath};
use crate::text::{
    ascii_lowered, ascii_text, contains, lemma_occurs_in_itself, lemma_trimmed_stays, occurs_at,
    occurs_in, trim, trimmed,
};

verus! {

/// A project that was found.
pub struct Project {
    /// The caller's number for the project.
    pub id: u64,
    pub path: ProjectPath,
    /// What kind of project it is, in words.
    pub kind: String,
}

/// A project in the list, with what its artifacts take and what became of it.
pub struct ProjectEntry {
    pub project: Project,
    /// The bytes that the artifacts take.
    pub artifact_bytes: u64,
    /// How long ago the artifacts changed, in words; empty where it is not known.
    pub last_modified_str: String,
    /// How many seconds ago the artifacts changed.
    pub last_modified_secs: u64,
    /// Chosen for cleaning.
    pub marked: bool,
    /// Being cleaned.
    pub cleaning: bool,
    /// Has been cleaned.
    pub cleaned: bool,
}

/// A project, as a mathematical value.
#[verifier::ext_equal]
pub struct ProjectModel {
    pub id: u64,
    pub path: PathModel,
    pub kind: Seq<char>,
}

/// An entry, as a mathematical value.
#[verifier::ext_equal]
pub struct EntryModel {
    pub project: ProjectModel,
    pub artifact_bytes: u64,
    pub last_modified_str: Seq<char>,
    pub last_modified_secs: u64,
    pub marked: bool,
    pub cleaning: bool,
    pub cleaned: bool,
}

impl View for Project {
    type V = ProjectModel;

    open spec fn view(&self) -> ProjectModel {
        ProjectModel { id: self.id, path: self.path@, kind: self.kind@ }
    }
}

impl View for ProjectEntry {
    type V = EntryModel;

    open spec fn view(&self) -> EntryModel {
        EntryModel {
            project: self.project@,
            artifact_bytes: self.artifact_bytes,
            last_modified_str: self.last_modified_str@,
            last_modified_secs: self.last_modified_secs,
            marked: self.marked,
            cleaning: self.cleaning,
            cleaned: self.cleaned,
        }
    }
}

/// The entries of a list, as mathematical values.
pub open spec fn entry_models(entries: Seq<ProjectEntry>) -> Seq<EntryModel> {
    Seq::new(entries.len(), |i: int| entries[i]@)
}

impl Clone for Project {
    fn clone(&self) -> (r: Self)
        ensures
            r@ == self@,
    {
        Project { id: self.id, path: self.path.clone(), kind: self.kind.clone() }
    }
}

impl Clone for ProjectEntry {
    fn clone(&self) -> (r: Self)
        ensures
            r@ == self@,
    {
        ProjectEntry {
            project: self.project.clone(),
            artifact_bytes: self.artifact_bytes,
            last_modified_str: self.last_modified_str.clone(),
            last_modified_secs: self.last_modified_secs,
            marked: self.marked,
            cleaning: self.cleaning,
            cleaned: self.cleaned,
        }
    }
}

/// A search shows a project: nothing is searched for, or what is searched for
/// stands in its path, its name or its type. All are given in lower case.
pub open spec fn hit(query: Seq<char>, path: Seq<char>, name: Seq<char>, kind: Seq<char>) -> bool {
    ||| query.len() == 0
    ||| occurs_in(path, query)
    ||| occurs_in(name, query)
    ||| occurs_in(kind, query)
}

/// Whether a search in lower case shows a project, whose path, name and type
/// are in lower case.
pub fn is_hit(query: &str, path: &str, name: &str, kind: &str) -> (r: bool)
    ensures
        r == hit(query@, path@, name@, kind@),
{
    query.is_empty() || contains(path, query) || contains(name, query) || contains(kind, query)
}

/// What a query searches for: its lower-case form without the white space at
/// its two ends.
pub open spec fn searched(query: Seq<char>) -> Seq<char> {
    trimmed(lowercase(query))
}

/// What the beginnings of a query search for is found by lowering them character
/// by character.
pub open spec fn lowers_by_char(query: Seq<char>) -> bool {
    forall|n: int|
        0 <= n <= query.len() ==> #[trigger] searched(query.take(n)) == trimmed(
            ascii_lowered(query.take(n)),
        )
}

/// What a query searches for.
pub fn search_term(query: &str) -> (r: String)
    ensures
        r@ == searched(query@),
        query@.len() == 0 ==> r@.len() == 0,
        ascii_text(query@) ==> lowers_by_char(query@),
{
    let lower = to_lowercase(query);
    proof {
        if ascii_text(query@) {
            assert forall|n: int| 0 <= n <= query@.len() implies #[trigger] searched(
                query@.take(n),
            ) == trimmed(ascii_lowered(query@.take(n))) by {
                assert(lowercase(query@.take(n)) == lower@.take(n));
                assert(lower@.take(n) == ascii_lowered(query@.take(n)));
            }
        }
    }
    trim(lower.as_str()).to_owned()
}

impl EntryModel {
    /// The name under which the entry is listed.
    pub open spec fn display_name(self) -> Seq<char> {
        self.project.path.display_name()
    }

    /// A query shows the entry.
    pub open spec fn matches(self, query: Seq<char>) -> bool {
        hit(
            searched(query),
            lowercase(self.project.path.text()),
            lowercase(self.display_name()),
            lowercase(self.project.kind),
        )
    }

    /// The entry is neither being cleaned nor has it been.
    pub open spec fn idle(self) -> bool {
        !self.cleaned && !self.cleaning
    }

    /// The entry is chosen for cleaning and can be cleaned.
    pub open spec fn due(self) -> bool {
        self.marked && self.idle()
    }

    /// The entry with the kind of its project as given.
    pub open spec fn with_kind(self, kind: Seq<char>) -> EntryModel {
        EntryModel { project: ProjectModel { kind, ..self.project }, ..self }
    }

    /// The entry with its mark set as given.
    pub open spec fn with_mark(self, marked: bool) -> EntryModel {
        EntryModel { marked, ..self }
    }

    /// The entry once its cleaning has begun.
    pub open spec fn started(self) -> EntryModel {
        EntryModel { cleaning: true, marked: false, ..self }
    }

    /// The entry once its cleaning has ended.
    pub open spec fn finished(self) -> EntryModel {
        EntryModel { cleaned: true, cleaning: false, marked: false, artifact_bytes: 0, ..self }
    }
}

/// Whether a search term shows an entry goes by its ASCII texts with `A` to `Z`
/// read as `a` to `z`: it does if the term stands in one of them, and where all are
/// ASCII, only then.
pub open spec fn found_in_ascii(entry: EntryModel, term: Seq<char>, found: bool) -> bool {
    let path = entry.project.path.raw.text();
    let name = entry.project.path.display_name();
    let kind = entry.project.kind;
    &&& ascii_text(path) && occurs_in(ascii_lowered(path), term) ==> found
    &&& ascii_text(name) && occurs_in(ascii_lowered(name), term) ==> found
    &&& ascii_text(kind) && occurs_in(ascii_lowered(kind), term) ==> found
    &&& ascii_text(path) && ascii_text(name) && ascii_text(kind) && found ==> {
        ||| occurs_in(ascii_lowered(path), term)
        ||| occurs_in(ascii_lowered(name), term)
        ||| occurs_in(ascii_lowered(kind), term)
    }
}

impl ProjectEntry {
    /// The name under which the entry is listed: the last component of its
    /// path, or the whole path where that is no name.
    pub fn display_name(&self) -> (r: String)
        ensures
            r@ == self@.display_name(),
    {
        self.project.path.display_name()
    }

    /// Whether a search term shows the entry.
    pub fn matches_term(&self, term: &str) -> (r: bool)
        ensures
            r == hit(
                term@,
                lowercase(self@.project.path.text()),
                lowercase(self@.display_name()),
                lowercase(self@.project.kind),
            ),
            found_in_ascii(self@, term@, r),
    {
        proof {
            lemma_occurs_in_itself(ascii_lowered(self@.project.path.raw.text()));
        }
        if term.is_empty() {
            assert(term@ == Seq::<char>::empty());
            return true;
        }
        let text = self.project.path.text();
        let name = self.display_name();
        let path = to_lowercase(text.as_str());
        let lower_name = to_lowercase(name.as_str());
        let kind = to_lowercase(self.project.kind.as_str());
        is_hit(term, path.as_str(), lower_name.as_str(), kind.as_str())
    }

    /// Whether the entry is neither being cleaned nor has been.
    pub fn is_idle(&self) -> (r: bool)
        ensures
            r == self@.idle(),
    {
        !self.cleaned && !self.cleaning
    }
}

/// A query that searches for nothing shows every entry.
pub proof fn law_blank_query_shows_all(entry: EntryModel, query: Seq<char>)
    requires
        searched(query).len() == 0,
    ensures
        entry.matches(query),
{
}

/// A search shows what a longer search with the same beginning or end shows:
/// adding to what is searched for never brings a project back.
pub proof fn law_longer_search_shows_less(
    query: Seq<char>,
    part: Seq<char>,
    path: Seq<char>,
    name: Seq<char>,
    kind: Seq<char>,
)
    requires
        occurs_in(query, part),
        hit(query, path, name, kind),
    ensures
        hit(part, path, name, kind),
{
    if query.len() == 0 {
        assert(part.len() == 0);
    } else if occurs_in(path, query) {
        lemma_occurs_in_transitive(path, query, part);
    } else if occurs_in(name, query) {
        lemma_occurs_in_transitive(name, query, part);
    } else {
        lemma_occurs_in_transitive(kind, query, part);
    }
}

/// A query with one more character shows no other entries, where both are lowered
/// character by character.
pub(crate) proof fn lemma_typing_narrows(entry: EntryModel, query: Seq<char>, c: char)
    requires
        lowers_by_char(query.push(c)),
        entry.matches(query.push(c)),
    ensures
        entry.matches(query),
{
    let longer = query.push(c);
    assert(longer.take(query.len() as int) == query);
    assert(longer.take(longer.len() as int) == longer);
    assert(searched(longer.take(query.len() as int)) == trimmed(ascii_lowered(query)));
    assert(searched(longer.take(longer.len() as int)) == trimmed(ascii_lowered(longer)));
    let added = ascii_lowered(longer).last();
    assert(ascii_lowered(longer) == ascii_lowered(query).push(added));
    lemma_trimmed_stays(ascii_lowered(query), added);
    law_longer_search_shows_less(
        searched(longer),
        searched(query),
        lowercase(entry.project.path.text()),
        lowercase(entry.display_name()),
        lowercase(entry.project.kind),
    );
}

/// What stands in a part of a text stands in the text.
proof fn lemma_occurs_in_transitive(text: Seq<char>, query: Seq<char>, part: Seq<char>)
    requires
        occurs_in(text, query),
        occurs_in(query, part),
    ensures
        occurs_in(text, part),
{
    let i = choose|at: int| occurs_at(text, query, at);
    let j = choose|at: int| occurs_at(query, part, at);
    assert(text.subrange(i + j, i + j + part.len()) == query.subrange(j, j + part.len()));
    assert(occurs_at(text, part, i + j));
}

/// What is said of a project and of its entry is said of their fields.
pub proof fn law_views(project: Project, entry: ProjectEntry, entries: Seq<ProjectEntry>)
    ensures
        project@.id == project.id && project@.path == project.path@ && project@.kind
            == project.kind@,
        entry@.project == entry.project@,
        entry@.artifact_bytes == entry.artifact_bytes,
        entry@.last_modified_str == entry.last_modified_str@,
        entry@.last_modified_secs == entry.last_modified_secs,
        entry@.marked == entry.marked && entry@.cleaning == entry.cleaning && entry@.cleaned
            == entry.cleaned,
        entry_models(entries).len() == entries.len(),
        forall|i: int| 0 <= i < entries.len() ==> #[trigger] entry_models(entries)[i] == entries[i]@,
{
}

/// A search shows a project exactly if what is searched for stands in its path, its
/// name or its kind; and what is searched for is the query in lower case, without
/// the white space at its two ends.
pub proof fn law_hits(
    query: Seq<char>,
    term: Seq<char>,
    path: Seq<char>,
    name: Seq<char>,
    kind: Seq<char>,
)
    ensures
        searched(query) == trimmed(lowercase(query)),
        hit(term, path, name, kind) <==> occurs_in(path, term) || occurs_in(name, term)
            || occurs_in(kind, term),
{
    lemma_occurs_in_itself(path);
    if term.len() == 0 {
        assert(term == Seq::<char>::empty());
    }
}

} // verus!
