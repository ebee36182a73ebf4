//! The state of the program, as a mathematical value, and what each operation
//! makes of it.

use vstd::prelude::*;

use crate::order::{in_order, SortMode};
use crate::path::PathModel;
use crate::project::{EntryModel, ProjectModel};

verus! {

/// What the keys are for.
#[derive(Clone, Copy, Debug, PartialEq, Eq, Structural)]
pub enum AppMode {
    /// Going through the list.
    Normal,
    /// Writing a query.
    Search,
    /// Looking at one project.
    Info,
}

/// The row of the list that is selected, and the first row on the screen.
#[derive(Clone, Copy, Debug, PartialEq, Eq, Structural)]
pub struct ListState {
    pub offset: usize,
    pub selected: Option<usize>,
}

impl ListState {
    /// The state with another row selected; with none, the list is back at its
    /// top.
    pub open spec fn with_row(self, index: Option<usize>) -> ListState {
        ListState {
            selected: index,
            offset: if index is None {
                0
            } else {
                self.offset
            },
        }
    }

    /// The state for a list of `rows` rows: a row beyond the end gives way to
    /// the last one, and where none is selected the first one is.
    pub open spec fn for_rows(self, rows: nat) -> ListState {
        if rows == 0 {
            match self.selected {
                Some(_) => self.with_row(None),
                None => self,
            }
        } else {
            match self.selected {
                Some(row) => if row < rows {
                    self
                } else {
                    self.with_row(Some((rows - 1) as usize))
                },
                None => self.with_row(Some(0)),
            }
        }
    }
}

/// An order to clean a project, with the bytes that its artifacts take.
#[verifier::ext_equal]
pub struct JobModel {
    pub project: ProjectModel,
    pub bytes: u64,
}

/// The word that a project has been cleaned, with the bytes that were freed.
#[verifier::ext_equal]
pub struct DoneModel {
    pub path: PathModel,
    pub bytes: u64,
}

/// The state of the program, as a mathematical value.
#[verifier::ext_equal]
pub struct AppModel {
    /// The projects, in the order of the list.
    pub entries: Seq<EntryModel>,
    /// The positions of the projects that the query shows.
    pub visible: Seq<usize>,
    pub list_state: ListState,
    pub sort_mode: SortMode,
    /// Nothing is to be cleaned.
    pub dry_run: bool,
    /// Projects may still be found.
    pub scanning: bool,
    /// The bytes of all artifacts that were found.
    pub total_bytes: u64,
    /// The bytes that were freed.
    pub cleaned_bytes: u64,
    /// The number of projects that were cleaned.
    pub cleaned_count: usize,
    pub mode: AppMode,
    pub query: Seq<char>,
}

/// The positions, among the first `n`, of the entries that a query shows.
pub open spec fn shown(entries: Seq<EntryModel>, query: Seq<char>, n: nat) -> Seq<usize>
    decreases n,
{
    if n == 0 {
        seq![]
    } else if entries[n - 1].matches(query) {
        shown(entries, query, (n - 1) as nat).push((n - 1) as usize)
    } else {
        shown(entries, query, (n - 1) as nat)
    }
}

/// Those of some rows that a query shows.
pub open spec fn still_shown(
    rows: Seq<usize>,
    entries: Seq<EntryModel>,
    query: Seq<char>,
) -> Seq<usize> {
    rows.filter(|idx: usize| entries[idx as int].matches(query))
}

/// The positions of a list of `n` entries, all of them.
pub open spec fn every_row(n: nat) -> Seq<usize> {
    Seq::new(n, |i: int| i as usize)
}

/// The first position, among the first `n`, of an entry with a path.
pub open spec fn entry_at(entries: Seq<EntryModel>, path: PathModel, n: nat) -> Option<usize>
    decreases n,
{
    if n == 0 {
        None
    } else {
        match entry_at(entries, path, (n - 1) as nat) {
            Some(i) => Some(i),
            None => if entries[n - 1].project.path.same_as(path) {
                Some((n - 1) as usize)
            } else {
                None
            },
        }
    }
}

/// An entry has a path.
pub open spec fn known(entries: Seq<EntryModel>, path: PathModel) -> bool {
    exists|i: int| 0 <= i < entries.len() && (#[trigger] entries[i]).project.path.same_as(path)
}

/// Every entry has been cleaned.
pub open spec fn all_cleaned(entries: Seq<EntryModel>) -> bool {
    forall|i: int| 0 <= i < entries.len() ==> (#[trigger] entries[i]).cleaned
}

/// The bytes of all the artifacts of a list.
pub open spec fn bytes_of(entries: Seq<EntryModel>) -> nat
    decreases entries.len(),
{
    if entries.len() == 0 {
        0
    } else {
        bytes_of(entries.drop_last()) + entries.last().artifact_bytes as nat
    }
}

/// The bytes freed by the cleanings that concern an entry of the list.
pub open spec fn freed(entries: Seq<EntryModel>, done: Seq<DoneModel>) -> nat
    decreases done.len(),
{
    if done.len() == 0 {
        0
    } else {
        freed(entries, done.drop_last()) + if known(entries, done.last().path) {
            done.last().bytes as nat
        } else {
            0
        }
    }
}

/// The number of the cleanings that concern an entry of the list.
pub open spec fn freed_count(entries: Seq<EntryModel>, done: Seq<DoneModel>) -> nat
    decreases done.len(),
{
    if done.len() == 0 {
        0
    } else {
        freed_count(entries, done.drop_last()) + if known(entries, done.last().path) {
            1nat
        } else {
            0
        }
    }
}

/// The order to clean an entry.
pub open spec fn job_for(entry: EntryModel) -> JobModel {
    JobModel { project: entry.project, bytes: entry.artifact_bytes }
}

/// The orders to clean those of the first `n` entries that are due.
pub open spec fn due_jobs(entries: Seq<EntryModel>, n: nat) -> Seq<JobModel>
    decreases n,
{
    if n == 0 {
        seq![]
    } else if entries[n - 1].due() {
        due_jobs(entries, (n - 1) as nat).push(job_for(entries[n - 1]))
    } else {
        due_jobs(entries, (n - 1) as nat)
    }
}

/// The state at the start.
pub open spec fn initial(sort_mode: SortMode, dry_run: bool) -> AppModel {
    AppModel {
        entries: seq![],
        visible: seq![],
        list_state: ListState { offset: 0, selected: None },
        sort_mode,
        dry_run,
        scanning: true,
        total_bytes: 0,
        cleaned_bytes: 0,
        cleaned_count: 0,
        mode: AppMode::Normal,
        query: seq![],
    }
}

impl AppModel {
    /// The rows are those that the query shows, and a row is selected that is
    /// there.
    pub open spec fn update_visible(self) -> AppModel {
        let visible = shown(self.entries, self.query, self.entries.len());
        AppModel { visible, list_state: self.list_state.for_rows(visible.len()), ..self }
    }

    /// The rows are those that the query shows.
    pub open spec fn shows_its_rows(self) -> bool {
        self.visible == shown(self.entries, self.query, self.entries.len())
    }

    /// The position of the entry in the selected row.
    pub open spec fn selected_entry_idx(self) -> Option<usize> {
        match self.list_state.selected {
            Some(row) => if row < self.visible.len() {
                Some(self.visible[row as int])
            } else {
                None
            },
            None => None,
        }
    }

    /// The entry in the selected row.
    pub open spec fn selected_entry(self) -> Option<EntryModel> {
        match self.selected_entry_idx() {
            Some(idx) => if idx < self.entries.len() {
                Some(self.entries[idx as int])
            } else {
                None
            },
            None => None,
        }
    }

    /// Another row is selected.
    pub open spec fn select(self, row: Option<usize>) -> AppModel {
        AppModel { list_state: self.list_state.with_row(row), ..self }
    }

    /// The first row is selected, where there are rows.
    pub open spec fn select_first(self) -> AppModel {
        if self.visible.len() > 0 {
            self.select(Some(0))
        } else {
            self
        }
    }

    /// The last row is selected, where there are rows.
    pub open spec fn select_last(self) -> AppModel {
        if self.visible.len() > 0 {
            self.select(Some((self.visible.len() - 1) as usize))
        } else {
            self
        }
    }

    /// A row shows an entry with a path.
    pub open spec fn row_leads_to(self, row: int, path: PathModel) -> bool {
        let idx = self.visible[row];
        idx < self.entries.len() && self.entries[idx as int].project.path.same_as(path)
    }

    /// The first row, among the first `n`, that shows an entry with a path.
    pub open spec fn row_of(self, path: PathModel, n: nat) -> Option<usize>
        decreases n,
    {
        if n == 0 {
            None
        } else {
            match self.row_of(path, (n - 1) as nat) {
                Some(row) => Some(row),
                None => if self.row_leads_to(n - 1, path) {
                    Some((n - 1) as usize)
                } else {
                    None
                },
            }
        }
    }

    /// The row of a path is selected, where there is one.
    pub open spec fn select_path(self, path: PathModel) -> AppModel {
        match self.row_of(path, self.visible.len()) {
            Some(row) => self.select(Some(row)),
            None => self,
        }
    }

    /// The list is in order, and the selection has moved with its project.
    pub open spec fn sort_entries(self) -> AppModel {
        let sorted = AppModel {
            entries: in_order(self.entries, self.sort_mode),
            ..self
        }.update_visible();
        match self.selected_entry() {
            Some(entry) => sorted.select_path(entry.project.path),
            None => sorted,
        }
    }

    /// Projects have been found.
    pub open spec fn receive(self, arrived: Seq<EntryModel>) -> AppModel {
        if arrived.len() == 0 {
            self
        } else {
            AppModel {
                entries: self.entries + arrived,
                total_bytes: (self.total_bytes + bytes_of(arrived)) as u64,
                ..self
            }.sort_entries()
        }
    }

    /// A project has been cleaned: the first entry with its path is settled.
    pub open spec fn finish(self, done: DoneModel) -> AppModel {
        match entry_at(self.entries, done.path, self.entries.len()) {
            Some(i) => AppModel {
                entries: self.entries.update(i as int, self.entries[i as int].finished()),
                cleaned_bytes: (self.cleaned_bytes + done.bytes) as u64,
                cleaned_count: (self.cleaned_count + 1) as usize,
                ..self
            },
            None => self,
        }
    }

    /// Projects have been cleaned, one after the other.
    pub open spec fn finish_all(self, done: Seq<DoneModel>) -> AppModel
        decreases done.len(),
    {
        if done.len() == 0 {
            self
        } else {
            self.finish_all(done.drop_last()).finish(done.last())
        }
    }

    /// The scan counts as over once there are projects and all are cleaned.
    pub open spec fn settle(self) -> AppModel {
        if self.entries.len() > 0 && all_cleaned(self.entries) {
            AppModel { scanning: false, ..self }
        } else {
            self
        }
    }

    /// Projects have been found and projects have been cleaned.
    pub open spec fn tick(self, arrived: Seq<EntryModel>, done: Seq<DoneModel>) -> AppModel {
        self.receive(arrived).finish_all(done).settle()
    }

    /// The sums of a tick stay within their numbers.
    pub open spec fn tick_fits(self, arrived: Seq<EntryModel>, done: Seq<DoneModel>) -> bool {
        &&& self.total_bytes + bytes_of(arrived) <= u64::MAX
        &&& self.cleaned_bytes + freed(self.entries + arrived, done) <= u64::MAX
        &&& self.cleaned_count + freed_count(self.entries + arrived, done) <= usize::MAX
    }

    /// The kinds of the projects, in the order of the list, are as given.
    pub open spec fn with_kinds(self, kinds: Seq<Seq<char>>) -> AppModel {
        AppModel {
            entries: Seq::new(
                self.entries.len(),
                |i: int|
                    if i < kinds.len() {
                        self.entries[i].with_kind(kinds[i])
                    } else {
                        self.entries[i]
                    },
            ),
            ..self
        }
    }

    /// The mark of the selected entry is the opposite, where the entry is idle.
    pub open spec fn toggle_mark(self) -> AppModel {
        match self.selected_entry() {
            Some(entry) => if entry.idle() {
                AppModel {
                    entries: self.entries.update(
                        self.selected_entry_idx().unwrap() as int,
                        entry.with_mark(!entry.marked),
                    ),
                    ..self
                }
            } else {
                self
            },
            None => self,
        }
    }

    /// The idle entries that are shown have their mark as given.
    pub open spec fn mark_visible(self, marked: bool) -> AppModel {
        AppModel {
            entries: Seq::new(
                self.entries.len(),
                |i: int|
                    if self.visible.contains(i as usize) && self.entries[i].idle() {
                        self.entries[i].with_mark(marked)
                    } else {
                        self.entries[i]
                    },
            ),
            ..self
        }
    }

    /// An entry can be cleaned.
    pub open spec fn can_clean(self, idx: int) -> bool {
        0 <= idx < self.entries.len() && self.entries[idx].idle()
    }

    /// The cleaning of an entry has begun, where the entry is idle.
    pub open spec fn spawn_clean(self, idx: usize) -> AppModel {
        if self.can_clean(idx as int) {
            AppModel {
                entries: self.entries.update(idx as int, self.entries[idx as int].started()),
                ..self
            }
        } else {
            self
        }
    }

    /// The order to clean an entry, where the entry is idle.
    pub open spec fn spawn_clean_job(self, idx: usize) -> Option<JobModel> {
        if self.can_clean(idx as int) {
            Some(job_for(self.entries[idx as int]))
        } else {
            None
        }
    }

    /// The cleaning of every entry that is due has begun.
    pub open spec fn clean_marked(self) -> AppModel {
        if self.dry_run {
            self
        } else {
            AppModel {
                entries: Seq::new(
                    self.entries.len(),
                    |i: int|
                        if self.entries[i].due() {
                            self.entries[i].started()
                        } else {
                            self.entries[i]
                        },
                ),
                ..self
            }
        }
    }

    /// The orders to clean every entry that is due.
    pub open spec fn clean_marked_jobs(self) -> Seq<JobModel> {
        if self.dry_run {
            seq![]
        } else {
            due_jobs(self.entries, self.entries.len())
        }
    }

    /// The cleaning of the selected entry has begun.
    pub open spec fn clean_selected(self) -> AppModel {
        match self.selected_entry_idx() {
            Some(idx) => if self.dry_run {
                self
            } else {
                self.spawn_clean(idx)
            },
            None => self,
        }
    }

    /// The order to clean the selected entry.
    pub open spec fn clean_selected_job(self) -> Option<JobModel> {
        match self.selected_entry_idx() {
            Some(idx) => if self.dry_run {
                None
            } else {
                self.spawn_clean_job(idx)
            },
            None => None,
        }
    }

    /// The row above is selected.
    pub open spec fn move_up(self) -> AppModel {
        match self.list_state.selected {
            Some(row) => if row > 0 {
                self.select(Some((row - 1) as usize))
            } else {
                self
            },
            None => self,
        }
    }

    /// The row below is selected.
    pub open spec fn move_down(self) -> AppModel {
        match self.list_state.selected {
            Some(row) => if row + 1 < self.visible.len() {
                self.select(Some((row + 1) as usize))
            } else {
                self
            },
            None => self,
        }
    }

    /// The keys are for something else.
    pub open spec fn with_mode(self, mode: AppMode) -> AppModel {
        AppModel { mode, ..self }
    }

    /// The query is another, its rows are shown, and the first one is selected.
    pub open spec fn search_for(self, query: Seq<char>) -> AppModel {
        AppModel { query, ..self }.update_visible().select_first()
    }

    /// A character is added to the query.
    pub open spec fn append_search(self, c: char) -> AppModel {
        self.search_for(self.query.push(c))
    }

    /// The last character of the query is taken away.
    pub open spec fn backspace_search(self) -> AppModel {
        if self.query.len() == 0 {
            self.search_for(self.query)
        } else {
            self.search_for(self.query.drop_last())
        }
    }

    /// The query is empty, and the keys are for the list again.
    pub open spec fn cancel_search(self) -> AppModel {
        self.search_for(seq![]).with_mode(AppMode::Normal)
    }

    /// The selected project is looked at, where there is one.
    pub open spec fn open_info(self) -> AppModel {
        if self.selected_entry_idx() is Some {
            self.with_mode(AppMode::Info)
        } else {
            self
        }
    }

    /// The list is in the other order.
    pub open spec fn toggle_sort(self) -> AppModel {
        AppModel { sort_mode: self.sort_mode.other(), ..self }.sort_entries()
    }
}

} // verus!
