//! The state of the program and its operations.

use vstd::prelude::*;
use vstd::string::*;

use crate::laws::law_rows_are_what_the_query_shows;
use crate::model::{
    all_cleaned, bytes_of, due_jobs, entry_at, every_row, freed, freed_count, initial, known, shown,
    still_shown, AppMode, AppModel, DoneModel, JobModel, ListState,
};
use crate::order::{in_order, law_order_is_stable, sort, SortMode};
use crate::path::{PathModel, ProjectPath};
use crate::project::{
    entry_models, found_in_ascii, lemma_typing_narrows, lowers_by_char, search_term, searched, EntryModel, Project,
    ProjectEntry,
};
use crate::text::{
    ascii, ascii_lowered, ascii_text, lemma_occurs_in_itself, occurs_in, texts, trimmed,
};

verus! {

/// An order to clean a project, with the bytes that its artifacts take.
pub struct CleanJob {
    pub project: Project,
    pub bytes: u64,
}

/// The word that a project has been cleaned, with the bytes that were freed.
pub struct CleanDone {
    pub path: ProjectPath,
    pub bytes: u64,
}

impl View for CleanJob {
    type V = JobModel;

    open spec fn view(&self) -> JobModel {
        JobModel { project: self.project@, bytes: self.bytes }
    }
}

impl View for CleanDone {
    type V = DoneModel;

    open spec fn view(&self) -> DoneModel {
        DoneModel { path: self.path@, bytes: self.bytes }
    }
}

/// An order that may be missing, as a mathematical value.
pub open spec fn job_model(job: Option<CleanJob>) -> Option<JobModel> {
    match job {
        Some(job) => Some(job@),
        None => None,
    }
}

/// The orders of a list, as mathematical values.
pub open spec fn job_models(jobs: Seq<CleanJob>) -> Seq<JobModel> {
    Seq::new(jobs.len(), |i: int| jobs[i]@)
}

/// The words of a list, as mathematical values.
pub open spec fn done_models(done: Seq<CleanDone>) -> Seq<DoneModel> {
    Seq::new(done.len(), |i: int| done[i]@)
}

/// The state of the program.
pub struct App {
    entries: Vec<ProjectEntry>,
    visible_indices: Vec<usize>,
    list_state: ListState,
    sort_mode: SortMode,
    dry_run: bool,
    scanning: bool,
    total_bytes: u64,
    cleaned_bytes: u64,
    cleaned_count: usize,
    mode: AppMode,
    search_query: String,
}

impl View for App {
    type V = AppModel;

    closed spec fn view(&self) -> AppModel {
        AppModel {
            entries: entry_models(self.entries@),
            visible: self.visible_indices@,
            list_state: self.list_state,
            sort_mode: self.sort_mode,
            dry_run: self.dry_run,
            scanning: self.scanning,
            total_bytes: self.total_bytes,
            cleaned_bytes: self.cleaned_bytes,
            cleaned_count: self.cleaned_count,
            mode: self.mode,
            query: self.search_query@,
        }
    }
}

impl ListState {
    /// Selects a row; with none, the list goes back to its top.
    pub fn select(&mut self, index: Option<usize>)
        ensures
            *final(self) == old(self).with_row(index),
    {
        self.selected = index;
        if index.is_none() {
            self.offset = 0;
        }
    }
}

/// The first entry with a path.
fn find_entry(entries: &Vec<ProjectEntry>, path: &ProjectPath) -> (r: Option<usize>)
    ensures
        r == entry_at(entry_models(entries@), path@, entries@.len()),
{
    let mut i: usize = 0;
    while i < entries.len()
        invariant
            i <= entries.len(),
            entry_at(entry_models(entries@), path@, i as nat) is None,
        decreases entries.len() - i,
    {
        if entries[i].project.path.same_as(path) {
            proof {
                lemma_entry_at_stays(entry_models(entries@), path@, (i + 1) as nat);
            }
            return Some(i);
        }
        i = i + 1;
    }
    None
}

/// An entry that is found stays the first one.
proof fn lemma_entry_at_stays(entries: Seq<EntryModel>, path: PathModel, n: nat)
    requires
        n <= entries.len(),
        entry_at(entries, path, n) is Some,
    ensures
        entry_at(entries, path, entries.len()) == entry_at(entries, path, n),
    decreases entries.len() - n,
{
    if n < entries.len() {
        lemma_entry_at_stays(entries, path, n + 1);
    }
}

impl App {
    /// The state at the start: no projects, and a scan that is under way.
    pub fn new(sort_mode: SortMode, dry_run: bool) -> (r: App)
        ensures
            r@ == initial(sort_mode, dry_run),
    {
        let r = App {
            entries: Vec::new(),
            visible_indices: Vec::new(),
            list_state: ListState { offset: 0, selected: None },
            sort_mode,
            dry_run,
            scanning: true,
            total_bytes: 0,
            cleaned_bytes: 0,
            cleaned_count: 0,
            mode: AppMode::Normal,
            search_query: String::new(),
        };
        assert(r@ == initial(sort_mode, dry_run));
        r
    }

    /// Shows the rows that the query shows, and keeps a row selected. An ASCII query
    /// shows the entries in whose ASCII path, name or kind it stands, whatever case
    /// they are written in.
    pub fn update_visible(&mut self)
        ensures
            final(self)@ == old(self)@.update_visible(),
            old(self)@.query.len() == 0 ==> final(self)@.visible == every_row(
                old(self)@.entries.len(),
            ),
            ascii_text(old(self)@.query) ==> lowers_by_char(old(self)@.query),
            ascii_text(old(self)@.query) ==> forall|i: int|
                0 <= i < final(self)@.entries.len() ==> {
                    let project = (#[trigger] final(self)@.entries[i]).project;
                    let path = project.path.raw.text();
                    let name = project.path.display_name();
                    let kind = project.kind;
                    let term = trimmed(ascii_lowered(old(self)@.query));
                    let shown = final(self)@.visible.contains(i as usize);
                    &&& ascii_text(path) && ascii_text(name) && ascii_text(kind) ==> (shown <==> {
                        ||| occurs_in(ascii_lowered(path), term)
                        ||| occurs_in(ascii_lowered(name), term)
                        ||| occurs_in(ascii_lowered(kind), term)
                    })
                    &&& ascii_text(name) && occurs_in(ascii_lowered(name), term) ==> shown
                    &&& old(self)@.query == name ==> shown
                },
    {
        let ghost before = self@;
        let term = search_term(self.search_query.as_str());
        let mut visible: Vec<usize> = Vec::new();
        let mut i: usize = 0;
        while i < self.entries.len()
            invariant
                i <= self.entries.len(),
                self@ == before,
                before.entries == entry_models(self.entries@),
                term@ == searched(before.query),
                visible@ == shown(before.entries, before.query, i as nat),
                term@.len() == 0 ==> visible@ == every_row(i as nat),
                forall|j: int|
                    0 <= j < i ==> found_in_ascii(
                        #[trigger] before.entries[j],
                        term@,
                        before.entries[j].matches(before.query),
                    ),
            decreases self.entries.len() - i,
        {
            assert(before.entries[i as int] == self.entries@[i as int]@);
            if self.entries[i].matches_term(term.as_str()) {
                visible.push(i);
            }
            assert(every_row(i as nat).push(i) == every_row((i + 1) as nat));
            i = i + 1;
        }
        proof {
            assert(before.entries.len() == self.entries.len());
            law_rows_are_what_the_query_shows(before.entries, before.query, before.entries.len());
            lemma_occurs_in_itself(ascii_lowered(before.query));
            if ascii_text(before.query) {
                assert(before.query.take(before.query.len() as int) == before.query);
                assert(term@ == trimmed(ascii_lowered(before.query)));
            }
            assert forall|j: int| 0 <= j < before.entries.len() implies visible@.contains(
                j as usize,
            ) == (#[trigger] before.entries[j]).matches(before.query) by {
                if visible@.contains(j as usize) {
                    let k = choose|k: int| 0 <= k < visible@.len() && visible@[k] == j as usize;
                    assert(before.entries[visible@[k] as int].matches(before.query));
                }
            }
        }
        self.visible_indices = visible;
        match self.list_state.selected {
            Some(row) => {
                if row >= self.visible_indices.len() {
                    if self.visible_indices.is_empty() {
                        self.list_state.select(None);
                    } else {
                        let last: usize = self.visible_indices.len() - 1;
                        self.list_state.select(Some(last));
                    }
                }
            },
            None => {
                if !self.visible_indices.is_empty() {
                    self.list_state.select(Some(0));
                }
            },
        }
    }

    /// The position of the entry in the selected row.
    pub fn selected_entry_idx(&self) -> (r: Option<usize>)
        ensures
            r == self@.selected_entry_idx(),
    {
        match self.list_state.selected {
            Some(row) => {
                if row < self.visible_indices.len() {
                    Some(self.visible_indices[row])
                } else {
                    None
                }
            },
            None => None,
        }
    }

    /// The entry in the selected row.
    pub fn selected_entry(&self) -> (r: Option<&ProjectEntry>)
        ensures
            match r {
                Some(entry) => self@.selected_entry() == Some(entry@),
                None => self@.selected_entry() is None,
            },
    {
        match self.selected_entry_idx() {
            Some(idx) => {
                if idx < self.entries.len() {
                    Some(&self.entries[idx])
                } else {
                    None
                }
            },
            None => None,
        }
    }

    /// Selects the row of a path, where there is one.
    fn select_path(&mut self, path: &ProjectPath)
        ensures
            final(self)@ == old(self)@.select_path(path@),
    {
        let ghost before = self@;
        let mut row: usize = 0;
        while row < self.visible_indices.len()
            invariant
                row <= self.visible_indices.len(),
                self@ == before,
                before == old(self)@,
                before.row_of(path@, row as nat) is None,
            decreases self.visible_indices.len() - row,
        {
            let idx: usize = self.visible_indices[row];
            if idx < self.entries.len() && self.entries[idx].project.path.same_as(path) {
                proof {
                    lemma_row_of_stays(before, path@, (row + 1) as nat);
                }
                self.list_state.select(Some(row));
                return;
            }
            row = row + 1;
        }
    }

    /// Puts the list in order and moves the selection with its project.
    pub fn sort_entries(&mut self)
        ensures
            final(self)@ == old(self)@.sort_entries(),
    {
        let selected_path = match self.selected_entry() {
            Some(entry) => Some(entry.project.path.clone()),
            None => None,
        };
        sort(&mut self.entries, self.sort_mode);
        self.update_visible();
        match selected_path {
            Some(path) => self.select_path(&path),
            None => {},
        }
    }
}

impl App {
    /// Takes in projects that have been found.
    fn receive(&mut self, arrived: Vec<ProjectEntry>)
        requires
            old(self)@.total_bytes + bytes_of(entry_models(arrived@)) <= u64::MAX,
        ensures
            final(self)@ == old(self)@.receive(entry_models(arrived@)),
    {
        if arrived.is_empty() {
            return;
        }
        let ghost models = entry_models(arrived@);
        let mut total: u64 = self.total_bytes;
        let mut i: usize = 0;
        while i < arrived.len()
            invariant
                i <= arrived.len(),
                models == entry_models(arrived@),
                self.total_bytes + bytes_of(models) <= u64::MAX,
                total == self.total_bytes + bytes_of(models.take(i as int)),
            decreases arrived.len() - i,
        {
            proof {
                assert(models.take(i + 1).drop_last() == models.take(i as int));
                lemma_bytes_of_take(models, i + 1);
            }
            total = total + arrived[i].artifact_bytes;
            i = i + 1;
        }
        assert(models.take(i as int) == models);
        let mut arrived = arrived;
        self.total_bytes = total;
        self.entries.append(&mut arrived);
        assert(entry_models(self.entries@) == old(self)@.entries + models);
        self.sort_entries();
    }

    /// Takes in the word that a project has been cleaned.
    fn finish(&mut self, done: &CleanDone)
        requires
            known(old(self)@.entries, done@.path) ==> old(self)@.cleaned_bytes + done.bytes
                <= u64::MAX && old(self)@.cleaned_count < usize::MAX,
        ensures
            final(self)@ == old(self)@.finish(done@),
    {
        match find_entry(&self.entries, &done.path) {
            Some(i) => {
                proof {
                    assert(self@.entries.len() == self.entries.len());
                    lemma_entry_at(self@.entries, done@.path, self@.entries.len());
                }
                self.entries[i].cleaned = true;
                self.entries[i].cleaning = false;
                self.entries[i].marked = false;
                self.entries[i].artifact_bytes = 0;
                self.cleaned_bytes = self.cleaned_bytes + done.bytes;
                self.cleaned_count = self.cleaned_count + 1;
                assert(self@.entries == old(self)@.finish(done@).entries);
            },
            None => {},
        }
    }

    /// Whether the sums of a tick stay within their numbers.
    pub fn tick_fits(&self, arrived: &Vec<ProjectEntry>, finished: &Vec<CleanDone>) -> (r: bool)
        ensures
            r == self@.tick_fits(entry_models(arrived@), done_models(finished@)),
    {
        let ghost models = entry_models(arrived@);
        let ghost done = done_models(finished@);
        let ghost all = self@.entries + models;
        let mut total: u64 = self.total_bytes;
        let mut i: usize = 0;
        while i < arrived.len()
            invariant
                i <= arrived.len(),
                models == entry_models(arrived@),
                total == self.total_bytes + bytes_of(models.take(i as int)),
            decreases arrived.len() - i,
        {
            proof {
                assert(models.take(i + 1).drop_last() == models.take(i as int));
                lemma_bytes_of_take(models, i + 1);
            }
            if arrived[i].artifact_bytes > u64::MAX - total {
                return false;
            }
            total = total + arrived[i].artifact_bytes;
            i = i + 1;
        }
        assert(models.take(i as int) == models);
        let mut bytes: u64 = self.cleaned_bytes;
        let mut count: usize = self.cleaned_count;
        let mut k: usize = 0;
        while k < finished.len()
            invariant
                k <= finished.len(),
                models == entry_models(arrived@),
                done == done_models(finished@),
                all == self@.entries + models,
                bytes == self.cleaned_bytes + freed(all, done.take(k as int)),
                count == self.cleaned_count + freed_count(all, done.take(k as int)),
            decreases finished.len() - k,
        {
            proof {
                assert(done.take(k + 1).drop_last() == done.take(k as int));
                lemma_freed_take(all, done, k + 1);
                assert(self@.entries.len() == self.entries.len() && models.len() == arrived.len());
                lemma_entry_at(self@.entries, done[k as int].path, self@.entries.len());
                lemma_entry_at(models, done[k as int].path, models.len());
                lemma_known_of_both(self@.entries, models, done[k as int].path);
            }
            if find_entry(&self.entries, &finished[k].path).is_some() || find_entry(
                arrived,
                &finished[k].path,
            ).is_some() {
                if finished[k].bytes > u64::MAX - bytes || count == usize::MAX {
                    return false;
                }
                bytes = bytes + finished[k].bytes;
                count = count + 1;
            }
            k = k + 1;
        }
        assert(done.take(k as int) == done);
        true
    }

    /// Takes in the projects that have been found and the word of those that
    /// have been cleaned since the last time.
    pub fn tick(&mut self, arrived: Vec<ProjectEntry>, finished: &Vec<CleanDone>)
        requires
            old(self)@.tick_fits(entry_models(arrived@), done_models(finished@)),
        ensures
            final(self)@ == old(self)@.tick(entry_models(arrived@), done_models(finished@)),
    {
        let ghost before = self@;
        let ghost models = entry_models(arrived@);
        let ghost done = done_models(finished@);
        let ghost all = before.entries + models;
        self.receive(arrived);
        let ghost received = self@;
        proof {
            lemma_receive_known(before, models);
        }
        let mut k: usize = 0;
        while k < finished.len()
            invariant
                k <= finished.len(),
                done == done_models(finished@),
                self@ == received.finish_all(done.take(k as int)),
                before.cleaned_bytes + freed(all, done) <= u64::MAX,
                before.cleaned_count + freed_count(all, done) <= usize::MAX,
                forall|path: PathModel| #[trigger] known(self@.entries, path) == known(all, path),
                self@.cleaned_bytes == before.cleaned_bytes + freed(all, done.take(k as int)),
                self@.cleaned_count == before.cleaned_count + freed_count(all, done.take(k as int)),
            decreases finished.len() - k,
        {
            let ghost so_far = self@;
            proof {
                assert(so_far.entries.len() == self.entries.len());
                assert(done.take(k + 1).drop_last() == done.take(k as int));
                lemma_freed_take(all, done, k + 1);
                assert(done.take(k + 1).last() == done[k as int]);
                assert(known(self@.entries, done[k as int].path) == known(all, done[k as int].path));
            }
            self.finish(&finished[k]);
            proof {
                lemma_entry_at(so_far.entries, done[k as int].path, so_far.entries.len());
                assert forall|path: PathModel| #[trigger] known(self@.entries, path) == known(
                    all,
                    path,
                ) by {
                    lemma_finish_known(so_far, done[k as int], path);
                    assert(known(so_far.entries, path) == known(all, path));
                }
            }
            k = k + 1;
        }
        assert(done.take(k as int) == done);
        if !self.entries.is_empty() && self.is_all_cleaned() {
            self.scanning = false;
        }
    }

    /// Takes over the kinds of the projects, in the order of the list. The rows
    /// stay as they are until they are shown anew.
    pub fn set_kinds(&mut self, kinds: &Vec<String>)
        ensures
            final(self)@ == old(self)@.with_kinds(texts(kinds@)),
    {
        let ghost before = self@;
        let ghost given = texts(kinds@);
        let mut i: usize = 0;
        while i < self.entries.len() && i < kinds.len()
            invariant
                i <= self.entries.len(),
                i <= kinds.len(),
                given == texts(kinds@),
                before == old(self)@,
                self@ == (AppModel { entries: self@.entries, ..before }),
                self@.entries.len() == before.entries.len(),
                forall|j: int|
                    0 <= j < before.entries.len() ==> #[trigger] self@.entries[j] == if j < i {
                        before.entries[j].with_kind(given[j])
                    } else {
                        before.entries[j]
                    },
            decreases self.entries.len() - i,
        {
            let ghost so_far = self@;
            assert(so_far.entries.len() == self.entries.len());
            self.entries[i].project.kind = kinds[i].clone();
            assert forall|j: int| 0 <= j < before.entries.len() implies #[trigger] self@.entries[j]
                == if j < i + 1 {
                before.entries[j].with_kind(given[j])
            } else {
                before.entries[j]
            } by {
                assert(so_far.entries[j] == if j < i {
                    before.entries[j].with_kind(given[j])
                } else {
                    before.entries[j]
                });
            }
            i = i + 1;
        }
        assert(self@.entries.len() == self.entries.len());
        assert(self@.entries == before.with_kinds(given).entries);
    }

    /// Whether every entry has been cleaned.
    fn is_all_cleaned(&self) -> (r: bool)
        ensures
            r == all_cleaned(self@.entries),
    {
        let mut i: usize = 0;
        while i < self.entries.len()
            invariant
                i <= self.entries.len(),
                forall|j: int| 0 <= j < i ==> (#[trigger] self@.entries[j]).cleaned,
            decreases self.entries.len() - i,
        {
            if !self.entries[i].cleaned {
                assert(!self@.entries[i as int].cleaned);
                return false;
            }
            i = i + 1;
        }
        true
    }
}

impl App {
    /// Turns the mark of the selected entry over, where the entry is idle.
    pub fn toggle_mark(&mut self)
        ensures
            final(self)@ == old(self)@.toggle_mark(),
    {
        match self.selected_entry_idx() {
            Some(idx) => {
                if idx < self.entries.len() && self.entries[idx].is_idle() {
                    let marked: bool = self.entries[idx].marked;
                    self.entries[idx].marked = !marked;
                    assert(self@.entries == old(self)@.toggle_mark().entries);
                }
            },
            None => {},
        }
    }

    /// Sets the mark of every idle entry that is shown.
    fn mark_visible(&mut self, marked: bool)
        ensures
            final(self)@ == old(self)@.mark_visible(marked),
    {
        let ghost before = self@;
        let mut row: usize = 0;
        while row < self.visible_indices.len()
            invariant
                row <= self.visible_indices.len(),
                before == old(self)@,
                self@ == (AppModel { entries: self@.entries, ..before }),
                self@.entries.len() == before.entries.len(),
                forall|i: int|
                    0 <= i < before.entries.len() ==> #[trigger] self@.entries[i] == if before.visible.take(
                        row as int,
                    ).contains(i as usize) && before.entries[i].idle() {
                        before.entries[i].with_mark(marked)
                    } else {
                        before.entries[i]
                    },
            decreases self.visible_indices.len() - row,
        {
            let ghost so_far = self@;
            let idx: usize = self.visible_indices[row];
            if idx < self.entries.len() && self.entries[idx].is_idle() {
                self.entries[idx].marked = marked;
            }
            proof {
                let seen = before.visible.take(row as int);
                let seen_now = before.visible.take(row + 1);
                assert(seen_now == seen.push(idx));
                assert(seen_now[row as int] == idx);
                assert forall|i: int| 0 <= i < before.entries.len() implies #[trigger] self@.entries[i]
                    == if seen_now.contains(i as usize) && before.entries[i].idle() {
                    before.entries[i].with_mark(marked)
                } else {
                    before.entries[i]
                } by {
                    assert(so_far.entries.len() == self.entries.len());
                    assert(so_far.entries[i] == if seen.contains(i as usize)
                        && before.entries[i].idle() {
                        before.entries[i].with_mark(marked)
                    } else {
                        before.entries[i]
                    });
                    if seen.contains(i as usize) {
                        let k = choose|k: int| 0 <= k < seen.len() && seen[k] == i as usize;
                        assert(seen_now[k] == i as usize);
                    }
                    if i as usize == idx {
                        assert(i == idx);
                    } else {
                        assert(self@.entries[i] == so_far.entries[i]);
                        if seen_now.contains(i as usize) {
                            let k = choose|k: int|
                                0 <= k < seen_now.len() && seen_now[k] == i as usize;
                            assert(seen[k] == i as usize);
                        }
                    }
                }
            }
            row = row + 1;
        }
        assert(before.visible.take(row as int) == before.visible);
        assert(self@.entries == before.mark_visible(marked).entries);
    }

    /// Marks every idle entry that is shown.
    pub fn mark_all(&mut self)
        ensures
            final(self)@ == old(self)@.mark_visible(true),
    {
        self.mark_visible(true);
    }

    /// Takes the mark off every idle entry that is shown.
    pub fn unmark_all(&mut self)
        ensures
            final(self)@ == old(self)@.mark_visible(false),
    {
        self.mark_visible(false);
    }

    /// Begins to clean an entry, where it is idle, and gives the order for it.
    pub fn spawn_clean(&mut self, idx: usize) -> (job: Option<CleanJob>)
        ensures
            final(self)@ == old(self)@.spawn_clean(idx),
            job_model(job) == old(self)@.spawn_clean_job(idx),
    {
        if idx >= self.entries.len() || !self.entries[idx].is_idle() {
            return None;
        }
        self.entries[idx].cleaning = true;
        self.entries[idx].marked = false;
        assert(self@.entries == old(self)@.spawn_clean(idx).entries);
        let job = CleanJob {
            project: self.entries[idx].project.clone(),
            bytes: self.entries[idx].artifact_bytes,
        };
        Some(job)
    }

    /// Begins to clean every entry that is marked, and gives the orders for
    /// them.
    pub fn clean_marked(&mut self) -> (jobs: Vec<CleanJob>)
        ensures
            final(self)@ == old(self)@.clean_marked(),
            job_models(jobs@) == old(self)@.clean_marked_jobs(),
    {
        let mut jobs: Vec<CleanJob> = Vec::new();
        if self.dry_run {
            assert(job_models(jobs@) == self@.clean_marked_jobs());
            return jobs;
        }
        let ghost before = self@;
        let mut i: usize = 0;
        assert(job_models(jobs@) == due_jobs(before.entries, 0));
        while i < self.entries.len()
            invariant
                i <= self.entries.len(),
                before == old(self)@,
                !before.dry_run,
                self@ == (AppModel { entries: self@.entries, ..before }),
                self@.entries.len() == before.entries.len(),
                forall|j: int|
                    0 <= j < before.entries.len() ==> #[trigger] self@.entries[j] == if j < i
                        && before.entries[j].due() {
                        before.entries[j].started()
                    } else {
                        before.entries[j]
                    },
                job_models(jobs@) == due_jobs(before.entries, i as nat),
            decreases self.entries.len() - i,
        {
            let ghost so_far = self@;
            assert(so_far.entries.len() == self.entries.len());
            assert(so_far.entries[i as int] == before.entries[i as int]);
            if self.entries[i].marked && self.entries[i].is_idle() {
                let ghost given = job_models(jobs@);
                if let Some(job) = self.spawn_clean(i) {
                    jobs.push(job);
                    assert(job_models(jobs@) == given.push(job@));
                }
            }
            assert forall|j: int| 0 <= j < before.entries.len() implies #[trigger] self@.entries[j]
                == if j < i + 1 && before.entries[j].due() {
                before.entries[j].started()
            } else {
                before.entries[j]
            } by {
                assert(so_far.entries[j] == if j < i && before.entries[j].due() {
                    before.entries[j].started()
                } else {
                    before.entries[j]
                });
            }
            assert(self@.entries.len() == self.entries.len());
            i = i + 1;
        }
        assert(self@.entries == before.clean_marked().entries);
        jobs
    }

    /// Begins to clean the selected entry, and gives the order for it.
    pub fn clean_selected(&mut self) -> (job: Option<CleanJob>)
        ensures
            final(self)@ == old(self)@.clean_selected(),
            job_model(job) == old(self)@.clean_selected_job(),
    {
        if self.dry_run {
            return None;
        }
        match self.selected_entry_idx() {
            Some(idx) => self.spawn_clean(idx),
            None => None,
        }
    }

    /// The project in the selected row, which is to be opened.
    pub fn open_selected(&self) -> (r: Option<Project>)
        ensures
            match r {
                Some(project) => self@.selected_entry() is Some && project@
                    == self@.selected_entry().unwrap().project,
                None => self@.selected_entry() is None,
            },
    {
        match self.selected_entry() {
            Some(entry) => Some(entry.project.clone()),
            None => None,
        }
    }

    /// Selects the row above.
    pub fn move_up(&mut self)
        ensures
            final(self)@ == old(self)@.move_up(),
    {
        match self.list_state.selected {
            Some(row) => {
                if row > 0 {
                    self.list_state.select(Some(row - 1));
                }
            },
            None => {},
        }
    }

    /// Selects the row below.
    pub fn move_down(&mut self)
        ensures
            final(self)@ == old(self)@.move_down(),
    {
        match self.list_state.selected {
            Some(row) => {
                if row < self.visible_indices.len().saturating_sub(1) {
                    self.list_state.select(Some(row + 1));
                }
            },
            None => {},
        }
    }

    /// Selects the first row.
    pub fn select_first(&mut self)
        ensures
            final(self)@ == old(self)@.select_first(),
    {
        if !self.visible_indices.is_empty() {
            self.list_state.select(Some(0));
        }
    }

    /// Selects the last row.
    pub fn select_last(&mut self)
        ensures
            final(self)@ == old(self)@.select_last(),
    {
        if !self.visible_indices.is_empty() {
            let last: usize = self.visible_indices.len() - 1;
            self.list_state.select(Some(last));
        }
    }

    /// Begins to write a query.
    pub fn enter_search(&mut self)
        ensures
            final(self)@ == old(self)@.with_mode(AppMode::Search),
    {
        self.mode = AppMode::Search;
    }

    /// Adds a character to the query. An ASCII query that grows by an ASCII
    /// character only narrows: of the rows that it showed, those stay that it still
    /// shows.
    pub fn append_search(&mut self, c: char)
        ensures
            final(self)@ == old(self)@.append_search(c),
            final(self)@.query == old(self)@.query.push(c),
            final(self)@.entries == old(self)@.entries,
            final(self)@.mode == old(self)@.mode,
            final(self)@.list_state.selected == if final(self)@.visible.len() > 0 {
                Some(0usize)
            } else {
                None
            },
            ascii_text(final(self)@.query) ==> forall|i: int|
                0 <= i < final(self)@.entries.len() ==> {
                    let project = (#[trigger] final(self)@.entries[i]).project;
                    let path = project.path.raw.text();
                    let name = project.path.display_name();
                    let kind = project.kind;
                    let term = trimmed(ascii_lowered(final(self)@.query));
                    let shown = final(self)@.visible.contains(i as usize);
                    &&& ascii_text(path) && ascii_text(name) && ascii_text(kind) ==> (shown <==> {
                        ||| occurs_in(ascii_lowered(path), term)
                        ||| occurs_in(ascii_lowered(name), term)
                        ||| occurs_in(ascii_lowered(kind), term)
                    })
                    &&& ascii_text(name) && occurs_in(ascii_lowered(name), term) ==> shown
                    &&& final(self)@.query == name ==> shown
                },
            old(self)@.shows_its_rows() && ascii_text(old(self)@.query) && ascii(c) ==> {
                &&& final(self)@.visible == still_shown(
                    old(self)@.visible,
                    old(self)@.entries,
                    final(self)@.query,
                )
                &&& forall|k: int|
                    0 <= k < final(self)@.visible.len() ==> old(self)@.visible.contains(
                        #[trigger] final(self)@.visible[k],
                    )
            },
    {
        assert(self@.entries.len() == self.entries.len());
        self.search_query.push(c);
        self.update_visible();
        self.select_first();
        proof {
            let before = old(self)@;
            if before.shows_its_rows() && ascii_text(before.query) && ascii(c) {
                lemma_rows_narrow(before.entries, before.query, c, before.entries.len());
                let kept = |idx: usize| before.entries[idx as int].matches(self@.query);
                assert forall|k: int| 0 <= k < self@.visible.len() implies before.visible.contains(
                    #[trigger] self@.visible[k],
                ) by {
                    before.visible.lemma_filter_contains_rev(kept, self@.visible[k]);
                }
            }
        }
    }

    /// Takes the last character of the query away.
    pub fn backspace_search(&mut self)
        ensures
            final(self)@ == old(self)@.backspace_search(),
    {
        self.search_query.pop();
        self.update_visible();
        self.select_first();
    }

    /// Empties the query and goes back to the list, which shows every entry.
    pub fn cancel_search(&mut self)
        ensures
            final(self)@ == old(self)@.cancel_search(),
            final(self)@.visible == every_row(old(self)@.entries.len()),
            final(self)@.visible.len() == old(self)@.entries.len(),
            forall|i: int|
                0 <= i < old(self)@.entries.len() ==> #[trigger] final(self)@.visible[i] == i,
    {
        assert(self@.entries.len() == self.entries.len());
        self.search_query = String::new();
        self.update_visible();
        self.mode = AppMode::Normal;
        self.select_first();
    }

    /// Goes back to the list with the query as it is.
    pub fn confirm_search(&mut self)
        ensures
            final(self)@ == old(self)@.with_mode(AppMode::Normal),
    {
        self.mode = AppMode::Normal;
    }

    /// Looks at the selected project.
    pub fn open_info(&mut self)
        ensures
            final(self)@ == old(self)@.open_info(),
    {
        if self.selected_entry_idx().is_some() {
            self.mode = AppMode::Info;
        }
    }

    /// Goes back to the list.
    pub fn close_modal(&mut self)
        ensures
            final(self)@ == old(self)@.with_mode(AppMode::Normal),
    {
        self.mode = AppMode::Normal;
    }

    /// Puts the list in the other order.
    pub fn toggle_sort(&mut self)
        ensures
            final(self)@ == old(self)@.toggle_sort(),
    {
        self.sort_mode = match self.sort_mode {
            SortMode::Size => SortMode::Date,
            SortMode::Date => SortMode::Size,
        };
        self.sort_entries();
    }

    /// The entries, in the order of the list.
    pub fn entries(&self) -> (r: &Vec<ProjectEntry>)
        ensures
            entry_models(r@) == self@.entries,
    {
        &self.entries
    }

    /// The positions of the entries that are shown.
    pub fn visible_indices(&self) -> (r: &Vec<usize>)
        ensures
            r@ == self@.visible,
    {
        &self.visible_indices
    }

    /// The selected row and the first row on the screen.
    pub fn list_state(&self) -> (r: ListState)
        ensures
            r == self@.list_state,
    {
        self.list_state
    }

    /// Takes over the selected row and the first row that the screen has.
    pub fn set_list_state(&mut self, list_state: ListState)
        ensures
            final(self)@ == (AppModel { list_state, ..old(self)@ }),
    {
        self.list_state = list_state;
    }

    /// What the list is ordered by.
    pub fn sort_mode(&self) -> (r: SortMode)
        ensures
            r == self@.sort_mode,
    {
        self.sort_mode
    }

    /// Whether nothing is to be cleaned.
    pub fn dry_run(&self) -> (r: bool)
        ensures
            r == self@.dry_run,
    {
        self.dry_run
    }

    /// Whether projects may still be found.
    pub fn scanning(&self) -> (r: bool)
        ensures
            r == self@.scanning,
    {
        self.scanning
    }

    /// The bytes of all artifacts that were found.
    pub fn total_bytes(&self) -> (r: u64)
        ensures
            r == self@.total_bytes,
    {
        self.total_bytes
    }

    /// The bytes that were freed.
    pub fn cleaned_bytes(&self) -> (r: u64)
        ensures
            r == self@.cleaned_bytes,
    {
        self.cleaned_bytes
    }

    /// The number of projects that were cleaned.
    pub fn cleaned_count(&self) -> (r: usize)
        ensures
            r == self@.cleaned_count,
    {
        self.cleaned_count
    }

    /// What the keys are for.
    pub fn mode(&self) -> (r: AppMode)
        ensures
            r == self@.mode,
    {
        self.mode
    }

    /// The query.
    pub fn search_query(&self) -> (r: &str)
        ensures
            r@ == self@.query,
    {
        self.search_query.as_str()
    }
}

/// A part of a list takes no more bytes than the list.
proof fn lemma_bytes_of_take(entries: Seq<EntryModel>, n: int)
    requires
        0 <= n <= entries.len(),
    ensures
        bytes_of(entries.take(n)) <= bytes_of(entries),
    decreases entries.len() - n,
{
    if n == entries.len() {
        assert(entries.take(n) == entries);
    } else {
        assert(entries.take(n + 1).drop_last() == entries.take(n));
        lemma_bytes_of_take(entries, n + 1);
    }
}

/// Some of the cleanings free no more than all of them.
proof fn lemma_freed_take(entries: Seq<EntryModel>, done: Seq<DoneModel>, n: int)
    requires
        0 <= n <= done.len(),
    ensures
        freed(entries, done.take(n)) <= freed(entries, done),
        freed_count(entries, done.take(n)) <= freed_count(entries, done),
    decreases done.len() - n,
{
    if n == done.len() {
        assert(done.take(n) == done);
    } else {
        assert(done.take(n + 1).drop_last() == done.take(n));
        lemma_freed_take(entries, done, n + 1);
    }
}

/// The first entry with a path is one with that path, and none before it has
/// it; there is one exactly if the path is known.
pub(crate) proof fn lemma_entry_at(entries: Seq<EntryModel>, path: PathModel, n: nat)
    requires
        n <= entries.len() <= usize::MAX,
    ensures
        match entry_at(entries, path, n) {
            Some(i) => {
                &&& i < n
                &&& entries[i as int].project.path.same_as(path)
                &&& forall|j: int|
                    0 <= j < i ==> !(#[trigger] entries[j]).project.path.same_as(path)
            },
            None => forall|j: int|
                0 <= j < n ==> !(#[trigger] entries[j]).project.path.same_as(path),
        },
        n == entries.len() ==> known(entries, path) == (entry_at(entries, path, n) is Some),
    decreases n,
{
    if n > 0 {
        lemma_entry_at(entries, path, (n - 1) as nat);
    }
}

/// A path is known to two lists put together if one of them knows it.
proof fn lemma_known_of_both(a: Seq<EntryModel>, b: Seq<EntryModel>, path: PathModel)
    ensures
        known(a + b, path) == (known(a, path) || known(b, path)),
{
    if known(a, path) {
        let i = choose|i: int| 0 <= i < a.len() && (#[trigger] a[i]).project.path.same_as(path);
        assert((a + b)[i].project.path.same_as(path));
    }
    if known(b, path) {
        let i = choose|i: int| 0 <= i < b.len() && (#[trigger] b[i]).project.path.same_as(path);
        assert((a + b)[a.len() + i].project.path.same_as(path));
    }
    if known(a + b, path) {
        let i = choose|i: int|
            0 <= i < (a + b).len() && (#[trigger] (a + b)[i]).project.path.same_as(path);
        if i < a.len() {
            assert(a[i].project.path.same_as(path));
        } else {
            assert(b[i - a.len()].project.path.same_as(path));
        }
    }
}

/// Ordering a list changes nothing about the paths that it knows.
proof fn lemma_order_known(entries: Seq<EntryModel>, mode: SortMode, path: PathModel)
    ensures
        known(in_order(entries, mode), path) == known(entries, path),
{
    broadcast use vstd::seq_lib::group_to_multiset_ensures;

    let sorted = in_order(entries, mode);
    law_order_is_stable(entries, mode);
    if known(entries, path) {
        let i = choose|i: int|
            0 <= i < entries.len() && (#[trigger] entries[i]).project.path.same_as(path);
        assert(entries.contains(entries[i]));
        assert(sorted.to_multiset().count(entries[i]) > 0);
        let j = choose|j: int| 0 <= j < sorted.len() && sorted[j] == entries[i];
        assert(sorted[j].project.path.same_as(path));
    }
    if known(sorted, path) {
        let i = choose|i: int|
            0 <= i < sorted.len() && (#[trigger] sorted[i]).project.path.same_as(path);
        assert(sorted.contains(sorted[i]));
        assert(entries.to_multiset().count(sorted[i]) > 0);
        let j = choose|j: int| 0 <= j < entries.len() && entries[j] == sorted[i];
        assert(entries[j].project.path.same_as(path));
    }
}

/// Taking in projects changes only the entries, their order, what is shown and
/// the total; the paths that are known are those of before and of the new ones.
proof fn lemma_receive_known(m: AppModel, arrived: Seq<EntryModel>)
    ensures
        m.receive(arrived).cleaned_bytes == m.cleaned_bytes,
        m.receive(arrived).cleaned_count == m.cleaned_count,
        forall|path: PathModel| #[trigger]
            known(m.receive(arrived).entries, path) == known(m.entries + arrived, path),
{
    assert forall|path: PathModel| #[trigger]
        known(m.receive(arrived).entries, path) == known(m.entries + arrived, path) by {
        if arrived.len() == 0 {
            assert(m.entries + arrived == m.entries);
        } else {
            lemma_order_known(m.entries + arrived, m.sort_mode, path);
        }
    }
}

/// The word that a project has been cleaned changes no path.
proof fn lemma_finish_known(m: AppModel, done: DoneModel, path: PathModel)
    requires
        m.entries.len() <= usize::MAX,
    ensures
        known(m.finish(done).entries, path) == known(m.entries, path),
{
    let after = m.finish(done).entries;
    lemma_entry_at(m.entries, done.path, m.entries.len());
    assert(after.len() == m.entries.len());
    assert forall|j: int| 0 <= j < after.len() implies (#[trigger] after[j]).project
        == m.entries[j].project by {}
    if known(m.entries, path) {
        let i = choose|i: int|
            0 <= i < m.entries.len() && (#[trigger] m.entries[i]).project.path.same_as(path);
        assert(after[i].project.path.same_as(path));
    }
    if known(after, path) {
        let i = choose|i: int|
            0 <= i < after.len() && (#[trigger] after[i]).project.path.same_as(path);
        assert(m.entries[i].project.path.same_as(path));
    }
}

/// Of the rows of a query, those that a longer one still shows are its rows, where
/// the two are lowered character by character.
proof fn lemma_rows_narrow(entries: Seq<EntryModel>, query: Seq<char>, c: char, n: nat)
    requires
        n <= entries.len() <= usize::MAX,
        lowers_by_char(query.push(c)),
    ensures
        shown(entries, query.push(c), n) == still_shown(
            shown(entries, query, n),
            entries,
            query.push(c),
        ),
    decreases n,
{
    reveal(Seq::filter);
    if n > 0 {
        lemma_rows_narrow(entries, query, c, (n - 1) as nat);
        let before = shown(entries, query, (n - 1) as nat);
        if entries[n - 1].matches(query) {
            assert(before.push((n - 1) as usize).drop_last() == before);
        } else if entries[n - 1].matches(query.push(c)) {
            lemma_typing_narrows(entries[n - 1], query, c);
        }
    }
}

/// A row that is found stays the first one.
proof fn lemma_row_of_stays(m: AppModel, path: PathModel, n: nat)
    requires
        n <= m.visible.len(),
        m.row_of(path, n) is Some,
    ensures
        m.row_of(path, m.visible.len()) == m.row_of(path, n),
    decreases m.visible.len() - n,
{
    if n < m.visible.len() {
        lemma_row_of_stays(m, path, n + 1);
    }
}

/// What is said of an order and of the word of a cleaning is said of their fields.
pub proof fn law_views(job: CleanJob, done: CleanDone, jobs: Seq<CleanJob>, words: Seq<CleanDone>)
    ensures
        job@.project == job.project@ && job@.bytes == job.bytes,
        done@.path == done.path@ && done@.bytes == done.bytes,
        job_model(Some(job)) == Some(job@) && job_model(None) is None,
        job_models(jobs).len() == jobs.len() && done_models(words).len() == words.len(),
        forall|i: int| 0 <= i < jobs.len() ==> #[trigger] job_models(jobs)[i] == jobs[i]@,
        forall|i: int| 0 <= i < words.len() ==> #[trigger] done_models(words)[i] == words[i]@,
{
}

} // verus!
