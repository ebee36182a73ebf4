//! What holds of the program as a whole.

use vstd::prelude::*;

use crate::header::marked_bytes;
use crate::keys::{ActionModel, KeyCode};
use crate::model::{
    all_cleaned, bytes_of, due_jobs, entry_at, freed, freed_count, initial, job_for, shown, AppMode,
    AppModel, DoneModel, JobModel, ListState,
};
use crate::order::{
    falling, in_order, law_falling_order_comes_back, law_order_is_stable, law_order_twice, placed,
    SortMode,
};
use crate::path::PathModel;
use crate::project::EntryModel;
use crate::rows::{law_every_position_has_its_row, rows};
use crate::state::lemma_entry_at;

verus! {

impl EntryModel {
    /// The marks of an entry agree: it is not being cleaned once it has been,
    /// it is marked only while it is idle, and it takes nothing once cleaned.
    pub open spec fn agrees(self) -> bool {
        &&& !(self.cleaning && self.cleaned)
        &&& self.marked ==> self.idle()
        &&& self.cleaned ==> self.artifact_bytes == 0
    }

    /// The entry is new: nothing has been done with it.
    pub open spec fn fresh(self) -> bool {
        !self.marked && !self.cleaning && !self.cleaned
    }
}

/// The marks of all entries agree.
pub open spec fn all_agree(entries: Seq<EntryModel>) -> bool {
    forall|i: int| 0 <= i < entries.len() ==> (#[trigger] entries[i]).agrees()
}

/// All entries are new.
pub open spec fn all_fresh(entries: Seq<EntryModel>) -> bool {
    forall|i: int| 0 <= i < entries.len() ==> (#[trigger] entries[i]).fresh()
}

/// Two lists hold the same projects in the same order.
pub open spec fn same_projects(a: Seq<EntryModel>, b: Seq<EntryModel>) -> bool {
    &&& a.len() == b.len()
    &&& forall|i: int| 0 <= i < a.len() ==> (#[trigger] a[i]).project == b[i].project
}

/// The bytes that idle entries take.
pub open spec fn idle_bytes(entries: Seq<EntryModel>) -> nat
    decreases entries.len(),
{
    if entries.len() == 0 {
        0
    } else {
        idle_bytes(entries.drop_last()) + if entries.last().idle() {
            entries.last().artifact_bytes as nat
        } else {
            0
        }
    }
}

/// The bytes of the orders of a list.
pub open spec fn job_bytes(jobs: Seq<JobModel>) -> nat
    decreases jobs.len(),
{
    if jobs.len() == 0 {
        0
    } else {
        job_bytes(jobs.drop_last()) + jobs.last().bytes as nat
    }
}

/// The bytes of the cleanings of a list.
pub open spec fn done_bytes(done: Seq<DoneModel>) -> nat
    decreases done.len(),
{
    if done.len() == 0 {
        0
    } else {
        done_bytes(done.drop_last()) + done.last().bytes as nat
    }
}

impl AppModel {
    /// The rows are exactly what the query shows, and a row is selected that is
    /// there, or none where there are none.
    pub open spec fn rows_agree(self) -> bool {
        &&& self.entries.len() <= usize::MAX
        &&& self.visible == shown(self.entries, self.query, self.entries.len())
        &&& match self.list_state.selected {
            Some(row) => row < self.visible.len(),
            None => self.visible.len() == 0,
        }
    }

    /// The state is in order: its rows and the marks of its entries agree, and
    /// a project is looked at only while one is selected.
    pub open spec fn consistent(self) -> bool {
        &&& self.rows_agree()
        &&& all_agree(self.entries)
        &&& self.mode == AppMode::Info ==> self.selected_entry() is Some
    }
}

/// The rows of a list are strictly rising positions of entries that the query
/// shows, and none of those is left out.
pub proof fn law_rows_are_what_the_query_shows(entries: Seq<EntryModel>, query: Seq<char>, n: nat)
    requires
        n <= entries.len() <= usize::MAX,
    ensures
        shown(entries, query, n).len() <= n,
        forall|k: int|
            0 <= k < shown(entries, query, n).len() ==> {
                &&& (#[trigger] shown(entries, query, n)[k]) < n
                &&& entries[shown(entries, query, n)[k] as int].matches(query)
            },
        forall|j: int, k: int|
            0 <= j < k < shown(entries, query, n).len() ==> shown(entries, query, n)[j] < shown(
                entries,
                query,
                n,
            )[k],
        forall|i: int|
            0 <= i < n && (#[trigger] entries[i]).matches(query) ==> shown(
                entries,
                query,
                n,
            ).contains(i as usize),
    decreases n,
{
    if n > 0 {
        let before = shown(entries, query, (n - 1) as nat);
        let now = shown(entries, query, n);
        law_rows_are_what_the_query_shows(entries, query, (n - 1) as nat);
        assert forall|i: int| 0 <= i < n && (#[trigger] entries[i]).matches(
            query,
        ) implies now.contains(i as usize) by {
            if i < n - 1 {
                let k = choose|k: int| 0 <= k < before.len() && before[k] == i as usize;
                assert(now[k] == i as usize);
            } else {
                assert(now[before.len() as int] == i as usize);
            }
        }
    }
}

/// What a query shows depends on the projects alone.
proof fn lemma_shown_same(a: Seq<EntryModel>, b: Seq<EntryModel>, query: Seq<char>, n: nat)
    requires
        same_projects(a, b),
        n <= a.len(),
    ensures
        shown(a, query, n) == shown(b, query, n),
    decreases n,
{
    if n > 0 {
        lemma_shown_same(a, b, query, (n - 1) as nat);
        assert(a[n - 1].project == b[n - 1].project);
    }
}

/// Where the projects, the query and the selection are the same, the rows agree
/// as before.
proof fn lemma_rows_stay(m: AppModel, after: AppModel)
    requires
        m.rows_agree(),
        same_projects(m.entries, after.entries),
        after.query == m.query,
        after.visible == m.visible,
        after.list_state == m.list_state,
    ensures
        after.rows_agree(),
        after.selected_entry() is Some == m.selected_entry() is Some,
        m.selected_entry() is Some ==> after.selected_entry().unwrap().project
            == m.selected_entry().unwrap().project,
{
    lemma_shown_same(m.entries, after.entries, m.query, m.entries.len());
    law_rows_are_what_the_query_shows(m.entries, m.query, m.entries.len());
}

/// Showing the rows of a query makes them agree.
proof fn lemma_update_visible(m: AppModel)
    requires
        m.entries.len() <= usize::MAX,
    ensures
        m.update_visible().rows_agree(),
{
    law_rows_are_what_the_query_shows(m.entries, m.query, m.entries.len());
}

/// Where the rows agree, an entry is selected exactly if there are rows.
proof fn lemma_selected_entry(m: AppModel)
    requires
        m.rows_agree(),
    ensures
        m.selected_entry() is Some == (m.visible.len() > 0),
        m.selected_entry_idx() is Some == (m.visible.len() > 0),
        m.selected_entry() is Some ==> {
            let idx = m.selected_entry_idx().unwrap();
            idx < m.entries.len() && m.entries[idx as int] == m.selected_entry().unwrap()
                && m.selected_entry().unwrap().matches(m.query)
        },
{
    law_rows_are_what_the_query_shows(m.entries, m.query, m.entries.len());
}

/// The first row of a path leads to it, and there is one if any row does.
proof fn lemma_row_of(m: AppModel, path: PathModel, n: nat)
    requires
        n <= m.visible.len() <= usize::MAX,
    ensures
        match m.row_of(path, n) {
            Some(row) => row < n && m.row_leads_to(row as int, path),
            None => forall|row: int| 0 <= row < n ==> !#[trigger] m.row_leads_to(row, path),
        },
    decreases n,
{
    if n > 0 {
        lemma_row_of(m, path, (n - 1) as nat);
    }
}

/// An ordered list holds what the list holds.
proof fn lemma_order_holds(list: Seq<EntryModel>, mode: SortMode)
    ensures
        in_order(list, mode).len() == list.len(),
        forall|i: int|
            0 <= i < list.len() ==> list.contains(#[trigger] in_order(list, mode)[i]),
        forall|i: int|
            0 <= i < list.len() ==> in_order(list, mode).contains(#[trigger] list[i]),
{
    broadcast use vstd::seq_lib::group_to_multiset_ensures;

    let sorted = in_order(list, mode);
    law_order_is_stable(list, mode);
    assert forall|i: int| 0 <= i < list.len() implies list.contains(#[trigger] sorted[i]) by {
        assert(sorted.contains(sorted[i]));
        assert(list.to_multiset().count(sorted[i]) > 0);
    }
    assert forall|i: int| 0 <= i < list.len() implies sorted.contains(#[trigger] list[i]) by {
        assert(list.contains(list[i]));
        assert(sorted.to_multiset().count(list[i]) > 0);
    }
}

/// Ordering the list makes the rows agree, keeps the marks of the entries as
/// they are, and keeps the selected project selected: the entry in the selected
/// row has the path that it had before.
pub proof fn law_order_keeps_the_selection(m: AppModel)
    requires
        m.entries.len() <= usize::MAX,
    ensures
        m.sort_entries().rows_agree(),
        all_agree(m.entries) ==> all_agree(m.sort_entries().entries),
        m.selected_entry() is Some && m.selected_entry().unwrap().matches(m.query) ==> {
            &&& m.sort_entries().selected_entry() is Some
            &&& m.sort_entries().selected_entry().unwrap().project.path.same_as(
                m.selected_entry().unwrap().project.path,
            )
        },
{
    let sorted = AppModel { entries: in_order(m.entries, m.sort_mode), ..m };
    let rows = sorted.update_visible();
    lemma_order_holds(m.entries, m.sort_mode);
    lemma_update_visible(sorted);
    assert forall|i: int| 0 <= i < sorted.entries.len() && all_agree(m.entries) implies (
    #[trigger] sorted.entries[i]).agrees() by {
        assert(m.entries.contains(sorted.entries[i]));
    }
    law_rows_are_what_the_query_shows(rows.entries, rows.query, rows.entries.len());
    if m.selected_entry() is Some {
        let entry = m.selected_entry().unwrap();
        lemma_row_of(rows, entry.project.path, rows.visible.len());
        if entry.matches(m.query) {
            let idx = m.selected_entry_idx().unwrap();
            assert(m.entries[idx as int] == entry);
            assert(sorted.entries.contains(entry));
            let j = choose|j: int| 0 <= j < sorted.entries.len() && sorted.entries[j] == entry;
            assert(rows.entries[j].matches(rows.query));
            let k = choose|k: int| 0 <= k < rows.visible.len() && rows.visible[k] == j as usize;
            assert(rows.row_leads_to(k, entry.project.path));
        }
    }
}

/// Taking in new projects keeps the state in order and the selected project
/// selected.
pub proof fn law_new_projects_keep_the_selection(m: AppModel, arrived: Seq<EntryModel>)
    requires
        m.consistent(),
        all_fresh(arrived),
        m.entries.len() + arrived.len() <= usize::MAX,
    ensures
        m.receive(arrived).consistent(),
        m.selected_entry() is Some ==> {
            &&& m.receive(arrived).selected_entry() is Some
            &&& m.receive(arrived).selected_entry().unwrap().project.path.same_as(
                m.selected_entry().unwrap().project.path,
            )
        },
{
    if arrived.len() > 0 {
        let more = AppModel {
            entries: m.entries + arrived,
            total_bytes: (m.total_bytes + bytes_of(arrived)) as u64,
            ..m
        };
        lemma_selected_entry(m);
        assert forall|i: int| 0 <= i < more.entries.len() implies (
        #[trigger] more.entries[i]).agrees() by {
            if i < m.entries.len() {
                assert(more.entries[i] == m.entries[i]);
            } else {
                assert(more.entries[i] == arrived[i - m.entries.len()]);
            }
        }
        if m.selected_entry() is Some {
            assert(more.selected_entry() == m.selected_entry());
        }
        law_order_keeps_the_selection(more);
    }
}

/// The word that a project has been cleaned keeps the state in order and the
/// selection as it is.
proof fn lemma_finish(m: AppModel, done: DoneModel)
    requires
        m.consistent(),
    ensures
        m.finish(done).consistent(),
        same_projects(m.entries, m.finish(done).entries),
        m.finish(done).visible == m.visible,
        m.finish(done).list_state == m.list_state,
        m.finish(done).total_bytes == m.total_bytes,
        idle_bytes(m.finish(done).entries) <= idle_bytes(m.entries),
{
    lemma_entry_at(m.entries, done.path, m.entries.len());
    if let Some(i) = entry_at(m.entries, done.path, m.entries.len()) {
        lemma_idle_update(m.entries, i as int, m.entries[i as int].finished());
    }
    lemma_rows_stay(m, m.finish(done));
}

/// The bytes of an entry count while it is idle.
pub open spec fn idle_bytes_of(entry: EntryModel) -> nat {
    if entry.idle() {
        entry.artifact_bytes as nat
    } else {
        0
    }
}

/// One entry exchanged for another changes the bytes of idle entries by theirs.
proof fn lemma_idle_update(entries: Seq<EntryModel>, i: int, entry: EntryModel)
    requires
        0 <= i < entries.len(),
    ensures
        idle_bytes(entries.update(i, entry)) + idle_bytes_of(entries[i]) == idle_bytes(entries)
            + idle_bytes_of(entry),
    decreases entries.len(),
{
    let after = entries.update(i, entry);
    if i < entries.len() - 1 {
        assert(after.drop_last() == entries.drop_last().update(i, entry));
        lemma_idle_update(entries.drop_last(), i, entry);
    } else {
        assert(after.drop_last() == entries.drop_last());
    }
}

/// Entries that count the same have the same sum.
proof fn lemma_idle_same(a: Seq<EntryModel>, b: Seq<EntryModel>)
    requires
        a.len() == b.len(),
        forall|i: int|
            0 <= i < a.len() ==> idle_bytes_of(#[trigger] a[i]) == idle_bytes_of(b[i]),
    ensures
        idle_bytes(a) == idle_bytes(b),
    decreases a.len(),
{
    if a.len() > 0 {
        assert forall|i: int| 0 <= i < a.drop_last().len() implies idle_bytes_of(
            #[trigger] a.drop_last()[i],
        ) == idle_bytes_of(b.drop_last()[i]) by {
            assert(a[i] == a.drop_last()[i]);
        }
        lemma_idle_same(a.drop_last(), b.drop_last());
        assert(idle_bytes_of(a[a.len() - 1]) == idle_bytes_of(b[a.len() - 1]));
    }
}

/// Putting an entry into a list adds its bytes.
proof fn lemma_idle_placed(list: Seq<EntryModel>, entry: EntryModel, mode: SortMode)
    ensures
        idle_bytes(placed(list, entry, mode)) == idle_bytes(list) + idle_bytes_of(entry),
    decreases list.len(),
{
    if list.len() == 0 || mode.key(list.last()) >= mode.key(entry) {
        assert(list.push(entry).drop_last() == list);
    } else {
        lemma_idle_placed(list.drop_last(), entry, mode);
        let p = placed(list.drop_last(), entry, mode);
        assert(p.push(list.last()).drop_last() == p);
    }
}

/// Ordering a list changes nothing about its bytes.
proof fn lemma_idle_order(list: Seq<EntryModel>, mode: SortMode)
    ensures
        idle_bytes(in_order(list, mode)) == idle_bytes(list),
    decreases list.len(),
{
    if list.len() > 0 {
        lemma_idle_order(list.drop_last(), mode);
        lemma_idle_placed(in_order(list.drop_last(), mode), list.last(), mode);
    }
}

/// New entries add their bytes.
proof fn lemma_idle_fresh(entries: Seq<EntryModel>, arrived: Seq<EntryModel>)
    requires
        all_fresh(arrived),
    ensures
        idle_bytes(entries + arrived) == idle_bytes(entries) + bytes_of(arrived),
    decreases arrived.len(),
{
    if arrived.len() == 0 {
        assert(entries + arrived == entries);
    } else {
        let rest = arrived.drop_last();
        assert forall|i: int| 0 <= i < rest.len() implies (#[trigger] rest[i]).fresh() by {
            assert(rest[i] == arrived[i]);
        }
        lemma_idle_fresh(entries, rest);
        assert((entries + arrived).drop_last() == entries + rest);
        assert(arrived[arrived.len() - 1].fresh());
    }
}

/// Of the first `n` entries, those that are due pass from idle to ordered.
proof fn lemma_idle_due(entries: Seq<EntryModel>, after: Seq<EntryModel>, n: nat)
    requires
        n <= entries.len() == after.len(),
        forall|i: int|
            0 <= i < entries.len() ==> #[trigger] after[i] == if entries[i].due() {
                entries[i].started()
            } else {
                entries[i]
            },
    ensures
        idle_bytes(after.take(n as int)) + job_bytes(due_jobs(entries, n)) == idle_bytes(
            entries.take(n as int),
        ),
    decreases n,
{
    if n > 0 {
        lemma_idle_due(entries, after, (n - 1) as nat);
        assert(after.take(n as int).drop_last() == after.take(n - 1));
        assert(entries.take(n as int).drop_last() == entries.take(n - 1));
        assert(after[n - 1] == after.take(n as int).last());
        if entries[n - 1].due() {
            let jobs = due_jobs(entries, n);
            assert(jobs.drop_last() == due_jobs(entries, (n - 1) as nat));
        }
    }
}

/// Every key keeps the state in order: the rows stay what the query shows, a
/// row that is there stays selected, and the marks of the entries agree.
pub proof fn law_keys_keep_order(m: AppModel, key: KeyCode)
    requires
        m.consistent(),
    ensures
        m.press(key).consistent(),
{
    let after = m.press(key);
    lemma_selected_entry(m);
    lemma_press_cases(m, key);
    if after.visible == m.visible && after.query == m.query && same_projects(
        m.entries,
        after.entries,
    ) {
        law_rows_are_what_the_query_shows(m.entries, m.query, m.entries.len());
        lemma_shown_same(m.entries, after.entries, m.query, m.entries.len());
    } else {
        lemma_selected_entry(after);
    }
}

/// A key leaves the projects and the rows as they are, or it shows the rows
/// anew; a project comes to be looked at only where one is selected.
proof fn lemma_press_cases(m: AppModel, key: KeyCode)
    requires
        m.consistent(),
    ensures
        all_agree(m.press(key).entries),
        m.press(key).mode == AppMode::Info ==> m.mode == AppMode::Info || m.press(key)
            == m.open_info(),
        ({
            let after = m.press(key);
            ||| after.visible == m.visible && after.query == m.query && same_projects(
                m.entries,
                after.entries,
            ) && match after.list_state.selected {
                Some(row) => row < after.visible.len(),
                None => after.visible.len() == 0,
            }
            ||| after.rows_agree() && after.mode != AppMode::Info
        }),
{
    law_order_keeps_the_selection(AppModel { sort_mode: m.sort_mode.other(), ..m });
    assert forall|query: Seq<char>| #[trigger] m.search_for(query).rows_agree() by {
        lemma_update_visible(AppModel { query, ..m });
    }
    lemma_selected_entry(m);
}

/// Every tick keeps the state in order, and the selected project selected.
pub proof fn law_ticks_keep_order(m: AppModel, arrived: Seq<EntryModel>, done: Seq<DoneModel>)
    requires
        m.consistent(),
        all_fresh(arrived),
        m.entries.len() + arrived.len() <= usize::MAX,
    ensures
        m.tick(arrived, done).consistent(),
        m.selected_entry() is Some ==> {
            &&& m.tick(arrived, done).selected_entry() is Some
            &&& m.tick(arrived, done).selected_entry().unwrap().project.path.same_as(
                m.selected_entry().unwrap().project.path,
            )
        },
{
    law_new_projects_keep_the_selection(m, arrived);
    let received = m.receive(arrived);
    lemma_finish_all(received, done);
    lemma_rows_stay(received, received.finish_all(done));
}

/// The word of cleanings keeps the state in order and the rows as they are.
proof fn lemma_finish_all(m: AppModel, done: Seq<DoneModel>)
    requires
        m.consistent(),
    ensures
        m.finish_all(done).consistent(),
        same_projects(m.entries, m.finish_all(done).entries),
        m.finish_all(done).visible == m.visible,
        m.finish_all(done).query == m.query,
        m.finish_all(done).list_state == m.list_state,
        m.finish_all(done).total_bytes == m.total_bytes,
        idle_bytes(m.finish_all(done).entries) <= idle_bytes(m.entries),
    decreases done.len(),
{
    if done.len() > 0 {
        lemma_finish_all(m, done.drop_last());
        lemma_finish(m.finish_all(done.drop_last()), done.last());
    }
}

/// What can happen to the program.
pub enum Event {
    /// A key is pressed.
    Press(KeyCode),
    /// The list has been drawn: other rows of it may stand on the screen, and
    /// the selected row is the same.
    Draw { offset: usize },
    /// The kinds of the projects have been read anew.
    Kinds(Seq<Seq<char>>),
    /// Time passes: projects have been found and projects have been cleaned.
    Tick { arrived: Seq<EntryModel>, done: Seq<DoneModel> },
}

/// The program together with the cleaning that goes on outside it.
pub struct World {
    pub app: AppModel,
    /// The number of the orders that were given and not answered yet.
    pub orders: nat,
    /// The bytes of those orders.
    pub pending: nat,
}

/// The orders that a key gives.
pub open spec fn jobs_given(m: AppModel, key: KeyCode) -> Seq<JobModel> {
    match m.press_action(key) {
        ActionModel::Clean(jobs) => jobs,
        _ => seq![],
    }
}

impl World {
    /// What happens can happen: what is found is new and its numbers fit, no more
    /// is cleaned than was ordered, in number and in bytes, and the kinds that are
    /// read change nothing about what the query shows.
    pub open spec fn admits(self, event: Event) -> bool {
        match event {
            Event::Press(_) => true,
            Event::Draw { .. } => true,
            Event::Kinds(kinds) => self.app.with_kinds(kinds).shows_its_rows(),
            Event::Tick { arrived, done } => {
                &&& all_fresh(arrived)
                &&& self.app.entries.len() + arrived.len() <= usize::MAX
                &&& self.app.total_bytes + bytes_of(arrived) <= u64::MAX
                &&& done.len() <= self.orders
                &&& done_bytes(done) <= self.pending
                &&& self.app.cleaned_count + done.len() <= usize::MAX
            },
        }
    }

    /// The world after an event.
    pub open spec fn after(self, event: Event) -> World {
        match event {
            Event::Press(key) => World {
                app: self.app.press(key),
                orders: self.orders + jobs_given(self.app, key).len(),
                pending: self.pending + job_bytes(jobs_given(self.app, key)),
            },
            Event::Draw { offset } => World {
                app: AppModel {
                    list_state: ListState { offset, ..self.app.list_state },
                    ..self.app
                },
                ..self
            },
            Event::Kinds(kinds) => World { app: self.app.with_kinds(kinds), ..self },
            Event::Tick { arrived, done } => World {
                app: self.app.tick(arrived, done),
                orders: (self.orders - done.len()) as nat,
                pending: (self.pending - done_bytes(done)) as nat,
            },
        }
    }

    /// The state is in order, and every byte is accounted for: what was freed,
    /// what is being freed and what idle entries take was all found before.
    pub open spec fn sound(self) -> bool {
        &&& self.app.consistent()
        &&& self.app.cleaned_bytes + self.pending + idle_bytes(self.app.entries)
            <= self.app.total_bytes
    }

    /// The account is exact: what was found is what was freed, what is being freed
    /// and what idle entries take.
    pub open spec fn exact(self) -> bool {
        self.app.cleaned_bytes + self.pending + idle_bytes(self.app.entries)
            == self.app.total_bytes
    }

    /// An event tells of cleanings truly: no two projects share a path, and each
    /// cleaning names its entry with its bytes.
    pub open spec fn told_truly(self, event: Event) -> bool {
        match event {
            Event::Tick { arrived, done } => {
                &&& distinct_paths(self.app.entries + arrived)
                &&& all_named(self.app.receive(arrived), done)
            },
            _ => true,
        }
    }
}

/// No two projects of a list share a path.
pub open spec fn distinct_paths(entries: Seq<EntryModel>) -> bool {
    forall|i: int, j: int|
        0 <= i < j < entries.len() ==> !(#[trigger] entries[i]).project.path.same_as(
            (#[trigger] entries[j]).project.path,
        )
}

/// A cleaning names an entry that is being cleaned, with its bytes.
pub open spec fn named(entries: Seq<EntryModel>, done: DoneModel) -> bool {
    exists|i: int|
        0 <= i < entries.len() && (#[trigger] entries[i]).project.path == done.path
            && entries[i].artifact_bytes == done.bytes && entries[i].cleaning
            && !entries[i].cleaned
}

/// Each cleaning, in its turn, names an entry that is being cleaned.
pub open spec fn all_named(m: AppModel, done: Seq<DoneModel>) -> bool
    decreases done.len(),
{
    done.len() > 0 ==> {
        &&& all_named(m, done.drop_last())
        &&& named(m.finish_all(done.drop_last()).entries, done.last())
    }
}

/// The world after a history of events.
pub open spec fn world_after(sort_mode: SortMode, dry_run: bool, history: Seq<Event>) -> World
    decreases history.len(),
{
    if history.len() == 0 {
        World { app: initial(sort_mode, dry_run), orders: 0, pending: 0 }
    } else {
        world_after(sort_mode, dry_run, history.drop_last()).after(history.last())
    }
}

/// Every event of a history could happen when it did.
pub open spec fn possible(sort_mode: SortMode, dry_run: bool, history: Seq<Event>) -> bool
    decreases history.len(),
{
    history.len() > 0 ==> {
        &&& possible(sort_mode, dry_run, history.drop_last())
        &&& world_after(sort_mode, dry_run, history.drop_last()).admits(history.last())
    }
}

/// What happens keeps the state in order and every byte accounted for.
pub proof fn law_events_keep_account(w: World, event: Event)
    requires
        w.sound(),
        w.admits(event),
    ensures
        w.after(event).sound(),
{
    match event {
        Event::Press(key) => {
            law_keys_keep_order(w.app, key);
            lemma_press_bytes(w.app, key);
        },
        Event::Draw { .. } => {},
        Event::Kinds(kinds) => {
            lemma_selected_entry(w.app);
            lemma_idle_same(w.app.entries, w.app.with_kinds(kinds).entries);
        },
        Event::Tick { arrived, done } => {
            let received = w.app.receive(arrived);
            law_new_projects_keep_the_selection(w.app, arrived);
            law_ticks_keep_order(w.app, arrived, done);
            lemma_finish_all(received, done);
            lemma_idle_fresh(w.app.entries, arrived);
            lemma_idle_order(w.app.entries + arrived, w.app.sort_mode);
            if arrived.len() == 0 {
                assert(w.app.entries + arrived == w.app.entries);
            }
            assert(idle_bytes(received.entries) == idle_bytes(w.app.entries) + bytes_of(arrived));
            lemma_finish_all_bytes(received, done);
        },
    }
}

/// The kinds of the projects of a list.
pub open spec fn kinds_of(entries: Seq<EntryModel>) -> Seq<Seq<char>> {
    Seq::new(entries.len(), |i: int| entries[i].project.kind)
}

/// Kinds that are read as they were change nothing.
pub proof fn law_same_kinds_change_nothing(m: AppModel)
    ensures
        m.with_kinds(kinds_of(m.entries)) == m,
{
    assert(m.with_kinds(kinds_of(m.entries)).entries == m.entries);
}

/// In every state that the program comes to, the rows are what the query shows,
/// a row that is there is selected, the marks agree, and no more has been freed
/// than was found.
pub proof fn law_every_state(sort_mode: SortMode, dry_run: bool, history: Seq<Event>)
    requires
        possible(sort_mode, dry_run, history),
    ensures
        world_after(sort_mode, dry_run, history).sound(),
    decreases history.len(),
{
    if history.len() > 0 {
        law_every_state(sort_mode, dry_run, history.drop_last());
        law_events_keep_account(
            world_after(sort_mode, dry_run, history.drop_last()),
            history.last(),
        );
    }
}

/// What happens keeps an exact account exact, where cleanings are told of truly.
pub proof fn law_account_stays_exact(w: World, event: Event)
    requires
        w.sound(),
        w.exact(),
        w.admits(event),
        w.told_truly(event),
    ensures
        w.after(event).exact(),
{
    match event {
        Event::Press(key) => {
            lemma_press_bytes(w.app, key);
        },
        Event::Draw { .. } => {},
        Event::Kinds(kinds) => {
            lemma_idle_same(w.app.entries, w.app.with_kinds(kinds).entries);
        },
        Event::Tick { arrived, done } => {
            let all = w.app.entries + arrived;
            let received = w.app.receive(arrived);
            law_new_projects_keep_the_selection(w.app, arrived);
            lemma_idle_fresh(w.app.entries, arrived);
            lemma_idle_order(all, w.app.sort_mode);
            lemma_distinct_order(all, w.app.sort_mode);
            if arrived.len() == 0 {
                assert(all == w.app.entries);
            }
            lemma_finish_all(received, done);
            lemma_finish_all_exact(received, done);
        },
    }
}

/// Every event of a history told of cleanings truly.
pub open spec fn true_history(sort_mode: SortMode, dry_run: bool, history: Seq<Event>) -> bool
    decreases history.len(),
{
    history.len() > 0 ==> {
        &&& true_history(sort_mode, dry_run, history.drop_last())
        &&& world_after(sort_mode, dry_run, history.drop_last()).told_truly(history.last())
    }
}

/// In every state that the program comes to, the account is exact, where
/// cleanings were told of truly.
pub proof fn law_every_account_is_exact(sort_mode: SortMode, dry_run: bool, history: Seq<Event>)
    requires
        possible(sort_mode, dry_run, history),
        true_history(sort_mode, dry_run, history),
    ensures
        world_after(sort_mode, dry_run, history).exact(),
    decreases history.len(),
{
    if history.len() > 0 {
        law_every_account_is_exact(sort_mode, dry_run, history.drop_last());
        law_every_state(sort_mode, dry_run, history.drop_last());
        law_account_stays_exact(
            world_after(sort_mode, dry_run, history.drop_last()),
            history.last(),
        );
    }
}

/// The word of a cleaning that names its entry counts its bytes, and takes none
/// from idle entries.
proof fn lemma_finish_exact(m: AppModel, done: DoneModel)
    requires
        m.entries.len() <= usize::MAX,
        distinct_paths(m.entries),
        named(m.entries, done),
        m.cleaned_bytes + done.bytes <= u64::MAX,
    ensures
        m.finish(done).cleaned_bytes == m.cleaned_bytes + done.bytes,
        idle_bytes(m.finish(done).entries) == idle_bytes(m.entries),
{
    let i = choose|i: int|
        0 <= i < m.entries.len() && (#[trigger] m.entries[i]).project.path == done.path
            && m.entries[i].artifact_bytes == done.bytes && m.entries[i].cleaning
            && !m.entries[i].cleaned;
    law_cleaning_settles_its_entry(m, i as usize);
    lemma_entry_at(m.entries, done.path, m.entries.len());
    lemma_idle_update(m.entries, i, m.entries[i].finished());
}

/// The word of cleanings that name their entries counts their bytes, and takes
/// none from idle entries.
proof fn lemma_finish_all_exact(m: AppModel, done: Seq<DoneModel>)
    requires
        m.consistent(),
        distinct_paths(m.entries),
        all_named(m, done),
        m.cleaned_bytes + done_bytes(done) <= u64::MAX,
    ensures
        m.finish_all(done).cleaned_bytes == m.cleaned_bytes + done_bytes(done),
        idle_bytes(m.finish_all(done).entries) == idle_bytes(m.entries),
    decreases done.len(),
{
    if done.len() > 0 {
        let before = m.finish_all(done.drop_last());
        lemma_finish_all_exact(m, done.drop_last());
        lemma_finish_all(m, done.drop_last());
        lemma_distinct_same(m.entries, before.entries);
        lemma_finish_exact(before, done.last());
    }
}

/// Whether paths are shared depends on the projects alone.
proof fn lemma_distinct_same(a: Seq<EntryModel>, b: Seq<EntryModel>)
    requires
        same_projects(a, b),
        distinct_paths(a),
    ensures
        distinct_paths(b),
{
    assert forall|i: int, j: int| 0 <= i < j < b.len() implies !(
    #[trigger] b[i]).project.path.same_as((#[trigger] b[j]).project.path) by {
        assert(a[i].project == b[i].project && a[j].project == b[j].project);
    }
}

/// Ordering a list makes no two projects share a path.
proof fn lemma_distinct_order(list: Seq<EntryModel>, mode: SortMode)
    requires
        distinct_paths(list),
    ensures
        distinct_paths(in_order(list, mode)),
    decreases list.len(),
{
    if list.len() > 0 {
        let rest = list.drop_last();
        let sorted = in_order(rest, mode);
        assert forall|i: int, j: int| 0 <= i < j < rest.len() implies !(
        #[trigger] rest[i]).project.path.same_as((#[trigger] rest[j]).project.path) by {
            assert(rest[i] == list[i] && rest[j] == list[j]);
        }
        lemma_distinct_order(rest, mode);
        lemma_order_holds(rest, mode);
        assert forall|i: int| 0 <= i < sorted.len() implies !(
        #[trigger] sorted[i]).project.path.same_as(list.last().project.path) by {
            assert(rest.contains(sorted[i]));
            let k = choose|k: int| 0 <= k < rest.len() && rest[k] == sorted[i];
            assert(!list[k].project.path.same_as(list[list.len() - 1].project.path));
        }
        lemma_distinct_placed(sorted, list.last(), mode);
    }
}

/// An entry with a path of its own can be put into a list.
proof fn lemma_distinct_placed(list: Seq<EntryModel>, entry: EntryModel, mode: SortMode)
    requires
        distinct_paths(list),
        forall|i: int|
            0 <= i < list.len() ==> !(#[trigger] list[i]).project.path.same_as(entry.project.path),
    ensures
        distinct_paths(placed(list, entry, mode)),
        forall|i: int|
            0 <= i < placed(list, entry, mode).len() ==> {
                let e = #[trigger] placed(list, entry, mode)[i];
                e == entry || list.contains(e)
            },
    decreases list.len(),
{
    if list.len() == 0 || mode.key(list.last()) >= mode.key(entry) {
        let after = list.push(entry);
        assert forall|i: int| 0 <= i < after.len() implies (#[trigger] after[i]) == entry
            || list.contains(after[i]) by {
            if i < list.len() {
                assert(list[i] == after[i]);
            }
        }
        assert forall|i: int, j: int| 0 <= i < j < after.len() implies !(
        #[trigger] after[i]).project.path.same_as((#[trigger] after[j]).project.path) by {
            assert(after[i] == list[i]);
            if j < list.len() {
                assert(after[j] == list[j]);
            }
        }
    } else {
        let rest = list.drop_last();
        let last = list.last();
        assert forall|i: int, j: int| 0 <= i < j < rest.len() implies !(
        #[trigger] rest[i]).project.path.same_as((#[trigger] rest[j]).project.path) by {
            assert(rest[i] == list[i] && rest[j] == list[j]);
        }
        assert forall|i: int| 0 <= i < rest.len() implies !(
        #[trigger] rest[i]).project.path.same_as(entry.project.path) by {
            assert(rest[i] == list[i]);
        }
        lemma_distinct_placed(rest, entry, mode);
        let p = placed(rest, entry, mode);
        let after = p.push(last);
        assert(list[list.len() - 1] == last);
        assert forall|i: int| 0 <= i < after.len() implies (#[trigger] after[i]) == entry
            || list.contains(after[i]) by {
            if i < p.len() {
                assert(after[i] == p[i]);
                if rest.contains(p[i]) {
                    let k = choose|k: int| 0 <= k < rest.len() && rest[k] == p[i];
                    assert(list[k] == p[i]);
                }
            }
        }
        assert forall|i: int, j: int| 0 <= i < j < after.len() implies !(
        #[trigger] after[i]).project.path.same_as((#[trigger] after[j]).project.path) by {
            assert(after[i] == p[i]);
            if j < p.len() {
                assert(after[j] == p[j]);
            } else if rest.contains(p[i]) {
                let k = choose|k: int| 0 <= k < rest.len() && rest[k] == p[i];
                assert(list[k] == p[i]);
                assert(!list[k].project.path.same_as(list[list.len() - 1].project.path));
            }
        }
    }
}

/// While every byte is accounted for, the sums of a tick that can happen stay
/// within their numbers.
pub proof fn law_ticks_fit(w: World, arrived: Seq<EntryModel>, done: Seq<DoneModel>)
    requires
        w.sound(),
        w.admits(Event::Tick { arrived, done }),
    ensures
        w.app.tick_fits(arrived, done),
{
    lemma_freed_bytes(w.app.entries + arrived, done);
}

/// While every byte is accounted for, the sums at the top of the screen stay
/// within their numbers, and no more entries are shown than there are.
pub proof fn law_header_fits(w: World)
    requires
        w.sound(),
    ensures
        w.app.header_fits(),
        w.app.counts().visible <= w.app.counts().total,
{
    lemma_marked_bytes(w.app.entries);
    law_rows_are_what_the_query_shows(w.app.entries, w.app.query, w.app.entries.len());
}

/// Entries that are marked are idle, so they take no more than those do.
proof fn lemma_marked_bytes(entries: Seq<EntryModel>)
    requires
        all_agree(entries),
    ensures
        marked_bytes(entries) <= idle_bytes(entries),
    decreases entries.len(),
{
    if entries.len() > 0 {
        let rest = entries.drop_last();
        assert forall|i: int| 0 <= i < rest.len() implies (#[trigger] rest[i]).agrees() by {
            assert(rest[i] == entries[i]);
        }
        lemma_marked_bytes(rest);
        assert(entries[entries.len() - 1].agrees());
    }
}

/// Every row that is shown stands on the screen.
pub proof fn law_every_row_is_drawn(m: AppModel)
    requires
        m.rows_agree(),
    ensures
        rows(m.entries, m.visible, m.visible.len()).len() == m.visible.len(),
{
    law_rows_are_what_the_query_shows(m.entries, m.query, m.entries.len());
    law_every_position_has_its_row(m.entries, m.visible, m.visible.len());
}

/// No more is freed for known projects than was cleaned in all.
proof fn lemma_freed_bytes(entries: Seq<EntryModel>, done: Seq<DoneModel>)
    ensures
        freed(entries, done) <= done_bytes(done),
        freed_count(entries, done) <= done.len(),
    decreases done.len(),
{
    if done.len() > 0 {
        lemma_freed_bytes(entries, done.drop_last());
    }
}

/// The word of cleanings counts no more than their bytes.
proof fn lemma_finish_all_bytes(m: AppModel, done: Seq<DoneModel>)
    requires
        m.cleaned_bytes + done_bytes(done) <= u64::MAX,
    ensures
        m.finish_all(done).cleaned_bytes <= m.cleaned_bytes + done_bytes(done),
    decreases done.len(),
{
    if done.len() > 0 {
        lemma_finish_all_bytes(m, done.drop_last());
    }
}

/// A key orders what it takes from the idle entries, and frees nothing.
proof fn lemma_press_bytes(m: AppModel, key: KeyCode)
    requires
        m.consistent(),
    ensures
        m.press(key).cleaned_bytes == m.cleaned_bytes,
        m.press(key).total_bytes == m.total_bytes,
        idle_bytes(m.press(key).entries) + job_bytes(jobs_given(m, key)) == idle_bytes(m.entries),
{
    let after = m.press(key);
    lemma_selected_entry(m);
    assert(job_bytes(Seq::<JobModel>::empty()) == 0);
    lemma_idle_order(m.entries, m.sort_mode.other());
    lemma_idle_same(m.entries, m.mark_visible(true).entries);
    lemma_idle_same(m.entries, m.mark_visible(false).entries);
    lemma_idle_same(m.entries, m.toggle_mark().entries);
    if m.mode == AppMode::Normal && key == KeyCode::Char('c') && !m.dry_run {
        lemma_idle_due(m.entries, after.entries, m.entries.len());
        assert(after.entries.take(after.entries.len() as int) == after.entries);
        assert(m.entries.take(m.entries.len() as int) == m.entries);
    } else if m.mode == AppMode::Normal && key == KeyCode::Char('d') && !m.dry_run {
        if let Some(idx) = m.selected_entry_idx() {
            if m.can_clean(idx as int) {
                lemma_idle_update(m.entries, idx as int, m.entries[idx as int].started());
                let jobs = jobs_given(m, key);
                assert(jobs == seq![job_for(m.entries[idx as int])]);
                assert(jobs.drop_last() == Seq::<JobModel>::empty());
            }
        }
    }
}

/// A project is being cleaned or has been.
pub open spec fn taken(entries: Seq<EntryModel>, path: PathModel) -> bool {
    exists|i: int|
        0 <= i < entries.len() && (#[trigger] entries[i]).project.path == path
            && !entries[i].idle()
}

/// A key gives orders for idle entries only, and those are being cleaned from
/// then on.
pub proof fn law_orders_are_for_idle_entries(m: AppModel, key: KeyCode, k: int)
    requires
        m.entries.len() <= usize::MAX,
        0 <= k < jobs_given(m, key).len(),
    ensures
        exists|i: int|
            0 <= i < m.entries.len() && (#[trigger] m.entries[i]).idle() && jobs_given(m, key)[k]
                == job_for(m.entries[i]) && m.press(key).entries[i].cleaning,
{
    if key == KeyCode::Char('c') {
        lemma_due_jobs(m.entries, m.entries.len(), k);
        let i = choose|i: int|
            0 <= i < m.entries.len() && (#[trigger] m.entries[i]).due() && jobs_given(m, key)[k]
                == job_for(m.entries[i]);
        assert(m.press(key).entries[i].cleaning);
    } else {
        let idx = m.selected_entry_idx().unwrap();
        assert(m.press(key).entries[idx as int].cleaning);
        assert(m.entries[idx as int].idle());
    }
}

/// An order of a list is for an entry that is due.
proof fn lemma_due_jobs(entries: Seq<EntryModel>, n: nat, k: int)
    requires
        n <= entries.len(),
        0 <= k < due_jobs(entries, n).len(),
    ensures
        exists|i: int|
            0 <= i < entries.len() && (#[trigger] entries[i]).due() && due_jobs(entries, n)[k]
                == job_for(entries[i]),
    decreases n,
{
    if n > 0 {
        let before = due_jobs(entries, (n - 1) as nat);
        if k < before.len() {
            lemma_due_jobs(entries, (n - 1) as nat, k);
        } else {
            assert(entries[n - 1].due());
        }
    }
}

/// What is being cleaned or has been cleaned is never idle again.
pub proof fn law_taken_stays_taken(w: World, event: Event, path: PathModel)
    requires
        w.app.entries.len() <= usize::MAX,
        w.admits(event),
        taken(w.app.entries, path),
    ensures
        taken(w.after(event).app.entries, path),
{
    let m = w.app;
    match event {
        Event::Press(key) => {
            lemma_taken_order(m.entries, m.sort_mode.other(), path);
            let i = choose|i: int|
                0 <= i < m.entries.len() && (#[trigger] m.entries[i]).project.path == path
                    && !m.entries[i].idle();
            assert(taken(m.toggle_sort().entries, path));
            let after = m.press(key).entries;
            if key != KeyCode::Char('s') || m.mode != AppMode::Normal {
                assert(after[i].project.path == path && !after[i].idle());
            }
        },
        Event::Draw { .. } => {},
        Event::Kinds(kinds) => {
            let i = choose|i: int|
                0 <= i < m.entries.len() && (#[trigger] m.entries[i]).project.path == path
                    && !m.entries[i].idle();
            let after = m.with_kinds(kinds).entries;
            assert(after[i].project.path == path && !after[i].idle());
        },
        Event::Tick { arrived, done } => {
            let i = choose|i: int|
                0 <= i < m.entries.len() && (#[trigger] m.entries[i]).project.path == path
                    && !m.entries[i].idle();
            assert((m.entries + arrived)[i] == m.entries[i]);
            lemma_taken_order(m.entries + arrived, m.sort_mode, path);
            lemma_order_holds(m.entries + arrived, m.sort_mode);
            lemma_taken_finish_all(m.receive(arrived), done, path);
        },
    }
}

/// Ordering a list changes nothing about what is taken.
proof fn lemma_taken_order(list: Seq<EntryModel>, mode: SortMode, path: PathModel)
    requires
        taken(list, path),
    ensures
        taken(in_order(list, mode), path),
{
    lemma_order_holds(list, mode);
    let sorted = in_order(list, mode);
    let i = choose|i: int|
        0 <= i < list.len() && (#[trigger] list[i]).project.path == path && !list[i].idle();
    assert(sorted.contains(list[i]));
    let j = choose|j: int| 0 <= j < sorted.len() && sorted[j] == list[i];
    assert(sorted[j].project.path == path && !sorted[j].idle());
}

/// The word of cleanings leaves what is taken taken.
proof fn lemma_taken_finish_all(m: AppModel, done: Seq<DoneModel>, path: PathModel)
    requires
        m.entries.len() <= usize::MAX,
        taken(m.entries, path),
    ensures
        m.finish_all(done).entries.len() == m.entries.len(),
        taken(m.finish_all(done).entries, path),
    decreases done.len(),
{
    if done.len() > 0 {
        lemma_taken_finish_all(m, done.drop_last(), path);
        let before = m.finish_all(done.drop_last()).entries;
        lemma_entry_at(before, done.last().path, before.len());
        let after = m.finish_all(done).entries;
        let i = choose|i: int|
            0 <= i < before.len() && (#[trigger] before[i]).project.path == path
                && !before[i].idle();
        assert(after[i].project.path == path && !after[i].idle());
    }
}

/// Where no two projects share a path, the word that a project has been cleaned
/// settles its own entry.
pub proof fn law_cleaning_settles_its_entry(m: AppModel, idx: usize)
    requires
        m.entries.len() <= usize::MAX,
        idx < m.entries.len(),
        distinct_paths(m.entries),
    ensures
        m.finish(
            DoneModel {
                path: m.entries[idx as int].project.path,
                bytes: m.entries[idx as int].artifact_bytes,
            },
        ).entries == m.entries.update(idx as int, m.entries[idx as int].finished()),
{
    let path = m.entries[idx as int].project.path;
    lemma_entry_at(m.entries, path, m.entries.len());
    let i = entry_at(m.entries, path, m.entries.len()).unwrap();
    if i < idx {
        assert(m.entries[i as int].project.path.same_as(m.entries[idx as int].project.path));
    }
}

/// In a dry run no key ever gives an order, nothing is ever freed, and every entry
/// stays idle.
pub proof fn law_dry_run_cleans_nothing(sort_mode: SortMode, history: Seq<Event>, key: KeyCode)
    requires
        possible(sort_mode, true, history),
    ensures
        world_after(sort_mode, true, history).app.dry_run,
        world_after(sort_mode, true, history).orders == 0,
        world_after(sort_mode, true, history).pending == 0,
        world_after(sort_mode, true, history).app.cleaned_bytes == 0,
        world_after(sort_mode, true, history).app.cleaned_count == 0,
        all_idle(world_after(sort_mode, true, history).app.entries),
        jobs_given(world_after(sort_mode, true, history).app, key).len() == 0,
    decreases history.len(),
{
    if history.len() > 0 {
        let before = world_after(sort_mode, true, history.drop_last());
        match history.last() {
            Event::Press(k) => {
                law_dry_run_cleans_nothing(sort_mode, history.drop_last(), k);
                lemma_press_dry_run(before.app, k);
            },
            Event::Draw { .. } => {
                law_dry_run_cleans_nothing(sort_mode, history.drop_last(), key);
            },
            Event::Kinds(kinds) => {
                law_dry_run_cleans_nothing(sort_mode, history.drop_last(), key);
                let after = before.app.with_kinds(kinds).entries;
                assert forall|i: int| 0 <= i < after.len() implies (#[trigger] after[i]).idle() by {
                    assert(before.app.entries[i].idle());
                }
            },
            Event::Tick { arrived, done } => {
                law_dry_run_cleans_nothing(sort_mode, history.drop_last(), key);
                let all = before.app.entries + arrived;
                assert forall|i: int| 0 <= i < all.len() implies (#[trigger] all[i]).idle() by {
                    if i < before.app.entries.len() {
                        assert(all[i] == before.app.entries[i]);
                    } else {
                        assert(all[i] == arrived[i - before.app.entries.len()]);
                    }
                }
                lemma_idle_in_order(all, before.app.sort_mode);
            },
        }
    }
}

/// All entries are idle.
pub open spec fn all_idle(entries: Seq<EntryModel>) -> bool {
    forall|i: int| 0 <= i < entries.len() ==> (#[trigger] entries[i]).idle()
}

/// In a dry run a key gives no order and leaves all entries idle.
proof fn lemma_press_dry_run(m: AppModel, key: KeyCode)
    requires
        m.dry_run,
        all_idle(m.entries),
    ensures
        m.press(key).dry_run,
        all_idle(m.press(key).entries),
        m.press(key).cleaned_bytes == m.cleaned_bytes,
        m.press(key).cleaned_count == m.cleaned_count,
        job_bytes(jobs_given(m, key)) == 0,
        jobs_given(m, key).len() == 0,
{
    lemma_idle_in_order(m.entries, m.sort_mode.other());
}

/// Ordering a list leaves all its entries idle.
proof fn lemma_idle_in_order(list: Seq<EntryModel>, mode: SortMode)
    requires
        all_idle(list),
    ensures
        all_idle(in_order(list, mode)),
{
    lemma_order_holds(list, mode);
    let sorted = in_order(list, mode);
    assert forall|i: int| 0 <= i < sorted.len() implies (#[trigger] sorted[i]).idle() by {
        assert(list.contains(sorted[i]));
    }
}

/// Turning a mark over twice changes nothing.
pub proof fn law_mark_twice(m: AppModel)
    ensures
        m.toggle_mark().toggle_mark() == m,
{
    assert(m.toggle_mark().toggle_mark().entries == m.entries);
}

/// Of two orders to mark all or to take all marks off, the last one counts.
pub proof fn law_last_mark_counts(m: AppModel, first: bool, last: bool)
    ensures
        m.mark_visible(first).mark_visible(last) == m.mark_visible(last),
{
    assert(m.mark_visible(first).mark_visible(last).entries == m.mark_visible(last).entries);
}

/// Marking all and cleaning what is marked cleans every idle entry that is
/// shown.
pub proof fn law_mark_all_and_clean(m: AppModel, row: int)
    requires
        m.rows_agree(),
        !m.dry_run,
        0 <= row < m.visible.len(),
    ensures
        !m.mark_visible(true).clean_marked().entries[m.visible[row] as int].idle(),
{
    law_rows_are_what_the_query_shows(m.entries, m.query, m.entries.len());
    let idx = m.visible[row];
    assert(m.visible.contains(idx));
}

/// Going down and up again, and up and down again, comes back to the same row.
pub proof fn law_down_and_up(m: AppModel)
    requires
        m.rows_agree(),
        m.list_state.selected is Some,
    ensures
        m.list_state.selected.unwrap() + 1 < m.visible.len() ==> m.move_down().move_up() == m,
        m.list_state.selected.unwrap() > 0 ==> m.move_up().move_down() == m,
{
    law_rows_are_what_the_query_shows(m.entries, m.query, m.entries.len());
}

/// Taking away the character that was just added brings the query and its rows
/// back.
pub proof fn law_backspace_undoes_a_letter(m: AppModel, c: char)
    requires
        m.rows_agree(),
    ensures
        m.append_search(c).backspace_search().query == m.query,
        m.append_search(c).backspace_search().visible == m.visible,
        m.append_search(c).backspace_search().entries == m.entries,
{
    assert(m.query.push(c).drop_last() == m.query);
}

/// Changing the order twice brings the order back, with the same entries.
pub proof fn law_sort_twice(m: AppModel)
    ensures
        m.toggle_sort().toggle_sort().sort_mode == m.sort_mode,
        m.toggle_sort().toggle_sort().entries.to_multiset() == m.entries.to_multiset(),
        m.toggle_sort().toggle_sort().entries == in_order(
            in_order(m.entries, m.sort_mode.other()),
            m.sort_mode,
        ),
{
    law_order_is_stable(m.entries, m.sort_mode.other());
    law_order_is_stable(m.toggle_sort().entries, m.sort_mode);
}

/// Ordering a list once more changes nothing, neither its rows nor the selection.
pub proof fn law_ordering_again_changes_nothing(m: AppModel)
    requires
        m.rows_agree(),
    ensures
        m.sort_entries().sort_entries() == m.sort_entries(),
{
    let sorted = m.sort_entries();
    let rows = AppModel { entries: in_order(m.entries, m.sort_mode), ..m }.update_visible();
    law_order_twice(m.entries, m.sort_mode);
    law_order_keeps_the_selection(m);
    lemma_order_holds(m.entries, m.sort_mode);
    lemma_selected_entry(m);
    lemma_selected_entry(sorted);
    assert(sorted.update_visible() == sorted);
    if m.selected_entry() is Some {
        let path = m.selected_entry().unwrap().project.path;
        let now = sorted.selected_entry().unwrap().project.path;
        law_rows_are_what_the_query_shows(rows.entries, rows.query, rows.entries.len());
        lemma_row_of_same(rows, sorted, path, now, rows.visible.len());
        lemma_row_of(rows, path, rows.visible.len());
        assert(rows.row_leads_to(sorted.list_state.selected.unwrap() as int, path));
        assert(sorted.row_of(now, sorted.visible.len()) == sorted.list_state.selected);
    } else if sorted.selected_entry() is Some {
        law_rows_are_what_the_query_shows(m.entries, m.query, m.entries.len());
        let entry = sorted.selected_entry().unwrap();
        assert(m.entries.contains(entry));
        let i = choose|i: int| 0 <= i < m.entries.len() && m.entries[i] == entry;
        assert(m.visible.contains(i as usize));
    }
    assert(AppModel { entries: in_order(sorted.entries, sorted.sort_mode), ..sorted } == sorted);
}

/// The first row of a path depends on the entries, the rows and where the path
/// leads.
proof fn lemma_row_of_same(a: AppModel, b: AppModel, path: PathModel, other: PathModel, n: nat)
    requires
        a.entries == b.entries,
        a.visible == b.visible,
        path.same_as(other),
    ensures
        a.row_of(path, n) == b.row_of(other, n),
    decreases n,
{
    if n > 0 {
        lemma_row_of_same(a, b, path, other, (n - 1) as nat);
    }
}

/// Where the keys of the list fall and no two projects share a path, changing the
/// order twice changes nothing at all: the entries, their rows and the selected
/// project are as before.
pub proof fn law_changing_the_order_twice_restores(m: AppModel)
    requires
        m.rows_agree(),
        falling(m.entries, m.sort_mode),
        distinct_paths(m.entries),
    ensures
        m.toggle_sort().toggle_sort() == m,
{
    let changed = AppModel { sort_mode: m.sort_mode.other(), ..m };
    let once = m.toggle_sort();
    let back = AppModel { sort_mode: m.sort_mode, ..once };
    let twice = once.toggle_sort();
    lemma_order_holds(m.entries, m.sort_mode.other());
    law_falling_order_comes_back(m.entries, m.sort_mode.other(), m.sort_mode);
    law_order_keeps_the_selection(changed);
    law_order_keeps_the_selection(back);
    lemma_selected_entry(m);
    lemma_selected_entry(once);
    lemma_selected_entry(twice);
    assert(changed.selected_entry() == m.selected_entry());
    assert(back.selected_entry() == once.selected_entry());
    assert(twice.entries == m.entries);
    assert(twice.visible == m.visible);
    law_rows_are_what_the_query_shows(m.entries, m.query, m.entries.len());
    if m.selected_entry() is Some {
        let row = m.list_state.selected.unwrap();
        let now = twice.list_state.selected.unwrap();
        let i = m.visible[row as int];
        let j = m.visible[now as int];
        assert(m.entries[i as int].project.path.same_as(m.entries[j as int].project.path));
        assert(i == j);
        assert(row == now);
    }
}

/// The program ends exactly on a `q` in the list, and a key that ends it or
/// opens a project changes nothing else.
pub proof fn law_quit(m: AppModel, key: KeyCode)
    ensures
        m.press_action(key) == ActionModel::Quit <==> m.mode == AppMode::Normal && key
            == KeyCode::Char('q'),
        m.press_action(key) == ActionModel::Quit ==> m.press(key) == m,
        m.press_action(key) is Open ==> m.press(key) == m,
{
}

/// While a project is looked at, keys change nothing but that.
pub proof fn law_info_changes_nothing(m: AppModel, key: KeyCode)
    requires
        m.mode == AppMode::Info,
    ensures
        m.press(key) == m || m.press(key) == m.with_mode(AppMode::Normal),
        m.press_action(key) == ActionModel::Stay,
{
}

/// A scan that counts as over stays over, and it counts as over only where
/// every project has been cleaned.
pub proof fn law_scan_ends_once(w: World, event: Event)
    ensures
        !w.app.scanning ==> !w.after(event).app.scanning,
        w.app.scanning && !w.after(event).app.scanning ==> {
            &&& w.after(event).app.entries.len() > 0
            &&& all_cleaned(w.after(event).app.entries)
        },
{
    if let Event::Tick { arrived, done } = event {
        lemma_finish_all_scanning(w.app.receive(arrived), done);
    }
}

/// The word of cleanings changes nothing about the scan.
proof fn lemma_finish_all_scanning(m: AppModel, done: Seq<DoneModel>)
    ensures
        m.finish_all(done).scanning == m.scanning,
    decreases done.len(),
{
    if done.len() > 0 {
        lemma_finish_all_scanning(m, done.drop_last());
    }
}

} // verus!
