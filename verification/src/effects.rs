//! What every operation on the list does, told by the fields of the state alone.

use vstd::prelude::*;

use crate::keys::{ActionModel, KeyCode};
use crate::laws::{law_order_keeps_the_selection, law_rows_are_what_the_query_shows};
use crate::model::{
    all_cleaned, bytes_of, due_jobs, freed, freed_count, initial, known, AppMode,
    AppModel, DoneModel, JobModel, ListState,
};
use crate::order::{in_order, law_order_descends, law_order_is_stable, with_key, SortMode};
use crate::outside::lowercase;
use crate::path::PathModel;
use crate::project::EntryModel;
use crate::state::lemma_entry_at;
use crate::text::{occurs_at, occurs_in, trimmed};

verus! {

/// The program starts with an empty list that is being filled, no query, nothing
/// selected and nothing freed.
pub proof fn law_start(sort_mode: SortMode, dry_run: bool)
    ensures
        ({
            let m = initial(sort_mode, dry_run);
            &&& m.entries.len() == 0 && m.visible.len() == 0 && m.query.len() == 0
            &&& m.list_state.selected is None && m.list_state.offset == 0
            &&& m.sort_mode == sort_mode && m.dry_run == dry_run
            &&& m.scanning && m.mode == AppMode::Normal
            &&& m.total_bytes == 0 && m.cleaned_bytes == 0 && m.cleaned_count == 0
        }),
{
}

/// The selected entry is the one whose position stands in the selected row.
pub proof fn law_selected_entry_is_in_its_row(m: AppModel, row: usize)
    requires
        m.list_state.selected == Some(row),
    ensures
        row < m.visible.len() ==> m.selected_entry_idx() == Some(m.visible[row as int]),
        row < m.visible.len() && m.visible[row as int] < m.entries.len() ==> m.selected_entry()
            == Some(m.entries[m.visible[row as int] as int]),
        row >= m.visible.len() ==> m.selected_entry_idx() is None && m.selected_entry() is None,
{
}

/// Where no row is selected, no entry is.
pub proof fn law_no_row_no_entry(m: AppModel)
    requires
        m.list_state.selected is None,
    ensures
        m.selected_entry_idx() is None,
        m.selected_entry() is None,
{
}

/// Cleaning the selected project gives one order, for the entry whose position
/// stands in the selected row, with its bytes. That entry is being cleaned from
/// then on, and nothing else changes.
pub proof fn law_clean_selected(m: AppModel, row: usize, idx: int)
    requires
        m.list_state.selected == Some(row),
        row < m.visible.len(),
        idx == m.visible[row as int],
        idx < m.entries.len(),
        !m.dry_run,
        !m.entries[idx].cleaned,
        !m.entries[idx].cleaning,
    ensures
        m.clean_selected_job() == Some(
            JobModel { project: m.entries[idx].project, bytes: m.entries[idx].artifact_bytes },
        ),
        m.clean_selected() == (AppModel {
            entries: m.entries.update(
                idx,
                EntryModel { cleaning: true, marked: false, ..m.entries[idx] },
            ),
            ..m
        }),
        m.mode == AppMode::Normal ==> {
            &&& m.press_action(KeyCode::Char('d')) == ActionModel::Clean(
                seq![
                    JobModel {
                        project: m.entries[idx].project,
                        bytes: m.entries[idx].artifact_bytes,
                    },
                ],
            )
            &&& m.press(KeyCode::Char('d')).entries.len() == m.entries.len()
            &&& m.press(KeyCode::Char('d')).entries[idx].cleaning
            &&& forall|i: int|
                0 <= i < m.entries.len() && i != idx ==> #[trigger] m.press(
                    KeyCode::Char('d'),
                ).entries[i] == m.entries[i]
        },
{
}

/// Cleaning the selected project does nothing in a dry run, where no row that is
/// there is selected, or where its entry is being cleaned or has been.
pub proof fn law_clean_selected_does_nothing(m: AppModel)
    requires
        m.dry_run || match m.list_state.selected {
            Some(row) => row >= m.visible.len() || m.visible[row as int] >= m.entries.len()
                || m.entries[m.visible[row as int] as int].cleaned
                || m.entries[m.visible[row as int] as int].cleaning,
            None => true,
        },
    ensures
        m.clean_selected_job() is None,
        m.clean_selected() == m,
        m.mode == AppMode::Normal ==> m.press(KeyCode::Char('d')) == m && m.press_action(
            KeyCode::Char('d'),
        ) == ActionModel::Clean(seq![]),
{
}

/// Cleaning an entry by its position gives its order and marks it as being
/// cleaned, unless it is or has been cleaned or is not there.
pub proof fn law_spawn_clean(m: AppModel, idx: usize)
    ensures
        idx < m.entries.len() && !m.entries[idx as int].cleaned && !m.entries[idx as int].cleaning
            ==> {
            &&& m.spawn_clean_job(idx) == Some(
                JobModel {
                    project: m.entries[idx as int].project,
                    bytes: m.entries[idx as int].artifact_bytes,
                },
            )
            &&& m.spawn_clean(idx) == (AppModel {
                entries: m.entries.update(
                    idx as int,
                    EntryModel { cleaning: true, marked: false, ..m.entries[idx as int] },
                ),
                ..m
            })
        },
        idx >= m.entries.len() || m.entries[idx as int].cleaned || m.entries[idx as int].cleaning
            ==> m.spawn_clean_job(idx) is None && m.spawn_clean(idx) == m,
{
}

/// The orders for those of the first entries that are marked and neither being
/// cleaned nor cleaned.
proof fn lemma_due_jobs_filter(entries: Seq<EntryModel>, n: nat)
    requires
        n <= entries.len(),
    ensures
        due_jobs(entries, n) == entries.take(n as int).filter(
            |e: EntryModel| e.marked && !e.cleaned && !e.cleaning,
        ).map_values(|e: EntryModel| JobModel { project: e.project, bytes: e.artifact_bytes }),
    decreases n,
{
    let pred = |e: EntryModel| e.marked && !e.cleaned && !e.cleaning;
    let order = |e: EntryModel| JobModel { project: e.project, bytes: e.artifact_bytes };
    reveal(Seq::filter);
    if n > 0 {
        lemma_due_jobs_filter(entries, (n - 1) as nat);
        assert(entries.take(n as int).drop_last() == entries.take(n - 1));
        let before = entries.take(n - 1).filter(pred);
        let now = entries.take(n as int).filter(pred);
        if pred(entries[n - 1]) {
            assert(now == before.push(entries[n - 1]));
            assert(now.map_values(order) == before.map_values(order).push(order(entries[n - 1])));
        } else {
            assert(now == before);
        }
    } else {
        assert(entries.take(0).filter(pred).map_values(order) == Seq::<JobModel>::empty());
    }
}

/// Cleaning what is marked orders exactly the entries that are marked and neither
/// being cleaned nor cleaned, once each and in the order of the list. Those are
/// being cleaned from then on, and nothing else changes.
pub proof fn law_clean_marked(m: AppModel)
    requires
        !m.dry_run,
    ensures
        m.clean_marked_jobs() == m.entries.filter(
            |e: EntryModel| e.marked && !e.cleaned && !e.cleaning,
        ).map_values(|e: EntryModel| JobModel { project: e.project, bytes: e.artifact_bytes }),
        m.clean_marked() == (AppModel { entries: m.clean_marked().entries, ..m }),
        m.clean_marked().entries.len() == m.entries.len(),
        forall|i: int|
            0 <= i < m.entries.len() ==> {
                let e = m.entries[i];
                &&& !e.marked || e.cleaned || e.cleaning ==> #[trigger] m.clean_marked().entries[i]
                    == e
                &&& e.marked && !e.cleaned && !e.cleaning ==> m.clean_marked().entries[i] == (
                EntryModel { cleaning: true, marked: false, ..e })
            },
        m.mode == AppMode::Normal ==> {
            &&& m.press(KeyCode::Char('c')) == m.clean_marked()
            &&& m.press_action(KeyCode::Char('c')) == ActionModel::Clean(m.clean_marked_jobs())
        },
{
    lemma_due_jobs_filter(m.entries, m.entries.len());
    assert(m.entries.take(m.entries.len() as int) == m.entries);
}

/// In a dry run, cleaning what is marked does nothing.
pub proof fn law_clean_marked_in_a_dry_run(m: AppModel)
    requires
        m.dry_run,
    ensures
        m.clean_marked() == m,
        m.clean_marked_jobs().len() == 0,
{
}

/// Turning a mark over changes the mark of the entry in the selected row and
/// nothing else, and nothing at all where that entry is or has been cleaned.
pub proof fn law_toggle_mark(m: AppModel, row: usize, idx: int)
    requires
        m.list_state.selected == Some(row),
        row < m.visible.len(),
        idx == m.visible[row as int],
        idx < m.entries.len(),
    ensures
        !m.entries[idx].cleaned && !m.entries[idx].cleaning ==> m.toggle_mark() == (AppModel {
            entries: m.entries.update(
                idx,
                EntryModel { marked: !m.entries[idx].marked, ..m.entries[idx] },
            ),
            ..m
        }),
        m.entries[idx].cleaned || m.entries[idx].cleaning ==> m.toggle_mark() == m,
{
}

/// Where no row that is there is selected, there is no mark to turn over.
pub proof fn law_toggle_mark_without_a_row(m: AppModel)
    requires
        match m.list_state.selected {
            Some(row) => row >= m.visible.len() || m.visible[row as int] >= m.entries.len(),
            None => true,
        },
    ensures
        m.toggle_mark() == m,
{
}

/// Marking all, or taking all marks off, sets the mark of every entry that is
/// shown and neither being cleaned nor cleaned, and changes nothing else.
pub proof fn law_mark_visible(m: AppModel, marked: bool)
    ensures
        m.mark_visible(marked) == (AppModel { entries: m.mark_visible(marked).entries, ..m }),
        m.mark_visible(marked).entries.len() == m.entries.len(),
        forall|i: int|
            0 <= i < m.entries.len() ==> {
                let e = m.entries[i];
                let shown = m.visible.contains(i as usize);
                &&& shown && !e.cleaned && !e.cleaning ==> #[trigger] m.mark_visible(
                    marked,
                ).entries[i] == (EntryModel { marked, ..e })
                &&& !shown || e.cleaned || e.cleaning ==> m.mark_visible(marked).entries[i] == e
            },
{
}

/// Going up selects the row above, and stays in the first one.
pub proof fn law_move_up(m: AppModel)
    ensures
        m.move_up() == (AppModel {
            list_state: ListState {
                offset: m.list_state.offset,
                selected: match m.list_state.selected {
                    Some(row) => Some(
                        if row == 0 {
                            0
                        } else {
                            (row - 1) as usize
                        },
                    ),
                    None => None,
                },
            },
            ..m
        }),
{
}

/// Going down selects the row below, and stays in the last one.
pub proof fn law_move_down(m: AppModel)
    ensures
        m.move_down() == (AppModel {
            list_state: ListState {
                offset: m.list_state.offset,
                selected: match m.list_state.selected {
                    Some(row) => Some(
                        if row + 1 < m.visible.len() {
                            (row + 1) as usize
                        } else {
                            row
                        },
                    ),
                    None => None,
                },
            },
            ..m
        }),
{
}

/// Going to an end selects the first or the last row, where there are rows.
pub proof fn law_first_and_last_row(m: AppModel)
    ensures
        m.visible.len() > 0 ==> m.select_first() == (AppModel {
            list_state: ListState { offset: m.list_state.offset, selected: Some(0) },
            ..m
        }),
        m.visible.len() > 0 ==> m.select_last() == (AppModel {
            list_state: ListState {
                offset: m.list_state.offset,
                selected: Some((m.visible.len() - 1) as usize),
            },
            ..m
        }),
        m.visible.len() == 0 ==> m.select_first() == m && m.select_last() == m,
{
}

/// A project is looked at where a row that is there is selected; nothing but what
/// the keys are for changes.
pub proof fn law_open_info(m: AppModel)
    ensures
        m.open_info() == (AppModel {
            mode: match m.list_state.selected {
                Some(row) => if row < m.visible.len() {
                    AppMode::Info
                } else {
                    m.mode
                },
                None => m.mode,
            },
            ..m
        }),
        forall|mode: AppMode| #[trigger] m.with_mode(mode) == (AppModel { mode, ..m }),
{
}

/// What each key does to the list while it is gone through.
pub proof fn law_keys_of_the_list(m: AppModel)
    requires
        m.mode == AppMode::Normal,
    ensures
        m.press(KeyCode::Char('q')) == m,
        m.press(KeyCode::Char('o')) == m,
        m.press(KeyCode::Char('/')) == (AppModel { mode: AppMode::Search, ..m }),
        m.press(KeyCode::Char('i')) == m.open_info(),
        m.press(KeyCode::Char('j')) == m.move_down(),
        m.press(KeyCode::Down) == m.move_down(),
        m.press(KeyCode::Char('k')) == m.move_up(),
        m.press(KeyCode::Up) == m.move_up(),
        m.press(KeyCode::Char(' ')) == m.toggle_mark(),
        m.press(KeyCode::Char('a')) == m.mark_visible(true),
        m.press(KeyCode::Char('A')) == m.mark_visible(false),
        m.press(KeyCode::Char('d')) == m.clean_selected(),
        m.press(KeyCode::Char('c')) == m.clean_marked(),
        m.press(KeyCode::Char('s')) == m.toggle_sort(),
        m.press(KeyCode::Char('G')) == m.select_last(),
        m.press(KeyCode::Char('g')) == m.select_first(),
        m.query.len() > 0 ==> m.press(KeyCode::Esc) == m.cancel_search(),
        m.query.len() == 0 ==> m.press(KeyCode::Esc) == m,
        m.press(KeyCode::Enter) == m,
        m.press(KeyCode::Backspace) == m,
        m.press(KeyCode::Other) == m,
        forall|c: char|
            c != '/' && c != 'i' && c != 'j' && c != 'k' && c != ' ' && c != 'a' && c != 'A' && c
                != 'd' && c != 'c' && c != 's' && c != 'G' && c != 'g' ==> #[trigger] m.press(
                KeyCode::Char(c),
            ) == m,
{
}

/// What is to be done outside after each key of the list: `q` ends, `d` and `c`
/// clean, `o` opens the project in the selected row, and no other key does
/// anything.
pub proof fn law_actions_of_the_list(m: AppModel, key: KeyCode)
    requires
        m.mode == AppMode::Normal,
    ensures
        m.press_action(KeyCode::Char('q')) == ActionModel::Quit,
        m.press_action(KeyCode::Char('c')) == ActionModel::Clean(m.clean_marked_jobs()),
        m.press_action(KeyCode::Char('d')) == ActionModel::Clean(
            match m.clean_selected_job() {
                Some(job) => seq![job],
                None => seq![],
            },
        ),
        m.press_action(KeyCode::Char('o')) == match m.list_state.selected {
            Some(row) => if row < m.visible.len() && m.visible[row as int] < m.entries.len() {
                ActionModel::Open(m.entries[m.visible[row as int] as int].project)
            } else {
                ActionModel::Stay
            },
            None => ActionModel::Stay,
        },
        key != KeyCode::Char('q') && key != KeyCode::Char('c') && key != KeyCode::Char('d') && key
            != KeyCode::Char('o') ==> m.press_action(key) == ActionModel::Stay,
{
}

/// What each key does while a query is written: a character is added, Backspace
/// takes the last one away, Enter keeps the query and Esc drops it.
pub proof fn law_keys_of_a_query(m: AppModel, key: KeyCode)
    requires
        m.mode == AppMode::Search,
    ensures
        forall|c: char| #[trigger] m.press(KeyCode::Char(c)) == m.append_search(c),
        m.press(KeyCode::Backspace) == m.backspace_search(),
        m.press(KeyCode::Enter) == (AppModel { mode: AppMode::Normal, ..m }),
        m.press(KeyCode::Esc) == m.cancel_search(),
        m.press(KeyCode::Up) == m && m.press(KeyCode::Down) == m && m.press(KeyCode::Other) == m,
        m.press_action(key) == ActionModel::Stay,
{
}

/// What each key does while a project is looked at: Esc, `i` and `q` go back to
/// the list, and no other key does anything.
pub proof fn law_keys_of_the_window(m: AppModel, key: KeyCode)
    requires
        m.mode == AppMode::Info,
    ensures
        m.press(KeyCode::Esc) == (AppModel { mode: AppMode::Normal, ..m }),
        m.press(KeyCode::Char('i')) == (AppModel { mode: AppMode::Normal, ..m }),
        m.press(KeyCode::Char('q')) == (AppModel { mode: AppMode::Normal, ..m }),
        key != KeyCode::Esc && key != KeyCode::Char('i') && key != KeyCode::Char('q') ==> m.press(
            key,
        ) == m,
        m.press_action(key) == ActionModel::Stay,
{
}

/// The rows that are shown are rising positions of the list. An entry is among
/// them exactly if what is searched for, which is the query in lower case without
/// the white space at its two ends, stands in its path, its name or its kind in
/// lower case.
pub proof fn law_search(m: AppModel, i: int)
    requires
        m.entries.len() <= usize::MAX,
        0 <= i < m.entries.len(),
    ensures
        ({
            let rows = m.update_visible().visible;
            let term = trimmed(lowercase(m.query));
            let project = m.entries[i].project;
            &&& forall|k: int| 0 <= k < rows.len() ==> (#[trigger] rows[k]) < m.entries.len()
            &&& forall|j: int, k: int| 0 <= j < k < rows.len() ==> rows[j] < rows[k]
            &&& rows.contains(i as usize) <==> {
                ||| occurs_in(lowercase(project.path.raw.text()), term)
                ||| occurs_in(lowercase(project.path.display_name()), term)
                ||| occurs_in(lowercase(project.kind), term)
            }
        }),
{
    let rows = m.update_visible().visible;
    let term = trimmed(lowercase(m.query));
    let text = lowercase(m.entries[i].project.path.raw.text());
    law_rows_are_what_the_query_shows(m.entries, m.query, m.entries.len());
    if term.len() == 0 {
        assert(text.subrange(0, 0) == term);
        assert(occurs_at(text, term, 0));
    }
    if rows.contains(i as usize) {
        let k = choose|k: int| 0 <= k < rows.len() && rows[k] == i as usize;
        assert(m.entries[rows[k] as int].matches(m.query));
    }
}

/// Showing the rows keeps the selected row where it is still there, goes to the
/// last one where it is not, and selects the first one where none was selected.
/// Nothing but the rows and the selection changes.
pub proof fn law_rows_keep_a_selection(m: AppModel)
    ensures
        ({
            let after = m.update_visible();
            let rows = after.visible.len();
            &&& after == (AppModel { visible: after.visible, list_state: after.list_state, ..m })
            &&& rows == 0 ==> after.list_state.selected is None
            &&& rows == 0 && m.list_state.selected is Some ==> after.list_state.offset == 0
            &&& rows == 0 && m.list_state.selected is None ==> after.list_state == m.list_state
            &&& rows > 0 ==> after.list_state == (ListState {
                offset: m.list_state.offset,
                selected: Some(
                    match m.list_state.selected {
                        Some(row) => if row < rows {
                            row
                        } else {
                            (rows - 1) as usize
                        },
                        None => 0,
                    },
                ),
            })
        }),
{
}

/// A search changes the query, the rows and the selection alone: it shows what the
/// new query shows and selects the first row.
pub proof fn law_searching(m: AppModel, c: char)
    ensures
        m.append_search(c).query == m.query.push(c),
        m.query.len() > 0 ==> m.backspace_search().query == m.query.drop_last(),
        m.query.len() == 0 ==> m.backspace_search().query == m.query,
        m.cancel_search().query.len() == 0,
        m.append_search(c).mode == m.mode && m.backspace_search().mode == m.mode,
        m.cancel_search().mode == AppMode::Normal,
        forall|after: AppModel|
            after == m.append_search(c) || after == m.backspace_search() || after
                == m.cancel_search() ==> {
                &&& (#[trigger] after.update_visible()).visible == after.visible
                &&& after.list_state.selected == if after.visible.len() > 0 {
                    Some(0usize)
                } else {
                    None
                }
                &&& after.visible.len() > 0 ==> after.list_state.offset == m.list_state.offset
                &&& after == (AppModel {
                    query: after.query,
                    visible: after.visible,
                    list_state: after.list_state,
                    mode: after.mode,
                    ..m
                })
            },
{
}

/// In order of size, no entry stands before one with larger artifacts, and entries
/// with artifacts of the same size stand as they did.
pub proof fn law_order_by_size(list: Seq<EntryModel>, bytes: u64)
    ensures
        in_order(list, SortMode::Size).to_multiset() == list.to_multiset(),
        forall|i: int, j: int|
            0 <= i <= j < in_order(list, SortMode::Size).len() ==> (#[trigger] in_order(
                list,
                SortMode::Size,
            )[i]).artifact_bytes >= (#[trigger] in_order(list, SortMode::Size)[j]).artifact_bytes,
        in_order(list, SortMode::Size).filter(|e: EntryModel| e.artifact_bytes == bytes)
            == list.filter(|e: EntryModel| e.artifact_bytes == bytes),
{
    law_order_descends(list, SortMode::Size);
    law_order_is_stable(list, SortMode::Size);
    let sorted = in_order(list, SortMode::Size);
    assert forall|i: int, j: int| 0 <= i <= j < sorted.len() implies (
    #[trigger] sorted[i]).artifact_bytes >= (#[trigger] sorted[j]).artifact_bytes by {
        assert(SortMode::Size.key(sorted[i]) >= SortMode::Size.key(sorted[j]));
    }
    assert(with_key(sorted, SortMode::Size, bytes) == with_key(list, SortMode::Size, bytes));
    let by_key = |e: EntryModel| SortMode::Size.key(e) == bytes;
    let by_field = |e: EntryModel| e.artifact_bytes == bytes;
    lemma_filter_same(sorted, by_key, by_field);
    lemma_filter_same(list, by_key, by_field);
}

/// In order of age, no entry stands before one that changed longer ago, and
/// entries of the same age stand as they did.
pub proof fn law_order_by_date(list: Seq<EntryModel>, secs: u64)
    ensures
        in_order(list, SortMode::Date).to_multiset() == list.to_multiset(),
        forall|i: int, j: int|
            0 <= i <= j < in_order(list, SortMode::Date).len() ==> (#[trigger] in_order(
                list,
                SortMode::Date,
            )[i]).last_modified_secs >= (#[trigger] in_order(
                list,
                SortMode::Date,
            )[j]).last_modified_secs,
        in_order(list, SortMode::Date).filter(|e: EntryModel| e.last_modified_secs == secs)
            == list.filter(|e: EntryModel| e.last_modified_secs == secs),
{
    law_order_descends(list, SortMode::Date);
    law_order_is_stable(list, SortMode::Date);
    let sorted = in_order(list, SortMode::Date);
    assert forall|i: int, j: int| 0 <= i <= j < sorted.len() implies (
    #[trigger] sorted[i]).last_modified_secs >= (#[trigger] sorted[j]).last_modified_secs by {
        assert(SortMode::Date.key(sorted[i]) >= SortMode::Date.key(sorted[j]));
    }
    assert(with_key(sorted, SortMode::Date, secs) == with_key(list, SortMode::Date, secs));
    let by_key = |e: EntryModel| SortMode::Date.key(e) == secs;
    let by_field = |e: EntryModel| e.last_modified_secs == secs;
    lemma_filter_same(sorted, by_key, by_field);
    lemma_filter_same(list, by_key, by_field);
}

/// Two tests that agree on every entry pick the same entries of a list.
proof fn lemma_filter_same(
    list: Seq<EntryModel>,
    a: spec_fn(EntryModel) -> bool,
    b: spec_fn(EntryModel) -> bool,
)
    requires
        forall|e: EntryModel| #[trigger] a(e) == b(e),
    ensures
        list.filter(a) == list.filter(b),
    decreases list.len(),
{
    reveal(Seq::filter);
    if list.len() > 0 {
        lemma_filter_same(list.drop_last(), a, b);
    }
}

/// Putting the list in order goes by the order that is set, changes nothing but
/// the list, its rows and the selection, and shows what the query shows.
pub proof fn law_sort_entries(m: AppModel)
    ensures
        ({
            let after = m.sort_entries();
            &&& after.entries == in_order(m.entries, m.sort_mode)
            &&& after.visible == after.update_visible().visible
            &&& after == (AppModel {
                entries: after.entries,
                visible: after.visible,
                list_state: after.list_state,
                ..m
            })
        }),
{
}

/// Changing the order goes from size to age and from age to size, and puts the
/// list in that order.
pub proof fn law_toggle_sort(m: AppModel)
    ensures
        m.sort_mode == SortMode::Size ==> m.toggle_sort() == (AppModel {
            sort_mode: SortMode::Date,
            ..m
        }).sort_entries(),
        m.sort_mode == SortMode::Date ==> m.toggle_sort() == (AppModel {
            sort_mode: SortMode::Size,
            ..m
        }).sort_entries(),
{
}

/// Putting the list in order leaves the selected project selected: the entry in
/// the selected row has the components of path that it had before.
pub proof fn law_selection_follows_its_project(m: AppModel, row: usize, idx: int)
    requires
        m.entries.len() <= usize::MAX,
        m.shows_its_rows(),
        m.list_state.selected == Some(row),
        row < m.visible.len(),
        idx == m.visible[row as int],
    ensures
        ({
            let after = m.sort_entries();
            &&& after.list_state.selected is Some
            &&& after.list_state.selected.unwrap() < after.visible.len()
            &&& after.list_state.offset == m.list_state.offset
            &&& after.visible[after.list_state.selected.unwrap() as int] < after.entries.len()
            &&& after.entries[after.visible[after.list_state.selected.unwrap() as int] as int].project.path.parts
                == m.entries[idx].project.path.parts
        }),
{
    law_rows_are_what_the_query_shows(m.entries, m.query, m.entries.len());
    law_order_keeps_the_selection(m);
    let after = m.sort_entries();
    law_rows_are_what_the_query_shows(after.entries, after.query, after.entries.len());
}

/// Putting the list in order selects the first row that leads where the selected
/// project led, and where there is no such row, or nothing was selected, the row
/// that showing the rows selects.
pub proof fn law_selection_after_ordering(m: AppModel, path: PathModel)
    requires
        m.entries.len() <= usize::MAX,
    ensures
        ({
            let after = m.sort_entries();
            let shown = (AppModel {
                entries: in_order(m.entries, m.sort_mode),
                ..m
            }).update_visible();
            let selected = match m.list_state.selected {
                Some(row) => row < m.visible.len() && m.visible[row as int] < m.entries.len()
                    && m.entries[m.visible[row as int] as int].project.path == path,
                None => false,
            };
            &&& m.list_state.selected is None ==> after == shown
            &&& selected ==> forall|r: int|
                0 <= r < shown.visible.len() && shown.entries[(
                #[trigger] shown.visible[r]) as int].project.path.parts == path.parts ==> {
                    &&& after.list_state.selected is Some
                    &&& after.list_state.selected.unwrap() <= r
                    &&& after.list_state.offset == shown.list_state.offset
                    &&& shown.entries[shown.visible[after.list_state.selected.unwrap() as int] as int].project.path.parts
                        == path.parts
                }
            &&& selected && (forall|r: int|
                0 <= r < shown.visible.len() ==> shown.entries[(
                #[trigger] shown.visible[r]) as int].project.path.parts != path.parts) ==> after
                == shown
        }),
{
    let sorted = AppModel { entries: in_order(m.entries, m.sort_mode), ..m };
    let shown = sorted.update_visible();
    law_order_is_stable(m.entries, m.sort_mode);
    law_rows_are_what_the_query_shows(shown.entries, shown.query, shown.entries.len());
    lemma_first_row(shown, path, shown.visible.len());
}

/// The first row of a path is a row of that path, and no row before it is.
proof fn lemma_first_row(m: AppModel, path: PathModel, n: nat)
    requires
        n <= m.visible.len() <= usize::MAX,
        forall|r: int| 0 <= r < m.visible.len() ==> (#[trigger] m.visible[r]) < m.entries.len(),
    ensures
        match m.row_of(path, n) {
            Some(row) => {
                &&& row < n
                &&& m.entries[m.visible[row as int] as int].project.path.parts == path.parts
                &&& forall|r: int|
                    0 <= r < row ==> m.entries[(
                    #[trigger] m.visible[r]) as int].project.path.parts != path.parts
            },
            None => forall|r: int|
                0 <= r < n ==> m.entries[(#[trigger] m.visible[r]) as int].project.path.parts
                    != path.parts,
        },
    decreases n,
{
    if n > 0 {
        lemma_first_row(m, path, (n - 1) as nat);
    }
}

/// Selecting a row leaves the rest of the list where it is; selecting none goes back
/// to its top.
pub proof fn law_selecting_a_row(state: ListState, row: Option<usize>)
    ensures
        state.with_row(row).selected == row,
        row is Some ==> state.with_row(row).offset == state.offset,
        row is None ==> state.with_row(row).offset == 0,
{
}

/// An entry is idle exactly while it is neither being cleaned nor cleaned, and
/// listed under the name of its path.
pub proof fn law_entry(entry: EntryModel)
    ensures
        entry.idle() <==> !entry.cleaned && !entry.cleaning,
        entry.display_name() == entry.project.path.display_name(),
{
}

/// Projects that are found join the list with their bytes, and the list is put in
/// order; where none is found, nothing of that changes.
pub proof fn law_tick_takes_in_projects(m: AppModel, arrived: Seq<EntryModel>)
    requires
        m.total_bytes + bytes_of(arrived) <= u64::MAX,
    ensures
        ({
            let after = m.tick(arrived, seq![]);
            let joined = if arrived.len() == 0 {
                m
            } else {
                (AppModel {
                    entries: m.entries + arrived,
                    total_bytes: (m.total_bytes + bytes_of(arrived)) as u64,
                    ..m
                }).sort_entries()
            };
            after == (AppModel { scanning: after.scanning, ..joined })
        }),
{
}

/// The bytes of a list are those of its entries, one after the other.
pub proof fn law_bytes_of(entries: Seq<EntryModel>, entry: EntryModel)
    ensures
        bytes_of(seq![]) == 0,
        bytes_of(entries.push(entry)) == bytes_of(entries) + entry.artifact_bytes,
{
    assert(entries.push(entry).drop_last() == entries);
}

/// The word that a project has been cleaned settles the first entry whose path has
/// its components: that entry counts as cleaned, is neither marked nor being
/// cleaned, and takes nothing. The bytes and the project are counted, and nothing
/// else changes.
pub proof fn law_tick_settles_a_cleaning(m: AppModel, done: DoneModel, i: int)
    requires
        m.entries.len() <= usize::MAX,
        0 <= i < m.entries.len(),
        m.entries[i].project.path.parts == done.path.parts,
        forall|j: int|
            0 <= j < i ==> (#[trigger] m.entries[j]).project.path.parts != done.path.parts,
        m.cleaned_bytes + done.bytes <= u64::MAX,
        m.cleaned_count < usize::MAX,
    ensures
        m.tick(seq![], seq![done]) == (AppModel {
            entries: m.entries.update(
                i,
                EntryModel {
                    cleaned: true,
                    cleaning: false,
                    marked: false,
                    artifact_bytes: 0,
                    ..m.entries[i]
                },
            ),
            cleaned_bytes: (m.cleaned_bytes + done.bytes) as u64,
            cleaned_count: (m.cleaned_count + 1) as usize,
            scanning: m.tick(seq![], seq![done]).scanning,
            ..m
        }),
{
    lemma_entry_at(m.entries, done.path, m.entries.len());
    lemma_one_cleaning(m, done);
}

/// The word of a project that is not in the list counts for nothing.
pub proof fn law_tick_passes_over_strangers(m: AppModel, done: DoneModel)
    requires
        m.entries.len() <= usize::MAX,
        forall|j: int|
            0 <= j < m.entries.len() ==> (#[trigger] m.entries[j]).project.path.parts
                != done.path.parts,
    ensures
        m.tick(seq![], seq![done]) == (AppModel {
            scanning: m.tick(seq![], seq![done]).scanning,
            ..m
        }),
{
    lemma_entry_at(m.entries, done.path, m.entries.len());
    lemma_one_cleaning(m, done);
}

/// One cleaning is taken in as the only one of a list.
proof fn lemma_one_cleaning(m: AppModel, done: DoneModel)
    ensures
        m.finish_all(seq![done]) == m.finish(done),
{
    assert(seq![done].drop_last() == Seq::<DoneModel>::empty());
    assert(m.finish_all(seq![done].drop_last()) == m);
}

/// Cleanings can be told of at once or one after the other.
pub proof fn law_tick_by_tick(
    m: AppModel,
    arrived: Seq<EntryModel>,
    done: Seq<DoneModel>,
    last: DoneModel,
)
    requires
        m.entries.len() + arrived.len() <= usize::MAX,
    ensures
        m.tick(arrived, done.push(last)) == m.tick(arrived, done).tick(seq![], seq![last]),
{
    let before = m.receive(arrived).finish_all(done);
    let settled = before.settle();
    assert(done.push(last).drop_last() == done);
    lemma_one_cleaning(settled, last);
    law_order_is_stable(m.entries + arrived, m.sort_mode);
    lemma_finish_all_len(m.receive(arrived), done);
    lemma_entry_at(before.entries, last.path, before.entries.len());
    if before.entries.len() > 0 && all_cleaned(before.entries) {
        let after = before.finish(last).entries;
        assert forall|i: int| 0 <= i < after.len() implies (#[trigger] after[i]).cleaned by {
            assert(before.entries[i].cleaned);
        }
    }
}

/// The word of cleanings leaves the list as long as it is.
proof fn lemma_finish_all_len(m: AppModel, done: Seq<DoneModel>)
    requires
        m.entries.len() <= usize::MAX,
    ensures
        m.finish_all(done).entries.len() == m.entries.len(),
    decreases done.len(),
{
    if done.len() > 0 {
        lemma_finish_all_len(m, done.drop_last());
        let before = m.finish_all(done.drop_last()).entries;
        lemma_entry_at(before, done.last().path, before.len());
    }
}

/// After a tick the scan counts as over if it did before, or if there are entries
/// and every one of them has been cleaned.
pub proof fn law_tick_ends_the_scan(m: AppModel, arrived: Seq<EntryModel>, done: Seq<DoneModel>)
    ensures
        ({
            let after = m.tick(arrived, done);
            after.scanning == (m.scanning && (after.entries.len() == 0 || exists|i: int|
                0 <= i < after.entries.len() && !(#[trigger] after.entries[i]).cleaned))
        }),
{
    lemma_finish_all_keeps_scanning(m.receive(arrived), done);
}

/// The word of cleanings changes nothing about the scan.
proof fn lemma_finish_all_keeps_scanning(m: AppModel, done: Seq<DoneModel>)
    ensures
        m.finish_all(done).scanning == m.scanning,
    decreases done.len(),
{
    if done.len() > 0 {
        lemma_finish_all_keeps_scanning(m, done.drop_last());
    }
}

/// A tick fits exactly if its sums do: the bytes of what is found, and the bytes
/// and the number of the cleanings of projects that are in the list by then.
pub proof fn law_tick_fits(m: AppModel, arrived: Seq<EntryModel>, done: Seq<DoneModel>)
    ensures
        m.tick_fits(arrived, done) <==> {
            &&& m.total_bytes + bytes_of(arrived) <= u64::MAX
            &&& m.cleaned_bytes + freed(m.entries + arrived, done) <= u64::MAX
            &&& m.cleaned_count + freed_count(m.entries + arrived, done) <= usize::MAX
        },
{
}

/// A cleaning counts exactly if an entry has its path.
pub proof fn law_freed(entries: Seq<EntryModel>, done: Seq<DoneModel>, last: DoneModel)
    ensures
        freed(entries, seq![]) == 0 && freed_count(entries, seq![]) == 0,
        (exists|i: int|
            0 <= i < entries.len() && (#[trigger] entries[i]).project.path.parts
                == last.path.parts) ==> {
            &&& freed(entries, done.push(last)) == freed(entries, done) + last.bytes
            &&& freed_count(entries, done.push(last)) == freed_count(entries, done) + 1
        },
        (forall|i: int|
            0 <= i < entries.len() ==> (#[trigger] entries[i]).project.path.parts
                != last.path.parts) ==> {
            &&& freed(entries, done.push(last)) == freed(entries, done)
            &&& freed_count(entries, done.push(last)) == freed_count(entries, done)
        },
{
    assert(done.push(last).drop_last() == done);
    if exists|i: int|
        0 <= i < entries.len() && (#[trigger] entries[i]).project.path.parts == last.path.parts {
        let i = choose|i: int|
            0 <= i < entries.len() && (#[trigger] entries[i]).project.path.parts == last.path.parts;
        assert(entries[i].project.path.same_as(last.path));
        assert(known(entries, last.path));
    } else if known(entries, last.path) {
        let i = choose|i: int|
            0 <= i < entries.len() && (#[trigger] entries[i]).project.path.same_as(last.path);
        assert(entries[i].project.path.parts == last.path.parts);
    }
}

/// Kinds that are read anew are those of the entries at their positions, and
/// nothing else changes.
pub proof fn law_kinds(m: AppModel, kinds: Seq<Seq<char>>)
    ensures
        m.with_kinds(kinds) == (AppModel { entries: m.with_kinds(kinds).entries, ..m }),
        m.with_kinds(kinds).entries.len() == m.entries.len(),
        forall|i: int|
            0 <= i < m.entries.len() ==> {
                let e = #[trigger] m.with_kinds(kinds).entries[i];
                &&& i < kinds.len() ==> e.project.kind == kinds[i]
                &&& i >= kinds.len() ==> e.project.kind == m.entries[i].project.kind
                &&& e.project.path == m.entries[i].project.path
                &&& e.project.id == m.entries[i].project.id
                &&& e == (EntryModel { project: e.project, ..m.entries[i] })
            },
{
}

} // verus!
