//! The line at the top of the screen.

use vstd::prelude::*;
use vstd::string::*;

use crate::model::AppModel;
use crate::order::SortMode;
use crate::outside::{pretty_size, size_text};
use crate::project::{entry_models, EntryModel, ProjectEntry};
use crate::state::App;
use crate::style::{styled, Color, Line, SpanModel, Style};
use crate::text::{decimal, push_decimal};

verus! {

/// The number of entries that are marked and not cleaned.
pub open spec fn marked_count(entries: Seq<EntryModel>) -> nat
    decreases entries.len(),
{
    if entries.len() == 0 {
        0
    } else {
        marked_count(entries.drop_last()) + if entries.last().marked && !entries.last().cleaned {
            1nat
        } else {
            0
        }
    }
}

/// The bytes that the entries take which are marked and not cleaned.
pub open spec fn marked_bytes(entries: Seq<EntryModel>) -> nat
    decreases entries.len(),
{
    if entries.len() == 0 {
        0
    } else {
        marked_bytes(entries.drop_last()) + if entries.last().marked && !entries.last().cleaned {
            entries.last().artifact_bytes as nat
        } else {
            0
        }
    }
}

/// The number of entries that are being cleaned.
pub open spec fn cleaning_count(entries: Seq<EntryModel>) -> nat
    decreases entries.len(),
{
    if entries.len() == 0 {
        0
    } else {
        cleaning_count(entries.drop_last()) + if entries.last().cleaning {
            1nat
        } else {
            0
        }
    }
}

/// The numbers at the top of the screen.
#[derive(Clone, Copy, Debug, PartialEq, Eq)]
pub struct Counts {
    /// The entries that are shown.
    pub visible: usize,
    /// All entries.
    pub total: usize,
    /// The entries that are marked and not cleaned.
    pub marked: usize,
    /// The entries that are being cleaned.
    pub cleaning: usize,
}

impl AppModel {
    /// The sums at the top of the screen stay within their numbers.
    pub open spec fn header_fits(self) -> bool {
        &&& self.cleaned_bytes <= self.total_bytes
        &&& marked_bytes(self.entries) <= u64::MAX
    }

    /// The numbers at the top of the screen.
    pub open spec fn counts(self) -> Counts {
        Counts {
            visible: self.visible.len() as usize,
            total: self.entries.len() as usize,
            marked: marked_count(self.entries) as usize,
            cleaning: cleaning_count(self.entries) as usize,
        }
    }
}

/// The name of an order.
pub open spec fn sort_label(mode: SortMode) -> Seq<char> {
    match mode {
        SortMode::Size => "size"@,
        SortMode::Date => "date"@,
    }
}

/// How many projects there are, and how many of them are shown.
pub open spec fn count_text(counts: Counts) -> Seq<char> {
    if counts.visible != counts.total {
        " "@ + decimal(counts.visible as nat) + "/"@ + decimal(counts.total as nat)
            + " project(s) "@
    } else {
        " "@ + decimal(counts.total as nat) + " project(s) "@
    }
}

/// The line at the top of the screen, with the sizes in words.
pub open spec fn header(
    counts: Counts,
    left: Seq<char>,
    marked: Seq<char>,
    mode: SortMode,
    dry_run: bool,
) -> Seq<SpanModel> {
    seq![
        styled(count_text(counts), Style::plain().fg(Color::Cyan).bold()),
        styled(" "@ + left + " "@, Style::plain().fg(Color::Yellow).bold()),
    ] + (if counts.marked > 0 {
        seq![
            styled(
                " → "@ + decimal(counts.marked as nat) + " marked: "@ + marked + " "@,
                Style::plain().fg(Color::LightRed).bold(),
            ),
        ]
    } else {
        seq![]
    }) + (if counts.cleaning > 0 {
        seq![
            styled(
                " ⏳ "@ + decimal(counts.cleaning as nat) + " cleaning… "@,
                Style::plain().fg(Color::Yellow).bold(),
            ),
        ]
    } else {
        seq![]
    }) + seq![styled(" sort:"@ + sort_label(mode) + " "@, Style::plain().fg(Color::DarkGray))] + (
    if dry_run {
        seq![styled(" dry-run "@, Style::plain().fg(Color::Red))]
    } else {
        seq![]
    })
}

/// How many projects there are, and how many of them are shown.
fn count_words(counts: Counts) -> (r: String)
    ensures
        r@ == count_text(counts),
{
    let mut r = " ".to_owned();
    if counts.visible != counts.total {
        push_decimal(&mut r, counts.visible as u64);
        r.append("/");
    }
    push_decimal(&mut r, counts.total as u64);
    r.append(" project(s) ");
    r
}

/// The line at the top of the screen, from its numbers and its sizes in words.
pub fn header_from(
    counts: Counts,
    left: &str,
    marked: &str,
    sort_mode: SortMode,
    dry_run: bool,
) -> (r: Line)
    ensures
        r@ == header(counts, left@, marked@, sort_mode, dry_run),
{
    let mut line = Line::new();
    let count = count_words(counts);
    line.push_styled(count.as_str(), Style::plain().fg(Color::Cyan).bold());
    let size = " ".to_owned().concat(left).concat(" ");
    line.push_styled(size.as_str(), Style::plain().fg(Color::Yellow).bold());
    if counts.marked > 0 {
        let mut words = " → ".to_owned();
        push_decimal(&mut words, counts.marked as u64);
        words.append(" marked: ");
        words.append(marked);
        words.append(" ");
        line.push_styled(words.as_str(), Style::plain().fg(Color::LightRed).bold());
    }
    if counts.cleaning > 0 {
        let mut words = " ⏳ ".to_owned();
        push_decimal(&mut words, counts.cleaning as u64);
        words.append(" cleaning… ");
        line.push_styled(words.as_str(), Style::plain().fg(Color::Yellow).bold());
    }
    let label = match sort_mode {
        SortMode::Size => "size",
        SortMode::Date => "date",
    };
    let order = " sort:".to_owned().concat(label).concat(" ");
    line.push_styled(order.as_str(), Style::plain().fg(Color::DarkGray));
    if dry_run {
        line.push_styled(" dry-run ", Style::plain().fg(Color::Red));
    }
    assert(line@ == header(counts, left@, marked@, sort_mode, dry_run));
    line
}

/// The sums over the entries: how many are marked, how many are being cleaned,
/// and the bytes of those that are marked, where they fit in 64 bits.
fn tally(entries: &Vec<ProjectEntry>) -> (r: (usize, usize, Option<u64>))
    ensures
        r.0 == marked_count(entry_models(entries@)),
        r.1 == cleaning_count(entry_models(entries@)),
        r.2 is Some <==> marked_bytes(entry_models(entries@)) <= u64::MAX,
        r.2 is Some ==> r.2.unwrap() == marked_bytes(entry_models(entries@)),
{
    let ghost models = entry_models(entries@);
    let mut marked: usize = 0;
    let mut cleaning: usize = 0;
    let mut bytes: Option<u64> = Some(0);
    let mut i: usize = 0;
    while i < entries.len()
        invariant
            i <= entries.len(),
            models == entry_models(entries@),
            marked == marked_count(models.take(i as int)),
            cleaning == cleaning_count(models.take(i as int)),
            marked <= i,
            cleaning <= i,
            bytes is Some <==> marked_bytes(models.take(i as int)) <= u64::MAX,
            bytes is Some ==> bytes.unwrap() == marked_bytes(models.take(i as int)),
        decreases entries.len() - i,
    {
        assert(models.take(i + 1).drop_last() == models.take(i as int));
        if entries[i].marked && !entries[i].cleaned {
            marked = marked + 1;
            bytes = match bytes {
                Some(bytes) => bytes.checked_add(entries[i].artifact_bytes),
                None => None,
            };
        }
        if entries[i].cleaning {
            cleaning = cleaning + 1;
        }
        i = i + 1;
    }
    assert(models.take(i as int) == models);
    (marked, cleaning, bytes)
}

impl App {
    /// Whether the sums at the top of the screen stay within their numbers.
    pub fn header_fits(&self) -> (r: bool)
        ensures
            r == self@.header_fits(),
    {
        let (_, _, bytes) = tally(self.entries());
        self.cleaned_bytes() <= self.total_bytes() && bytes.is_some()
    }

    /// The line at the top of the screen.
    pub fn header_line(&self) -> (r: Line)
        requires
            self@.header_fits(),
        ensures
            r@ == header(
                self@.counts(),
                size_text((self@.total_bytes - self@.cleaned_bytes) as u64),
                size_text(marked_bytes(self@.entries) as u64),
                self@.sort_mode,
                self@.dry_run,
            ),
    {
        let (marked, cleaning, bytes) = tally(self.entries());
        let marked_bytes: u64 = match bytes {
            Some(bytes) => bytes,
            None => 0,
        };
        let total: usize = self.entries().len();
        let visible: usize = self.visible_indices().len();
        let counts = Counts { visible, total, marked, cleaning };
        assert(self@.counts() == counts);
        let left = pretty_size(self.total_bytes() - self.cleaned_bytes());
        let marked_size = pretty_size(marked_bytes);
        header_from(counts, left.as_str(), marked_size.as_str(), self.sort_mode(), self.dry_run())
    }
}

/// The counts go by the marks of the entries, one after the other: an entry that is
/// marked and not cleaned counts as marked, with its bytes, and one that is being
/// cleaned counts as that.
pub proof fn law_counting(entries: Seq<EntryModel>, entry: EntryModel)
    ensures
        marked_count(seq![]) == 0 && marked_bytes(seq![]) == 0 && cleaning_count(seq![]) == 0,
        entry.marked && !entry.cleaned ==> {
            &&& marked_count(entries.push(entry)) == marked_count(entries) + 1
            &&& marked_bytes(entries.push(entry)) == marked_bytes(entries) + entry.artifact_bytes
        },
        !entry.marked || entry.cleaned ==> {
            &&& marked_count(entries.push(entry)) == marked_count(entries)
            &&& marked_bytes(entries.push(entry)) == marked_bytes(entries)
        },
        entry.cleaning ==> cleaning_count(entries.push(entry)) == cleaning_count(entries) + 1,
        !entry.cleaning ==> cleaning_count(entries.push(entry)) == cleaning_count(entries),
{
    assert(entries.push(entry).drop_last() == entries);
}

/// No more entries are marked, or being cleaned, than there are.
proof fn lemma_counts_bound(entries: Seq<EntryModel>)
    ensures
        marked_count(entries) <= entries.len(),
        cleaning_count(entries) <= entries.len(),
    decreases entries.len(),
{
    if entries.len() > 0 {
        lemma_counts_bound(entries.drop_last());
    }
}

/// The top line counts the rows, the entries, those that are marked and those that
/// are being cleaned.
pub proof fn law_counts(m: AppModel)
    requires
        m.entries.len() <= usize::MAX,
        m.visible.len() <= usize::MAX,
    ensures
        m.counts().visible == m.visible.len(),
        m.counts().total == m.entries.len(),
        m.counts().marked == marked_count(m.entries),
        m.counts().cleaning == cleaning_count(m.entries),
        m.header_fits() <==> m.cleaned_bytes <= m.total_bytes && marked_bytes(m.entries)
            <= u64::MAX,
{
    lemma_counts_bound(m.entries);
}

/// The top line tells how many entries there are, and how many of them are shown
/// where that differs, then what is left. It tells of marks and of cleaning exactly
/// where there is any, always of the order, and last of a dry run exactly in one.
pub proof fn law_top_line(
    counts: Counts,
    left: Seq<char>,
    marked: Seq<char>,
    mode: SortMode,
    dry_run: bool,
)
    ensures
        ({
            let line = header(counts, left, marked, mode, dry_run);
            let marks: int = if counts.marked == 0 {
                0
            } else {
                1
            };
            let cleans: int = if counts.cleaning == 0 {
                0
            } else {
                1
            };
            let total = decimal(counts.total as nat);
            &&& line.len() == 3 + marks + cleans + if dry_run {
                1int
            } else {
                0
            }
            &&& counts.visible == counts.total ==> line[0].text == " "@ + total + " project(s) "@
            &&& counts.visible != counts.total ==> line[0].text == " "@ + decimal(
                counts.visible as nat,
            ) + "/"@ + total + " project(s) "@
            &&& line[0].style == Style::plain().fg(Color::Cyan).bold()
            &&& line[1].text == " "@ + left + " "@
            &&& line[1].style == Style::plain().fg(Color::Yellow).bold()
            &&& counts.marked > 0 ==> line[2].text == " → "@ + decimal(counts.marked as nat)
                + " marked: "@ + marked + " "@ && line[2].style == Style::plain().fg(
                Color::LightRed,
            ).bold()
            &&& counts.cleaning > 0 ==> line[2 + marks].text == " ⏳ "@ + decimal(
                counts.cleaning as nat,
            ) + " cleaning… "@ && line[2 + marks].style == Style::plain().fg(Color::Yellow).bold()
            &&& line[2 + marks + cleans].text == match mode {
                SortMode::Size => " sort:"@ + "size"@ + " "@,
                SortMode::Date => " sort:"@ + "date"@ + " "@,
            }
            &&& line[2 + marks + cleans].style == Style::plain().fg(Color::DarkGray)
            &&& dry_run ==> line.last().text == " dry-run "@ && line.last().style
                == Style::plain().fg(Color::Red)
        }),
{
}

} // verus!
