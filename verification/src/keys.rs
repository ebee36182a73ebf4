//! What the keys do.

use vstd::prelude::*;

use crate::model::{AppMode, AppModel, JobModel};
use crate::project::{Project, ProjectModel};
use crate::state::{job_models, App, CleanJob};

verus! {

/// A key.
#[derive(Clone, Copy, Debug, PartialEq, Eq, Structural)]
pub enum KeyCode {
    Esc,
    Enter,
    Backspace,
    Up,
    Down,
    Char(char),
    /// A key that means nothing here.
    Other,
}

/// What is to be done outside after a key.
pub enum Action {
    /// Nothing.
    Stay,
    /// The program ends.
    Quit,
    /// Projects are cleaned.
    Clean(Vec<CleanJob>),
    /// A project is opened.
    Open(Project),
}

/// What is to be done outside after a key, as a mathematical value.
#[verifier::ext_equal]
pub enum ActionModel {
    Stay,
    Quit,
    Clean(Seq<JobModel>),
    Open(ProjectModel),
}

impl View for Action {
    type V = ActionModel;

    open spec fn view(&self) -> ActionModel {
        match self {
            Action::Stay => ActionModel::Stay,
            Action::Quit => ActionModel::Quit,
            Action::Clean(jobs) => ActionModel::Clean(job_models(jobs@)),
            Action::Open(project) => ActionModel::Open(project@),
        }
    }
}

/// One order or none, as a list.
pub open spec fn jobs_of(job: Option<JobModel>) -> Seq<JobModel> {
    match job {
        Some(job) => seq![job],
        None => seq![],
    }
}

impl AppModel {
    /// What a letter makes of the list.
    pub open spec fn letter(self, c: char) -> AppModel {
        if c == '/' {
            self.with_mode(AppMode::Search)
        } else if c == 'i' {
            self.open_info()
        } else if c == 'j' {
            self.move_down()
        } else if c == 'k' {
            self.move_up()
        } else if c == ' ' {
            self.toggle_mark()
        } else if c == 'a' {
            self.mark_visible(true)
        } else if c == 'A' {
            self.mark_visible(false)
        } else if c == 'd' {
            self.clean_selected()
        } else if c == 'c' {
            self.clean_marked()
        } else if c == 's' {
            self.toggle_sort()
        } else if c == 'G' {
            self.select_last()
        } else if c == 'g' {
            self.select_first()
        } else {
            self
        }
    }

    /// What a key makes of the state.
    pub open spec fn press(self, key: KeyCode) -> AppModel {
        match self.mode {
            AppMode::Search => match key {
                KeyCode::Esc => self.cancel_search(),
                KeyCode::Enter => self.with_mode(AppMode::Normal),
                KeyCode::Backspace => self.backspace_search(),
                KeyCode::Char(c) => self.append_search(c),
                _ => self,
            },
            AppMode::Info => if key == KeyCode::Esc || key == KeyCode::Char('i') || key
                == KeyCode::Char('q') {
                self.with_mode(AppMode::Normal)
            } else {
                self
            },
            AppMode::Normal => match key {
                KeyCode::Esc => if self.query.len() > 0 {
                    self.cancel_search()
                } else {
                    self
                },
                KeyCode::Down => self.move_down(),
                KeyCode::Up => self.move_up(),
                KeyCode::Char(c) => self.letter(c),
                _ => self,
            },
        }
    }

    /// What is to be done outside after a key.
    pub open spec fn press_action(self, key: KeyCode) -> ActionModel {
        if self.mode != AppMode::Normal {
            ActionModel::Stay
        } else if key == KeyCode::Char('q') {
            ActionModel::Quit
        } else if key == KeyCode::Char('d') {
            ActionModel::Clean(jobs_of(self.clean_selected_job()))
        } else if key == KeyCode::Char('c') {
            ActionModel::Clean(self.clean_marked_jobs())
        } else if key == KeyCode::Char('o') && self.selected_entry() is Some {
            ActionModel::Open(self.selected_entry().unwrap().project)
        } else {
            ActionModel::Stay
        }
    }
}

impl App {
    /// Does what a key is for. A key that is released or held down does nothing.
    pub fn handle_key(&mut self, pressed: bool, key: KeyCode) -> (action: Action)
        ensures
            pressed ==> final(self)@ == old(self)@.press(key) && action@ == old(self)@.press_action(
                key,
            ),
            !pressed ==> final(self)@ == old(self)@ && action@ == ActionModel::Stay,
    {
        if !pressed {
            return Action::Stay;
        }
        match self.mode() {
            AppMode::Search => {
                match key {
                    KeyCode::Esc => self.cancel_search(),
                    KeyCode::Enter => self.confirm_search(),
                    KeyCode::Backspace => self.backspace_search(),
                    KeyCode::Char(c) => self.append_search(c),
                    _ => {},
                }
                Action::Stay
            },
            AppMode::Info => {
                match key {
                    KeyCode::Esc | KeyCode::Char('i') | KeyCode::Char('q') => self.close_modal(),
                    _ => {},
                }
                Action::Stay
            },
            AppMode::Normal => match key {
                KeyCode::Esc => {
                    if !self.search_query().is_empty() {
                        self.cancel_search();
                    }
                    Action::Stay
                },
                KeyCode::Down => {
                    self.move_down();
                    Action::Stay
                },
                KeyCode::Up => {
                    self.move_up();
                    Action::Stay
                },
                KeyCode::Char(c) => self.handle_letter(c),
                _ => Action::Stay,
            },
        }
    }

    /// Does what a letter is for in the list.
    fn handle_letter(&mut self, c: char) -> (action: Action)
        requires
            old(self)@.mode == AppMode::Normal,
        ensures
            final(self)@ == old(self)@.letter(c),
            action@ == old(self)@.press_action(KeyCode::Char(c)),
    {
        match c {
            'q' => return Action::Quit,
            'd' => {
                let ghost before = self@;
                let job = self.clean_selected();
                let mut jobs: Vec<CleanJob> = Vec::new();
                if let Some(job) = job {
                    jobs.push(job);
                }
                assert(job_models(jobs@) == jobs_of(before.clean_selected_job()));
                return Action::Clean(jobs);
            },
            'c' => return Action::Clean(self.clean_marked()),
            'o' => {
                if let Some(project) = self.open_selected() {
                    return Action::Open(project);
                }
            },
            '/' => self.enter_search(),
            'i' => self.open_info(),
            'j' => self.move_down(),
            'k' => self.move_up(),
            ' ' => self.toggle_mark(),
            'a' => self.mark_all(),
            'A' => self.unmark_all(),
            's' => self.toggle_sort(),
            'G' => self.select_last(),
            'g' => self.select_first(),
            _ => {},
        }
        Action::Stay
    }
}

/// What is said of an action is said of what it holds.
pub proof fn law_views(action: Action)
    ensures
        match action {
            Action::Stay => action@ == ActionModel::Stay,
            Action::Quit => action@ == ActionModel::Quit,
            Action::Clean(jobs) => action@ is Clean && action@->Clean_0.len() == jobs@.len()
                && forall|i: int|
                0 <= i < jobs@.len() ==> #[trigger] action@->Clean_0[i] == jobs@[i]@,
            Action::Open(project) => action@ == ActionModel::Open(project@),
        },
{
}

} // verus!
