//! The project list as the user moves through it: the store, and which place
//! of its display order is selected.

use vstd::prelude::*;
use crate::input::{action_for, bound_action, Action, Key};
use crate::project::{Project, ProjectEvent};
use crate::store::{ProjectStore, StoreError, StoreView};

verus! {

/// The last place of a list of `len` rows; the first where there is none.
pub open spec fn last_place(len: nat) -> nat {
    if len == 0 {
        0
    } else {
        (len - 1) as nat
    }
}

/// The place below the selected one, going round to the first after the
/// last. With nothing selected it is the place that was selected last, or
/// the first.
pub open spec fn place_below(selected: Option<usize>, last_selected: Option<usize>, len: nat) -> nat {
    match selected {
        Some(i) => if i >= last_place(len) {
            0
        } else {
            (i + 1) as nat
        },
        None => match last_selected {
            Some(i) => i as nat,
            None => 0,
        },
    }
}

/// The place above the selected one, going round to the last before the
/// first. With nothing selected it is the place that was selected last, or
/// the first.
pub open spec fn place_above(selected: Option<usize>, last_selected: Option<usize>, len: nat) -> nat {
    match selected {
        Some(i) => if i == 0 {
            last_place(len)
        } else {
            (i - 1) as nat
        },
        None => match last_selected {
            Some(i) => i as nat,
            None => 0,
        },
    }
}

/// What a table holds.
pub struct TableView {
    pub store: StoreView,
    /// The selected place of the display order.
    pub selected: Option<usize>,
    /// The place that was selected when the selection was dropped.
    pub last_selected: Option<usize>,
}

impl TableView {
    /// The table with another place selected.
    pub open spec fn select(self, place: nat) -> TableView {
        TableView { selected: Some(place as usize), ..self }
    }

    /// The table after an action that moves the selection; other actions
    /// leave it as it is.
    pub open spec fn moved(self, action: Action) -> TableView {
        let len = self.store.projects.len();
        match action {
            Action::Unselect => TableView {
                selected: None,
                last_selected: self.selected,
                ..self
            },
            Action::Next => self.select(place_below(self.selected, self.last_selected, len)),
            Action::Previous => self.select(place_above(self.selected, self.last_selected, len)),
            Action::Top => self.select(0),
            Action::Bottom => self.select(last_place(len)),
            _ => self,
        }
    }

    /// The selected project: the one shown at the selected place, where that
    /// place exists.
    pub open spec fn current(self) -> Option<Project> {
        match self.selected {
            Some(i) => if i < self.store.order.len() {
                Some(self.store.shown(i as int))
            } else {
                None
            },
            None => None,
        }
    }
}

/// The project list with its selection.
#[derive(Debug)]
pub struct ProjectTable {
    items: ProjectStore,
    selected: Option<usize>,
    last_selected: Option<usize>,
}

impl View for ProjectTable {
    type V = TableView;

    closed spec fn view(&self) -> TableView {
        TableView {
            store: self.items@,
            selected: self.selected,
            last_selected: self.last_selected,
        }
    }
}

impl Default for ProjectTable {
    fn default() -> (t: ProjectTable)
        ensures
            t.wf(),
            t@ == (TableView { store: StoreView::empty(), selected: None, last_selected: None }),
    {
        ProjectTable::new()
    }
}

impl ProjectTable {
    /// The invariant of a table: that of its store.
    pub closed spec fn wf(&self) -> bool {
        self.items.wf()
    }

    /// What a well-formed table holds is well formed.
    pub proof fn lemma_wf(&self)
        requires
            self.wf(),
        ensures
            self@.store.wf(),
    {
        self.items.lemma_wf();
    }

    /// An empty table with nothing selected.
    pub fn new() -> (t: ProjectTable)
        ensures
            t.wf(),
            t@ == (TableView { store: StoreView::empty(), selected: None, last_selected: None }),
    {
        ProjectTable { items: ProjectStore::new(), selected: None, last_selected: None }
    }

    /// The store behind the table.
    pub fn items(&self) -> (s: &ProjectStore)
        ensures
            s@ == self@.store,
            self.wf() ==> s.wf(),
    {
        &self.items
    }

    /// The selected place.
    pub fn selected(&self) -> (r: Option<usize>)
        ensures
            r == self@.selected,
    {
        self.selected
    }

    /// Selects the first place.
    pub fn go_top(&mut self)
        ensures
            final(self)@ == old(self)@.moved(Action::Top),
            old(self).wf() ==> final(self).wf(),
    {
        self.selected = Some(0);
    }

    /// Selects the last place.
    pub fn go_bottom(&mut self)
        ensures
            final(self)@ == old(self)@.moved(Action::Bottom),
            old(self).wf() ==> final(self).wf(),
    {
        self.selected = Some(self.items.len().saturating_sub(1));
    }

    /// Selects the place below, going round at the end.
    pub fn next(&mut self)
        ensures
            final(self)@ == old(self)@.moved(Action::Next),
            old(self).wf() ==> final(self).wf(),
    {
        let i: usize = match self.selected {
            Some(i) => {
                if i >= self.items.len().saturating_sub(1) {
                    0
                } else {
                    i + 1
                }
            },
            None => match self.last_selected {
                Some(i) => i,
                None => 0,
            },
        };
        self.selected = Some(i);
    }

    /// Selects the place above, going round at the start.
    pub fn previous(&mut self)
        ensures
            final(self)@ == old(self)@.moved(Action::Previous),
            old(self).wf() ==> final(self).wf(),
    {
        let i: usize = match self.selected {
            Some(i) => {
                if i == 0 {
                    self.items.len().saturating_sub(1)
                } else {
                    i - 1
                }
            },
            None => match self.last_selected {
                Some(i) => i,
                None => 0,
            },
        };
        self.selected = Some(i);
    }

    /// Drops the selection and remembers where it was.
    pub fn unselect(&mut self)
        ensures
            final(self)@ == old(self)@.moved(Action::Unselect),
            old(self).wf() ==> final(self).wf(),
    {
        self.last_selected = self.selected;
        self.selected = None;
    }

    /// The selected project. A place that the display order does not have
    /// selects nothing.
    pub fn current(&self) -> (r: Option<&Project>)
        requires
            self.wf(),
        ensures
            match self@.current() {
                Some(project) => r == Some(&project),
                None => r is None,
            },
    {
        match self.selected {
            Some(i) => self.items.get(i),
            None => None,
        }
    }

    /// Applies one event to the store and brings the display order up to
    /// date. The selection stays on its place, whatever is shown there now.
    pub fn update(&mut self, event: ProjectEvent) -> (r: Result<(), StoreError>)
        requires
            old(self).wf(),
        ensures
            final(self).wf(),
            final(self)@.selected == old(self)@.selected,
            final(self)@.last_selected == old(self)@.last_selected,
            match old(self)@.store.step(event) {
                Ok(next) => r is Ok && final(self)@.store.is_resort_of(next)
                    && final(self)@.store.sorted(),
                Err(e) => r == Err::<(), StoreError>(e) && final(self)@.store == old(self)@.store,
            },
    {
        self.items.update(event)
    }

    /// Answers a pressed key: the keys that move the selection do so, all
    /// others change nothing.
    pub fn handle_input(&mut self, key: Key)
        ensures
            final(self)@ == old(self)@.moved(bound_action(key)),
            old(self).wf() ==> final(self).wf(),
    {
        match action_for(key) {
            Action::Unselect => self.unselect(),
            Action::Next => self.next(),
            Action::Previous => self.previous(),
            Action::Top => self.go_top(),
            Action::Bottom => self.go_bottom(),
            Action::Quit => {},
            Action::Open => {},
            Action::Ignore => {},
        }
    }
}

} // verus!
