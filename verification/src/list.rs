//! The list from which the user picks a server, and what each key does to
//! it.

use vstd::prelude::*;

verus! {

/// A list of items of which at most one is selected.
#[derive(Debug, Clone, Copy, PartialEq, Eq, Structural)]
pub struct StatefulList {
    selected: Option<usize>,
    len: usize,
}

/// A key that the user pressed.
#[derive(Debug, Clone, Copy, PartialEq, Eq, Structural)]
pub enum Key {
    Esc,
    Up,
    Down,
    Enter,
    Other,
}

/// What a key press led to.
#[derive(Debug, Clone, Copy, PartialEq, Eq, Structural)]
pub enum Selection {
    /// Nothing yet: the list is shown again.
    Pending,
    /// The user gave up.
    Cancelled,
    /// The user picked the item at this index.
    Chosen(usize),
}

impl StatefulList {
    /// The number of items.
    pub closed spec fn count(self) -> nat {
        self.len as nat
    }

    /// The index of the selected item, if one is selected.
    pub closed spec fn selection(self) -> Option<usize> {
        self.selected
    }

    /// The selected item, if any, is one of the list.
    #[verifier::type_invariant]
    spec fn well_formed(self) -> bool {
        self.selected matches Some(i) ==> i < self.len
    }

    /// The selection after a step down: the first item where nothing is
    /// selected or the last item is; otherwise the item after the selected
    /// one.
    pub open spec fn below(self) -> usize {
        match self.selection() {
            Some(i) => if i + 1 >= self.count() {
                0
            } else {
                (i + 1) as usize
            },
            None => 0,
        }
    }

    /// The selection after a step up: the first item where nothing is
    /// selected; the last item where the first is; otherwise the item
    /// before the selected one.
    pub open spec fn above(self) -> usize {
        match self.selection() {
            Some(i) => if i == 0 {
                (self.count() - 1) as usize
            } else {
                (i - 1) as usize
            },
            None => 0,
        }
    }

    /// A list of `len` items with none selected; with the first selected
    /// where there is one, if `select_first` is set.
    pub fn new(len: usize, select_first: bool) -> (list: StatefulList)
        ensures
            list.count() == len,
            list.selection() == if select_first && len > 0 {
                Some(0usize)
            } else {
                None
            },
    {
        StatefulList { selected: if select_first && len > 0 { Some(0) } else { None }, len }
    }

    /// The number of items.
    pub fn len(&self) -> (len: usize)
        ensures
            len == self.count(),
    {
        self.len
    }

    /// The index of the selected item, if one is selected.
    pub fn selected(&self) -> (selected: Option<usize>)
        ensures
            selected == self.selection(),
            selected matches Some(i) ==> i < self.count(),
    {
        proof {
            use_type_invariant(self);
        }
        self.selected
    }

    /// Moves the selection one item down, around the end.
    pub fn next(&mut self)
        requires
            old(self).count() > 0,
        ensures
            final(self).count() == old(self).count(),
            final(self).selection() == Some(old(self).below()),
    {
        proof {
            use_type_invariant(&*self);
        }
        let i = match self.selected {
            Some(i) => {
                if i >= self.len - 1 {
                    0
                } else {
                    i + 1
                }
            },
            None => 0,
        };
        self.selected = Some(i);
    }

    /// Moves the selection one item up, around the start.
    pub fn previous(&mut self)
        requires
            old(self).count() > 0,
        ensures
            final(self).count() == old(self).count(),
            final(self).selection() == Some(old(self).above()),
    {
        proof {
            use_type_invariant(&*self);
        }
        let i = match self.selected {
            Some(i) => {
                if i == 0 {
                    self.len - 1
                } else {
                    i - 1
                }
            },
            None => 0,
        };
        self.selected = Some(i);
    }
}

/// What `key` does to `list`, and what it leads to.
pub open spec fn key_spec(list: StatefulList, key: Key) -> (Option<usize>, Selection) {
    match key {
        Key::Esc => (list.selection(), Selection::Cancelled),
        Key::Up => if list.count() > 0 {
            (Some(list.above()), Selection::Pending)
        } else {
            (list.selection(), Selection::Pending)
        },
        Key::Down => if list.count() > 0 {
            (Some(list.below()), Selection::Pending)
        } else {
            (list.selection(), Selection::Pending)
        },
        Key::Enter => match list.selection() {
            Some(i) => (list.selection(), Selection::Chosen(i)),
            None => (list.selection(), Selection::Pending),
        },
        Key::Other => (list.selection(), Selection::Pending),
    }
}

/// One key press while the user picks a server from `list`: escape gives
/// up, the arrows move the selection, and enter picks the selected item,
/// if there is one. Any other key, and an arrow on an empty list, change
/// nothing.
pub fn select_server_from_list(list: &mut StatefulList, key: Key) -> (selection: Selection)
    ensures
        final(list).count() == old(list).count(),
        (final(list).selection(), selection) == key_spec(*old(list), key),
        selection matches Selection::Chosen(i) ==> i < final(list).count(),
{
    match key {
        Key::Esc => Selection::Cancelled,
        Key::Up => {
            if list.len() > 0 {
                list.previous();
            }
            Selection::Pending
        },
        Key::Down => {
            if list.len() > 0 {
                list.next();
            }
            Selection::Pending
        },
        Key::Enter => match list.selected() {
            Some(i) => Selection::Chosen(i),
            None => Selection::Pending,
        },
        Key::Other => Selection::Pending,
    }
}

} // verus!
