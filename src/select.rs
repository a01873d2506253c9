//! The selection engine: a cursor over the active catalog's candidates and
//! the resolved catalogs, and the session that records one pick per catalog.

use vstd::prelude::*;
use crate::state::{is_after, is_before, is_first, Catalog, PickTable};

verus! {

/// Where the cursor stands.
#[derive(Clone, Copy, PartialEq, Eq, Structural, Debug)]
pub enum Cursor {
    /// On a candidate of the active catalog.
    Choice(usize),
    /// On a resolved catalog, by number, for review.
    Picked(u32),
}

/// One input event.
#[derive(Clone, Copy, PartialEq, Eq, Structural, Debug)]
pub enum Input {
    Up,
    Down,
    Left,
    Right,
    /// Show or hide the directory of the candidate under the cursor.
    Toggle,
    /// Show every directory, or hide them all when all are shown.
    ToggleAll,
    Confirm,
    Quit,
}

/// What an interaction asks of the caller.
#[derive(Clone, Copy, PartialEq, Eq, Structural, Debug)]
pub enum Outcome {
    /// Record this candidate of the active catalog.
    Picked(usize),
    /// Forget the pick of this catalog.
    Unpicked(u32),
    Quit,
}

/// Width of one horizontal scroll step.
pub const SCROLL_STEP: u16 = 4;

/// A cursor that points at something that exists.
pub open spec fn valid_cursor(c: Cursor, n_books: nat, m: Map<u32, usize>) -> bool {
    match c {
        Cursor::Choice(i) => i < n_books,
        Cursor::Picked(n) => m.contains_key(n),
    }
}

/// The cursor after moving up.
pub open spec fn moved_up(c: Cursor, n_books: nat, m: Map<u32, usize>) -> Cursor {
    match c {
        Cursor::Choice(i) => Cursor::Choice(
            if i > 0 {
                (i - 1) as usize
            } else {
                0
            },
        ),
        Cursor::Picked(n) => if exists|k: u32| is_before(m, n, k) {
            Cursor::Picked(choose|k: u32| is_before(m, n, k))
        } else {
            Cursor::Choice((n_books - 1) as usize)
        },
    }
}

/// The cursor after moving down.
pub open spec fn moved_down(c: Cursor, n_books: nat, m: Map<u32, usize>) -> Cursor {
    match c {
        Cursor::Choice(i) => if i + 1 < n_books {
            Cursor::Choice((i + 1) as usize)
        } else if exists|k: u32| is_first(m, k) {
            Cursor::Picked(choose|k: u32| is_first(m, k))
        } else {
            Cursor::Choice(i)
        },
        Cursor::Picked(n) => if exists|k: u32| is_after(m, n, k) {
            Cursor::Picked(choose|k: u32| is_after(m, n, k))
        } else {
            Cursor::Picked(n)
        },
    }
}

/// The cursor on entering a catalog of `n_books` candidates: a remembered
/// choice clamped into range, a remembered resolved catalog kept while it is
/// still resolved, and the last candidate otherwise.
pub open spec fn entered(c: Cursor, n_books: nat, m: Map<u32, usize>) -> Cursor {
    match c {
        Cursor::Choice(i) => Cursor::Choice(
            if i < n_books {
                i
            } else {
                (n_books - 1) as usize
            },
        ),
        Cursor::Picked(n) => if m.contains_key(n) {
            Cursor::Picked(n)
        } else {
            Cursor::Choice((n_books - 1) as usize)
        },
    }
}

/// What confirming on a cursor asks for.
pub open spec fn confirmed(c: Cursor) -> Outcome {
    match c {
        Cursor::Choice(i) => Outcome::Picked(i),
        Cursor::Picked(n) => Outcome::Unpicked(n),
    }
}

/// `v` with every element `b`.
pub open spec fn all_are(v: Seq<bool>, b: bool) -> bool {
    forall|i: int| 0 <= i < v.len() ==> v[i] == b
}

/// Cursor, horizontal scroll and which directories are shown.
pub struct Engine {
    pub cursor: Cursor,
    pub scroll_x: u16,
    pub expanded: Vec<bool>,
}

fn all_false(n: usize) -> (r: Vec<bool>)
    ensures
        r@.len() == n,
        all_are(r@, false),
{
    let mut v: Vec<bool> = Vec::new();
    let mut i: usize = 0;
    while i < n
        invariant
            i <= n,
            v@.len() == i,
            all_are(v@, false),
        decreases n - i,
    {
        v.push(false);
        i = i + 1;
    }
    v
}

fn fill(v: &mut Vec<bool>, b: bool)
    ensures
        final(v)@.len() == old(v)@.len(),
        all_are(final(v)@, b),
{
    let mut i: usize = 0;
    while i < v.len()
        invariant
            i <= v@.len(),
            v@.len() == old(v)@.len(),
            forall|j: int| 0 <= j < i ==> v@[j] == b,
        decreases v@.len() - i,
    {
        v.set(i, b);
        i = i + 1;
    }
}

impl Engine {
    /// The cursor is valid and one flag is kept per candidate.
    pub open spec fn wf(&self, n_books: nat, m: Map<u32, usize>) -> bool {
        &&& valid_cursor(self.cursor, n_books, m)
        &&& self.expanded@.len() == n_books
    }

    /// A fresh engine on the first candidate.
    pub fn new(n_books: usize) -> (r: Engine)
        ensures
            r.cursor == Cursor::Choice(0),
            r.scroll_x == 0,
            r.expanded@.len() == n_books,
            all_are(r.expanded@, false),
    {
        Engine { cursor: Cursor::Choice(0), scroll_x: 0, expanded: all_false(n_books) }
    }

    /// Re-enters a catalog of `n_books` candidates, keeping what the cursor
    /// remembers where it still applies, with scroll and shown directories
    /// reset.
    pub fn enter(&mut self, n_books: usize, table: &PickTable)
        requires
            n_books > 0,
            table.wf(),
        ensures
            final(self).cursor == entered(old(self).cursor, n_books as nat, table@),
            final(self).wf(n_books as nat, table@),
            final(self).scroll_x == 0,
            all_are(final(self).expanded@, false),
    {
        self.cursor = match self.cursor {
            Cursor::Choice(i) => Cursor::Choice(
                if i < n_books {
                    i
                } else {
                    n_books - 1
                },
            ),
            Cursor::Picked(n) => if table.get(n).is_some() {
                Cursor::Picked(n)
            } else {
                Cursor::Choice(n_books - 1)
            },
        };
        self.scroll_x = 0;
        self.expanded = all_false(n_books);
    }

    /// Applies one input. Only confirming and quitting ask anything of the
    /// caller; every other input changes the engine alone.
    pub fn step(&mut self, input: Input, n_books: usize, table: &PickTable) -> (r: Option<
        Outcome,
    >)
        requires
            n_books > 0,
            old(self).wf(n_books as nat, table@),
            table.wf(),
        ensures
            final(self).wf(n_books as nat, table@),
            input == Input::Up ==> final(self).cursor == moved_up(
                old(self).cursor,
                n_books as nat,
                table@,
            ),
            input == Input::Down ==> final(self).cursor == moved_down(
                old(self).cursor,
                n_books as nat,
                table@,
            ),
            input != Input::Up && input != Input::Down ==> final(self).cursor == old(
                self,
            ).cursor,
            input == Input::Left ==> final(self).scroll_x == if old(self).scroll_x >= SCROLL_STEP {
                (old(self).scroll_x - SCROLL_STEP) as u16
            } else {
                0
            },
            input == Input::Right ==> final(self).scroll_x == if old(self).scroll_x
                <= u16::MAX - SCROLL_STEP {
                (old(self).scroll_x + SCROLL_STEP) as u16
            } else {
                u16::MAX
            },
            input != Input::Left && input != Input::Right ==> final(self).scroll_x == old(
                self,
            ).scroll_x,
            input == Input::Toggle ==> final(self).expanded@ == match old(self).cursor {
                Cursor::Choice(i) => old(self).expanded@.update(i as int, !old(self).expanded@[i as int]),
                Cursor::Picked(_) => old(self).expanded@,
            },
            input == Input::ToggleAll ==> all_are(
                final(self).expanded@,
                !all_are(old(self).expanded@, true),
            ),
            input != Input::Toggle && input != Input::ToggleAll ==> final(self).expanded@ == old(
                self,
            ).expanded@,
            input == Input::Confirm ==> r == Some(confirmed(old(self).cursor)),
            input == Input::Quit ==> r == Some(Outcome::Quit),
            input != Input::Confirm && input != Input::Quit ==> r is None,
    {
        match input {
            Input::Up => {
                self.cursor = match self.cursor {
                    Cursor::Choice(i) => Cursor::Choice(
                        if i > 0 {
                            i - 1
                        } else {
                            0
                        },
                    ),
                    Cursor::Picked(n) => match table.before(n) {
                        Some(k) => Cursor::Picked(k),
                        None => Cursor::Choice(n_books - 1),
                    },
                };
                None
            },
            Input::Down => {
                self.cursor = match self.cursor {
                    Cursor::Choice(i) => if i + 1 < n_books {
                        Cursor::Choice(i + 1)
                    } else {
                        match table.first() {
                            Some(k) => Cursor::Picked(k),
                            None => Cursor::Choice(i),
                        }
                    },
                    Cursor::Picked(n) => match table.after(n) {
                        Some(k) => Cursor::Picked(k),
                        None => Cursor::Picked(n),
                    },
                };
                None
            },
            Input::Left => {
                self.scroll_x = self.scroll_x.saturating_sub(SCROLL_STEP);
                None
            },
            Input::Right => {
                self.scroll_x = self.scroll_x.saturating_add(SCROLL_STEP);
                None
            },
            Input::Toggle => {
                match self.cursor {
                    Cursor::Choice(i) => {
                        let shown = self.expanded[i];
                        self.expanded.set(i, !shown);
                    },
                    Cursor::Picked(_) => {},
                }
                None
            },
            Input::ToggleAll => {
                let mut all = true;
                let mut i: usize = 0;
                while i < self.expanded.len()
                    invariant
                        i <= self.expanded@.len(),
                        all == forall|j: int| 0 <= j < i ==> self.expanded@[j],
                    decreases self.expanded@.len() - i,
                {
                    all = all && self.expanded[i];
                    i = i + 1;
                }
                fill(&mut self.expanded, !all);
                None
            },
            Input::Confirm => Some(
                match self.cursor {
                    Cursor::Choice(i) => Outcome::Picked(i),
                    Cursor::Picked(n) => Outcome::Unpicked(n),
                },
            ),
            Input::Quit => Some(Outcome::Quit),
        }
    }
}

/// Catalog `i` has no entry in the table.
pub open spec fn unresolved(cs: Seq<Catalog>, m: Map<u32, usize>, i: int) -> bool {
    !m.contains_key(cs[i].number)
}

/// `r` is the first catalog without an entry, or `None` when all have one.
pub open spec fn is_next_unpicked(cs: Seq<Catalog>, m: Map<u32, usize>, r: Option<usize>) -> bool {
    match r {
        Some(a) => a < cs.len() && unresolved(cs, m, a as int) && forall|j: int|
            0 <= j < a ==> !unresolved(cs, m, j),
        None => forall|j: int| 0 <= j < cs.len() ==> !unresolved(cs, m, j),
    }
}

/// A resolution session over a set of catalogs.
pub struct Session {
    pub catalogs: Vec<Catalog>,
    pub table: PickTable,
    /// The catalog being resolved; `None` once every catalog is.
    pub active: Option<usize>,
    pub engine: Engine,
}

impl Session {
    /// Every catalog has a candidate, a cursor on a resolved catalog names a
    /// key of the table, the active catalog is unresolved, and the engine is
    /// valid for it.
    pub open spec fn wf(&self) -> bool {
        &&& self.table.wf()
        &&& (self.engine.cursor matches Cursor::Picked(n) ==> self.table@.contains_key(n))
        &&& forall|i: int| 0 <= i < self.catalogs@.len() ==> #[trigger] self.catalogs@[i].books@.len() > 0
        &&& self.active matches Some(a) ==> {
            &&& a < self.catalogs@.len()
            &&& unresolved(self.catalogs@, self.table@, a as int)
            &&& self.engine.wf(self.catalogs@[a as int].books@.len(), self.table@)
        }
    }

    /// The first catalog without an entry in the table.
    pub fn next_unpicked(&self) -> (r: Option<usize>)
        requires
            self.table.wf(),
        ensures
            is_next_unpicked(self.catalogs@, self.table@, r),
    {
        let mut i: usize = 0;
        while i < self.catalogs.len()
            invariant
                self.table.wf(),
                i <= self.catalogs@.len(),
                forall|j: int| 0 <= j < i ==> !unresolved(self.catalogs@, self.table@, j),
            decreases self.catalogs@.len() - i,
        {
            if self.table.get(self.catalogs[i].number).is_none() {
                return Some(i);
            }
            i = i + 1;
        }
        None
    }

    /// Starts resolving `catalogs`, none resolved yet, on the first
    /// candidate of the first catalog.
    pub fn new(catalogs: Vec<Catalog>) -> (r: Session)
        requires
            forall|i: int| 0 <= i < catalogs@.len() ==> #[trigger] catalogs@[i].books@.len() > 0,
        ensures
            r.wf(),
            r.catalogs@ == catalogs@,
            r.table@ == Map::<u32, usize>::empty(),
            r.active == (if catalogs@.len() > 0 {
                Some(0usize)
            } else {
                None
            }),
            r.engine.cursor == Cursor::Choice(0),
    {
        let n = if catalogs.len() > 0 {
            catalogs[0].books.len()
        } else {
            0
        };
        let active = if catalogs.len() > 0 {
            Some(0)
        } else {
            None
        };
        Session { catalogs, table: PickTable::new(), active, engine: Engine::new(n) }
    }

    /// Applies one input to the active catalog.
    ///
    /// Confirming a candidate records it as the catalog's pick and moves on
    /// to the first catalog without one; confirming a resolved catalog forgets
    /// its pick and stays on the active catalog. Nothing else changes the
    /// table or the active catalog.
    pub fn step(&mut self, input: Input) -> (r: Option<Outcome>)
        requires
            old(self).wf(),
            old(self).active is Some,
        ensures
            final(self).wf(),
            final(self).catalogs@ == old(self).catalogs@,
            input == Input::Confirm ==> r == Some(confirmed(old(self).engine.cursor)),
            input == Input::Quit ==> r == Some(Outcome::Quit),
            input != Input::Confirm && input != Input::Quit ==> r is None,
            input == Input::Up ==> final(self).engine.cursor == moved_up(
                old(self).engine.cursor,
                old(self).catalogs@[old(self).active->0 as int].books@.len(),
                old(self).table@,
            ),
            input == Input::Down ==> final(self).engine.cursor == moved_down(
                old(self).engine.cursor,
                old(self).catalogs@[old(self).active->0 as int].books@.len(),
                old(self).table@,
            ),
            input != Input::Up && input != Input::Down && input != Input::Confirm ==> final(self).engine.cursor == old(self).engine.cursor,
            input == Input::Left ==> final(self).engine.scroll_x == if old(self).engine.scroll_x
                >= SCROLL_STEP {
                (old(self).engine.scroll_x - SCROLL_STEP) as u16
            } else {
                0
            },
            input == Input::Right ==> final(self).engine.scroll_x == if old(self).engine.scroll_x
                <= u16::MAX - SCROLL_STEP {
                (old(self).engine.scroll_x + SCROLL_STEP) as u16
            } else {
                u16::MAX
            },
            input != Input::Left && input != Input::Right && input != Input::Confirm ==> final(self).engine.scroll_x == old(self).engine.scroll_x,
            input == Input::Toggle ==> final(self).engine.expanded@ == match old(
                self,
            ).engine.cursor {
                Cursor::Choice(i) => old(self).engine.expanded@.update(
                    i as int,
                    !old(self).engine.expanded@[i as int],
                ),
                Cursor::Picked(_) => old(self).engine.expanded@,
            },
            input == Input::ToggleAll ==> all_are(
                final(self).engine.expanded@,
                !all_are(old(self).engine.expanded@, true),
            ),
            input != Input::Toggle && input != Input::ToggleAll && input != Input::Confirm
                ==> final(self).engine.expanded@ == old(self).engine.expanded@,
            (input == Input::Confirm && final(self).active is Some) ==> final(self).engine.scroll_x == 0 && all_are(final(self).engine.expanded@, false),
            r matches Some(Outcome::Unpicked(_)) ==> final(self).engine.cursor == entered(
                old(self).engine.cursor,
                old(self).catalogs@[old(self).active->0 as int].books@.len(),
                final(self).table@,
            ),
            (r matches Some(Outcome::Picked(_)) && final(self).active is Some)
                ==> final(self).engine.cursor == entered(
                old(self).engine.cursor,
                final(self).catalogs@[final(self).active->0 as int].books@.len(),
                final(self).table@,
            ),
            r matches Some(Outcome::Picked(i)) ==> {
                &&& final(self).table@ == old(self).table@.insert(
                    old(self).catalogs@[old(self).active->0 as int].number,
                    i,
                )
                &&& is_next_unpicked(final(self).catalogs@, final(self).table@, final(self).active)
            },
            r matches Some(Outcome::Unpicked(n)) ==> {
                &&& old(self).table@.contains_key(n)
                &&& final(self).table@ == old(self).table@.remove(n)
                &&& final(self).active == old(self).active
            },
            !(r matches Some(Outcome::Picked(_))) && !(r matches Some(Outcome::Unpicked(_)))
                ==> final(self).table@ == old(self).table@ && final(self).active == old(
                self,
            ).active,
    {
        let a = match self.active {
            Some(a) => a,
            None => 0,
        };
        let n_books = self.catalogs[a].books.len();
        let r = self.engine.step(input, n_books, &self.table);
        match r {
            Some(Outcome::Picked(i)) => {
                let number = self.catalogs[a].number;
                self.table.insert(number, i);
                self.active = self.next_unpicked();
                match self.active {
                    Some(b) => {
                        let m = self.catalogs[b].books.len();
                        self.engine.enter(m, &self.table);
                    },
                    None => {},
                }
            },
            Some(Outcome::Unpicked(n)) => {
                self.table.remove(n);
                self.engine.enter(n_books, &self.table);
            },
            _ => {},
        }
        r
    }
}

/// Whatever the inputs, the cursor of a well-formed session only ever stands
/// on a resolved catalog that is in the table.
pub proof fn lemma_picked_in_table(s: Session, n: u32)
    requires
        s.wf(),
        s.engine.cursor == Cursor::Picked(n),
    ensures
        s.table@.contains_key(n),
{
}

} // verus!
