//! The triage session: a fixed list of files, a cursor into it, and the
//! stack of decisions taken so far.

use vstd::prelude::*;
use crate::domain::decision::Decision;
use crate::domain::file_entry::FileEntry;

verus! {

/// The state of one triage session.
#[derive(Debug)]
pub struct AppState {
    /// The files under triage, in the order of discovery.
    pub files: Vec<FileEntry>,
    /// The index of the file now shown.
    pub current_index: usize,
    /// The decisions taken, the latest last, each with the index it was
    /// taken at.
    pub decisions_stack: Vec<(usize, Decision)>,
}

/// The mathematical value of a session.
pub ghost struct Session {
    pub files: Seq<FileEntry>,
    pub cursor: nat,
    pub history: Seq<(nat, Decision)>,
}

/// A recorded decision with its index as a number.
pub open spec fn recorded(pair: (usize, Decision)) -> (nat, Decision) {
    (pair.0 as nat, pair.1)
}

impl View for AppState {
    type V = Session;

    open spec fn view(&self) -> Session {
        Session {
            files: self.files@,
            cursor: self.current_index as nat,
            history: Seq::new(
                self.decisions_stack@.len(),
                |i: int| recorded(self.decisions_stack@[i]),
            ),
        }
    }
}

impl Session {
    /// The cursor points at a file, or rests at 0 where there is none.
    pub open spec fn well_formed(self) -> bool {
        if self.files.len() == 0 {
            self.cursor == 0
        } else {
            self.cursor < self.files.len()
        }
    }

    /// The session at its start: the cursor on the first file, no decision
    /// taken.
    pub open spec fn start(files: Seq<FileEntry>) -> Session {
        Session { files, cursor: 0, history: Seq::empty() }
    }

    /// The index of the last file, 0 where there is none.
    pub open spec fn last_index(self) -> nat {
        if self.files.len() == 0 {
            0
        } else {
            (self.files.len() - 1) as nat
        }
    }

    /// One step forward, unless the cursor is on the last file or beyond.
    pub open spec fn advance(self) -> Session {
        if self.cursor < self.last_index() {
            Session { cursor: self.cursor + 1, ..self }
        } else {
            self
        }
    }

    /// One step back, unless the cursor is on the first file.
    pub open spec fn retreat(self) -> Session {
        if self.cursor > 0 {
            Session { cursor: (self.cursor - 1) as nat, ..self }
        } else {
            self
        }
    }

    /// The file under the cursor, where the cursor points at one.
    pub open spec fn current(self) -> Option<FileEntry> {
        if self.cursor < self.files.len() {
            Some(self.files[self.cursor as int])
        } else {
            None
        }
    }

    /// The session after `decision` was taken for the file under the
    /// cursor.
    pub open spec fn record(self, decision: Decision) -> Session {
        Session { history: self.history.push((self.cursor, decision)), ..self }
    }

    /// The latest decision, where one was taken.
    pub open spec fn latest(self) -> Option<(nat, Decision)> {
        if self.history.len() > 0 {
            Some(self.history.last())
        } else {
            None
        }
    }

    /// The session without its latest decision; the session itself where
    /// none was taken.
    pub open spec fn undone(self) -> Session {
        if self.history.len() > 0 {
            Session { history: self.history.drop_last(), ..self }
        } else {
            self
        }
    }

    /// The session after `n` steps forward.
    pub open spec fn advance_by(self, n: nat) -> Session
        decreases n,
    {
        if n == 0 {
            self
        } else {
            self.advance_by((n - 1) as nat).advance()
        }
    }

    /// The session after `n` steps back.
    pub open spec fn retreat_by(self, n: nat) -> Session
        decreases n,
    {
        if n == 0 {
            self
        } else {
            self.retreat_by((n - 1) as nat).retreat()
        }
    }
}

impl AppState {
    /// A session over `files`, the cursor on the first of them, no decision
    /// taken.
    pub fn new(files: Vec<FileEntry>) -> (r: AppState)
        ensures
            r@ == Session::start(files@),
            r@.well_formed(),
    {
        let r = AppState { files, current_index: 0, decisions_stack: Vec::new() };
        proof {
            assert(r@.history =~= Seq::<(nat, Decision)>::empty());
        }
        r
    }

    /// Moves the cursor one file forward; at the last file it stays.
    pub fn next(&mut self)
        ensures
            final(self)@ == old(self)@.advance(),
            old(self)@.well_formed() ==> final(self)@.well_formed(),
    {
        let n = self.files.len();
        if n > 0 && self.current_index < n - 1 {
            self.current_index += 1;
        }
    }

    /// Moves the cursor one file back; at the first file it stays.
    pub fn previous(&mut self)
        ensures
            final(self)@ == old(self)@.retreat(),
            old(self)@.well_formed() ==> final(self)@.well_formed(),
    {
        if self.current_index > 0 {
            self.current_index -= 1;
        }
    }

    /// The file under the cursor; nothing where the list is empty.
    pub fn current_file(&self) -> (r: Option<&FileEntry>)
        ensures
            match self@.current() {
                Some(file) => r == Some(&file),
                None => r is None,
            },
    {
        if self.current_index < self.files.len() {
            Some(&self.files[self.current_index])
        } else {
            None
        }
    }

    /// Records `decision` for the file under the cursor. The cursor stays.
    pub fn record_decision(&mut self, decision: Decision)
        ensures
            final(self)@ == old(self)@.record(decision),
            old(self)@.well_formed() ==> final(self)@.well_formed(),
    {
        self.decisions_stack.push((self.current_index, decision));
        proof {
            assert(self@.history =~= old(self)@.record(decision).history);
        }
    }

    /// Takes the latest decision back and returns it with its index;
    /// nothing where no decision is left. The cursor stays.
    pub fn undo(&mut self) -> (r: Option<(usize, Decision)>)
        ensures
            match r {
                Some(pair) => old(self)@.latest() == Some(recorded(pair)),
                None => old(self)@.latest() is None,
            },
            final(self)@ == old(self)@.undone(),
            old(self)@.well_formed() ==> final(self)@.well_formed(),
    {
        let r = self.decisions_stack.pop();
        proof {
            assert(self@.history =~= old(self)@.undone().history);
        }
        r
    }
}

/// A new session over a list that is not empty shows the first file.
pub proof fn lemma_start_shows_first(files: Seq<FileEntry>)
    requires
        files.len() > 0,
    ensures
        Session::start(files).current() == Some(files[0]),
        Session::start(files).well_formed(),
{
}

/// A new session over the empty list shows nothing, and stepping leaves it
/// as it is.
pub proof fn lemma_empty_session(files: Seq<FileEntry>)
    requires
        files.len() == 0,
    ensures
        Session::start(files).current() is None,
        Session::start(files).advance() == Session::start(files),
        Session::start(files).retreat() == Session::start(files),
        Session::start(files).well_formed(),
{
}

/// However often a session steps forward, the cursor moves by that many
/// files and stops at the last: it never passes it. Files and decisions
/// stay as they are.
pub proof fn lemma_advance_saturates(s: Session, n: nat)
    requires
        s.well_formed(),
    ensures
        s.advance_by(n).well_formed(),
        s.advance_by(n).cursor <= s.last_index(),
        s.advance_by(n).cursor == if s.cursor + n <= s.last_index() {
            s.cursor + n
        } else {
            s.last_index()
        },
        s.advance_by(n).files == s.files,
        s.advance_by(n).history == s.history,
    decreases n,
{
    if n > 0 {
        lemma_advance_saturates(s, (n - 1) as nat);
    }
}

/// A step forward leaves the session as it is exactly when the cursor is on
/// the last file, or there is no file: that is how the end shows.
pub proof fn lemma_advance_stalls_at_end(s: Session)
    requires
        s.well_formed(),
    ensures
        s.advance() == s <==> s.cursor == s.last_index(),
{
}

/// However often a session steps back, the cursor moves by that many files
/// and stops at the first: it never goes below 0. Files and decisions stay
/// as they are.
pub proof fn lemma_retreat_saturates(s: Session, n: nat)
    requires
        s.well_formed(),
    ensures
        s.retreat_by(n).well_formed(),
        s.retreat_by(n).cursor == if s.cursor >= n {
            s.cursor - n
        } else {
            0
        },
        s.retreat_by(n).files == s.files,
        s.retreat_by(n).history == s.history,
    decreases n,
{
    if n > 0 {
        lemma_retreat_saturates(s, (n - 1) as nat);
    }
}

/// Undoing right after recording gives back the index and the decision
/// that were recorded, and the session as it was before.
pub proof fn lemma_record_then_undo(s: Session, decision: Decision)
    ensures
        s.record(decision).latest() == Some((s.cursor, decision)),
        s.record(decision).undone() == s,
        s.record(decision).undone().history.len() == s.history.len(),
{
    assert(s.history.push((s.cursor, decision)).drop_last() =~= s.history);
}

/// Undoing with no decision taken gives nothing and leaves the session as
/// it is.
pub proof fn lemma_undo_on_empty(s: Session)
    requires
        s.history.len() == 0,
    ensures
        s.latest() is None,
        s.undone() == s,
{
}

/// Recording and undoing touch neither the files nor the cursor; stepping
/// touches neither the files nor the decisions.
pub proof fn lemma_operations_independent(s: Session, decision: Decision)
    ensures
        s.record(decision).files == s.files,
        s.record(decision).cursor == s.cursor,
        s.undone().files == s.files,
        s.undone().cursor == s.cursor,
        s.advance().files == s.files,
        s.advance().history == s.history,
        s.retreat().files == s.files,
        s.retreat().history == s.history,
{
}

} // verus!
