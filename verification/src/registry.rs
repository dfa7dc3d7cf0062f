//! The session registry: the single source of truth for which terminal
//! sessions are active.
//!
//! The registry maps session ids to per-session bookkeeping (the current
//! window size).  The embedding application keeps the OS handles for each
//! session keyed by the same ids and consults the registry before every
//! write or resize; an id is writable and resizable exactly while it is
//! present here.

use vstd::prelude::*;
use vstd::string::*;
use crate::errors::PtyError;
use crate::text::str_eq;

verus! {

/// Per-session bookkeeping held by the registry.
pub struct PtySessionState {
    pub id: String,
    pub cols: u16,
    pub rows: u16,
}

/// Relies on `uuid::Uuid::new_v4` and its `Display` impl: a freshly drawn
/// random v4 UUID rendered in the hyphenated form, which is 36 characters
/// long.  Nothing is assumed about which UUID comes back.
#[verifier::external_body]
fn fresh_uuid() -> (r: String)
    ensures
        r@.len() == 36,
{
    uuid::Uuid::new_v4().to_string()
}

/// The process-wide registry of live sessions.
pub struct SessionRegistry {
    pub sessions: Vec<PtySessionState>,
}

impl SessionRegistry {
    /// The states of the registered sessions, in insertion order.
    pub open spec fn entries(self) -> Seq<PtySessionState> {
        self.sessions@
    }

    /// The registered ids, in insertion order.
    pub open spec fn ids(self) -> Seq<Seq<char>> {
        self.sessions@.map(|i: int, s: PtySessionState| s.id@)
    }

    /// An id is active exactly while it is registered.
    pub open spec fn contains_id(self, id: Seq<char>) -> bool {
        self.ids().contains(id)
    }

    /// Registered ids are pairwise distinct.
    pub open spec fn wf(self) -> bool {
        forall|i: int, j: int|
            0 <= i < j < self.ids().len() ==> self.ids()[i] != self.ids()[j]
    }

    /// The id stored at a valid index is among the active ids.
    proof fn lemma_entry_id_active(self, i: int)
        requires
            0 <= i < self.entries().len(),
        ensures
            self.ids()[i] == self.entries()[i].id@,
            self.contains_id(self.entries()[i].id@),
    {
        assert(self.ids()[i] == self.entries()[i].id@);
        assert(self.contains_id(self.entries()[i].id@));
    }

    /// In a well-formed registry an id occurs at one index only.
    proof fn lemma_id_index_unique(self, i: int, j: int)
        requires
            self.wf(),
            0 <= i < self.entries().len(),
            0 <= j < self.entries().len(),
            self.entries()[i].id@ == self.entries()[j].id@,
        ensures
            i == j,
    {
        assert(self.ids()[i] == self.entries()[i].id@);
        assert(self.ids()[j] == self.entries()[j].id@);
    }

    pub fn new() -> (r: Self)
        ensures
            r.wf(),
            r.ids().len() == 0,
    {
        SessionRegistry { sessions: Vec::new() }
    }

    /// The index of the session registered under `id`, if any.
    fn find_index(&self, id: &str) -> (r: Option<usize>)
        ensures
            match r {
                Some(i) => i < self.entries().len() && self.entries()[i as int].id@ == id@,
                None => !self.contains_id(id@),
            },
    {
        let n = self.sessions.len();
        let mut i: usize = 0;
        while i < n
            invariant
                n == self.entries().len(),
                0 <= i <= n,
                forall|j: int| 0 <= j < i ==> self.entries()[j].id@ != id@,
            decreases n - i,
        {
            if str_eq(self.sessions[i].id.as_str(), id) {
                return Some(i);
            }
            i += 1;
        }
        proof {
            assert(forall|j: int| 0 <= j < self.ids().len() ==> self.ids()[j] != id@);
        }
        None
    }

    /// Whether `id` is currently active.
    pub fn contains(&self, id: &str) -> (r: bool)
        ensures
            r == self.contains_id(id@),
    {
        match self.find_index(id) {
            Some(i) => {
                proof {
                    self.lemma_entry_id_active(i as int);
                }
                true
            },
            None => false,
        }
    }

    /// Produces an id that is not yet registered.  A freshly drawn UUID is
    /// taken as it is; in the vanishingly unlikely event of a collision it
    /// is padded until it is longer than every registered id, which no
    /// registered id can equal.
    fn fresh_session_id(&self) -> (id: String)
        ensures
            !self.contains_id(id@),
    {
        let mut id = fresh_uuid();
        if !self.contains(id.as_str()) {
            return id;
        }
        let n = self.sessions.len();
        let mut maxlen: usize = 0;
        let mut i: usize = 0;
        while i < n
            invariant
                n == self.entries().len(),
                0 <= i <= n,
                forall|j: int| 0 <= j < i ==> self.ids()[j].len() <= maxlen,
            decreases n - i,
        {
            let l = self.sessions[i].id.as_str().unicode_len();
            if l > maxlen {
                maxlen = l;
            }
            i += 1;
        }
        proof {
            reveal_strlit("0");
        }
        while id.as_str().unicode_len() <= maxlen
            invariant
                forall|j: int| 0 <= j < self.ids().len() ==> self.ids()[j].len() <= maxlen,
                "0"@.len() == 1,
            decreases maxlen + 1 - id@.len(),
        {
            id.append("0");
        }
        proof {
            assert forall|j: int| 0 <= j < self.ids().len() implies self.ids()[j] != id@ by {
                assert(self.ids()[j].len() <= maxlen);
            }
            assert(!self.contains_id(id@));
        }
        id
    }

    /// Registers a new session and returns its freshly assigned id.
    ///
    /// The size defaults to 80 columns by 24 rows where unspecified.  The
    /// new id was not active before the call, every prior session is left
    /// untouched, and ids stay pairwise distinct.
    pub fn create_session(&mut self, cols: Option<u16>, rows: Option<u16>) -> (id: String)
        requires
            old(self).wf(),
        ensures
            final(self).wf(),
            !old(self).contains_id(id@),
            final(self).contains_id(id@),
            final(self).ids() == old(self).ids().push(id@),
            final(self).entries().len() == old(self).entries().len() + 1,
            forall|i: int|
                0 <= i < old(self).entries().len()
                    ==> final(self).entries()[i] == old(self).entries()[i],
            final(self).entries().last().id@ == id@,
            final(self).entries().last().cols == (if cols is Some { cols->0 } else { 80u16 }),
            final(self).entries().last().rows == (if rows is Some { rows->0 } else { 24u16 }),
    {
        let cols_v: u16 = match cols {
            Some(c) => c,
            None => 80,
        };
        let rows_v: u16 = match rows {
            Some(r) => r,
            None => 24,
        };
        let id = self.fresh_session_id();
        let stored = PtySessionState { id: id.clone(), cols: cols_v, rows: rows_v };
        self.sessions.push(stored);
        proof {
            assert(final(self).ids() =~= old(self).ids().push(id@));
            assert(final(self).ids()[old(self).ids().len() as int] == id@);
        }
        id
    }

    /// Checks that `id` is active, as `write` must before touching the
    /// session's input stream.  Returns `SessionNotFound` exactly when it
    /// is not.
    pub fn require_session(&self, id: &str) -> (r: Result<(), PtyError>)
        ensures
            r is Ok <==> self.contains_id(id@),
            r is Err ==> (r->Err_0 matches PtyError::SessionNotFound(s) && s@ == id@),
    {
        match self.find_index(id) {
            Some(i) => {
                proof {
                    self.lemma_entry_id_active(i as int);
                }
                Ok(())
            },
            None => Err(PtyError::SessionNotFound(String::from_str(id))),
        }
    }

    /// Records a new window size for an active session.
    ///
    /// Fails with `SessionNotFound`, changing nothing, exactly when `id` is
    /// not active.  On success only the named session's size changes; the
    /// set of active ids is untouched.
    pub fn record_resize(&mut self, id: &str, cols: u16, rows: u16) -> (r: Result<(), PtyError>)
        requires
            old(self).wf(),
        ensures
            final(self).wf(),
            r is Ok <==> old(self).contains_id(id@),
            r is Err ==> *final(self) == *old(self)
                && (r->Err_0 matches PtyError::SessionNotFound(s) && s@ == id@),
            final(self).ids() == old(self).ids(),
            final(self).entries().len() == old(self).entries().len(),
            forall|i: int|
                0 <= i < old(self).entries().len() && old(self).entries()[i].id@ != id@
                    ==> final(self).entries()[i] == old(self).entries()[i],
            forall|i: int|
                0 <= i < old(self).entries().len() && old(self).entries()[i].id@ == id@
                    ==> final(self).entries()[i]
                        == resized(old(self).entries()[i], cols, rows),
            final(self).entries() == resize_model(old(self).entries(), id@, cols, rows),
    {
        match self.find_index(id) {
            Some(i) => {
                let entry = &mut self.sessions[i];
                entry.cols = cols;
                entry.rows = rows;
                proof {
                    let k = i as int;
                    old(self).lemma_entry_id_active(k);
                    assert(self.entries()
                        =~= old(self).entries().update(k, resized(old(self).entries()[k], cols, rows)));
                    assert(self.ids() =~= old(self).ids());
                    assert forall|j: int|
                        0 <= j < old(self).entries().len() && old(self).entries()[j].id@ == id@
                        implies self.entries()[j]
                            == resized(old(self).entries()[j], cols, rows) by {
                        old(self).lemma_id_index_unique(j, k);
                    }
                    assert(self.entries()
                        =~= resize_model(old(self).entries(), id@, cols, rows));
                }
                Ok(())
            },
            None => {
                proof {
                    assert forall|j: int|
                        0 <= j < old(self).entries().len()
                        implies old(self).entries()[j].id@ != id@ by {
                        old(self).lemma_entry_id_active(j);
                    }
                    assert(self.entries()
                        =~= resize_model(old(self).entries(), id@, cols, rows));
                }
                Err(PtyError::SessionNotFound(String::from_str(id)))
            },
        }
    }

    /// Removes `id` if it is active; a no-op otherwise.  This is the
    /// cleanup step the reader loop runs after the child exits, which must
    /// be harmless when an explicit close already removed the entry.
    pub fn remove_session(&mut self, id: &str) -> (removed: bool)
        requires
            old(self).wf(),
        ensures
            final(self).wf(),
            removed == old(self).contains_id(id@),
            !final(self).contains_id(id@),
            !removed ==> *final(self) == *old(self),
            forall|s: Seq<char>|
                final(self).contains_id(s) ==> old(self).contains_id(s),
            forall|s: Seq<char>|
                old(self).contains_id(s) && s != id@ ==> final(self).contains_id(s),
    {
        match self.find_index(id) {
            Some(i) => {
                self.sessions.remove(i);
                proof {
                    lemma_remove_keeps_distinct(old(self).ids(), i as int);
                    assert(final(self).ids() =~= old(self).ids().remove(i as int));
                    lemma_remove_sole_occurrence(old(self).ids(), i as int, id@);
                }
                true
            },
            None => false,
        }
    }

    /// Closes a session: removes it if active, reports `SessionNotFound` if
    /// it already was not.  After a successful close the id is no longer
    /// listed.
    pub fn close_session(&mut self, id: &str) -> (r: Result<(), PtyError>)
        requires
            old(self).wf(),
        ensures
            final(self).wf(),
            r is Ok <==> old(self).contains_id(id@),
            !final(self).contains_id(id@),
            r is Err ==> *final(self) == *old(self)
                && (r->Err_0 matches PtyError::SessionNotFound(s) && s@ == id@),
            forall|s: Seq<char>|
                final(self).contains_id(s) ==> old(self).contains_id(s),
            forall|s: Seq<char>|
                old(self).contains_id(s) && s != id@ ==> final(self).contains_id(s),
    {
        if self.remove_session(id) {
            Ok(())
        } else {
            Err(PtyError::SessionNotFound(String::from_str(id)))
        }
    }

    /// A point-in-time snapshot of the active ids, in insertion order.
    pub fn list_sessions(&self) -> (r: Vec<String>)
        ensures
            r@.len() == self.ids().len(),
            forall|i: int| 0 <= i < r@.len() ==> r@[i]@ == self.ids()[i],
    {
        let n = self.sessions.len();
        let mut out: Vec<String> = Vec::new();
        let mut i: usize = 0;
        while i < n
            invariant
                n == self.entries().len(),
                0 <= i <= n,
                out@.len() == i,
                forall|j: int| 0 <= j < i ==> out@[j]@ == self.ids()[j],
            decreases n - i,
        {
            out.push(self.sessions[i].id.clone());
            i += 1;
        }
        out
    }
}

/// The session state with its window size replaced.
pub open spec fn resized(s: PtySessionState, cols: u16, rows: u16) -> PtySessionState {
    PtySessionState { id: s.id, cols, rows }
}

/// The registry contents after a resize of `id`: the matching session's
/// size is replaced, every other session is untouched.
pub open spec fn resize_model(
    entries: Seq<PtySessionState>,
    id: Seq<char>,
    cols: u16,
    rows: u16,
) -> Seq<PtySessionState> {
    entries.map(
        |i: int, s: PtySessionState|
            if s.id@ == id {
                resized(s, cols, rows)
            } else {
                s
            },
    )
}

/// Ids assigned to sessions are pairwise distinct while both sessions are
/// active.
pub proof fn lemma_active_ids_distinct(r: SessionRegistry, i: int, j: int)
    requires
        r.wf(),
        0 <= i < r.ids().len(),
        0 <= j < r.ids().len(),
        i != j,
    ensures
        r.ids()[i] != r.ids()[j],
{
}

/// Once a session is gone from the registry — closed, or cleaned up after
/// its child exited — no snapshot of the active ids holds its id again
/// until a create reuses it.
pub proof fn lemma_absent_id_not_listed(r: SessionRegistry, id: Seq<char>, k: int)
    requires
        !r.contains_id(id),
        0 <= k < r.ids().len(),
    ensures
        r.ids()[k] != id,
{
}

/// Resizing a session to a size it already has, or resizing it twice in
/// succession with one size, leaves the registry exactly as one resize
/// does.
pub proof fn lemma_resize_idempotent(
    entries: Seq<PtySessionState>,
    id: Seq<char>,
    cols: u16,
    rows: u16,
)
    ensures
        resize_model(resize_model(entries, id, cols, rows), id, cols, rows)
            == resize_model(entries, id, cols, rows),
{
    let once = resize_model(entries, id, cols, rows);
    assert(resize_model(once, id, cols, rows) =~= once);
}

/// Two creates in a row hand out distinct ids, and both stay active.
pub proof fn lemma_successive_creates_distinct(
    ids0: Seq<Seq<char>>,
    a: Seq<char>,
    b: Seq<char>,
)
    requires
        !ids0.contains(a),
        !ids0.push(a).contains(b),
    ensures
        a != b,
        ids0.push(a).push(b).contains(a),
        ids0.push(a).push(b).contains(b),
{
    assert(ids0.push(a)[ids0.len() as int] == a);
    assert(ids0.push(a).push(b)[ids0.len() as int] == a);
    assert(ids0.push(a).push(b)[ids0.len() as int + 1] == b);
}

/// Removing an element of a pairwise-distinct sequence keeps it pairwise
/// distinct.
proof fn lemma_remove_keeps_distinct(ids: Seq<Seq<char>>, k: int)
    requires
        0 <= k < ids.len(),
        forall|i: int, j: int| 0 <= i < j < ids.len() ==> ids[i] != ids[j],
    ensures
        forall|i: int, j: int|
            0 <= i < j < ids.remove(k).len() ==> ids.remove(k)[i] != ids.remove(k)[j],
{
    let r = ids.remove(k);
    assert forall|i: int, j: int| 0 <= i < j < r.len() implies r[i] != r[j] by {
        let i0 = if i < k { i } else { i + 1 };
        let j0 = if j < k { j } else { j + 1 };
        assert(r[i] == ids[i0]);
        assert(r[j] == ids[j0]);
    }
}

/// In a pairwise-distinct sequence, removing the position that holds a
/// value removes every occurrence of it.
proof fn lemma_remove_sole_occurrence(ids: Seq<Seq<char>>, k: int, id: Seq<char>)
    requires
        0 <= k < ids.len(),
        ids[k] == id,
        forall|i: int, j: int| 0 <= i < j < ids.len() ==> ids[i] != ids[j],
    ensures
        !ids.remove(k).contains(id),
        forall|s: Seq<char>| ids.remove(k).contains(s) ==> ids.contains(s),
        forall|s: Seq<char>| ids.contains(s) && s != id ==> ids.remove(k).contains(s),
{
    let r = ids.remove(k);
    assert forall|i: int| 0 <= i < r.len() implies r[i] != id by {
        let i0 = if i < k { i } else { i + 1 };
        assert(r[i] == ids[i0]);
        assert(i0 != k);
    }
    assert forall|s: Seq<char>| r.contains(s) implies ids.contains(s) by {
        let i = choose|i: int| 0 <= i < r.len() && r[i] == s;
        let i0 = if i < k { i } else { i + 1 };
        assert(ids[i0] == s);
    }
    assert forall|s: Seq<char>| ids.contains(s) && s != id implies r.contains(s) by {
        let i = choose|i: int| 0 <= i < ids.len() && ids[i] == s;
        assert(i != k);
        let i0 = if i < k { i } else { i - 1 };
        assert(r[i0] == ids[i]);
    }
}

} // verus!
