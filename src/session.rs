//! The registry of display sessions: which file each session shows and which
//! change subscription it holds, plus the routing of newly opened paths.

use vstd::prelude::*;
use crate::text::{decimal, has_source_extension, is_source_file, push_decimal, same_text, contains_text, opt_text, texts};

verus! {

/// What a session holds: its file and, while it is watched, the subscription
/// handle that keeps the watch alive.
pub struct WindowState<W> {
    pub file: String,
    pub watcher: Option<W>,
}

struct Slot<W> {
    label: String,
    state: WindowState<W>,
}

/// Sessions keyed by label, and the counter that names new sessions.
pub struct AppState<W> {
    windows: Vec<Slot<W>>,
    next_window_id: u32,
}

/// A session seen as its file and its subscription.
pub open spec fn window_view<W>(w: WindowState<W>) -> (Seq<char>, Option<W>) {
    (w.file@, w.watcher)
}

/// The label that `next_label` hands out for counter value `id`.
pub open spec fn label_for(id: nat) -> Seq<char> {
    seq!['w', 'i', 'n', 'd', 'o', 'w', '-'] + decimal(id)
}

/// A path named for opening, and whether it exists on disk.
#[derive(Debug, Clone, PartialEq, Eq)]
pub struct Candidate {
    pub path: String,
    pub exists: bool,
}

/// Where each accepted path goes: the primary session, if it was free, and
/// one new session for each of the others.
#[derive(Debug, Clone, PartialEq, Eq)]
pub struct OpenPlan {
    pub primary: Option<String>,
    pub others: Vec<String>,
}

/// A candidate is opened only if it exists and is a source file.
pub open spec fn candidate_ok(c: Candidate) -> bool {
    c.exists && is_source_file(c.path@)
}

/// The paths of the acceptable candidates, in order.
pub open spec fn valid_paths(c: Seq<Candidate>) -> Seq<Seq<char>>
    decreases c.len(),
{
    if c.len() == 0 {
        Seq::empty()
    } else {
        let p = valid_paths(c.drop_last());
        if candidate_ok(c.last()) {
            p.push(c.last().path@)
        } else {
            p
        }
    }
}

/// The paths of `s` that are not `taken`, each kept once, at its first place.
pub open spec fn fresh_paths(s: Seq<Seq<char>>, taken: Set<Seq<char>>) -> Seq<Seq<char>>
    decreases s.len(),
{
    if s.len() == 0 {
        Seq::empty()
    } else {
        let k = fresh_paths(s.drop_last(), taken);
        if taken.contains(s.last()) || k.contains(s.last()) {
            k
        } else {
            k.push(s.last())
        }
    }
}

/// Why a path cannot be opened.
#[derive(Debug, Clone, PartialEq, Eq)]
pub enum OpenError {
    FileNotFound(String),
    NotSourceFile(String),
}

impl OpenError {
    /// The text shown to the user.
    pub fn message(&self) -> (r: String)
        ensures
            match self {
                OpenError::FileNotFound(p) => r@ == "File not found: "@ + p@,
                OpenError::NotSourceFile(p) => r@ == "Not a TSX file: "@ + p@,
            },
    {
        match self {
            OpenError::FileNotFound(p) => {
                let mut t = String::from_str("File not found: ");
                t.append(p.as_str());
                t
            },
            OpenError::NotSourceFile(p) => {
                let mut t = String::from_str("Not a TSX file: ");
                t.append(p.as_str());
                t
            },
        }
    }
}

/// Checks a path before anything is run on it: it must exist, then it must
/// be a source file.
pub fn check_open_path(path: &str, exists: bool) -> (r: Result<(), OpenError>)
    ensures
        match r {
            Ok(()) => exists && is_source_file(path@),
            Err(OpenError::FileNotFound(p)) => !exists && p@ == path@,
            Err(OpenError::NotSourceFile(p)) => exists && !is_source_file(path@) && p@ == path@,
        },
{
    if !exists {
        Err(OpenError::FileNotFound(String::from_str(path)))
    } else if !has_source_extension(path) {
        Err(OpenError::NotSourceFile(String::from_str(path)))
    } else {
        Ok(())
    }
}

/// Checks a path on disk before opening it (see `check_open_path`).
pub fn validate_open_path(path: &str) -> (r: Result<(), OpenError>)
    ensures
        r is Ok ==> is_source_file(path@),
        r matches Err(OpenError::NotSourceFile(p)) ==> !is_source_file(path@) && p@ == path@,
        r matches Err(OpenError::FileNotFound(p)) ==> p@ == path@,
{
    let exists = crate::bundler::path_exists(path);
    check_open_path(path, exists)
}

/// Routes paths dropped on the application: every acceptable path, in
/// order, gets a session of its own, even one that another session shows.
pub fn plan_new_sessions(candidates: &Vec<Candidate>) -> (r: Vec<String>)
    ensures
        texts(r@) == valid_paths(candidates@),
{
    let r = valid_candidates_from(candidates, 0);
    assert(candidates@.subrange(0, candidates@.len() as int) =~= candidates@);
    r
}

/// The paths of the acceptable candidates from position `start` on, in
/// order.
pub fn valid_candidates_from(candidates: &Vec<Candidate>, start: usize) -> (r: Vec<String>)
    requires
        start <= candidates@.len(),
    ensures
        texts(r@) == valid_paths(candidates@.subrange(start as int, candidates@.len() as int)),
{
    let mut valid: Vec<String> = Vec::new();
    let mut i: usize = start;
    while i < candidates.len()
        invariant
            start <= i <= candidates@.len(),
            texts(valid@) == valid_paths(candidates@.subrange(start as int, i as int)),
        decreases candidates@.len() - i,
    {
        let c = &candidates[i];
        assert(candidates@.subrange(start as int, i + 1).drop_last() =~= candidates@.subrange(
            start as int,
            i as int,
        ));
        assert(candidates@.subrange(start as int, i + 1).last() == candidates@[i as int]);
        if c.exists && has_source_extension(c.path.as_str()) {
            valid.push(c.path.clone());
        }
        assert(texts(valid@) =~= valid_paths(candidates@.subrange(start as int, i + 1)));
        i = i + 1;
    }
    valid
}

/// The value the session counter starts from; lower ids belong to the
/// primary session.
pub const FIRST_WINDOW_ID: u32 = 2;

impl<W> AppState<W> {
    /// No two sessions share a label.
    pub closed spec fn wf(&self) -> bool {
        forall|i: int, j: int|
            0 <= i < j < self.windows@.len() ==> self.windows@[i].label@ != self.windows@[j].label@
    }

    closed spec fn holds(&self, l: Seq<char>) -> bool {
        exists|i: int| 0 <= i < self.windows@.len() && self.windows@[i].label@ == l
    }

    closed spec fn slot_of(&self, l: Seq<char>) -> int {
        choose|i: int| 0 <= i < self.windows@.len() && self.windows@[i].label@ == l
    }

    /// Each session's file and subscription, by label.
    pub closed spec fn sessions(&self) -> Map<Seq<char>, (Seq<char>, Option<W>)> {
        Map::new(
            |l: Seq<char>| self.holds(l),
            |l: Seq<char>| window_view(self.windows@[self.slot_of(l)].state),
        )
    }

    /// The value the next allocated session id will have.
    pub closed spec fn next_id(&self) -> nat {
        self.next_window_id as nat
    }

    /// Some session shows `file`.
    pub open spec fn shows(&self, file: Seq<char>) -> bool {
        exists|l: Seq<char>| self.sessions().dom().contains(l) && self.sessions()[l].0 == file
    }

    /// The files shown by some session.
    pub open spec fn open_files(&self) -> Set<Seq<char>> {
        Set::new(|f: Seq<char>| self.shows(f))
    }

    /// The routing of `cands`: the first acceptable path claims the primary
    /// session when no session holds `primary`; every other acceptable path
    /// gets a new session unless some session, or an earlier path, shows it.
    pub open spec fn planned(&self, cands: Seq<Candidate>, primary: Seq<char>) -> (
        Option<Seq<char>>,
        Seq<Seq<char>>,
    ) {
        let valid = valid_paths(cands);
        if !self.sessions().dom().contains(primary) && valid.len() > 0 {
            (Some(valid[0]), fresh_paths(valid.drop_first(), self.open_files().insert(valid[0])))
        } else {
            (None, fresh_paths(valid, self.open_files()))
        }
    }

    proof fn lemma_slot(&self, i: int)
        requires
            self.wf(),
            0 <= i < self.windows@.len(),
        ensures
            self.sessions().dom().contains(self.windows@[i].label@),
            self.slot_of(self.windows@[i].label@) == i,
            self.sessions()[self.windows@[i].label@] == window_view(self.windows@[i].state),
    {
        let l = self.windows@[i].label@;
        assert(self.holds(l));
        let k = self.slot_of(l);
        if k != i {
            if k < i {
                assert(self.windows@[k].label@ != self.windows@[i].label@);
            } else {
                assert(self.windows@[i].label@ != self.windows@[k].label@);
            }
        }
    }

    /// An empty registry whose counter starts at `FIRST_WINDOW_ID`.
    pub fn new() -> (r: Self)
        ensures
            r.wf(),
            r.sessions() == Map::<Seq<char>, (Seq<char>, Option<W>)>::empty(),
            r.next_id() == FIRST_WINDOW_ID,
    {
        let r = AppState { windows: Vec::new(), next_window_id: FIRST_WINDOW_ID };
        assert(r.sessions() =~= Map::<Seq<char>, (Seq<char>, Option<W>)>::empty());
        r
    }

    fn find(&self, label: &str) -> (r: Option<usize>)
        requires
            self.wf(),
        ensures
            match r {
                Some(i) => i < self.windows@.len() && self.windows@[i as int].label@ == label@,
                None => !self.sessions().dom().contains(label@),
            },
    {
        let mut i: usize = 0;
        while i < self.windows.len()
            invariant
                i <= self.windows@.len(),
                forall|j: int| 0 <= j < i ==> self.windows@[j].label@ != label@,
            decreases self.windows@.len() - i,
        {
            if same_text(self.windows[i].label.as_str(), label) {
                return Some(i);
            }
            i = i + 1;
        }
        None
    }

    /// Whether a session with this label is registered.
    pub fn contains(&self, label: &str) -> (r: bool)
        requires
            self.wf(),
        ensures
            r == self.sessions().dom().contains(label@),
    {
        match self.find(label) {
            Some(i) => {
                proof {
                    self.lemma_slot(i as int);
                }
                true
            },
            None => false,
        }
    }

    /// The file a session shows, copied out so that no borrow of the
    /// registry outlives the call.
    pub fn file_of(&self, label: &str) -> (r: Option<String>)
        requires
            self.wf(),
        ensures
            match r {
                Some(f) => self.sessions().dom().contains(label@) && f@ == self.sessions()[label@].0,
                None => !self.sessions().dom().contains(label@),
            },
    {
        match self.find(label) {
            Some(i) => {
                proof {
                    self.lemma_slot(i as int);
                }
                Some(self.windows[i].state.file.clone())
            },
            None => None,
        }
    }

    fn take_slot(&mut self, i: usize) -> (r: WindowState<W>)
        requires
            old(self).wf(),
            i < old(self).windows@.len(),
        ensures
            final(self).wf(),
            final(self).next_id() == old(self).next_id(),
            window_view(r) == old(self).sessions()[old(self).windows@[i as int].label@],
            final(self).sessions() == old(self).sessions().remove(old(self).windows@[i as int].label@),
    {
        let ghost before = *self;
        proof {
            before.lemma_slot(i as int);
        }
        let slot = self.windows.remove(i);
        let ghost gone = slot.label@;
        let ghost after = *self;
        assert(after.windows@ == before.windows@.remove(i as int));
        assert(after.wf()) by {
            assert forall|a: int, b: int| 0 <= a < b < after.windows@.len() implies
                after.windows@[a].label@ != after.windows@[b].label@ by {
                let a0 = if a < i { a } else { a + 1 };
                let b0 = if b < i { b } else { b + 1 };
                assert(after.windows@[a] == before.windows@[a0]);
                assert(after.windows@[b] == before.windows@[b0]);
            }
        }
        assert forall|l: Seq<char>| after.holds(l) <==> before.holds(l) && l != gone by {
            if after.holds(l) {
                let k = after.slot_of(l);
                let k0 = if k < i { k } else { k + 1 };
                assert(after.windows@[k] == before.windows@[k0]);
                if k0 < i {
                    assert(before.windows@[k0].label@ != before.windows@[i as int].label@);
                } else {
                    assert(before.windows@[i as int].label@ != before.windows@[k0].label@);
                }
            }
            if before.holds(l) && l != gone {
                let k0 = before.slot_of(l);
                let k = if k0 < i { k0 } else { k0 - 1 };
                assert(k0 != i);
                assert(after.windows@[k] == before.windows@[k0]);
            }
        }
        assert forall|l: Seq<char>| after.holds(l) implies after.sessions()[l]
            == before.sessions()[l] by {
            let k = after.slot_of(l);
            let k0 = if k < i { k } else { k + 1 };
            assert(after.windows@[k] == before.windows@[k0]);
            after.lemma_slot(k);
            before.lemma_slot(k0);
        }
        assert(after.sessions() =~= before.sessions().remove(gone));
        slot.state
    }

    fn put_slot(&mut self, label: String, state: WindowState<W>)
        requires
            old(self).wf(),
            !old(self).sessions().dom().contains(label@),
        ensures
            final(self).wf(),
            final(self).next_id() == old(self).next_id(),
            final(self).sessions() == old(self).sessions().insert(label@, window_view(state)),
    {
        let ghost before = *self;
        let ghost l0 = label@;
        let ghost v0 = window_view(state);
        self.windows.push(Slot { label, state });
        let ghost after = *self;
        let ghost n = before.windows@.len();
        assert(after.windows@ == before.windows@.push(after.windows@[n as int]));
        assert(after.wf()) by {
            assert forall|a: int, b: int| 0 <= a < b < after.windows@.len() implies
                after.windows@[a].label@ != after.windows@[b].label@ by {
                if b == n {
                    assert(!before.holds(l0));
                    assert(before.windows@[a].label@ != l0);
                }
            }
        }
        assert forall|l: Seq<char>| after.holds(l) <==> before.holds(l) || l == l0 by {
            if after.holds(l) {
                let k = after.slot_of(l);
                if k < n {
                    assert(after.windows@[k] == before.windows@[k]);
                }
            }
            if before.holds(l) {
                let k = before.slot_of(l);
                assert(after.windows@[k] == before.windows@[k]);
            }
            if l == l0 {
                assert(after.windows@[n as int].label@ == l0);
            }
        }
        assert forall|l: Seq<char>| after.holds(l) implies after.sessions()[l]
            == before.sessions().insert(l0, v0)[l] by {
            let k = after.slot_of(l);
            after.lemma_slot(k);
            if k < n {
                assert(after.windows@[k] == before.windows@[k]);
                before.lemma_slot(k);
            }
        }
        assert(after.sessions() =~= before.sessions().insert(l0, v0));
    }

    /// Installs `file` (and its subscription, if any) under `label`. A session
    /// already registered under that label is taken out first and handed
    /// back, so that the caller releases its subscription.
    pub fn register(&mut self, label: String, file: String, watcher: Option<W>) -> (r: Option<
        WindowState<W>,
    >)
        requires
            old(self).wf(),
        ensures
            final(self).wf(),
            final(self).next_id() == old(self).next_id(),
            final(self).sessions() == old(self).sessions().insert(label@, (file@, watcher)),
            match r {
                Some(prev) => old(self).sessions().dom().contains(label@) && window_view(prev)
                    == old(self).sessions()[label@],
                None => !old(self).sessions().dom().contains(label@),
            },
    {
        let ghost start = self.sessions();
        let prev = match self.find(label.as_str()) {
            Some(i) => Some(self.take_slot(i)),
            None => None,
        };
        proof {
            if prev is Some {
                assert(start.dom().contains(label@));
            }
        }
        self.put_slot(label, WindowState { file, watcher });
        assert(self.sessions() =~= start.insert(label@, (file@, watcher)));
        prev
    }

    /// Takes a session out, handing back what it held so that its
    /// subscription is released.
    pub fn remove(&mut self, label: &str) -> (r: Option<WindowState<W>>)
        requires
            old(self).wf(),
        ensures
            final(self).wf(),
            final(self).next_id() == old(self).next_id(),
            final(self).sessions() == old(self).sessions().remove(label@),
            match r {
                Some(prev) => old(self).sessions().dom().contains(label@) && window_view(prev)
                    == old(self).sessions()[label@],
                None => !old(self).sessions().dom().contains(label@),
            },
    {
        match self.find(label) {
            Some(i) => Some(self.take_slot(i)),
            None => {
                assert(self.sessions() =~= self.sessions().remove(label@));
                None
            },
        }
    }

    /// Gives a registered session a new subscription; the one it held before
    /// is released. A session that was torn down meanwhile is left alone and
    /// the subscription is dropped.
    pub fn attach_watcher(&mut self, label: &str, watcher: W) -> (r: bool)
        requires
            old(self).wf(),
        ensures
            final(self).wf(),
            final(self).next_id() == old(self).next_id(),
            r == old(self).sessions().dom().contains(label@),
            r ==> final(self).sessions() == old(self).sessions().insert(
                label@,
                (old(self).sessions()[label@].0, Some(watcher)),
            ),
            !r ==> final(self).sessions() == old(self).sessions(),
    {
        match self.find(label) {
            Some(i) => {
                let ghost start = self.sessions();
                let prev = self.take_slot(i);
                let name = String::from_str(label);
                self.put_slot(name, WindowState { file: prev.file, watcher: Some(watcher) });
                assert(self.sessions() =~= start.insert(label@, (start[label@].0, Some(watcher))));
                true
            },
            None => false,
        }
    }

    /// Whether some session shows `file`.
    pub fn is_open(&self, file: &str) -> (r: bool)
        requires
            self.wf(),
        ensures
            r == self.shows(file@),
    {
        let mut i: usize = 0;
        while i < self.windows.len()
            invariant
                self.wf(),
                i <= self.windows@.len(),
                forall|j: int| 0 <= j < i ==> self.windows@[j].state.file@ != file@,
            decreases self.windows@.len() - i,
        {
            let f = self.windows[i].state.file.as_str();
            if same_text(f, file) {
                proof {
                    self.lemma_slot(i as int);
                }
                return true;
            }
            i = i + 1;
        }
        proof {
            if self.shows(file@) {
                let l = choose|l: Seq<char>|
                    self.sessions().dom().contains(l) && self.sessions()[l].0 == file@;
                let k = self.slot_of(l);
                self.lemma_slot(k);
            }
        }
        false
    }

    /// Whether no session is registered.
    pub fn is_empty(&self) -> (r: bool)
        requires
            self.wf(),
        ensures
            r == (self.sessions() == Map::<Seq<char>, (Seq<char>, Option<W>)>::empty()),
    {
        if self.windows.len() == 0 {
            assert(self.sessions() =~= Map::<Seq<char>, (Seq<char>, Option<W>)>::empty());
            true
        } else {
            proof {
                self.lemma_slot(0);
                assert(!Map::<Seq<char>, (Seq<char>, Option<W>)>::empty().dom().contains(
                    self.windows@[0].label@,
                ));
            }
            false
        }
    }

    /// Routes the paths the application was started with (or asked to open
    /// by the system) to sessions, skipping those that do not exist or are
    /// not source files, and those some session already shows.
    pub fn plan_open(&self, candidates: &Vec<Candidate>, primary: &str) -> (r: OpenPlan)
        requires
            self.wf(),
        ensures
            opt_text(r.primary) == self.planned(candidates@, primary@).0,
            texts(r.others@) == self.planned(candidates@, primary@).1,
    {
        let valid = valid_candidates_from(candidates, 0);
        assert(candidates@.subrange(0, candidates@.len() as int) =~= candidates@);
        let ghost all = texts(valid@);
        let free = !self.contains(primary);
        let mut primary_path: Option<String> = None;
        let mut start: usize = 0;
        if free && valid.len() > 0 {
            primary_path = Some(valid[0].clone());
            start = 1;
        }
        let ghost taken = match opt_text(primary_path) {
            Some(p) => self.open_files().insert(p),
            None => self.open_files(),
        };
        let mut others: Vec<String> = Vec::new();
        let mut j: usize = start;
        while j < valid.len()
            invariant
                self.wf(),
                start <= j <= valid@.len(),
                all == texts(valid@),
                taken == match opt_text(primary_path) {
                    Some(p) => self.open_files().insert(p),
                    None => self.open_files(),
                },
                texts(others@) == fresh_paths(all.subrange(start as int, j as int), taken),
            decreases valid@.len() - j,
        {
            let p = valid[j].as_str();
            assert(all.subrange(start as int, j + 1).drop_last() =~= all.subrange(
                start as int,
                j as int,
            ));
            assert(all.subrange(start as int, j + 1).last() == p@);
            let dup = match &primary_path {
                Some(q) => same_text(q.as_str(), p),
                None => false,
            };
            let shown = self.is_open(p);
            assert(shown == self.open_files().contains(p@));
            let seen = contains_text(&others, p);
            if !(shown || dup || seen) {
                others.push(valid[j].clone());
            }
            assert(texts(others@) =~= fresh_paths(all.subrange(start as int, j + 1), taken));
            j = j + 1;
        }
        proof {
            if start == 1 {
                assert(all.subrange(1, all.len() as int) =~= all.drop_first());
            } else {
                assert(all.subrange(0, all.len() as int) =~= all);
            }
        }
        OpenPlan { primary: primary_path, others }
    }

    /// Routes a file dialog's choice from the session `current`: when that
    /// session shows no file yet, the first picked path goes to it as picked
    /// (opening it checks it) and every other acceptable path gets a new
    /// session; otherwise every acceptable path gets a new session.
    pub fn plan_pick(&self, picked: &Vec<Candidate>, current: &str) -> (r: OpenPlan)
        requires
            self.wf(),
        ensures
            !self.sessions().dom().contains(current@) && picked@.len() > 0 ==> opt_text(r.primary)
                == Some(picked@[0].path@) && texts(r.others@) == valid_paths(picked@.drop_first()),
            !(!self.sessions().dom().contains(current@) && picked@.len() > 0) ==> r.primary is None
                && texts(r.others@) == valid_paths(picked@),
    {
        if !self.contains(current) && picked.len() > 0 {
            let first = picked[0].path.clone();
            let others = valid_candidates_from(picked, 1);
            assert(picked@.subrange(1, picked@.len() as int) =~= picked@.drop_first());
            OpenPlan { primary: Some(first), others }
        } else {
            let others = valid_candidates_from(picked, 0);
            assert(picked@.subrange(0, picked@.len() as int) =~= picked@);
            OpenPlan { primary: None, others }
        }
    }

    /// Hands out the next session id and advances the counter; `None` once
    /// the counter is exhausted, so that no id is ever handed out twice.
    pub fn allocate_id(&mut self) -> (r: Option<u32>)
        ensures
            final(self).sessions() == old(self).sessions(),
            old(self).wf() ==> final(self).wf(),
            old(self).next_id() < u32::MAX ==> r == Some(old(self).next_id() as u32)
                && final(self).next_id() == old(self).next_id() + 1,
            old(self).next_id() >= u32::MAX ==> r is None && final(self).next_id()
                == old(self).next_id(),
    {
        if self.next_window_id < u32::MAX {
            let id = self.next_window_id;
            self.next_window_id = id + 1;
            assert(self.sessions() =~= old(self).sessions());
            Some(id)
        } else {
            None
        }
    }

    /// The label of a new session, `window-<id>`, drawn from the counter.
    pub fn next_label(&mut self) -> (r: Option<String>)
        ensures
            final(self).sessions() == old(self).sessions(),
            old(self).wf() ==> final(self).wf(),
            old(self).next_id() < u32::MAX ==> r is Some && r->0@ == label_for(old(self).next_id())
                && final(self).next_id() == old(self).next_id() + 1,
            old(self).next_id() >= u32::MAX ==> r is None && final(self).next_id()
                == old(self).next_id(),
    {
        match self.allocate_id() {
            Some(id) => {
                let mut label = String::from_str("window-");
                proof {
                    reveal_strlit("window-");
                }
                push_decimal(&mut label, id as u64);
                assert(label@ =~= label_for(id as nat));
                Some(label)
            },
            None => None,
        }
    }
}

} // verus!
