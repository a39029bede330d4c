//! Undo and redo.
//!
//! The text buffer records every edit made while a change is open;
//! this module decides when a change is opened, closed and kept:
//!
//! * edits of one [`EditKind`] that follow each other within
//!   [`DEBOUNCE_MS`] share a change, so a burst of typing is undone in
//!   one step;
//! * another kind of edit, a longer pause, or an explicit flush closes
//!   the change and, unless it recorded nothing, puts it on the undo
//!   stack.
//!
//! Times are whole milliseconds, the resolution of the clock the host
//! reads.

use vstd::prelude::*;
use std::collections::VecDeque;

verus! {

#[verifier::external_type_specification]
#[verifier::external_body]
pub struct ExChange(cosmic_text::Change);

/// What a `cosmic_text::Change` holds: its items in order, each as
/// `(start line, start index, end line, end index, text, insert)`.
pub uninterp spec fn change_items(change: cosmic_text::Change) -> Seq<
    (usize, usize, usize, usize, Seq<char>, bool),
>;

/// Whether `change.items` is empty (`Vec::is_empty` on the change's
/// public `items` field).
#[verifier::external_body]
fn change_is_empty(change: &cosmic_text::Change) -> (r: bool)
    ensures
        r == (change_items(*change).len() == 0),
{
    change.items.is_empty()
}

/// How many changes each stack keeps; beyond that the oldest goes.
pub const MAX_HISTORY: usize = 200;

/// Two edits of one kind at most this many milliseconds apart are undone
/// together.
pub const DEBOUNCE_MS: i64 = 700;

/// What sort of edit an action is; only used to decide which edits are
/// undone together.
#[derive(Copy, Clone, Debug, PartialEq, Eq, Structural)]
pub enum EditKind {
    Insert,
    Delete,
    Newline,
    Indent,
    /// Text inserted in one go (paste, transliteration, conversion from
    /// an input method): undone on its own, never together with typing
    /// or with another such insert.
    Paste,
}

/// The undo and redo stacks, and the group in progress.
pub struct HistoryManager {
    /// Changes that can be undone, newest last.
    undo_stack: VecDeque<cosmic_text::Change>,
    /// Undone changes that can be redone, newest last.
    redo_stack: VecDeque<cosmic_text::Change>,
    /// The kind of the open step, if a step is open.
    pending_kind: Option<EditKind>,
    /// When the open step last received an edit.
    pending_time: i64,
}

/// `stack` with `change` pushed on top, its oldest entry dropped if that
/// takes it over [`MAX_HISTORY`].
pub open spec fn push_capped(stack: Seq<cosmic_text::Change>, change: cosmic_text::Change) -> Seq<
    cosmic_text::Change,
> {
    let s = stack.push(change);
    if s.len() > MAX_HISTORY {
        s.drop_first()
    } else {
        s
    }
}

/// Whether an edit of `kind` at `now` starts a new undo group, given the
/// group in progress.
pub open spec fn spec_is_new_group(
    pending_kind: Option<EditKind>,
    pending_time: i64,
    kind: EditKind,
    now: i64,
) -> bool {
    match pending_kind {
        None => true,
        Some(prev) => prev != kind || kind == EditKind::Paste || (if now >= pending_time {
            now - pending_time
        } else {
            pending_time - now
        }) > DEBOUNCE_MS,
    }
}

impl HistoryManager {
    /// The undo stack, oldest first.
    pub closed spec fn undo_stack(&self) -> Seq<cosmic_text::Change> {
        self.undo_stack@
    }

    /// The redo stack, oldest first.
    pub closed spec fn redo_stack(&self) -> Seq<cosmic_text::Change> {
        self.redo_stack@
    }

    /// The kind of the group in progress, if any.
    pub closed spec fn pending_kind(&self) -> Option<EditKind> {
        self.pending_kind
    }

    /// When the group in progress was last extended.
    pub closed spec fn pending_time(&self) -> i64 {
        self.pending_time
    }

    /// Neither stack holds more than [`MAX_HISTORY`] changes.
    pub open spec fn wf(&self) -> bool {
        self.undo_stack().len() <= MAX_HISTORY && self.redo_stack().len() <= MAX_HISTORY
    }

    pub fn new() -> (h: Self)
        ensures
            h.wf(),
            h.undo_stack().len() == 0,
            h.redo_stack().len() == 0,
            h.pending_kind() is None,
            h.pending_time() == 0,
    {
        HistoryManager {
            undo_stack: VecDeque::new(),
            redo_stack: VecDeque::new(),
            pending_kind: None,
            pending_time: 0,
        }
    }

    /// Whether an edit of `kind` at `now` opens a new undo step, in which
    /// case the caller first closes the step in progress.
    pub fn is_new_group(&self, kind: EditKind, now: i64) -> (r: bool)
        ensures
            r == spec_is_new_group(self.pending_kind(), self.pending_time(), kind, now),
    {
        match self.pending_kind {
            None => true,
            Some(prev) => {
                let gap: i128 = if now >= self.pending_time {
                    now as i128 - self.pending_time as i128
                } else {
                    self.pending_time as i128 - now as i128
                };
                prev != kind || kind == EditKind::Paste || gap > DEBOUNCE_MS as i128
            },
        }
    }

    /// Record that a step of `kind` opened at `now`.
    pub fn begin_group(&mut self, kind: EditKind, now: i64)
        ensures
            final(self).pending_kind() == Some(kind),
            final(self).pending_time() == now,
            final(self).undo_stack() == old(self).undo_stack(),
            final(self).redo_stack() == old(self).redo_stack(),
    {
        self.pending_kind = Some(kind);
        self.pending_time = now;
    }

    /// Restart the open step's waiting time at `now`; called for each
    /// edit that joins it.
    pub fn touch(&mut self, now: i64)
        ensures
            final(self).pending_time() == now,
            final(self).pending_kind() == old(self).pending_kind(),
            final(self).undo_stack() == old(self).undo_stack(),
            final(self).redo_stack() == old(self).redo_stack(),
    {
        self.pending_time = now;
    }

    /// Record that no step is open (after closing one).
    pub fn end_group(&mut self)
        ensures
            final(self).pending_kind() is None,
            final(self).pending_time() == old(self).pending_time(),
            final(self).undo_stack() == old(self).undo_stack(),
            final(self).redo_stack() == old(self).redo_stack(),
    {
        self.pending_kind = None;
    }

    /// Keep a closed change on the undo stack. A change that recorded no
    /// edit is dropped and nothing else happens; otherwise the redo
    /// stack is emptied, since a new edit makes undone changes stale.
    pub fn commit(&mut self, change: cosmic_text::Change)
        ensures
            change_items(change).len() == 0 ==> final(self).undo_stack() == old(self).undo_stack()
                && final(self).redo_stack() == old(self).redo_stack(),
            change_items(change).len() != 0 ==> final(self).undo_stack() == push_capped(
                old(self).undo_stack(),
                change,
            ) && final(self).redo_stack().len() == 0,
            final(self).pending_kind() == old(self).pending_kind(),
            final(self).pending_time() == old(self).pending_time(),
            old(self).wf() ==> final(self).wf(),
    {
        if change_is_empty(&change) {
            return;
        }
        self.redo_stack.clear();
        Self::push_capped(&mut self.undo_stack, change);
    }

    /// Whether there is a change to undo.
    pub fn can_undo(&self) -> (r: bool)
        ensures
            r == (self.undo_stack().len() > 0),
    {
        self.undo_stack.len() != 0
    }

    /// How many changes the undo stack holds.
    pub fn undo_len(&self) -> (r: usize)
        ensures
            r == self.undo_stack().len(),
    {
        self.undo_stack.len()
    }

    /// Whether there is an undone change to redo.
    pub fn can_redo(&self) -> (r: bool)
        ensures
            r == (self.redo_stack().len() > 0),
    {
        self.redo_stack.len() != 0
    }

    /// Take the newest change off the undo stack.
    pub fn pop_undo(&mut self) -> (r: Option<cosmic_text::Change>)
        ensures
            old(self).undo_stack().len() == 0 ==> r is None && final(self).undo_stack()
                == old(self).undo_stack(),
            old(self).undo_stack().len() > 0 ==> r == Some(old(self).undo_stack().last())
                && final(self).undo_stack() == old(self).undo_stack().drop_last(),
            final(self).redo_stack() == old(self).redo_stack(),
            final(self).pending_kind() == old(self).pending_kind(),
            final(self).pending_time() == old(self).pending_time(),
            old(self).wf() ==> final(self).wf(),
    {
        let r = self.undo_stack.pop_back();
        assert(old(self).undo_stack().len() > 0 ==> self.undo_stack@ =~= old(self).undo_stack().drop_last());
        r
    }

    /// Take the newest change off the redo stack.
    pub fn pop_redo(&mut self) -> (r: Option<cosmic_text::Change>)
        ensures
            old(self).redo_stack().len() == 0 ==> r is None && final(self).redo_stack()
                == old(self).redo_stack(),
            old(self).redo_stack().len() > 0 ==> r == Some(old(self).redo_stack().last())
                && final(self).redo_stack() == old(self).redo_stack().drop_last(),
            final(self).undo_stack() == old(self).undo_stack(),
            final(self).pending_kind() == old(self).pending_kind(),
            final(self).pending_time() == old(self).pending_time(),
            old(self).wf() ==> final(self).wf(),
    {
        let r = self.redo_stack.pop_back();
        assert(old(self).redo_stack().len() > 0 ==> self.redo_stack@ =~= old(self).redo_stack().drop_last());
        r
    }

    /// Put a change (typically one just redone) on the undo stack.
    pub fn push_undo(&mut self, change: cosmic_text::Change)
        ensures
            final(self).undo_stack() == push_capped(old(self).undo_stack(), change),
            final(self).redo_stack() == old(self).redo_stack(),
            final(self).pending_kind() == old(self).pending_kind(),
            final(self).pending_time() == old(self).pending_time(),
            old(self).wf() ==> final(self).wf(),
    {
        Self::push_capped(&mut self.undo_stack, change);
    }

    /// Put a change (typically one just undone) on the redo stack.
    pub fn push_redo(&mut self, change: cosmic_text::Change)
        ensures
            final(self).redo_stack() == push_capped(old(self).redo_stack(), change),
            final(self).undo_stack() == old(self).undo_stack(),
            final(self).pending_kind() == old(self).pending_kind(),
            final(self).pending_time() == old(self).pending_time(),
            old(self).wf() ==> final(self).wf(),
    {
        Self::push_capped(&mut self.redo_stack, change);
    }

    /// Forget every change, e.g. when another document replaces the
    /// text and older changes no longer apply to it.
    pub fn clear(&mut self)
        ensures
            final(self).undo_stack().len() == 0,
            final(self).redo_stack().len() == 0,
            final(self).pending_kind() is None,
            final(self).pending_time() == old(self).pending_time(),
            final(self).wf(),
    {
        self.pending_kind = None;
        self.redo_stack.clear();
        self.undo_stack.clear();
    }

    /// Push onto a stack, dropping its oldest change past the cap.
    fn push_capped(stack: &mut VecDeque<cosmic_text::Change>, change: cosmic_text::Change)
        ensures
            final(stack)@ == push_capped(old(stack)@, change),
            old(stack)@.len() <= MAX_HISTORY ==> final(stack)@.len() <= MAX_HISTORY,
    {
        stack.push_back(change);
        if stack.len() > MAX_HISTORY {
            let _ = stack.pop_front();
            assert(stack@ =~= old(stack)@.push(change).drop_first());
        }
    }
}

impl Default for HistoryManager {
    fn default() -> (h: Self)
        ensures
            h.wf(),
            h.undo_stack().len() == 0,
            h.redo_stack().len() == 0,
            h.pending_kind() is None,
            h.pending_time() == 0,
    {
        Self::new()
    }
}

/// Moving the newest change from the undo stack to the redo stack and
/// back leaves both stacks as they were, as long as the redo stack had
/// room for it.
pub proof fn lemma_undo_redo_round_trip(undo: Seq<cosmic_text::Change>, redo: Seq<cosmic_text::Change>)
    requires
        undo.len() > 0,
        undo.len() <= MAX_HISTORY,
        redo.len() < MAX_HISTORY,
    ensures
        ({
            let c = undo.last();
            let undo1 = undo.drop_last();
            let redo1 = push_capped(redo, c);
            &&& redo1.last() == c
            &&& redo1.drop_last() == redo
            &&& push_capped(undo1, redo1.last()) == undo
        }),
{
    let c = undo.last();
    assert(undo.drop_last().push(c) =~= undo);
    assert(redo.push(c).drop_last() =~= redo);
}

/// A push never takes a stack that was within the cap over it.
pub proof fn lemma_push_capped_stays_capped(stack: Seq<cosmic_text::Change>, change: cosmic_text::Change)
    requires
        stack.len() <= MAX_HISTORY,
    ensures
        push_capped(stack, change).len() <= MAX_HISTORY,
        push_capped(stack, change).last() == change,
{
}

/// Within the debounce window an edit of the same kind continues the
/// group in progress, unless it is a paste; a paste always starts a new
/// group, and so does any other kind.
pub proof fn lemma_grouping(prev: EditKind, since: i64, kind: EditKind, now: i64)
    ensures
        prev == kind && kind != EditKind::Paste && since <= now <= since + DEBOUNCE_MS
            ==> !spec_is_new_group(Some(prev), since, kind, now),
        kind == EditKind::Paste ==> spec_is_new_group(Some(prev), since, kind, now),
        prev != kind ==> spec_is_new_group(Some(prev), since, kind, now),
        spec_is_new_group(None, since, kind, now),
{
}

} // verus!
