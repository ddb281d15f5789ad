//! The state of a document as a mathematical value, and what committing,
//! undoing and redoing make of it.

use vstd::prelude::*;
use crate::object::ObjectView;
use crate::object_id::{NullableObjectId, ObjectId};

verus! {

/// How many earlier pools a document keeps for undoing.
pub const MAX_UNDO_REDO_POOL: usize = 10;

/// How many earlier selections a document keeps for going back.
pub const MAX_UNDO_REDO_SELECTED: usize = 20;

/// What a document is, as a mathematical value.
pub struct DocumentView {
    /// The committed pool.
    pub pool: Seq<ObjectView>,
    /// The staging pool, which edits go to until they are committed.
    pub mut_pool: Seq<ObjectView>,
    /// Earlier committed pools, oldest first.
    pub undo_pool_history: Seq<Seq<ObjectView>>,
    /// Pools that were undone, the one undone last at the end.
    pub redo_pool_history: Seq<Seq<ObjectView>>,
    /// The committed selection.
    pub selected_object: NullableObjectId,
    /// The staging selection.
    pub mut_selected_object: NullableObjectId,
    /// Earlier selections, oldest first.
    pub undo_selected_history: Seq<NullableObjectId>,
    /// Selections that were gone back from, the latest at the end.
    pub redo_selected_history: Seq<NullableObjectId>,
    /// The size of the mask that the design is shown on.
    pub mask_size: u16,
    /// The width and height of a soft key.
    pub soft_key_size: (u16, u16),
    /// The name given to each object that a record is kept of, by the
    /// object's number; no name where the record holds none.
    pub names: Map<u16, Option<Seq<char>>>,
    /// The object that is being renamed, with the widget that renames it and
    /// the name as typed so far.
    pub renaming_object: Option<(egui::Id, ObjectId, Seq<char>)>,
    /// One more than the highest number in the committed pool.
    pub next_available_id: u16,
    /// The picture object for which an image has been asked for.
    pub image_load_request: Option<ObjectId>,
}

/// The last `n` entries of `history`, or all of it where it has no more.
pub open spec fn keep_last<T>(history: Seq<T>, n: nat) -> Seq<T> {
    if history.len() > n {
        history.subrange(history.len() - n, history.len() as int)
    } else {
        history
    }
}

/// The highest number among the objects of `pool`, zero for an empty pool.
pub open spec fn highest_id(pool: Seq<ObjectView>) -> u16
    decreases pool.len(),
{
    if pool.len() == 0 {
        0
    } else {
        let before = highest_id(pool.drop_last());
        if pool.last().id > before {
            pool.last().id
        } else {
            before
        }
    }
}

/// One more than the highest number in `pool`, held at the largest 16-bit
/// value.
pub open spec fn next_id_after(pool: Seq<ObjectView>) -> u16 {
    if highest_id(pool) == u16::MAX {
        u16::MAX
    } else {
        (highest_id(pool) + 1) as u16
    }
}

impl DocumentView {
    /// A document that has just been made from `pool`.
    pub open spec fn fresh(pool: Seq<ObjectView>, mask_size: u16, soft_key_size: (u16, u16)) -> DocumentView {
        DocumentView {
            pool,
            mut_pool: pool,
            undo_pool_history: Seq::empty(),
            redo_pool_history: Seq::empty(),
            selected_object: NullableObjectId(None),
            mut_selected_object: NullableObjectId(None),
            undo_selected_history: Seq::empty(),
            redo_selected_history: Seq::empty(),
            mask_size,
            soft_key_size,
            names: Map::empty(),
            renaming_object: None,
            next_available_id: next_id_after(pool),
            image_load_request: None,
        }
    }

    /// Whether the staging pool differs from the committed pool.
    pub open spec fn is_dirty(self) -> bool {
        self.mut_pool != self.pool
    }

    /// The document after a commit of the pool. A document whose staging
    /// pool equals its committed pool stays as it is. Otherwise the staging
    /// pool becomes the committed one, the pool that was committed goes to
    /// the end of the undo history, of which the last ten are kept, and the
    /// redo history is emptied.
    pub open spec fn after_commit(self) -> DocumentView {
        if self.is_dirty() {
            DocumentView {
                pool: self.mut_pool,
                undo_pool_history: keep_last(self.undo_pool_history.push(self.pool), MAX_UNDO_REDO_POOL as nat),
                redo_pool_history: Seq::empty(),
                next_available_id: next_id_after(self.mut_pool),
                ..self
            }
        } else {
            self
        }
    }

    /// The document after undoing. Without an undo history it stays as it
    /// is. Otherwise the last pool of the undo history becomes both the
    /// committed and the staging pool, and the pool that was committed goes
    /// to the end of the redo history.
    pub open spec fn after_undo(self) -> DocumentView {
        if self.undo_pool_history.len() > 0 {
            DocumentView {
                pool: self.undo_pool_history.last(),
                mut_pool: self.undo_pool_history.last(),
                undo_pool_history: self.undo_pool_history.drop_last(),
                redo_pool_history: self.redo_pool_history.push(self.pool),
                next_available_id: next_id_after(self.undo_pool_history.last()),
                ..self
            }
        } else {
            self
        }
    }

    /// The document after redoing: as undoing, with the two histories in
    /// each other's place.
    pub open spec fn after_redo(self) -> DocumentView {
        if self.redo_pool_history.len() > 0 {
            DocumentView {
                pool: self.redo_pool_history.last(),
                mut_pool: self.redo_pool_history.last(),
                undo_pool_history: self.undo_pool_history.push(self.pool),
                redo_pool_history: self.redo_pool_history.drop_last(),
                next_available_id: next_id_after(self.redo_pool_history.last()),
                ..self
            }
        } else {
            self
        }
    }

    /// The document after a commit of the selection. A document whose
    /// staging selection equals its committed selection stays as it is.
    /// Otherwise the staging selection, empty or not, becomes the committed
    /// one, the selection that was committed goes to the end of the undo
    /// history of selections, of which the last twenty are kept, and the
    /// redo history of selections is emptied.
    pub open spec fn after_select(self) -> DocumentView {
        if self.mut_selected_object != self.selected_object {
            DocumentView {
                selected_object: self.mut_selected_object,
                undo_selected_history: keep_last(
                    self.undo_selected_history.push(self.selected_object),
                    MAX_UNDO_REDO_SELECTED as nat,
                ),
                redo_selected_history: Seq::empty(),
                ..self
            }
        } else {
            self
        }
    }

    /// The document after going back to the selection before.
    pub open spec fn after_previous_selected(self) -> DocumentView {
        if self.undo_selected_history.len() > 0 {
            DocumentView {
                selected_object: self.undo_selected_history.last(),
                mut_selected_object: self.undo_selected_history.last(),
                undo_selected_history: self.undo_selected_history.drop_last(),
                redo_selected_history: self.redo_selected_history.push(self.selected_object),
                ..self
            }
        } else {
            self
        }
    }

    /// The document after going forward again to the selection that was gone
    /// back from.
    pub open spec fn after_next_selected(self) -> DocumentView {
        if self.redo_selected_history.len() > 0 {
            DocumentView {
                selected_object: self.redo_selected_history.last(),
                mut_selected_object: self.redo_selected_history.last(),
                undo_selected_history: self.undo_selected_history.push(self.selected_object),
                redo_selected_history: self.redo_selected_history.drop_last(),
                ..self
            }
        } else {
            self
        }
    }
}

/// A commit right after a commit changes nothing: it finds the document
/// clean, and leaves every part of it, the undo history with its depth
/// included, as the first commit left it.
pub proof fn commit_is_idempotent(document: DocumentView)
    ensures
        !document.after_commit().is_dirty(),
        document.after_commit().after_commit() == document.after_commit(),
        document.after_commit().after_commit().undo_pool_history.len()
            == document.after_commit().undo_pool_history.len(),
{
}

/// Undoing a commit brings back the pool that was committed before it, as
/// the committed and as the staging pool, and the undo history as it was
/// while that held fewer than ten pools.
pub proof fn commit_then_undo_restores(document: DocumentView)
    requires
        document.is_dirty(),
    ensures
        document.after_commit().after_undo().pool == document.pool,
        document.after_commit().after_undo().mut_pool == document.pool,
        document.after_commit().after_undo().redo_pool_history == seq![document.mut_pool],
        document.undo_pool_history.len() < MAX_UNDO_REDO_POOL ==> document.after_commit().after_undo().undo_pool_history
            == document.undo_pool_history,
{
    let committed = document.after_commit();
    let pushed = document.undo_pool_history.push(document.pool);
    assert(committed.undo_pool_history.last() == document.pool);
    assert(committed.after_undo().redo_pool_history =~= seq![document.mut_pool]);
    if document.undo_pool_history.len() < MAX_UNDO_REDO_POOL {
        assert(pushed.drop_last() =~= document.undo_pool_history);
    }
}

/// Undoing and then redoing brings back the committed pool and both
/// histories as they were, leaves the staging pool equal to the committed
/// one, and touches neither the selection nor its histories. This holds of
/// every document that has something to undo or nothing to redo.
pub proof fn undo_then_redo_restores(document: DocumentView)
    requires
        document.undo_pool_history.len() > 0 || document.redo_pool_history.len() == 0,
    ensures
        document.after_undo().after_redo() == (DocumentView {
            mut_pool: if document.undo_pool_history.len() > 0 {
                document.pool
            } else {
                document.mut_pool
            },
            next_available_id: if document.undo_pool_history.len() > 0 {
                next_id_after(document.pool)
            } else {
                document.next_available_id
            },
            ..document
        }),
        document.after_undo().after_redo().pool == document.pool,
        document.after_undo().after_redo().undo_pool_history == document.undo_pool_history,
        document.after_undo().after_redo().redo_pool_history == document.redo_pool_history,
        document.after_undo().after_redo().selected_object == document.selected_object,
        document.after_undo().after_redo().mut_selected_object == document.mut_selected_object,
        document.after_undo().after_redo().undo_selected_history == document.undo_selected_history,
        document.after_undo().after_redo().redo_selected_history == document.redo_selected_history,
{
    if document.undo_pool_history.len() > 0 {
        let undone = document.after_undo();
        assert(undone.redo_pool_history.drop_last() =~= document.redo_pool_history);
        assert(undone.undo_pool_history.push(undone.pool) =~= document.undo_pool_history);
    }
}

/// Redoing and then undoing brings back the committed pool and both
/// histories in the same way, for every document that has something to redo.
pub proof fn redo_then_undo_restores(document: DocumentView)
    requires
        document.redo_pool_history.len() > 0,
    ensures
        document.after_redo().after_undo().pool == document.pool,
        document.after_redo().after_undo().mut_pool == document.pool,
        document.after_redo().after_undo().undo_pool_history == document.undo_pool_history,
        document.after_redo().after_undo().redo_pool_history == document.redo_pool_history,
{
    let redone = document.after_redo();
    assert(redone.undo_pool_history.drop_last() =~= document.undo_pool_history);
    assert(redone.redo_pool_history.push(redone.pool) =~= document.redo_pool_history);
}

/// Going back after a commit of the selection brings back the selection
/// that was committed before it, as the committed and as the staging
/// selection, whether the selection committed was empty or not; and the
/// undo history of selections is as it was while that held fewer than
/// twenty.
pub proof fn select_then_previous_restores(document: DocumentView)
    requires
        document.mut_selected_object != document.selected_object,
    ensures
        document.after_select().after_previous_selected().selected_object == document.selected_object,
        document.after_select().after_previous_selected().mut_selected_object == document.selected_object,
        document.after_select().after_previous_selected().redo_selected_history == seq![document.mut_selected_object],
        document.undo_selected_history.len() < MAX_UNDO_REDO_SELECTED ==> document.after_select().after_previous_selected().undo_selected_history
            == document.undo_selected_history,
        document.after_select().after_previous_selected().pool == document.pool,
        document.after_select().after_previous_selected().mut_pool == document.mut_pool,
{
    let committed = document.after_select();
    let pushed = document.undo_selected_history.push(document.selected_object);
    assert(committed.undo_selected_history.last() == document.selected_object);
    assert(committed.after_previous_selected().redo_selected_history =~= seq![document.mut_selected_object]);
    if document.undo_selected_history.len() < MAX_UNDO_REDO_SELECTED {
        assert(pushed.drop_last() =~= document.undo_selected_history);
    }
}

/// A commit of the selection right after one changes nothing, and the undo
/// history of selections never holds more than twenty after a commit that
/// changed something.
pub proof fn select_is_idempotent(document: DocumentView)
    ensures
        document.after_select().after_select() == document.after_select(),
        document.mut_selected_object != document.selected_object ==> document.after_select().undo_selected_history.len()
            <= MAX_UNDO_REDO_SELECTED,
{
}

/// Going back to the selection before and forward again brings back the
/// committed selection and both selection histories, and touches no pool.
pub proof fn previous_then_next_selected_restores(document: DocumentView)
    requires
        document.undo_selected_history.len() > 0 || document.redo_selected_history.len() == 0,
    ensures
        document.after_previous_selected().after_next_selected().selected_object == document.selected_object,
        document.after_previous_selected().after_next_selected().undo_selected_history
            == document.undo_selected_history,
        document.after_previous_selected().after_next_selected().redo_selected_history
            == document.redo_selected_history,
        document.after_previous_selected().after_next_selected().pool == document.pool,
        document.after_previous_selected().after_next_selected().mut_pool == document.mut_pool,
{
    if document.undo_selected_history.len() > 0 {
        let back = document.after_previous_selected();
        assert(back.redo_selected_history.drop_last() =~= document.redo_selected_history);
        assert(back.undo_selected_history.push(back.selected_object) =~= document.undo_selected_history);
    }
}

/// While the two pool histories together hold ten pools at most, they go on
/// doing so through every commit, undo and redo; and after a commit the undo
/// history alone never holds more than ten.
pub proof fn pool_history_stays_bounded(document: DocumentView)
    ensures
        document.after_commit().undo_pool_history.len() <= MAX_UNDO_REDO_POOL || !document.is_dirty(),
        document.undo_pool_history.len() + document.redo_pool_history.len() <= MAX_UNDO_REDO_POOL ==> {
            &&& document.after_commit().undo_pool_history.len() + document.after_commit().redo_pool_history.len()
                <= MAX_UNDO_REDO_POOL
            &&& document.after_undo().undo_pool_history.len() + document.after_undo().redo_pool_history.len()
                <= MAX_UNDO_REDO_POOL
            &&& document.after_redo().undo_pool_history.len() + document.after_redo().redo_pool_history.len()
                <= MAX_UNDO_REDO_POOL
        },
{
}

} // verus!
