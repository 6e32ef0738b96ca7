//! The store's laws: what holds across operations, stated over the
//! mathematical model and proved once for every store the operations can
//! reach.

use vstd::prelude::*;

use crate::models::{
    NoteModel, StoreModel, lemma_index_of_unique, lemma_not_has, lemma_unissued_not_present,
};

verus! {

/// Law: a note committed by a create under a never-assigned id is found
/// under that id with exactly its content, its two timestamps equal; every
/// older note is untouched, no older note shares the new id, and the id is
/// recorded as assigned from then on.
pub proof fn law_create_then_get(s: StoreModel, n: NoteModel)
    requires
        s.wf(),
        !s.issued_has(n.id),
        n.created_at == n.updated_at,
        s.clock <= n.updated_at,
    ensures
        s.with_note(n).wf(),
        s.with_note(n).has(n.id),
        s.with_note(n).note_at(n.id) == n,
        s.with_note(n).issued_has(n.id),
        !s.has(n.id),
        s.with_note(n).notes.len() == s.notes.len() + 1,
        forall|i: int| 0 <= i < s.notes.len() ==> (#[trigger] s.with_note(n).notes[i]) == s.notes[i],
        forall|i: int| 0 <= i < s.notes.len() ==> (#[trigger] s.notes[i]).id != n.id,
{
    lemma_unissued_not_present(s, n.id);
    lemma_not_has(s, n.id);
    let s2 = s.with_note(n);
    let len = s.notes.len() as int;
    assert(s2.notes[len] == n);
    assert(s2.issued[s.issued.len() as int] == n.id);
    assert forall|i: int| 0 <= i < s2.notes.len() implies s2.issued_has(
        (#[trigger] s2.notes[i]).id,
    ) by {
        if i < len {
            assert(s.issued_has(s.notes[i].id));
            let w = choose|k: int|
                0 <= k < s.issued.len() && #[trigger] s.issued[k] == s.notes[i].id;
            assert(s2.issued[w] == s.notes[i].id);
        }
    }
    assert forall|a: int, b: int| 0 <= a < b < s2.notes.len() implies (
    #[trigger] s2.notes[a]).id != (#[trigger] s2.notes[b]).id by {
        if b < len {
            assert(s.notes[a].id != s.notes[b].id);
        } else {
            assert(s.notes[a].id != n.id);
        }
    }
    assert forall|i: int| 0 <= i < s2.notes.len() implies (#[trigger] s2.notes[i]).created_at
        <= s2.notes[i].updated_at <= s2.clock by {
        if i < len {
            assert(s.notes[i].created_at <= s.notes[i].updated_at <= s.clock);
        }
    }
    lemma_index_of_unique(s2, len);
}

/// A mutating update of an existing note, stamped no earlier than the
/// clock, keeps the store well-formed, keeps the note's id and creation
/// time, replaces title and text by exactly what was supplied, and touches
/// no other note.
pub proof fn lemma_update_commits(
    s: StoreModel,
    id: Seq<char>,
    title: Option<Seq<char>>,
    text: Option<Seq<char>>,
    stamp: u64,
)
    requires
        s.wf(),
        s.has(id),
        s.clock <= stamp,
    ensures
        s.with_update(id, title, text, stamp).wf(),
        s.with_update(id, title, text, stamp).has(id),
        s.with_update(id, title, text, stamp).index_of(id) == s.index_of(id),
        s.with_update(id, title, text, stamp).note_at(id) == (NoteModel {
            id: id,
            title: title,
            text: text,
            created_at: s.note_at(id).created_at,
            updated_at: stamp,
        }),
        s.with_update(id, title, text, stamp).notes.len() == s.notes.len(),
        forall|j: int|
            0 <= j < s.notes.len() && j != s.index_of(id) ==> (#[trigger] s.with_update(
                id,
                title,
                text,
                stamp,
            ).notes[j]) == s.notes[j],
{
    let i = s.index_of(id);
    assert(0 <= i < s.notes.len() && s.notes[i].id == id);
    assert(s.notes[i].created_at <= s.notes[i].updated_at <= s.clock);
    let s2 = s.with_update(id, title, text, stamp);
    assert(s2.notes[i].id == id);
    assert forall|a: int, b: int| 0 <= a < b < s2.notes.len() implies (
    #[trigger] s2.notes[a]).id != (#[trigger] s2.notes[b]).id by {
        assert(s2.notes[a].id == s.notes[a].id);
        assert(s2.notes[b].id == s.notes[b].id);
        assert(s.notes[a].id != s.notes[b].id);
    }
    assert forall|j: int| 0 <= j < s2.notes.len() implies (#[trigger] s2.notes[j]).created_at
        <= s2.notes[j].updated_at <= s2.clock by {
        if j != i {
            assert(s.notes[j].created_at <= s.notes[j].updated_at <= s.clock);
        }
    }
    assert forall|j: int| 0 <= j < s2.notes.len() implies s2.issued_has(
        (#[trigger] s2.notes[j]).id,
    ) by {
        assert(s2.notes[j].id == s.notes[j].id);
        assert(s.issued_has(s.notes[j].id));
        let w = choose|k: int| 0 <= k < s.issued.len() && #[trigger] s.issued[k] == s.notes[j].id;
        assert(s2.issued[w] == s.notes[j].id);
    }
    lemma_index_of_unique(s2, i);
}

/// Law: a mutating update of an existing note refreshes `updated_at` to the
/// fresh stamp — strictly later than the stamp the note had — and keeps
/// `created_at` unchanged.
pub proof fn law_update_refreshes(
    s: StoreModel,
    id: Seq<char>,
    title: Option<Seq<char>>,
    text: Option<Seq<char>>,
    stamp: u64,
)
    requires
        s.wf(),
        s.has(id),
        s.clock < stamp,
    ensures
        s.with_update(id, title, text, stamp).wf(),
        s.with_update(id, title, text, stamp).has(id),
        s.with_update(id, title, text, stamp).note_at(id).updated_at == stamp,
        s.note_at(id).updated_at < stamp,
        s.with_update(id, title, text, stamp).note_at(id).created_at == s.note_at(id).created_at,
        s.with_update(id, title, text, stamp).note_at(id).id == id,
{
    lemma_update_commits(s, id, title, text, stamp);
    let i = s.index_of(id);
    assert(0 <= i < s.notes.len() && s.notes[i].id == id);
    assert(s.notes[i].created_at <= s.notes[i].updated_at <= s.clock);
}

/// Law: once a delete of `id` has succeeded, no note carries `id` any more —
/// a get would report it missing — while every other note survives and the
/// clock does not move.
pub proof fn law_delete_then_get(s: StoreModel, id: Seq<char>)
    requires
        s.wf(),
        s.has(id),
    ensures
        s.without(id).wf(),
        !s.without(id).has(id),
        s.without(id).issued_has(id),
        s.without(id).notes.len() == s.notes.len() - 1,
        s.without(id).clock == s.clock,
        forall|j: int|
            0 <= j < s.index_of(id) ==> (#[trigger] s.without(id).notes[j]) == s.notes[j],
        forall|j: int|
            s.index_of(id) <= j < s.notes.len() - 1 ==> (#[trigger] s.without(id).notes[j])
                == s.notes[j + 1],
{
    let i = s.index_of(id);
    assert(0 <= i < s.notes.len() && s.notes[i].id == id);
    s.notes.remove_ensures(i);
    let s2 = s.without(id);
    assert forall|a: int, b: int| 0 <= a < b < s2.notes.len() implies (
    #[trigger] s2.notes[a]).id != (#[trigger] s2.notes[b]).id by {
        let a0 = if a < i {
            a
        } else {
            a + 1
        };
        let b0 = if b < i {
            b
        } else {
            b + 1
        };
        assert(s2.notes[a] == s.notes[a0]);
        assert(s2.notes[b] == s.notes[b0]);
        assert(s.notes[a0].id != s.notes[b0].id);
    }
    assert forall|j: int| 0 <= j < s2.notes.len() implies (#[trigger] s2.notes[j]).created_at
        <= s2.notes[j].updated_at <= s2.clock by {
        let j0 = if j < i {
            j
        } else {
            j + 1
        };
        assert(s2.notes[j] == s.notes[j0]);
        assert(s.notes[j0].created_at <= s.notes[j0].updated_at <= s.clock);
    }
    assert forall|j: int| 0 <= j < s2.notes.len() implies s2.issued_has(
        (#[trigger] s2.notes[j]).id,
    ) by {
        let j0 = if j < i {
            j
        } else {
            j + 1
        };
        assert(s2.notes[j] == s.notes[j0]);
        assert(s.issued_has(s.notes[j0].id));
        let w = choose|k: int| 0 <= k < s.issued.len() && #[trigger] s.issued[k] == s.notes[j0].id;
        assert(s2.issued[w] == s.notes[j0].id);
    }
    assert(s.issued_has(s.notes[i].id));
    let wi = choose|k: int| 0 <= k < s.issued.len() && #[trigger] s.issued[k] == id;
    assert(s2.issued[wi] == id);
    if s2.has(id) {
        let w = choose|k: int| 0 <= k < s2.notes.len() && (#[trigger] s2.notes[k]).id == id;
        let w0 = if w < i {
            w
        } else {
            w + 1
        };
        assert(s2.notes[w] == s.notes[w0]);
        if w0 < i {
            assert(s.notes[w0].id != s.notes[i].id);
        } else {
            assert(s.notes[i].id != s.notes[w0].id);
        }
    }
}

/// Law: a delete racing a mutating update of the same note ends, under the
/// store's mutual exclusion, in one of two serial orders — and both leave the
/// very same surviving notes, with the contested note wholly gone; a deleted
/// note is never resurrected and no half-updated note remains.
pub proof fn law_update_delete_race(
    s: StoreModel,
    id: Seq<char>,
    title: Option<Seq<char>>,
    text: Option<Seq<char>>,
    stamp: u64,
)
    requires
        s.wf(),
        s.has(id),
        s.clock < stamp,
    ensures
        !s.with_update(id, title, text, stamp).without(id).has(id),
        !s.without(id).has(id),
        s.with_update(id, title, text, stamp).without(id).notes == s.without(id).notes,
{
    lemma_update_commits(s, id, title, text, stamp);
    let su = s.with_update(id, title, text, stamp);
    law_delete_then_get(su, id);
    law_delete_then_get(s, id);
    let i = s.index_of(id);
    assert(su.index_of(id) == i);
    su.notes.remove_ensures(i);
    s.notes.remove_ensures(i);
    assert forall|j: int| 0 <= j < su.without(id).notes.len() implies (
    #[trigger] su.without(id).notes[j]) == s.without(id).notes[j] by {
        if j < i {
            assert(su.without(id).notes[j] == su.notes[j]);
            assert(s.without(id).notes[j] == s.notes[j]);
            assert(su.notes[j] == s.notes[j]);
        } else {
            assert(su.without(id).notes[j] == su.notes[j + 1]);
            assert(s.without(id).notes[j] == s.notes[j + 1]);
            assert(su.notes[j + 1] == s.notes[j + 1]);
        }
    }
    assert(su.without(id).notes =~= s.without(id).notes);
}

/// Law: an id once assigned stays assigned for the lifetime of the store.
/// No later create, update or delete — of any note — makes it fresh again,
/// so a create never hands out an id that was ever handed out before, the
/// id of a since-deleted note included.
pub proof fn law_no_id_reuse(
    s: StoreModel,
    id: Seq<char>,
    n: NoteModel,
    other: Seq<char>,
    title: Option<Seq<char>>,
    text: Option<Seq<char>>,
    stamp: u64,
)
    requires
        s.issued_has(id),
    ensures
        s.with_note(n).issued_has(id),
        s.with_update(other, title, text, stamp).issued_has(id),
        s.without(other).issued_has(id),
{
    let w = choose|k: int| 0 <= k < s.issued.len() && #[trigger] s.issued[k] == id;
    assert(s.with_note(n).issued[w] == id);
    assert(s.with_update(other, title, text, stamp).issued[w] == id);
    assert(s.without(other).issued[w] == id);
}

/// Law: two creates in succession commit notes with distinct ids — the
/// second id is fresh against a record that already holds the first. With
/// creates serialized on one store, any run of them yields pairwise
/// distinct ids, each note retrievable until deleted.
pub proof fn law_successive_creates_distinct(s: StoreModel, n1: NoteModel, n2: NoteModel)
    requires
        !s.with_note(n1).issued_has(n2.id),
    ensures
        n1.id != n2.id,
{
    assert(s.with_note(n1).issued[s.issued.len() as int] == n1.id);
}

} // verus!
