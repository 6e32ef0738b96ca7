//! The note store: the sole owner of the note collection. It assigns
//! identifiers and timestamps and serves every read and write, so that each
//! call observes and leaves a fully committed state.

use vstd::prelude::*;

use crate::models::{
    Note, NoteModel, StoreError, StoreModel, is_hyphenated_uuid, lemma_index_of_unique, opt_view,
};
use crate::laws::{law_create_then_get, law_delete_then_get, lemma_update_commits};

verus! {

/// The sequence of note values a vector of notes stands for.
pub open spec fn notes_view(v: Seq<Note>) -> Seq<NoteModel> {
    v.map_values(|n: Note| n@)
}

/// The sequence of id values a vector of id strings stands for.
pub open spec fn ids_view(v: Seq<String>) -> Seq<Seq<char>> {
    v.map_values(|s: String| s@)
}

/// The owner of all committed notes, of the record of every id it ever
/// assigned, and of the stamp clock.
///
/// A caller that wants the guarantees of the contracts below must treat one
/// `NoteStore` value as one consistency domain: every operation takes the
/// store exclusively (`&mut`) or shared for reads, so no two mutations can
/// interleave on the same store.
pub struct NoteStore {
    notes: Vec<Note>,
    issued: Vec<String>,
    clock: u64,
}

impl View for NoteStore {
    type V = StoreModel;

    closed spec fn view(&self) -> StoreModel {
        StoreModel {
            notes: notes_view(self.notes@),
            issued: ids_view(self.issued@),
            clock: self.clock,
        }
    }
}

/// Relies on chrono's `Local::now` for a wall-clock reading in milliseconds.
/// Nothing is promised of the value: the store itself turns readings into
/// strictly increasing stamps. The call aborts on a host whose clock stands
/// before the Unix epoch — an environment fault no argument can exclude.
#[verifier::external_body]
fn wall_clock_millis() -> i64 {
    chrono::Local::now().timestamp_millis()
}

/// Relies on uuid's `Uuid::new_v4` and its hyphenated `Display` form: a
/// random version-4 identifier rendered as 36 characters in five lower-case
/// hex groups of 8-4-4-4-12 split by hyphens. Freshness is not promised
/// here; the store checks the result against every id it ever assigned. The
/// call aborts if the operating system's randomness source fails — an
/// environment fault no argument can exclude.
#[verifier::external_body]
fn fresh_note_id() -> (r: String)
    ensures
        is_hyphenated_uuid(r@),
{
    uuid::Uuid::new_v4().hyphenated().to_string()
}

/// An independent copy of a note, field for field.
fn copy_note(n: &Note) -> (r: Note)
    ensures
        r == *n,
{
    Note {
        id: n.id.clone(),
        title: match &n.title {
            Some(t) => Some(t.clone()),
            None => None,
        },
        text: match &n.text {
            Some(t) => Some(t.clone()),
            None => None,
        },
        created_at: n.created_at,
        updated_at: n.updated_at,
    }
}

impl NoteStore {
    /// An empty store: no notes, no id ever assigned, the clock at zero.
    pub fn new() -> (s: NoteStore)
        ensures
            s@.wf(),
            s@.notes.len() == 0,
            s@.issued.len() == 0,
            s@.clock == 0,
    {
        NoteStore { notes: Vec::new(), issued: Vec::new(), clock: 0 }
    }

    /// The position of the note carrying `key`, if any.
    fn find_index(&self, key: &String) -> (r: Option<usize>)
        ensures
            match r {
                Some(i) => i < self@.notes.len() && self@.notes[i as int].id == key@,
                None => !self@.has(key@),
            },
    {
        let mut j: usize = 0;
        while j < self.notes.len()
            invariant
                j <= self.notes.len(),
                self@.notes.len() == self.notes@.len(),
                forall|k: int| 0 <= k < j ==> (#[trigger] self@.notes[k]).id != key@,
            decreases self.notes.len() - j,
        {
            proof {
                assert(self@.notes[j as int] == self.notes@[j as int]@);
            }
            if self.notes[j].id == *key {
                return Some(j);
            }
            j += 1;
        }
        proof {
            if self@.has(key@) {
                let w = choose|k: int|
                    0 <= k < self@.notes.len() && (#[trigger] self@.notes[k]).id == key@;
                assert(self@.notes[w].id != key@);
            }
        }
        None
    }

    /// Whether the store ever assigned `key`, to a present or to a deleted
    /// note.
    fn is_issued(&self, key: &String) -> (r: bool)
        ensures
            r == self@.issued_has(key@),
    {
        let mut j: usize = 0;
        while j < self.issued.len()
            invariant
                j <= self.issued.len(),
                self@.issued.len() == self.issued@.len(),
                forall|k: int| 0 <= k < j ==> (#[trigger] self@.issued[k]) != key@,
            decreases self.issued.len() - j,
        {
            proof {
                assert(self@.issued[j as int] == self.issued@[j as int]@);
            }
            if self.issued[j] == *key {
                proof {
                    assert(self@.issued[j as int] == key@);
                }
                return true;
            }
            j += 1;
        }
        proof {
            if self@.issued_has(key@) {
                let w = choose|k: int|
                    0 <= k < self@.issued.len() && #[trigger] self@.issued[k] == key@;
                assert(self@.issued[w] != key@);
            }
        }
        false
    }

    /// Advance the clock to a fresh stamp: the wall clock where it moved
    /// forward, one tick past the last stamp where it did not.
    fn next_stamp(&mut self)
        ensures
            final(self)@.notes == old(self)@.notes,
            final(self)@.issued == old(self)@.issued,
            final(self)@.clock >= old(self)@.clock,
            old(self)@.clock < u64::MAX ==> final(self)@.clock > old(self)@.clock,
    {
        let now = wall_clock_millis();
        let wall: u64 = if now >= 0 {
            now as u64
        } else {
            0
        };
        if wall > self.clock {
            self.clock = wall;
        } else if self.clock < u64::MAX {
            self.clock = self.clock + 1;
        }
    }
}

impl Note {
    /// A snapshot of every committed note, in insertion order, as
    /// independent copies.
    pub fn list(store: &NoteStore) -> (r: Vec<Note>)
        ensures
            r@.len() == store@.notes.len(),
            forall|i: int| 0 <= i < r@.len() ==> (#[trigger] r@[i])@ == store@.notes[i],
    {
        let mut out: Vec<Note> = Vec::new();
        let mut j: usize = 0;
        while j < store.notes.len()
            invariant
                j <= store.notes.len(),
                store@.notes.len() == store.notes@.len(),
                out@.len() == j,
                forall|k: int| 0 <= k < j ==> (#[trigger] out@[k])@ == store@.notes[k],
            decreases store.notes.len() - j,
        {
            proof {
                assert(store@.notes[j as int] == store.notes@[j as int]@);
            }
            let c = copy_note(&store.notes[j]);
            out.push(c);
            j += 1;
        }
        out
    }

    /// The note carrying `id`, or `None` where no note does.
    pub fn get(id: &str, store: &NoteStore) -> (r: Option<Note>)
        requires
            store@.wf(),
        ensures
            match r {
                Some(n) => store@.has(id@) && n@ == store@.note_at(id@),
                None => !store@.has(id@),
            },
    {
        let key = id.to_owned();
        match store.find_index(&key) {
            Some(i) => {
                proof {
                    lemma_index_of_unique(store@, i as int);
                }
                let out = copy_note(&store.notes[i]);
                proof {
                    assert(store@.notes[i as int] == store.notes@[i as int]@);
                }
                Some(out)
            },
            None => None,
        }
    }

    /// Commit a new note under the caller's `id`: succeeds exactly where the
    /// store never assigned that id — a deleted note's id stays assigned and
    /// is refused, never reused — stamps both timestamps with one fresh
    /// clock reading, and appends the note. Where the id was ever assigned,
    /// nothing changes.
    pub fn create_with_id(
        id: String,
        title: Option<&str>,
        text: Option<&str>,
        store: &mut NoteStore,
    ) -> (r: Option<Note>)
        requires
            old(store)@.wf(),
        ensures
            final(store)@.wf(),
            match r {
                Some(n) => {
                    &&& !old(store)@.issued_has(id@)
                    &&& !old(store)@.has(id@)
                    &&& n@.id == id@
                    &&& n@.title == opt_view(title)
                    &&& n@.text == opt_view(text)
                    &&& n@.created_at == n@.updated_at
                    &&& n@.updated_at == final(store)@.clock
                    &&& final(store)@ == old(store)@.with_note(n@)
                    &&& final(store)@.has(id@)
                    &&& final(store)@.issued_has(id@)
                    &&& final(store)@.note_at(id@) == n@
                    &&& final(store)@.clock >= old(store)@.clock
                    &&& (old(store)@.clock < u64::MAX ==> final(store)@.clock > old(
                        store,
                    )@.clock)
                },
                None => old(store)@.issued_has(id@) && final(store)@ == old(store)@,
            },
    {
        if store.is_issued(&id) {
            return None;
        }
        store.next_stamp();
        let ghost pre = old(store)@;
        let stamp = store.clock;
        let id_record = id.clone();
        let note = Note {
            id,
            title: match title {
                Some(t) => Some(t.to_owned()),
                None => None,
            },
            text: match text {
                Some(t) => Some(t.to_owned()),
                None => None,
            },
            created_at: stamp,
            updated_at: stamp,
        };
        let out = copy_note(&note);
        let ghost nm = note@;
        let ghost mid = store@;
        store.notes.push(note);
        store.issued.push(id_record);
        proof {
            assert(store@.notes =~= mid.notes.push(nm)) by {
                assert forall|k: int| 0 <= k < store@.notes.len() implies store@.notes[k]
                    == mid.notes.push(nm)[k] by {
                    assert(store@.notes[k] == store.notes@[k]@);
                }
            }
            assert(store@.issued =~= mid.issued.push(nm.id)) by {
                assert forall|k: int| 0 <= k < store@.issued.len() implies store@.issued[k]
                    == mid.issued.push(nm.id)[k] by {
                    assert(store@.issued[k] == store.issued@[k]@);
                }
            }
            assert(mid.notes == pre.notes);
            assert(mid.issued == pre.issued);
            assert(store@ =~= pre.with_note(nm));
            law_create_then_get(pre, nm);
        }
        Some(out)
    }

    /// Commit a brand-new note: draws a random identifier, and succeeds
    /// exactly where that identifier was never assigned before — owed
    /// whenever the store has assigned no identifier of the drawn shape, an
    /// empty store above all. Where the drawn identifier does collide,
    /// nothing changes and the caller may retry.
    pub fn create(title: Option<&str>, text: Option<&str>, store: &mut NoteStore) -> (r: Option<
        Note,
    >)
        requires
            old(store)@.wf(),
        ensures
            final(store)@.wf(),
            old(store)@.issued.len() == 0 ==> r is Some,
            r is None ==> exists|i: int|
                0 <= i < old(store)@.issued.len() && (#[trigger] old(store)@.issued[i]).len()
                    == 36,
            match r {
                Some(n) => {
                    &&& !old(store)@.issued_has(n@.id)
                    &&& !old(store)@.has(n@.id)
                    &&& is_hyphenated_uuid(n@.id)
                    &&& n@.title == opt_view(title)
                    &&& n@.text == opt_view(text)
                    &&& n@.created_at == n@.updated_at
                    &&& n@.updated_at == final(store)@.clock
                    &&& final(store)@ == old(store)@.with_note(n@)
                    &&& final(store)@.has(n@.id)
                    &&& final(store)@.issued_has(n@.id)
                    &&& final(store)@.note_at(n@.id) == n@
                    &&& final(store)@.clock >= old(store)@.clock
                    &&& (old(store)@.clock < u64::MAX ==> final(store)@.clock > old(
                        store,
                    )@.clock)
                },
                None => final(store)@ == old(store)@,
            },
    {
        let id = fresh_note_id();
        let ghost drawn = id@;
        let r = Note::create_with_id(id, title, text, store);
        proof {
            if r is None {
                let w = choose|k: int|
                    0 <= k < old(store)@.issued.len() && #[trigger] old(store)@.issued[k]
                        == drawn;
                assert(old(store)@.issued[w].len() == 36);
            }
        }
        r
    }

    /// Update the note carrying `id`.
    ///
    /// Where no note carries `id`, returns `None` and changes nothing. Where
    /// neither a title nor a text is supplied, this is a no-op read: the
    /// current note comes back and no timestamp moves. Otherwise the supplied
    /// fields replace both stored fields — an absent field is cleared, not
    /// kept — and `updated_at` is refreshed with a fresh stamp.
    pub fn update(
        id: &str,
        utitle: Option<&str>,
        utext: Option<&str>,
        store: &mut NoteStore,
    ) -> (r: Option<Note>)
        requires
            old(store)@.wf(),
        ensures
            final(store)@.wf(),
            match r {
                Some(n) => old(store)@.has(id@) && if utitle is None && utext is None {
                    final(store)@ == old(store)@ && n@ == old(store)@.note_at(id@)
                } else {
                    &&& final(store)@ == old(store)@.with_update(
                        id@,
                        opt_view(utitle),
                        opt_view(utext),
                        final(store)@.clock,
                    )
                    &&& final(store)@.has(id@)
                    &&& final(store)@.index_of(id@) == old(store)@.index_of(id@)
                    &&& n@ == final(store)@.note_at(id@)
                    &&& n@.id == id@
                    &&& n@.title == opt_view(utitle)
                    &&& n@.text == opt_view(utext)
                    &&& n@.created_at == old(store)@.note_at(id@).created_at
                    &&& n@.updated_at == final(store)@.clock
                    &&& final(store)@.clock >= old(store)@.clock
                    &&& (old(store)@.clock < u64::MAX ==> n@.updated_at > old(
                        store,
                    )@.note_at(id@).updated_at)
                },
                None => !old(store)@.has(id@) && final(store)@ == old(store)@,
            },
    {
        let key = id.to_owned();
        match store.find_index(&key) {
            None => None,
            Some(i) => {
                proof {
                    lemma_index_of_unique(store@, i as int);
                }
                if utitle.is_none() && utext.is_none() {
                    proof {
                        assert(store@.notes[i as int] == store.notes@[i as int]@);
                    }
                    let out = copy_note(&store.notes[i]);
                    Some(out)
                } else {
                    let ghost pre = store@;
                    store.next_stamp();
                    let stamp = store.clock;
                    let created = store.notes[i].created_at;
                    proof {
                        assert(store@.notes[i as int] == store.notes@[i as int]@);
                    }
                    let note = Note {
                        id: key,
                        title: match utitle {
                            Some(t) => Some(t.to_owned()),
                            None => None,
                        },
                        text: match utext {
                            Some(t) => Some(t.to_owned()),
                            None => None,
                        },
                        created_at: created,
                        updated_at: stamp,
                    };
                    let out = copy_note(&note);
                    let ghost nm = note@;
                    let ghost mid = store@;
                    store.notes[i] = note;
                    proof {
                        assert(store@.notes =~= mid.notes.update(i as int, nm)) by {
                            assert forall|k: int| 0 <= k < store@.notes.len() implies store@.notes[k]
                                == mid.notes.update(i as int, nm)[k] by {
                                assert(store@.notes[k] == store.notes@[k]@);
                            }
                        }
                        assert(mid.notes == pre.notes);
                        lemma_update_commits(pre, id@, opt_view(utitle), opt_view(utext), stamp);
                        assert(pre.note_at(id@).updated_at <= pre.clock);
                        assert(store@ =~= pre.with_update(
                            id@,
                            opt_view(utitle),
                            opt_view(utext),
                            stamp,
                        ));
                        lemma_index_of_unique(store@, i as int);
                    }
                    Some(out)
                }
            },
        }
    }

    /// Remove the note carrying `id`. Where no note carries it, reports
    /// `NotFound` — an expected outcome, surfaced distinctly from a storage
    /// fault — and changes nothing.
    pub fn delete(id: &str, store: &mut NoteStore) -> (r: Result<(), StoreError>)
        requires
            old(store)@.wf(),
        ensures
            final(store)@.wf(),
            match r {
                Ok(_) => {
                    &&& old(store)@.has(id@)
                    &&& final(store)@ == old(store)@.without(id@)
                    &&& !final(store)@.has(id@)
                    &&& final(store)@.issued_has(id@)
                    &&& final(store)@.clock == old(store)@.clock
                },
                Err(e) => {
                    &&& e == StoreError::NotFound
                    &&& !old(store)@.has(id@)
                    &&& final(store)@ == old(store)@
                },
            },
    {
        let key = id.to_owned();
        match store.find_index(&key) {
            None => Err(StoreError::NotFound),
            Some(i) => {
                proof {
                    lemma_index_of_unique(store@, i as int);
                }
                let ghost pre = store@;
                let _removed = store.notes.remove(i);
                proof {
                    pre.notes.remove_ensures(i as int);
                    assert(store@.notes =~= pre.notes.remove(i as int)) by {
                        assert forall|k: int| 0 <= k < store@.notes.len() implies store@.notes[k]
                            == pre.notes.remove(i as int)[k] by {
                            assert(store@.notes[k] == store.notes@[k]@);
                            assert(pre.notes[k] == old(store).notes@[k]@);
                            assert(pre.notes[k + 1] == old(store).notes@[k + 1]@);
                        }
                    }
                    assert(store@ =~= pre.without(id@));
                    law_delete_then_get(pre, id@);
                }
                Ok(())
            },
        }
    }
}

} // verus!
