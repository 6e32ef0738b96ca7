//! The note record, the request body, the error kinds, and the mathematical
//! model that the store's contracts speak of.

use vstd::prelude::*;

verus! {

/// A stored text record with identity and timestamps.
///
/// `id` is assigned by the store at creation and never changes. `created_at`
/// is set once, at creation; `updated_at` is set at creation and refreshed by
/// every mutating update. Both are store-issued clock readings in
/// milliseconds.
#[derive(Clone, Debug)]
pub struct Note {
    pub id: String,
    pub title: Option<String>,
    pub text: Option<String>,
    pub created_at: u64,
    pub updated_at: u64,
}

/// The request body a transport layer hands over when creating or updating a
/// note.
#[derive(Clone, Debug, PartialEq)]
pub struct NewNote {
    pub title: String,
    pub text: String,
}

/// The error kinds a store operation reports.
#[derive(Clone, Copy, Debug, PartialEq, Eq, Structural)]
pub enum StoreError {
    /// The requested id does not currently exist: an expected outcome, not a
    /// fault.
    NotFound,
    /// The storage medium could not complete the operation; nothing was
    /// committed.
    Unavailable,
}

/// The mathematical value of one note.
#[verifier::ext_equal]
pub ghost struct NoteModel {
    pub id: Seq<char>,
    pub title: Option<Seq<char>>,
    pub text: Option<Seq<char>>,
    pub created_at: u64,
    pub updated_at: u64,
}

impl View for Note {
    type V = NoteModel;

    open spec fn view(&self) -> NoteModel {
        NoteModel {
            id: self.id@,
            title: match self.title {
                Some(t) => Some(t@),
                None => None,
            },
            text: match self.text {
                Some(t) => Some(t@),
                None => None,
            },
            created_at: self.created_at,
            updated_at: self.updated_at,
        }
    }
}

/// The view of an optional borrowed text argument.
pub open spec fn opt_view(o: Option<&str>) -> Option<Seq<char>> {
    match o {
        Some(s) => Some(s@),
        None => None,
    }
}

/// Whether `c` may stand at position `i` of a hyphenated identifier:
/// a hyphen at the four group breaks, a lower-case hex digit elsewhere.
pub open spec fn hyphenated_char_ok(i: int, c: char) -> bool {
    if i == 8 || i == 13 || i == 18 || i == 23 {
        c == '-'
    } else {
        ('0' <= c && c <= '9') || ('a' <= c && c <= 'f')
    }
}

/// A hyphenated identifier: 36 characters in five hex groups of
/// 8-4-4-4-12, separated by hyphens.
pub open spec fn is_hyphenated_uuid(s: Seq<char>) -> bool {
    s.len() == 36 && forall|i: int| 0 <= i < s.len() ==> hyphenated_char_ok(i, #[trigger] s[i])
}

/// The mathematical value of the whole store: the committed notes in
/// insertion order, every id the store ever assigned (deleted notes
/// included, in order of assignment), and the clock stamp the store issued
/// last.
#[verifier::ext_equal]
pub ghost struct StoreModel {
    pub notes: Seq<NoteModel>,
    pub issued: Seq<Seq<char>>,
    pub clock: u64,
}

impl StoreModel {
    /// No two committed notes share an id.
    pub open spec fn unique_ids(self) -> bool {
        forall|i: int, j: int|
            0 <= i < j < self.notes.len() ==> (#[trigger] self.notes[i]).id != (
            #[trigger] self.notes[j]).id
    }

    /// Every note was stamped by the store: a note is never updated before it
    /// is created, and no timestamp runs ahead of the clock.
    pub open spec fn stamps_ok(self) -> bool {
        forall|i: int|
            0 <= i < self.notes.len() ==> (#[trigger] self.notes[i]).created_at
                <= self.notes[i].updated_at <= self.clock
    }

    /// Every committed note carries an id that the store assigned.
    pub open spec fn ids_issued(self) -> bool {
        forall|i: int|
            0 <= i < self.notes.len() ==> self.issued_has((#[trigger] self.notes[i]).id)
    }

    /// Well-formedness: what every reachable store satisfies.
    pub open spec fn wf(self) -> bool {
        self.unique_ids() && self.stamps_ok() && self.ids_issued()
    }

    /// Whether the store ever assigned `id`, to a present or to a
    /// since-deleted note.
    pub open spec fn issued_has(self, id: Seq<char>) -> bool {
        exists|i: int| 0 <= i < self.issued.len() && #[trigger] self.issued[i] == id
    }

    /// Whether some committed note carries `id`.
    pub open spec fn has(self, id: Seq<char>) -> bool {
        exists|i: int| 0 <= i < self.notes.len() && (#[trigger] self.notes[i]).id == id
    }

    /// The position of the note carrying `id` (meaningful when `has(id)`).
    pub open spec fn index_of(self, id: Seq<char>) -> int {
        choose|i: int| 0 <= i < self.notes.len() && (#[trigger] self.notes[i]).id == id
    }

    /// The committed note carrying `id` (meaningful when `has(id)`).
    pub open spec fn note_at(self, id: Seq<char>) -> NoteModel {
        self.notes[self.index_of(id)]
    }

    /// The store after a create committed `n`: the note appended, its id
    /// recorded as issued for the lifetime of the store, the clock at its
    /// stamp.
    pub open spec fn with_note(self, n: NoteModel) -> StoreModel {
        StoreModel {
            notes: self.notes.push(n),
            issued: self.issued.push(n.id),
            clock: n.updated_at,
        }
    }

    /// The store after a mutating update of `id`: title and text replaced by
    /// exactly what was supplied (an absent field is cleared, not kept),
    /// `created_at` kept, `updated_at` at the fresh stamp; every other note
    /// untouched.
    pub open spec fn with_update(
        self,
        id: Seq<char>,
        title: Option<Seq<char>>,
        text: Option<Seq<char>>,
        stamp: u64,
    ) -> StoreModel {
        let i = self.index_of(id);
        StoreModel {
            notes: self.notes.update(
                i,
                NoteModel {
                    id: id,
                    title: title,
                    text: text,
                    created_at: self.notes[i].created_at,
                    updated_at: stamp,
                },
            ),
            issued: self.issued,
            clock: stamp,
        }
    }

    /// The store after a delete of `id`: the note removed, later notes
    /// shifted one position left, the id still recorded as issued (it is
    /// never reassigned), the clock untouched.
    pub open spec fn without(self, id: Seq<char>) -> StoreModel {
        StoreModel {
            notes: self.notes.remove(self.index_of(id)),
            issued: self.issued,
            clock: self.clock,
        }
    }
}

/// An id the store never assigned is carried by no committed note.
pub proof fn lemma_unissued_not_present(s: StoreModel, id: Seq<char>)
    requires
        s.ids_issued(),
        !s.issued_has(id),
    ensures
        !s.has(id),
{
    if s.has(id) {
        let w = choose|i: int| 0 <= i < s.notes.len() && (#[trigger] s.notes[i]).id == id;
        assert(s.issued_has(s.notes[w].id));
    }
}

/// With unique ids, the note found at position `i` is exactly the one
/// `index_of` and `note_at` name.
pub proof fn lemma_index_of_unique(s: StoreModel, i: int)
    requires
        s.unique_ids(),
        0 <= i < s.notes.len(),
    ensures
        s.has(s.notes[i].id),
        s.index_of(s.notes[i].id) == i,
        s.note_at(s.notes[i].id) == s.notes[i],
{
    let id = s.notes[i].id;
    assert(s.has(id));
    let k = s.index_of(id);
    assert(0 <= k < s.notes.len() && s.notes[k].id == id);
    if k < i {
        assert(s.notes[k].id != s.notes[i].id);
    } else if i < k {
        assert(s.notes[i].id != s.notes[k].id);
    }
}

/// Where no note carries `id`, every position misses it.
pub proof fn lemma_not_has(s: StoreModel, id: Seq<char>)
    requires
        !s.has(id),
    ensures
        forall|i: int| 0 <= i < s.notes.len() ==> (#[trigger] s.notes[i]).id != id,
{
}

} // verus!
