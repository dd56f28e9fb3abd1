//! Durable CRUD over notes. The manager owns one open store handle and
//! is specified against the store's contents: a map from key bytes to
//! value bytes. A note with identifier `id` sits under the UTF-8 bytes
//! of `id`, as the encoded form that `codec` defines.

use crate::codec::{encodable, encode_note, spec_decode, spec_encode};
use crate::errors::NFAError;
use crate::note::{valid_id, Note, NoteView};
use crate::store::{db_entries, db_get, db_insert, db_model, db_open, db_remove};
use vstd::prelude::*;
use vstd::string::StringSliceAdditionalSpecFns;
use vstd::utf8::encode_utf8;

verus! {

/// The store key under which a note with this identifier lives: the
/// UTF-8 bytes of the identifier.
pub open spec fn key_of(id: Seq<char>) -> Seq<u8> {
    encode_utf8(id)
}

/// Whether some record sits under this identifier.
pub open spec fn stored(m: Map<Seq<u8>, Seq<u8>>, id: Seq<char>) -> bool {
    m.contains_key(key_of(id))
}

/// The note this identifier's record decodes to, if it decodes at all.
pub open spec fn stored_note(m: Map<Seq<u8>, Seq<u8>>, id: Seq<char>) -> Option<NoteView> {
    spec_decode(m[key_of(id)])
}

/// Everything a lookup can report, and exactly when: the note stored
/// under the identifier on success; `NoteNotFound` exactly on an absent
/// key; `SerializationError` exactly on a present but undecodable
/// record; a store fault may surface on any input.
pub open spec fn get_post(m: Map<Seq<u8>, Seq<u8>>, id: Seq<char>, r: Result<
    Note,
    NFAError,
>) -> bool {
    match r {
        Ok(n) => stored(m, id) && stored_note(m, id) == Some(n@),
        Err(NFAError::NoteNotFound) => !stored(m, id),
        Err(NFAError::SerializationError) => stored(m, id) && stored_note(m, id) is None,
        Err(NFAError::DatabaseError(_)) => true,
    }
}

/// How an updated note relates to the stored one: same identifier and
/// creation instant; each given field replaces the old one and each
/// absent field is left alone; the update stamp never steps backwards,
/// and strictly advances whenever it has room to.
pub open spec fn merged(
    pre: NoteView,
    title: Option<Seq<char>>,
    content: Option<Seq<char>>,
    post: NoteView,
) -> bool {
    &&& post.id == pre.id
    &&& post.created_at == pre.created_at
    &&& post.title == (match title {
        Some(t) => t,
        None => pre.title,
    })
    &&& post.content == (match content {
        Some(c) => c,
        None => pre.content,
    })
    &&& post.updated_at >= pre.updated_at
    &&& pre.updated_at < u64::MAX ==> post.updated_at > pre.updated_at
}

/// Everything an update can report, and exactly when. A successful
/// update rewrites the note's record in place; every failure other than
/// a store fault leaves the store untouched.
pub open spec fn update_post(
    m0: Map<Seq<u8>, Seq<u8>>,
    m1: Map<Seq<u8>, Seq<u8>>,
    id: Seq<char>,
    title: Option<Seq<char>>,
    content: Option<Seq<char>>,
    r: Result<Note, NFAError>,
) -> bool {
    match r {
        Ok(n) => {
            &&& stored(m0, id)
            &&& stored_note(m0, id) matches Some(pre) && merged(pre, title, content, n@)
            &&& encodable(n@)
            &&& m1 == m0.insert(key_of(n@.id), spec_encode(n@))
        },
        Err(NFAError::NoteNotFound) => !stored(m0, id) && m1 == m0,
        Err(NFAError::SerializationError) => stored(m0, id) && stored_note(m0, id) is None && m1
            == m0,
        Err(NFAError::DatabaseError(_)) => true,
    }
}

/// The views of a run of notes, in order.
pub open spec fn note_views(s: Seq<Note>) -> Seq<NoteView> {
    s.map_values(|n: Note| n@)
}

/// Ascending by update stamp; ties may stand in any order, since the
/// design defines no secondary key.
pub open spec fn sorted_by_update(s: Seq<NoteView>) -> bool {
    forall|i: int, j: int|
        #![trigger s[i], s[j]]
        0 <= i < j < s.len() ==> s[i].updated_at <= s[j].updated_at
}

/// Every stored record decodes; a listing succeeds exactly on such
/// stores (store faults aside).
pub open spec fn all_decodable(m: Map<Seq<u8>, Seq<u8>>) -> bool {
    forall|k: Seq<u8>| #[trigger] m.contains_key(k) ==> spec_decode(m[k]) is Some
}

proof fn lemma_views_remove(s: Seq<Note>, i: int)
    requires
        0 <= i < s.len(),
    ensures
        note_views(s.remove(i)) =~= note_views(s).remove(i),
{
}

proof fn lemma_views_insert(s: Seq<Note>, i: int, n: Note)
    requires
        0 <= i <= s.len(),
    ensures
        note_views(s.insert(i, n)) =~= note_views(s).insert(i, n@),
{
}

/// Sorts a run of notes ascending by update stamp, keeping exactly the
/// notes it was given.
fn sort_notes(notes: &mut Vec<Note>)
    ensures
        final(notes)@.len() == old(notes)@.len(),
        sorted_by_update(note_views(final(notes)@)),
        note_views(final(notes)@).to_multiset() == note_views(old(notes)@).to_multiset(),
{
    broadcast use vstd::seq_lib::group_to_multiset_ensures;
    broadcast use vstd::multiset::group_multiset_axioms;

    if notes.len() <= 1 {
        return ;
    }
    let mut i: usize = 1;
    while i < notes.len()
        invariant
            1 <= i <= notes@.len(),
            notes@.len() == old(notes)@.len(),
            sorted_by_update(note_views(notes@).take(i as int)),
            note_views(notes@).to_multiset() == note_views(old(notes)@).to_multiset(),
        decreases notes@.len() - i,
    {
        let ghost pre = notes@;
        let x = notes.remove(i);
        proof {
            lemma_views_remove(pre, i as int);
        }
        let ghost t = notes@;
        let mut j: usize = i;
        while j > 0 && notes[j - 1].updated_at > x.updated_at
            invariant
                j <= i,
                i <= t.len(),
                notes@ == t,
                forall|k: int| j <= k < i ==> (#[trigger] t[k])@.updated_at > x@.updated_at,
            decreases j,
        {
            j -= 1;
        }
        assert(j == 0 || t[j - 1]@.updated_at <= x@.updated_at);
        notes.insert(j, x);
        proof {
            broadcast use vstd::seq_lib::group_to_multiset_ensures;
            broadcast use vstd::multiset::group_multiset_axioms;

            lemma_views_insert(t, j as int, x);
            let vpre = note_views(pre);
            let vt = note_views(t);
            let vnew = note_views(notes@);
            assert(vnew =~= vt.insert(j as int, x@));
            assert(vt =~= vpre.remove(i as int));
            assert(vpre[i as int] == x@);
            assert(vpre.contains(x@)) by {
                assert(vpre[i as int] == x@);
            }
            assert(vpre.to_multiset().count(x@) > 0);
            assert(vnew.to_multiset() == vt.insert(j as int, x@).to_multiset());
            assert(vt.insert(j as int, x@).to_multiset() == vt.to_multiset().insert(x@));
            assert(vt.to_multiset() == vpre.remove(i as int).to_multiset());
            assert(vpre.remove(i as int).to_multiset() == vpre.to_multiset().remove(x@));
            assert(vpre.to_multiset().remove(x@).insert(x@) =~= vpre.to_multiset());
            assert(vnew.to_multiset() =~= vpre.to_multiset());
            assert(sorted_by_update(vnew.take(i + 1 as int))) by {
                assert forall|a: int, b: int|
                    #![trigger vnew[a], vnew[b]]
                    0 <= a < b < i + 1 implies vnew[a].updated_at <= vnew[b].updated_at by {
                    assert(forall|k: int| 0 <= k < i ==> vt[k] == #[trigger] vpre[k]);
                    if b < j {
                        assert(vnew[a] == vpre[a] && vnew[b] == vpre[b]);
                    } else if b == j {
                        assert(vnew[b] == x@);
                        if j > 0 {
                            assert(vnew[a] == vpre[a]);
                            assert(vpre[a].updated_at <= vpre[j - 1].updated_at);
                            assert(vpre[j - 1].updated_at <= x@.updated_at);
                        }
                    } else {
                        assert(vnew[b] == vpre[b - 1] && i > b - 1 >= j);
                        assert(vpre[b - 1].updated_at > x@.updated_at);
                        if a < j {
                            assert(vnew[a] == vpre[a]);
                            if j > 0 {
                                assert(vpre[a].updated_at <= vpre[j - 1].updated_at);
                            }
                        } else if a == j {
                            assert(vnew[a] == x@);
                        } else {
                            assert(vnew[a] == vpre[a - 1] && i > a - 1 >= j);
                        }
                    }
                }
            }
        }
        i += 1;
    }
    proof {
        assert(note_views(notes@).take(notes@.len() as int) =~= note_views(notes@));
    }
}

/// Mediates all access to one open store.
pub struct NoteManager {
    db: sled::Db,
}

impl View for NoteManager {
    type V = Map<Seq<u8>, Seq<u8>>;

    closed spec fn view(&self) -> Map<Seq<u8>, Seq<u8>> {
        db_model(self.db)
    }
}

/// A fresh update stamp: the clock reading, pushed one past the note's
/// previous stamp whenever the clock has not advanced beyond it, so
/// that an update's stamp never steps backwards even under a clock that
/// stalls or regresses.
fn next_stamp(now: u64, prev: u64) -> (r: u64)
    ensures
        r >= prev,
        prev < u64::MAX ==> r > prev,
{
    if now > prev {
        now
    } else if prev == u64::MAX {
        prev
    } else {
        prev + 1
    }
}

impl NoteManager {
    /// Opens or creates the store rooted at `path`. An unusable path
    /// surfaces as a `DatabaseError`, never a crash.
    pub fn new(path: &str) -> (r: Result<NoteManager, NFAError>)
        ensures
            r matches Err(e) ==> e is DatabaseError,
    {
        match db_open(path) {
            Ok(db) => Ok(NoteManager { db }),
            Err(e) => Err(NFAError::DatabaseError(e)),
        }
    }

    /// Builds a fresh note from the given title and content and writes
    /// it durably under its newly drawn identifier. Encoding cannot
    /// fail, so the only failure left is a store fault, which leaves
    /// the returned error a `DatabaseError`.
    pub fn create_note(&mut self, title: String, content: String) -> (r: Result<Note, NFAError>)
        ensures
            match r {
                Ok(n) => {
                    &&& n@.title == title@
                    &&& n@.content == content@
                    &&& n@.created_at == n@.updated_at
                    &&& valid_id(n@.id)
                    &&& encodable(n@)
                    &&& final(self)@ == old(self)@.insert(key_of(n@.id), spec_encode(n@))
                },
                Err(e) => e is DatabaseError,
            },
    {
        let note = Note::new(title, content);
        let serialized = encode_note(&note);
        match db_insert(&mut self.db, note.id.as_str(), serialized.as_slice()) {
            Ok(_) => Ok(note),
            Err(e) => Err(NFAError::DatabaseError(e)),
        }
    }

    /// Looks the identifier up. Absence is the distinct, expected
    /// outcome `NoteNotFound`; a present but undecodable record is
    /// `SerializationError`; both are kept apart from store faults.
    pub fn get_note(&self, id: &str) -> (r: Result<Note, NFAError>)
        ensures
            get_post(self@, id@, r),
    {
        match db_get(&self.db, id) {
            Err(e) => Err(NFAError::DatabaseError(e)),
            Ok(None) => Err(NFAError::NoteNotFound),
            Ok(Some(v)) => match crate::codec::decode_note(v.as_slice()) {
                Some(n) => Ok(n),
                None => Err(NFAError::SerializationError),
            },
        }
    }

    /// Reads the note, replaces exactly the fields that were given,
    /// stamps it anew — also when nothing changed — and writes it back
    /// under its identifier. A missing identifier propagates as
    /// `NoteNotFound`, untouched.
    pub fn update_note(&mut self, id: &str, title: Option<String>, content: Option<String>) -> (r:
        Result<Note, NFAError>)
        ensures
            update_post(old(self)@, final(self)@, id@, title.deep_view(), content.deep_view(), r),
    {
        let mut note = match self.get_note(id) {
            Ok(n) => n,
            Err(e) => {
                return Err(e);
            },
        };
        if let Some(t) = title {
            note.title = t;
        }
        if let Some(c) = content {
            note.content = c;
        }
        note.updated_at = next_stamp(crate::note::now_nanos(), note.updated_at);
        let serialized = encode_note(&note);
        match db_insert(&mut self.db, note.id.as_str(), serialized.as_slice()) {
            Ok(_) => Ok(note),
            Err(e) => Err(NFAError::DatabaseError(e)),
        }
    }

    /// Scans every stored record, decodes each, and returns all notes
    /// ascending by update stamp. A single undecodable record aborts
    /// the whole listing with `SerializationError` rather than being
    /// skipped.
    pub fn list_notes(&self) -> (r: Result<Vec<Note>, NFAError>)
        ensures
            match r {
                Ok(ns) => {
                    &&& sorted_by_update(note_views(ns@))
                    &&& all_decodable(self@)
                    &&& exists|ks: Seq<Seq<u8>>|
                        {
                            &&& #[trigger] ks.no_duplicates()
                            &&& ks.to_set() == self@.dom()
                            &&& note_views(ns@).to_multiset() == ks.map_values(
                                |k: Seq<u8>| spec_decode(self@[k])->0,
                            ).to_multiset()
                        }
                },
                Err(NFAError::SerializationError) => exists|k: Seq<u8>|
                    #[trigger] self@.contains_key(k) && spec_decode(self@[k]) is None,
                Err(NFAError::DatabaseError(_)) => true,
                Err(NFAError::NoteNotFound) => false,
            },
    {
        let entries = match db_entries(&self.db) {
            Ok(es) => es,
            Err(e) => {
                return Err(NFAError::DatabaseError(e));
            },
        };
        let ghost kseq = entries@.map_values(|p: (Vec<u8>, Vec<u8>)| p.0@);
        let mut notes: Vec<Note> = Vec::new();
        let mut idx: usize = 0;
        while idx < entries.len()
            invariant
                idx <= entries@.len(),
                kseq == entries@.map_values(|p: (Vec<u8>, Vec<u8>)| p.0@),
                kseq.no_duplicates(),
                kseq.to_set() == self@.dom(),
                forall|t: int|
                    0 <= t < entries@.len() ==> self@.contains_key(#[trigger] kseq[t])
                        && entries@[t].1@ == self@[kseq[t]],
                notes@.len() == idx,
                forall|t: int|
                    0 <= t < idx ==> spec_decode(self@[kseq[t]]) == Some(
                        (#[trigger] notes@[t])@,
                    ),
            decreases entries@.len() - idx,
        {
            let value = &entries[idx].1;
            match crate::codec::decode_note(value.as_slice()) {
                Some(n) => {
                    notes.push(n);
                },
                None => {
                    proof {
                        assert(self@.contains_key(kseq[idx as int]) && spec_decode(
                            self@[kseq[idx as int]],
                        ) is None);
                    }
                    return Err(NFAError::SerializationError);
                },
            }
            idx += 1;
        }
        proof {
            assert(all_decodable(self@)) by {
                assert forall|k: Seq<u8>| #[trigger]
                    self@.contains_key(k) implies spec_decode(self@[k]) is Some by {
                    assert(kseq.to_set().contains(k));
                    let t = choose|t: int| 0 <= t < kseq.len() && kseq[t] == k;
                    assert(spec_decode(self@[kseq[t]]) == Some(notes@[t]@));
                }
            }
            assert(note_views(notes@) =~= kseq.map_values(|k: Seq<u8>| spec_decode(self@[k])->0));
        }
        sort_notes(&mut notes);
        proof {
            assert(note_views(notes@).to_multiset() == kseq.map_values(
                |k: Seq<u8>| spec_decode(self@[k])->0,
            ).to_multiset());
        }
        Ok(notes)
    }

    /// Removes the identifier's record. Removing an absent key is not
    /// an error: it succeeds silently, by design — callers wanting a
    /// "not found" report must check existence themselves first.
    pub fn delete_note(&mut self, id: &str) -> (r: Result<(), NFAError>)
        ensures
            match r {
                Ok(_) => final(self)@ == old(self)@.remove(key_of(id@)),
                Err(e) => e is DatabaseError,
            },
    {
        match db_remove(&mut self.db, id) {
            Ok(_) => Ok(()),
            Err(e) => Err(NFAError::DatabaseError(e)),
        }
    }
}

/// Round trip: once a create has written a note — the store now maps
/// its identifier to its encoded form — a lookup of that identifier
/// finds the very same note, field for field.
pub proof fn lemma_create_then_get(m: Map<Seq<u8>, Seq<u8>>, n: NoteView)
    requires
        encodable(n),
    ensures
        ({
            let m2 = m.insert(key_of(n.id), spec_encode(n));
            stored(m2, n.id) && stored_note(m2, n.id) == Some(n)
        }),
{
    crate::codec::lemma_decode_encode(n);
}

/// Round trip after an update: the rewritten record under the note's
/// identifier decodes back to exactly the note the update returned —
/// so what `merged` says of the returned note holds of the stored one.
pub proof fn lemma_update_then_get(
    m0: Map<Seq<u8>, Seq<u8>>,
    m1: Map<Seq<u8>, Seq<u8>>,
    id: Seq<char>,
    title: Option<Seq<char>>,
    content: Option<Seq<char>>,
    n: Note,
)
    requires
        update_post(m0, m1, id, title, content, Ok(n)),
    ensures
        stored(m1, n@.id),
        stored_note(m1, n@.id) == Some(n@),
{
    lemma_create_then_get(m0, n@);
}

/// Update semantics: an update given only a title leaves the content
/// untouched; an update given nothing still leaves both fields alone
/// while the update stamp strictly advances whenever it has room to.
pub proof fn lemma_update_semantics(
    pre: NoteView,
    t: Seq<char>,
    post_title: NoteView,
    post_noop: NoteView,
)
    requires
        merged(pre, Some(t), None, post_title),
        merged(pre, None, None, post_noop),
    ensures
        post_title.title == t,
        post_title.content == pre.content,
        post_noop.title == pre.title,
        post_noop.content == pre.content,
        pre.updated_at < u64::MAX ==> post_noop.updated_at > pre.updated_at,
{
}

/// Monotonic stamps: a note that satisfied the stamp invariant still
/// satisfies it after any update, and a second update's stamp is never
/// below the first's.
pub proof fn lemma_monotonic_stamps(
    pre: NoteView,
    t1: Option<Seq<char>>,
    c1: Option<Seq<char>>,
    mid: NoteView,
    t2: Option<Seq<char>>,
    c2: Option<Seq<char>>,
    post: NoteView,
)
    requires
        pre.time_ok(),
        merged(pre, t1, c1, mid),
        merged(mid, t2, c2, post),
    ensures
        mid.time_ok(),
        post.time_ok(),
        post.updated_at >= mid.updated_at,
{
}

/// Delete then get: once a delete has succeeded — the store no longer
/// maps the identifier — a lookup of that identifier can neither find
/// a note nor blame a broken record; short of a store fault it reports
/// `NoteNotFound`.
pub proof fn lemma_delete_then_get(m: Map<Seq<u8>, Seq<u8>>, id: Seq<char>, r: Result<
    Note,
    NFAError,
>)
    requires
        get_post(m.remove(key_of(id)), id, r),
    ensures
        !(r is Ok),
        r matches Err(e) ==> !(e is SerializationError),
{
}

/// Delete idempotence: removing an identifier a second time asks the
/// store for the very same contents, so a repeated delete has nothing
/// left to do and nothing to object to.
pub proof fn lemma_delete_idempotent(m: Map<Seq<u8>, Seq<u8>>, id: Seq<char>)
    ensures
        m.remove(key_of(id)).remove(key_of(id)) == m.remove(key_of(id)),
{
    assert(m.remove(key_of(id)).remove(key_of(id)) =~= m.remove(key_of(id)));
}

/// Unknown identifiers on an empty store: a lookup can only report the
/// note as missing (or a store fault) — never a decoding failure, and
/// never a note.
pub proof fn lemma_lookup_on_empty(id: Seq<char>, r: Result<Note, NFAError>)
    requires
        get_post(Map::<Seq<u8>, Seq<u8>>::empty(), id, r),
    ensures
        !(r is Ok),
        r matches Err(e) ==> !(e is SerializationError),
{
}

/// The same, for updates: on an empty store an update can only report
/// `NoteNotFound` or a store fault, and then leaves the store empty.
pub proof fn lemma_update_on_empty(
    m1: Map<Seq<u8>, Seq<u8>>,
    id: Seq<char>,
    title: Option<Seq<char>>,
    content: Option<Seq<char>>,
    r: Result<Note, NFAError>,
)
    requires
        update_post(Map::<Seq<u8>, Seq<u8>>::empty(), m1, id, title, content, r),
    ensures
        !(r is Ok),
        r matches Err(e) ==> !(e is SerializationError),
{
}

} // verus!
