//! The store: collections of documents keyed by path, each a list of
//! documents keyed by generated identifier, and the rule that resolves a
//! request path to one document or to a collection.
use vstd::prelude::*;
use vstd::string::StrSliceExecFns;
use crate::document::{Document, DocumentView, with_id_field};

verus! {

/// A character of a generated identifier: a lower-case hexadecimal digit or
/// a hyphen.
pub open spec fn is_identifier_char(c: char) -> bool {
    ('0' <= c && c <= '9') || ('a' <= c && c <= 'f') || c == '-'
}

/// The shape of a generated identifier: a UUID in its hyphenated lower-case
/// form, 36 characters of hexadecimal digits and hyphens.
pub open spec fn is_identifier(s: Seq<char>) -> bool {
    &&& s.len() == 36
    &&& forall|i: int| 0 <= i < s.len() ==> #[trigger] is_identifier_char(s[i])
}

/// Relies on `uuid::Uuid::new_v4` for a random version-4 UUID and on its
/// `Display`, which writes the hyphenated lower-case form.
#[verifier::external_body]
fn random_uuid() -> (r: String)
    ensures
        is_identifier(r@),
{
    uuid::Uuid::new_v4().to_string()
}

/// The documents of one collection: identifier and document, oldest first.
pub type EntriesView = Seq<(Seq<char>, DocumentView)>;

/// The whole store: each collection path that has been written to, with its
/// documents.
pub type StoreView = Map<Seq<char>, EntriesView>;

pub open spec fn entries_view(entries: Seq<(String, Document)>) -> EntriesView {
    entries.map_values(|e: (String, Document)| (e.0@, e.1@))
}

pub open spec fn docs_view(docs: Seq<Document>) -> Seq<DocumentView> {
    docs.map_values(|d: Document| d@)
}

/// The documents stored under `path`; none where nothing was inserted there.
pub open spec fn entries_at(m: StoreView, path: Seq<char>) -> EntriesView {
    if m.contains_key(path) {
        m[path]
    } else {
        Seq::empty()
    }
}

/// The store after `stored` was inserted under `path` with identifier `id`.
pub open spec fn after_insert(
    m: StoreView,
    path: Seq<char>,
    id: Seq<char>,
    stored: DocumentView,
) -> StoreView {
    m.insert(path, entries_at(m, path).push((id, stored)))
}

/// The document stored under `id` among `entries`; the latest one, should
/// the identifier occur twice.
pub open spec fn find_by_id(entries: EntriesView, id: Seq<char>) -> Option<DocumentView>
    decreases entries.len(),
{
    if entries.len() == 0 {
        None
    } else if entries.last().0 == id {
        Some(entries.last().1)
    } else {
        find_by_id(entries.drop_last(), id)
    }
}

/// The document stored under `id` in the collection at `path`.
pub open spec fn lookup(m: StoreView, path: Seq<char>, id: Seq<char>) -> Option<DocumentView> {
    find_by_id(entries_at(m, path), id)
}

/// Every document of the collection at `path`, oldest first.
pub open spec fn all_items(m: StoreView, path: Seq<char>) -> Seq<DocumentView> {
    entries_at(m, path).map_values(|e: (Seq<char>, DocumentView)| e.1)
}

/// The position of the last `/` in `s`, if there is one.
pub open spec fn last_slash(s: Seq<char>) -> Option<int>
    decreases s.len(),
{
    if s.len() == 0 {
        None
    } else if s.last() == '/' {
        Some(s.len() - 1)
    } else {
        last_slash(s.drop_last())
    }
}

/// What a request for `path` yields: where `path` has a `/`, the part before
/// the last one names a collection and the part after it an identifier, and
/// a document found so is the answer; otherwise the collection whose path is
/// all of `path`.
pub open spec fn dispatch(m: StoreView, path: Seq<char>) -> LookupView {
    match last_slash(path) {
        Some(k) => match lookup(m, path.subrange(0, k), path.subrange(k + 1, path.len() as int)) {
            Some(d) => LookupView::Item(d),
            None => LookupView::Items(all_items(m, path)),
        },
        None => LookupView::Items(all_items(m, path)),
    }
}

/// The answer to a request for a path: one document, or the documents of a
/// collection.
#[derive(Debug, PartialEq)]
pub enum Lookup {
    Item(Document),
    Items(Vec<Document>),
}

pub ghost enum LookupView {
    Item(DocumentView),
    Items(Seq<DocumentView>),
}

impl View for Lookup {
    type V = LookupView;

    open spec fn view(&self) -> LookupView {
        match self {
            Lookup::Item(d) => LookupView::Item(d@),
            Lookup::Items(docs) => LookupView::Items(docs_view(docs@)),
        }
    }
}

struct Collection {
    path: String,
    entries: Vec<(String, Document)>,
}

/// The store: one collection per path, created on its first insertion.
pub struct Database {
    collections: Vec<Collection>,
}

impl Database {
    /// No two collections share a path.
    pub closed spec fn wf(&self) -> bool {
        forall|i: int, j: int|
            0 <= i < j < self.collections@.len() ==> #[trigger] self.collections@[i].path@
                != #[trigger] self.collections@[j].path@
    }

    closed spec fn has_path(&self, p: Seq<char>) -> bool {
        exists|i: int| 0 <= i < self.collections@.len() && #[trigger] self.collections@[i].path@ == p
    }

    closed spec fn index_of(&self, p: Seq<char>) -> int {
        choose|i: int| 0 <= i < self.collections@.len() && #[trigger] self.collections@[i].path@ == p
    }

    proof fn lemma_index_of(&self, k: int)
        requires
            self.wf(),
            0 <= k < self.collections@.len(),
        ensures
            self.has_path(self.collections@[k].path@),
            self.index_of(self.collections@[k].path@) == k,
    {
        let p = self.collections@[k].path@;
        assert(0 <= k < self.collections@.len() && self.collections@[k].path@ == p);
        let j = self.index_of(p);
        if j != k {
            if j < k {
                assert(self.collections@[j].path@ != self.collections@[k].path@);
            } else {
                assert(self.collections@[k].path@ != self.collections@[j].path@);
            }
        }
    }
}

impl View for Database {
    type V = StoreView;

    closed spec fn view(&self) -> StoreView {
        Map::new(
            |p: Seq<char>| self.has_path(p),
            |p: Seq<char>| entries_view(self.collections@[self.index_of(p)].entries@),
        )
    }
}

impl Database {
    /// An empty store.
    pub fn new() -> (r: Database)
        ensures
            r.wf(),
            r@ == Map::<Seq<char>, EntriesView>::empty(),
    {
        let r = Database { collections: Vec::new() };
        assert(r@ =~= Map::<Seq<char>, EntriesView>::empty());
        r
    }

    /// The position of the collection at `path`, if there is one.
    fn find_collection(&self, path: &str) -> (r: Option<usize>)
        requires
            self.wf(),
        ensures
            match r {
                Some(k) => k < self.collections@.len() && self.collections@[k as int].path@ == path@,
                None => !self@.contains_key(path@),
            },
    {
        let wanted = path.to_owned();
        let mut i: usize = 0;
        while i < self.collections.len()
            invariant
                i <= self.collections@.len(),
                wanted@ == path@,
                forall|j: int| 0 <= j < i ==> #[trigger] self.collections@[j].path@ != path@,
            decreases self.collections.len() - i,
        {
            if self.collections[i].path == wanted {
                return Some(i);
            }
            i = i + 1;
        }
        None
    }

    /// Stores `doc` under `path` with identifier `id` and returns what was
    /// stored: for an object, a copy with its `id` field set to `id`; for any
    /// other value, the value as it came. The collection is created if the
    /// path had none.
    pub fn insert_with_id(&mut self, path: &str, doc: Document, id: String) -> (r: Document)
        requires
            old(self).wf(),
        ensures
            final(self).wf(),
            r@ == with_id_field(doc@, id@),
            final(self)@ == after_insert(old(self)@, path@, id@, r@),
    {
        let stored = doc.with_id(id.as_str());
        let result = stored.copy();
        let ghost old_db = *self;
        let ghost target = after_insert(old_db@, path@, id@, result@);
        let found = self.find_collection(path);
        match found {
            Some(k) => {
                proof {
                    old_db.lemma_index_of(k as int);
                }
                self.collections[k].entries.push((id, stored));
                proof {
                    assert forall|i: int| 0 <= i < self.collections@.len() implies
                        #[trigger] self.collections@[i].path@ == old_db.collections@[i].path@ by {
                    }
                    assert(entries_view(self.collections@[k as int].entries@) =~= entries_view(
                        old_db.collections@[k as int].entries@,
                    ).push((id@, result@)));
                    self.lemma_index_of(k as int);
                    assert forall|q: Seq<char>| #[trigger]
                        self@.contains_key(q) == target.contains_key(q) by {
                        if old_db.has_path(q) {
                            let j = old_db.index_of(q);
                            assert(self.collections@[j].path@ == q);
                        }
                        if self.has_path(q) {
                            let j = self.index_of(q);
                            assert(old_db.collections@[j].path@ == q);
                        }
                    }
                    assert forall|q: Seq<char>| #[trigger]
                        self@.contains_key(q) implies self@[q] == target[q] by {
                        if q != path@ {
                            let j = old_db.index_of(q);
                            old_db.lemma_index_of(j);
                            self.lemma_index_of(j);
                        }
                    }
                    assert(self@ =~= target);
                }
            },
            None => {
                let mut entries: Vec<(String, Document)> = Vec::new();
                entries.push((id, stored));
                self.collections.push(Collection { path: path.to_owned(), entries });
                proof {
                    let n = old_db.collections@.len();
                    assert forall|i: int| 0 <= i < n implies
                        #[trigger] self.collections@[i].path@ != path@ by {
                        old_db.lemma_index_of(i);
                    }
                    assert(entries_view(self.collections@[n as int].entries@) =~= seq![(id@, result@)]);
                    assert(entries_at(old_db@, path@) =~= Seq::<(Seq<char>, DocumentView)>::empty());
                    self.lemma_index_of(n as int);
                    assert forall|q: Seq<char>| #[trigger]
                        self@.contains_key(q) == target.contains_key(q) by {
                        if old_db.has_path(q) {
                            let j = old_db.index_of(q);
                            assert(self.collections@[j].path@ == q);
                        }
                        if self.has_path(q) && q != path@ {
                            let j = self.index_of(q);
                            assert(old_db.collections@[j].path@ == q);
                        }
                    }
                    assert forall|q: Seq<char>| #[trigger]
                        self@.contains_key(q) implies self@[q] == target[q] by {
                        if q != path@ {
                            let j = old_db.index_of(q);
                            old_db.lemma_index_of(j);
                            self.lemma_index_of(j);
                        }
                    }
                    assert(self@ =~= target);
                }
            },
        }
        result
    }

    /// Stores `doc` under `path` with a freshly generated identifier and
    /// returns what was stored (see `insert_with_id`).
    pub fn insert(&mut self, path: &str, doc: Document) -> (r: Document)
        requires
            old(self).wf(),
        ensures
            final(self).wf(),
            !doc.is_object() ==> r@ == doc@,
            exists|id: Seq<char>|
                {
                    &&& is_identifier(id)
                    &&& r@ == with_id_field(doc@, id)
                    &&& final(self)@ == after_insert(old(self)@, path@, id, r@)
                },
    {
        let id = random_uuid();
        let ghost fresh = id@;
        let r = self.insert_with_id(path, doc, id);
        assert(is_identifier(fresh) && r@ == with_id_field(doc@, fresh));
        r
    }

    /// Copies of every document stored under `path`, oldest first; none
    /// where nothing was inserted there.
    pub fn get_all(&self, path: &str) -> (r: Vec<Document>)
        requires
            self.wf(),
        ensures
            docs_view(r@) == all_items(self@, path@),
            !self@.contains_key(path@) ==> r@.len() == 0,
    {
        let mut out: Vec<Document> = Vec::new();
        match self.find_collection(path) {
            Some(k) => {
                proof {
                    self.lemma_index_of(k as int);
                }
                let entries = &self.collections[k].entries;
                let mut i: usize = 0;
                while i < entries.len()
                    invariant
                        i <= entries@.len(),
                        out@.len() == i,
                        forall|j: int| 0 <= j < i ==> #[trigger] out@[j]@ == entries@[j].1@,
                    decreases entries.len() - i,
                {
                    out.push(entries[i].1.copy());
                    i = i + 1;
                }
                assert(docs_view(out@) =~= all_items(self@, path@));
            },
            None => {
                assert(all_items(self@, path@) =~= Seq::<DocumentView>::empty());
                assert(docs_view(out@) =~= Seq::<DocumentView>::empty());
            },
        }
        out
    }

    /// A copy of the document stored under `id` in the collection at `path`;
    /// `None` where the path has no collection or the collection no such
    /// identifier.
    pub fn get_by_id(&self, path: &str, id: &str) -> (r: Option<Document>)
        requires
            self.wf(),
        ensures
            (match r {
                Some(d) => Some(d@),
                None => None,
            }) == lookup(self@, path@, id@),
    {
        match self.find_collection(path) {
            Some(k) => {
                proof {
                    self.lemma_index_of(k as int);
                }
                let entries = &self.collections[k].entries;
                let wanted = id.to_owned();
                let mut i: usize = entries.len();
                assert(entries@.subrange(0, i as int) =~= entries@);
                while i > 0
                    invariant
                        i <= entries@.len(),
                        wanted@ == id@,
                        entries_at(self@, path@) == entries_view(entries@),
                        find_by_id(entries_view(entries@), wanted@) == find_by_id(
                            entries_view(entries@.subrange(0, i as int)),
                            wanted@,
                        ),
                    decreases i,
                {
                    let ghost before = entries_view(entries@.subrange(0, i as int));
                    assert(before.drop_last() =~= entries_view(entries@.subrange(0, i - 1)));
                    assert(before.last() == (entries@[i - 1].0@, entries@[i - 1].1@));
                    if entries[i - 1].0 == wanted {
                        return Some(entries[i - 1].1.copy());
                    }
                    i = i - 1;
                }
                assert(entries_view(entries@.subrange(0, 0)) =~= Seq::<
                    (Seq<char>, DocumentView),
                >::empty());
                None
            },
            None => None,
        }
    }

    /// Resolves a request path (see `dispatch`): the document named by the
    /// part after the last `/` in the collection named by the part before it,
    /// where there is one; else the collection at the whole path.
    pub fn get(&self, path: &str) -> (r: Lookup)
        requires
            self.wf(),
        ensures
            r@ == dispatch(self@, path@),
    {
        match last_slash_index(path) {
            Some(k) => {
                let n = path.unicode_len();
                let parent = path.substring_char(0, k);
                let id = path.substring_char(k + 1, n);
                match self.get_by_id(parent, id) {
                    Some(d) => Lookup::Item(d),
                    None => Lookup::Items(self.get_all(path)),
                }
            },
            None => Lookup::Items(self.get_all(path)),
        }
    }
}

/// The position of the last `/` in `s`, if there is one.
fn last_slash_index(s: &str) -> (r: Option<usize>)
    ensures
        match r {
            Some(k) => k < s@.len() && last_slash(s@) == Some(k as int),
            None => last_slash(s@) is None,
        },
{
    let n = s.unicode_len();
    let mut i: usize = n;
    assert(s@.subrange(0, i as int) =~= s@);
    while i > 0
        invariant
            i <= s@.len(),
            last_slash(s@) == last_slash(s@.subrange(0, i as int)),
        decreases i,
    {
        let ghost before = s@.subrange(0, i as int);
        assert(before.drop_last() =~= s@.subrange(0, i - 1));
        if s.get_char(i - 1) == '/' {
            return Some(i - 1);
        }
        i = i - 1;
    }
    assert(s@.subrange(0, 0) =~= Seq::<char>::empty());
    None
}

/// The store after the documents `docs` were inserted under `path` one after
/// the other, the `i`-th with identifier `ids[i]`.
pub open spec fn insert_each(
    m: StoreView,
    path: Seq<char>,
    ids: Seq<Seq<char>>,
    docs: Seq<DocumentView>,
) -> StoreView
    decreases docs.len(),
{
    if docs.len() == 0 || ids.len() == 0 {
        m
    } else {
        after_insert(
            insert_each(m, path, ids.drop_last(), docs.drop_last()),
            path,
            ids.last(),
            with_id_field(docs.last(), ids.last()),
        )
    }
}

/// An insertion adds exactly one document to its collection, after all the
/// documents already there, and leaves every other collection as it was:
/// no earlier write is lost.
pub proof fn lemma_insert_keeps_earlier(
    m: StoreView,
    path: Seq<char>,
    id: Seq<char>,
    stored: DocumentView,
    other: Seq<char>,
)
    ensures
        entries_at(after_insert(m, path, id, stored), path) == entries_at(m, path).push(
            (id, stored),
        ),
        other != path ==> entries_at(after_insert(m, path, id, stored), other) == entries_at(
            m,
            other,
        ),
{
}

/// A path that was never written to holds no documents.
pub proof fn lemma_unknown_path_empty(m: StoreView, path: Seq<char>)
    requires
        !m.contains_key(path),
    ensures
        all_items(m, path) == Seq::<DocumentView>::empty(),
{
    assert(all_items(m, path) =~= Seq::<DocumentView>::empty());
}

/// After `docs` were inserted one by one under a path that held nothing,
/// the collection lists exactly their stored forms, in the order of
/// insertion, one for each insertion.
pub proof fn lemma_get_all_after_inserts(
    m: StoreView,
    path: Seq<char>,
    ids: Seq<Seq<char>>,
    docs: Seq<DocumentView>,
)
    requires
        ids.len() == docs.len(),
        !m.contains_key(path),
    ensures
        all_items(insert_each(m, path, ids, docs), path) == Seq::new(
            docs.len(),
            |i: int| with_id_field(docs[i], ids[i]),
        ),
        all_items(insert_each(m, path, ids, docs), path).len() == docs.len(),
    decreases docs.len(),
{
    let expected = Seq::new(docs.len(), |i: int| with_id_field(docs[i], ids[i]));
    if docs.len() == 0 {
        assert(all_items(m, path) =~= expected);
    } else {
        let before = insert_each(m, path, ids.drop_last(), docs.drop_last());
        lemma_get_all_after_inserts(m, path, ids.drop_last(), docs.drop_last());
        let stored = with_id_field(docs.last(), ids.last());
        assert(all_items(after_insert(before, path, ids.last(), stored), path) =~= all_items(
            before,
            path,
        ).push(stored));
        assert(all_items(before, path).push(stored) =~= expected);
    }
}

/// Looking up `id` among `entries` finds nothing exactly when no entry has
/// that identifier.
proof fn lemma_find_none(entries: EntriesView, id: Seq<char>)
    ensures
        find_by_id(entries, id) is None <==> forall|i: int|
            0 <= i < entries.len() ==> (#[trigger] entries[i]).0 != id,
    decreases entries.len(),
{
    if entries.len() > 0 {
        lemma_find_none(entries.drop_last(), id);
        if find_by_id(entries, id) is None {
            assert forall|i: int| 0 <= i < entries.len() implies (#[trigger] entries[i]).0
                != id by {
                if i < entries.len() - 1 {
                    assert(entries[i] == entries.drop_last()[i]);
                }
            }
        } else if entries.last().0 != id {
            let j = choose|j: int|
                0 <= j < entries.drop_last().len() && (#[trigger] entries.drop_last()[j]).0
                    == id;
            assert(entries[j] == entries.drop_last()[j]);
        }
    }
}

/// A lookup by identifier finds nothing exactly when the collection at
/// `path` holds no document with that identifier; an identifier known only
/// under another path finds nothing.
pub proof fn lemma_lookup_none(m: StoreView, path: Seq<char>, id: Seq<char>)
    ensures
        lookup(m, path, id) is None <==> forall|i: int|
            0 <= i < entries_at(m, path).len() ==> (#[trigger] entries_at(m, path)[i]).0 != id,
{
    lemma_find_none(entries_at(m, path), id);
}

/// After an insertion, its identifier finds the stored document under its
/// path, and every other pair of path and identifier finds what it found
/// before.
pub proof fn lemma_lookup_after_insert(
    m: StoreView,
    path: Seq<char>,
    id: Seq<char>,
    stored: DocumentView,
    other_path: Seq<char>,
    other_id: Seq<char>,
)
    ensures
        lookup(after_insert(m, path, id, stored), path, id) == Some(stored),
        other_path != path || other_id != id ==> lookup(
            after_insert(m, path, id, stored),
            other_path,
            other_id,
        ) == lookup(m, other_path, other_id),
{
    let grown = entries_at(m, path).push((id, stored));
    assert(grown.drop_last() =~= entries_at(m, path));
}

/// In `parent` followed by `/` and a text without `/`, the last `/` is the
/// one after `parent`.
proof fn lemma_last_slash_of_item_path(parent: Seq<char>, id: Seq<char>)
    requires
        forall|i: int| 0 <= i < id.len() ==> id[i] != '/',
    ensures
        last_slash(parent + seq!['/'] + id) == Some(parent.len() as int),
    decreases id.len(),
{
    let s = parent + seq!['/'] + id;
    if id.len() == 0 {
        assert(s.last() == '/');
    } else {
        assert(s.last() == id.last());
        assert(s.drop_last() =~= parent + seq!['/'] + id.drop_last());
        lemma_last_slash_of_item_path(parent, id.drop_last());
    }
}

/// A generated identifier holds no `/`.
pub proof fn lemma_identifier_has_no_slash(id: Seq<char>)
    requires
        is_identifier(id),
    ensures
        forall|i: int| 0 <= i < id.len() ==> id[i] != '/',
{
    assert forall|i: int| 0 <= i < id.len() implies id[i] != '/' by {
        assert(is_identifier_char(id[i]));
    }
}

/// A request for `parent/id`, where `id` holds no `/` (as no generated
/// identifier does), yields the document stored under `id` in the
/// collection at `parent` where there is one, and otherwise the collection
/// at the whole path, which is empty where nothing was inserted there.
pub proof fn lemma_dispatch_item_path(m: StoreView, parent: Seq<char>, id: Seq<char>)
    requires
        forall|i: int| 0 <= i < id.len() ==> id[i] != '/',
    ensures
        dispatch(m, parent + seq!['/'] + id) == (match lookup(m, parent, id) {
            Some(d) => LookupView::Item(d),
            None => LookupView::Items(all_items(m, parent + seq!['/'] + id)),
        }),
        lookup(m, parent, id) is None && !m.contains_key(parent + seq!['/'] + id) ==> dispatch(
            m,
            parent + seq!['/'] + id,
        ) == LookupView::Items(Seq::empty()),
{
    let s = parent + seq!['/'] + id;
    lemma_last_slash_of_item_path(parent, id);
    let k = parent.len() as int;
    assert(s.subrange(0, k) =~= parent);
    assert(s.subrange(k + 1, s.len() as int) =~= id);
    if !m.contains_key(s) {
        lemma_unknown_path_empty(m, s);
    }
}

} // verus!
