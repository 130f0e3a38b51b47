//! Document management: documents attached to a token, each named by a
//! 32-byte identifier and carrying a URI, a 32-byte hash of its contents and
//! the ledger time of its last change. Documents are enumerated in the order
//! in which they were first attached; updating a document keeps its place.

use std::string::String;
use std::vec::Vec;
use vstd::prelude::*;

verus! {

/// Errors of document management.
#[derive(Clone, Copy, Debug, PartialEq, Eq, Structural)]
pub enum DocumentError {
    /// No document has the given name.
    DocumentNotFound,
}

impl DocumentError {
    /// The numeric contract error code of this error.
    pub fn code(&self) -> (c: u32)
        ensures
            c == 380,
    {
        match self {
            DocumentError::DocumentNotFound => 380,
        }
    }
}

/// A document's metadata.
#[derive(Clone, Debug, PartialEq, Eq)]
pub struct Document {
    /// Where the document can be accessed.
    pub uri: String,
    /// The hash of the document's contents.
    pub document_hash: [u8; 32],
    /// The ledger time of the document's last change.
    pub timestamp: u64,
}

/// The mathematical value of a [`Document`].
pub struct DocumentView {
    pub uri: Seq<char>,
    pub document_hash: Seq<u8>,
    pub timestamp: u64,
}

impl View for Document {
    type V = DocumentView;

    open spec fn view(&self) -> DocumentView {
        DocumentView { uri: self.uri@, document_hash: self.document_hash@, timestamp: self.timestamp }
    }
}

/// A named document as stored.
struct DocEntry {
    name: [u8; 32],
    document: Document,
}

/// The documents attached to a token, in attachment order.
pub struct DocumentRegistry {
    docs: Vec<DocEntry>,
}

/// The index of the document named `name` in `entries`, or `-1`.
pub open spec fn index_of(entries: Seq<(Seq<u8>, DocumentView)>, name: Seq<u8>) -> int {
    if exists|i: int| 0 <= i < entries.len() && #[trigger] entries[i].0 == name {
        choose|i: int| 0 <= i < entries.len() && #[trigger] entries[i].0 == name
    } else {
        -1
    }
}

/// No two entries share a name.
pub open spec fn names_distinct(entries: Seq<(Seq<u8>, DocumentView)>) -> bool {
    forall|i: int, j: int| 0 <= i < j < entries.len() ==> #[trigger] entries[i].0 != #[trigger] entries[j].0
}

/// In a list with distinct names, a matching index is the index.
proof fn lemma_index_of(entries: Seq<(Seq<u8>, DocumentView)>, name: Seq<u8>, i: int)
    requires
        names_distinct(entries),
        0 <= i < entries.len(),
        entries[i].0 == name,
    ensures
        index_of(entries, name) == i,
{
    let k = index_of(entries, name);
    assert(0 <= k < entries.len() && entries[k].0 == name);
    if k < i {
        assert(entries[k].0 != entries[i].0);
    }
    if k > i {
        assert(entries[i].0 != entries[k].0);
    }
}

impl DocumentRegistry {
    /// The named documents, in attachment order.
    pub closed spec fn entries(&self) -> Seq<(Seq<u8>, DocumentView)> {
        self.docs@.map_values(|d: DocEntry| (d.name@, d.document@))
    }

    /// Names are distinct and the count fits a `u32`.
    pub open spec fn wf(&self) -> bool {
        &&& names_distinct(self.entries())
        &&& self.entries().len() <= u32::MAX
    }

    /// The document named `name`, if any.
    pub open spec fn document_named(&self, name: Seq<u8>) -> Option<DocumentView> {
        if index_of(self.entries(), name) >= 0 {
            Some(self.entries()[index_of(self.entries(), name)].1)
        } else {
            None
        }
    }

    /// No document.
    pub fn new() -> (s: Self)
        ensures
            s.wf(),
            s.entries() == Seq::<(Seq<u8>, DocumentView)>::empty(),
    {
        let s = DocumentRegistry { docs: Vec::new() };
        assert(s.entries() =~= Seq::<(Seq<u8>, DocumentView)>::empty());
        s
    }
}

/// Whether two names are equal.
fn same_name(a: &[u8; 32], b: &[u8; 32]) -> (r: bool)
    ensures
        r == (a@ == b@),
{
    let mut i: usize = 0;
    while i < 32
        invariant
            i <= 32,
            a@.len() == 32,
            b@.len() == 32,
            forall|j: int| 0 <= j < i ==> a@[j] == b@[j],
        decreases 32 - i,
    {
        if a[i] != b[i] {
            return false;
        }
        i = i + 1;
    }
    assert(a@ =~= b@);
    true
}

/// A copy of a document.
fn copy_document(d: &Document) -> (out: Document)
    ensures
        out@ == d@,
{
    Document { uri: d.uri.clone(), document_hash: d.document_hash, timestamp: d.timestamp }
}

/// Finds the document named `name`.
fn find(s: &DocumentRegistry, name: &[u8; 32]) -> (r: Option<usize>)
    requires
        s.wf(),
    ensures
        match r {
            Some(i) => i == index_of(s.entries(), name@) && i < s.entries().len(),
            None => index_of(s.entries(), name@) == -1,
        },
{
    let mut i: usize = 0;
    while i < s.docs.len()
        invariant
            i <= s.docs.len(),
            s.wf(),
            forall|j: int| 0 <= j < i ==> #[trigger] s.entries()[j].0 != name@,
        decreases s.docs.len() - i,
    {
        if same_name(&s.docs[i].name, name) {
            proof {
                lemma_index_of(s.entries(), name@, i as int);
            }
            return Some(i);
        }
        i = i + 1;
    }
    proof {
        assert(!exists|k: int| 0 <= k < s.entries().len() && #[trigger] s.entries()[k].0 == name@);
    }
    None
}

/// Returns the document named `name`.
///
/// # Errors
///
/// * [`DocumentError::DocumentNotFound`] - When no document has that name.
pub fn get_document(s: &DocumentRegistry, name: &[u8; 32]) -> (r: Result<Document, DocumentError>)
    requires
        s.wf(),
    ensures
        match s.document_named(name@) {
            Some(d) => r matches Ok(doc) && doc@ == d,
            None => r == Err::<Document, DocumentError>(DocumentError::DocumentNotFound),
        },
{
    match find(s, name) {
        Some(i) => Ok(copy_document(&s.docs[i].document)),
        None => Err(DocumentError::DocumentNotFound),
    }
}

/// Returns whether a document named `name` exists.
pub fn document_exists(s: &DocumentRegistry, name: &[u8; 32]) -> (r: bool)
    requires
        s.wf(),
    ensures
        r == s.document_named(name@) is Some,
{
    find(s, name).is_some()
}

/// Returns the number of documents.
pub fn get_document_count(s: &DocumentRegistry) -> (r: u32)
    requires
        s.wf(),
    ensures
        r == s.entries().len(),
{
    s.docs.len() as u32
}

/// Returns every document with its name, in attachment order.
pub fn get_all_documents(s: &DocumentRegistry) -> (r: Vec<([u8; 32], Document)>)
    ensures
        r@.map_values(|p: ([u8; 32], Document)| (p.0@, p.1@)) == s.entries(),
{
    let mut out: Vec<([u8; 32], Document)> = Vec::new();
    let mut i: usize = 0;
    while i < s.docs.len()
        invariant
            i <= s.docs.len(),
            out@.map_values(|p: ([u8; 32], Document)| (p.0@, p.1@)) == s.entries().take(i as int),
        decreases s.docs.len() - i,
    {
        let d = copy_document(&s.docs[i].document);
        out.push((s.docs[i].name, d));
        proof {
            assert(s.entries().take(i + 1) =~= s.entries().take(i as int).push(s.entries()[i as int]));
            assert(out@.map_values(|p: ([u8; 32], Document)| (p.0@, p.1@)) =~= s.entries().take(
                i + 1,
            ));
        }
        i = i + 1;
    }
    proof {
        assert(s.entries().take(s.entries().len() as int) =~= s.entries());
    }
    out
}

/// Attaches a document named `name`, or updates the one of that name in
/// place, stamping it with the ledger time `now`.
pub fn set_document(s: &mut DocumentRegistry, name: &[u8; 32], uri: &String, document_hash: &[u8; 32], now: u64)
    requires
        old(s).wf(),
        old(s).document_named(name@) is Some || old(s).entries().len() < u32::MAX,
    ensures
        final(s).wf(),
        ({
            let d = DocumentView { uri: uri@, document_hash: document_hash@, timestamp: now };
            if index_of(old(s).entries(), name@) >= 0 {
                final(s).entries() == old(s).entries().update(
                    index_of(old(s).entries(), name@),
                    (name@, d),
                )
            } else {
                final(s).entries() == old(s).entries().push((name@, d))
            }
        }),
{
    let doc = Document { uri: uri.clone(), document_hash: *document_hash, timestamp: now };
    let ghost d = doc@;
    match find(s, name) {
        Some(i) => {
            let entry = DocEntry { name: *name, document: doc };
            s.docs.set(i, entry);
            proof {
                assert(final(s).entries() =~= old(s).entries().update(i as int, (name@, d)));
                assert forall|a: int, b: int| 0 <= a < b < final(s).entries().len() implies #[trigger] final(s).entries()[a].0 != #[trigger] final(s).entries()[b].0 by {
                    assert(old(s).entries()[a].0 != old(s).entries()[b].0);
                }
            }
        },
        None => {
            s.docs.push(DocEntry { name: *name, document: doc });
            proof {
                assert(final(s).entries() =~= old(s).entries().push((name@, d)));
                assert forall|a: int, b: int| 0 <= a < b < final(s).entries().len() implies #[trigger] final(s).entries()[a].0 != #[trigger] final(s).entries()[b].0 by {
                    if b < old(s).entries().len() {
                        assert(old(s).entries()[a].0 != old(s).entries()[b].0);
                    } else {
                        assert(old(s).entries()[a].0 != name@);
                    }
                }
            }
        },
    }
}

/// Removes the document named `name`; the others keep their order.
///
/// # Errors
///
/// * [`DocumentError::DocumentNotFound`] - When no document has that name.
pub fn remove_document(s: &mut DocumentRegistry, name: &[u8; 32]) -> (r: Result<(), DocumentError>)
    requires
        old(s).wf(),
    ensures
        final(s).wf(),
        index_of(old(s).entries(), name@) < 0 ==> r == Err::<(), DocumentError>(
            DocumentError::DocumentNotFound,
        ) && final(s).entries() == old(s).entries(),
        index_of(old(s).entries(), name@) >= 0 ==> r is Ok && final(s).entries() == old(s).entries().remove(index_of(old(s).entries(), name@)),
{
    match find(s, name) {
        Some(i) => {
            s.docs.remove(i);
            proof {
                assert(final(s).entries() =~= old(s).entries().remove(i as int));
                assert forall|a: int, b: int| 0 <= a < b < final(s).entries().len() implies #[trigger] final(s).entries()[a].0 != #[trigger] final(s).entries()[b].0 by {
                    let aa = if a < i { a } else { a + 1 };
                    let bb = if b < i { b } else { b + 1 };
                    assert(old(s).entries()[aa].0 != old(s).entries()[bb].0);
                }
            }
            Ok(())
        },
        None => Err(DocumentError::DocumentNotFound),
    }
}

/// Attaching a document and reading it back gives what was attached.
pub proof fn lemma_set_then_get(
    before: &DocumentRegistry,
    after: &DocumentRegistry,
    name: Seq<u8>,
    d: DocumentView,
)
    requires
        before.wf(),
        after.wf(),
        index_of(before.entries(), name) >= 0 ==> after.entries() == before.entries().update(
            index_of(before.entries(), name),
            (name, d),
        ),
        index_of(before.entries(), name) < 0 ==> after.entries() == before.entries().push((name, d)),
    ensures
        after.document_named(name) == Some(d),
{
    let k = index_of(before.entries(), name);
    if k >= 0 {
        lemma_index_of(after.entries(), name, k);
    } else {
        lemma_index_of(after.entries(), name, before.entries().len() as int);
    }
}

/// After a removal no document of that name is left.
pub proof fn lemma_remove_then_absent(before: &DocumentRegistry, after: &DocumentRegistry, name: Seq<u8>)
    requires
        before.wf(),
        after.wf(),
        index_of(before.entries(), name) >= 0,
        after.entries() == before.entries().remove(index_of(before.entries(), name)),
    ensures
        after.document_named(name) is None,
{
    let k = index_of(before.entries(), name);
    if exists|i: int| 0 <= i < after.entries().len() && #[trigger] after.entries()[i].0 == name {
        let i = choose|i: int| 0 <= i < after.entries().len() && #[trigger] after.entries()[i].0 == name;
        let ii = if i < k { i } else { i + 1 };
        assert(before.entries()[ii].0 == name);
        assert(before.entries()[k].0 == name);
        assert(ii != k);
    }
}

/// Attaching a document under a new name and then removing it leaves the
/// registry's list, and so its count, as it was.
pub proof fn lemma_set_then_remove_restores(
    before: &DocumentRegistry,
    mid: &DocumentRegistry,
    after: &DocumentRegistry,
    name: Seq<u8>,
    d: DocumentView,
)
    requires
        before.wf(),
        mid.wf(),
        index_of(before.entries(), name) < 0,
        mid.entries() == before.entries().push((name, d)),
        after.entries() == mid.entries().remove(index_of(mid.entries(), name)),
    ensures
        after.entries() == before.entries(),
        after.entries().len() == before.entries().len(),
{
    lemma_index_of(mid.entries(), name, before.entries().len() as int);
    assert(mid.entries().remove(before.entries().len() as int) =~= before.entries());
}

} // verus!
