//! The persistent store: documents, semantic terms, consistency rules and
//! analysis-cache entries, with upsert semantics for keyed records, wholesale
//! per-document replacement of semantic terms, referential cleanup and
//! predictable ordering.
//!
//! The store itself is the in-memory source of truth for the service layer;
//! a host shell is free to mirror every mutation to durable storage, which is
//! plain I/O and happens outside this crate.

use vstd::prelude::*;

use crate::table::{has_key, key_index, lookup, unique_by, lemma_lookup_at, lemma_lookup_remove,
    lemma_lookup_insert, lemma_remove_own_key, lemma_filter_push, lemma_filter_sub,
    lemma_filter_unique, lemma_filter_killed_key, lemma_filter_all,
    lemma_to_multiset_insert};
use crate::text::{str_eq, str_le, lex_le, lemma_lex_total, lemma_lex_trans};

verus! {

/// A titled text artifact with derived word count and lifecycle timestamps
/// (milliseconds since the Unix epoch).
pub struct Document {
    pub id: String,
    pub title: String,
    pub content: String,
    pub file_path: Option<String>,
    pub created_at: i64,
    pub updated_at: i64,
    pub word_count: usize,
}

/// An extracted annotation tied to a document and a position within it.
/// `confidence` is a score in [0, 1] carried as parts per million.
pub struct SemanticTerm {
    pub id: String,
    pub document_id: String,
    pub term: String,
    pub context: String,
    pub position: i32,
    pub confidence: u32,
    pub created_at: i64,
}

/// A global canonicalization mapping for a terminology term. `alternatives`
/// carries the accepted alternative spellings as one encoded text field.
pub struct ConsistencyRule {
    pub id: String,
    pub term: String,
    pub preferred_form: String,
    pub alternatives: String,
    pub is_active: bool,
    pub created_at: i64,
}

/// A memoized analysis result keyed by document identity and a content
/// fingerprint.
pub struct AnalysisCache {
    pub id: String,
    pub document_id: String,
    pub content_hash: String,
    pub analysis_result: String,
    pub created_at: i64,
}

impl Clone for Document {
    fn clone(&self) -> (r: Self)
        ensures
            r == *self,
    {
        Document {
            id: self.id.clone(),
            title: self.title.clone(),
            content: self.content.clone(),
            file_path: match &self.file_path {
                Some(p) => Some(p.clone()),
                None => None,
            },
            created_at: self.created_at,
            updated_at: self.updated_at,
            word_count: self.word_count,
        }
    }
}

impl Clone for SemanticTerm {
    fn clone(&self) -> (r: Self)
        ensures
            r == *self,
    {
        SemanticTerm {
            id: self.id.clone(),
            document_id: self.document_id.clone(),
            term: self.term.clone(),
            context: self.context.clone(),
            position: self.position,
            confidence: self.confidence,
            created_at: self.created_at,
        }
    }
}

impl Clone for ConsistencyRule {
    fn clone(&self) -> (r: Self)
        ensures
            r == *self,
    {
        ConsistencyRule {
            id: self.id.clone(),
            term: self.term.clone(),
            preferred_form: self.preferred_form.clone(),
            alternatives: self.alternatives.clone(),
            is_active: self.is_active,
            created_at: self.created_at,
        }
    }
}

impl Clone for AnalysisCache {
    fn clone(&self) -> (r: Self)
        ensures
            r == *self,
    {
        AnalysisCache {
            id: self.id.clone(),
            document_id: self.document_id.clone(),
            content_hash: self.content_hash.clone(),
            analysis_result: self.analysis_result.clone(),
            created_at: self.created_at,
        }
    }
}

/// The key under which documents are stored: their id.
pub open spec fn doc_key() -> spec_fn(Document) -> Seq<char> {
    |d: Document| d.id@
}

/// The key under which consistency rules are stored: the term they govern.
pub open spec fn rule_key() -> spec_fn(ConsistencyRule) -> Seq<char> {
    |r: ConsistencyRule| r.term@
}

/// The key under which analysis-cache entries are stored: their own id.
pub open spec fn entry_key() -> spec_fn(AnalysisCache) -> Seq<char> {
    |e: AnalysisCache| e.id@
}

/// Documents ordered by last-modified time, most recently touched first.
pub open spec fn docs_sorted(s: Seq<Document>) -> bool {
    forall|i: int, j: int| 0 <= i <= j < s.len() ==> s[i].updated_at >= s[j].updated_at
}

/// A saturating count: one more, unless the counter is exhausted.
pub open spec fn bumped(c: u64) -> u64 {
    if c < u64::MAX {
        (c + 1) as u64
    } else {
        c
    }
}

/// The store. Each table is a sequence of records; `document_reads` counts
/// how many times a single document has been looked up, so that a caller can
/// observe whether an operation touched the store.
pub struct Database {
    pub documents: Vec<Document>,
    pub terms: Vec<SemanticTerm>,
    pub rules: Vec<ConsistencyRule>,
    pub entries: Vec<AnalysisCache>,
    pub document_reads: u64,
}

impl Database {
    /// Well-formedness: documents are listed most recently modified first;
    /// documents and analysis-cache entries carry unique ids, rules unique
    /// terms. Semantic terms need no key of their own: they are replaced per
    /// document wholesale, and reads key them by document and position.
    pub open spec fn wf(&self) -> bool {
        &&& docs_sorted(self.documents@)
        &&& unique_by(self.documents@, doc_key())
        &&& unique_by(self.rules@, rule_key())
        &&& unique_by(self.entries@, entry_key())
    }

    /// The document stored under `id`, if any.
    pub open spec fn spec_document(&self, id: Seq<char>) -> Option<Document> {
        lookup(self.documents@, doc_key(), id)
    }

    /// An empty store.
    pub fn new() -> (r: Self)
        ensures
            r.wf(),
            r.documents@ =~= Seq::<Document>::empty(),
            r.terms@ =~= Seq::<SemanticTerm>::empty(),
            r.rules@ =~= Seq::<ConsistencyRule>::empty(),
            r.entries@ =~= Seq::<AnalysisCache>::empty(),
            r.document_reads == 0,
    {
        Database {
            documents: Vec::new(),
            terms: Vec::new(),
            rules: Vec::new(),
            entries: Vec::new(),
            document_reads: 0,
        }
    }
}

/// The index of the document with the given id, if one is stored.
pub(crate) fn find_doc_index(docs: &Vec<Document>, id: &str) -> (r: Option<usize>)
    ensures
        match r {
            Some(i) => i < docs.len() && docs@[i as int].id@ == id@,
            None => !has_key(docs@, doc_key(), id@),
        },
{
    let n = docs.len();
    let mut i: usize = 0;
    while i < n
        invariant
            i <= n,
            n == docs.len(),
            forall|j: int| 0 <= j < i ==> docs@[j].id@ != id@,
        decreases n - i,
    {
        if str_eq(docs[i].id.as_str(), id) {
            return Some(i);
        }
        i = i + 1;
    }
    proof {
        if has_key(docs@, doc_key(), id@) {
            let w = key_index(docs@, doc_key(), id@);
            assert(doc_key()(docs@[w]) == docs@[w].id@);
        }
    }
    None
}

impl Database {
    /// Upsert by id: the stored document under `document.id` becomes exactly
    /// `document`, every other id resolves as before, and the
    /// most-recently-modified-first order is maintained.
    pub fn save_document(&mut self, document: &Document)
        requires
            old(self).wf(),
        ensures
            final(self).wf(),
            final(self).spec_document(document.id@) == Some(*document),
            forall|k: Seq<char>| k != document.id@ ==> #[trigger] final(self).spec_document(k)
                == old(self).spec_document(k),
            final(self).documents@.len() <= old(self).documents@.len() + 1,
            final(self).terms@ == old(self).terms@,
            final(self).rules@ == old(self).rules@,
            final(self).entries@ == old(self).entries@,
            final(self).document_reads == old(self).document_reads,
    {
        // Drop any stored row with the same id.
        match find_doc_index(&self.documents, document.id.as_str()) {
            Some(i) => {
                proof {
                    let s = self.documents@;
                    lemma_lookup_at(s, doc_key(), i as int);
                    assert forall|k: Seq<char>| k != document.id@ implies lookup(
                        s.remove(i as int),
                        doc_key(),
                        k,
                    ) == #[trigger] lookup(s, doc_key(), k) by {
                        lemma_lookup_remove(s, doc_key(), i as int, k);
                    }
                    lemma_remove_own_key(s, doc_key(), i as int);
                    lemma_sorted_remove(s, i as int);
                }
                self.documents.remove(i);
            },
            None => {},
        }
        let ghost mid = self.documents@;
        // Insert before the first row that is not more recently modified.
        let m = self.documents.len();
        let mut p: usize = 0;
        while p < m && self.documents[p].updated_at > document.updated_at
            invariant
                p <= m,
                m == self.documents.len(),
                self.documents@ == mid,
                forall|q: int| 0 <= q < p ==> mid[q].updated_at > document.updated_at,
            decreases m - p,
        {
            p = p + 1;
        }
        proof {
            assert forall|q: int| p <= q < mid.len() implies mid[q].updated_at
                <= document.updated_at by {
                assert(mid[p as int].updated_at >= mid[q].updated_at);
            }
        }
        self.documents.insert(p, document.clone());
        proof {
            let t = self.documents@;
            assert(t == mid.insert(p as int, *document));
            assert forall|i: int, j: int| 0 <= i <= j < t.len() implies t[i].updated_at
                >= t[j].updated_at by {
                if i < p {
                    assert(t[i] == mid[i]);
                }
                if j < p {
                    assert(t[j] == mid[j]);
                }
                if i > p {
                    assert(t[i] == mid[i - 1]);
                }
                if j > p {
                    assert(t[j] == mid[j - 1]);
                }
            }
            lemma_lookup_insert(mid, doc_key(), p as int, *document);
        }
    }

    /// The document stored under `id`, or nothing; counts as one store read.
    pub fn get_document(&mut self, id: &str) -> (r: Option<Document>)
        requires
            old(self).wf(),
        ensures
            final(self).wf(),
            r == old(self).spec_document(id@),
            final(self).documents@ == old(self).documents@,
            final(self).terms@ == old(self).terms@,
            final(self).rules@ == old(self).rules@,
            final(self).entries@ == old(self).entries@,
            final(self).document_reads == bumped(old(self).document_reads),
    {
        if self.document_reads < u64::MAX {
            self.document_reads = self.document_reads + 1;
        }
        match find_doc_index(&self.documents, id) {
            Some(i) => {
                proof {
                    lemma_lookup_at(self.documents@, doc_key(), i as int);
                }
                Some(self.documents[i].clone())
            },
            None => None,
        }
    }

    /// All documents, most recently modified first.
    pub fn list_documents(&self) -> (r: Vec<Document>)
        requires
            self.wf(),
        ensures
            r@ == self.documents@,
            docs_sorted(r@),
    {
        let n = self.documents.len();
        let mut out: Vec<Document> = Vec::new();
        let mut i: usize = 0;
        while i < n
            invariant
                i <= n,
                n == self.documents.len(),
                out@ =~= self.documents@.take(i as int),
            decreases n - i,
        {
            out.push(self.documents[i].clone());
            i = i + 1;
        }
        proof {
            assert(out@ =~= self.documents@);
        }
        out
    }
}

/// Keeps the documents whose id differs from the given one.
pub open spec fn doc_id_differs(id: Seq<char>) -> spec_fn(Document) -> bool {
    |d: Document| d.id@ != id
}

/// Keeps the semantic terms that do not belong to the given document.
pub open spec fn term_doc_differs(did: Seq<char>) -> spec_fn(SemanticTerm) -> bool {
    |t: SemanticTerm| t.document_id@ != did
}

/// Keeps the semantic terms that belong to the given document.
pub open spec fn term_of_doc(did: Seq<char>) -> spec_fn(SemanticTerm) -> bool {
    |t: SemanticTerm| t.document_id@ == did
}

/// Keeps the analysis-cache entries whose own id differs from the given one.
pub open spec fn entry_id_differs(id: Seq<char>) -> spec_fn(AnalysisCache) -> bool {
    |e: AnalysisCache| e.id@ != id
}

/// Keeps the analysis-cache entries that do not belong to the given document.
pub open spec fn entry_doc_differs(did: Seq<char>) -> spec_fn(AnalysisCache) -> bool {
    |e: AnalysisCache| e.document_id@ != did
}

/// Semantic terms ordered by their position in the document, ascending.
pub open spec fn terms_sorted(s: Seq<SemanticTerm>) -> bool {
    forall|i: int, j: int| 0 <= i <= j < s.len() ==> s[i].position <= s[j].position
}

/// The documents whose id differs from `id`.
pub(crate) fn retain_docs_without_id(docs: &Vec<Document>, id: &str) -> (r: Vec<Document>)
    ensures
        r@ == docs@.filter(doc_id_differs(id@)),
{
    let pred = Ghost(doc_id_differs(id@));
    let n = docs.len();
    let mut out: Vec<Document> = Vec::new();
    let mut i: usize = 0;
    proof {
        assert(docs@.take(0).filter(pred@) =~= Seq::<Document>::empty());
    }
    while i < n
        invariant
            i <= n,
            n == docs.len(),
            pred@ == doc_id_differs(id@),
            out@ == docs@.take(i as int).filter(pred@),
        decreases n - i,
    {
        proof {
            lemma_filter_push(docs@.take(i as int), docs@[i as int], pred@);
            assert(docs@.take(i + 1) =~= docs@.take(i as int).push(docs@[i as int]));
        }
        if !str_eq(docs[i].id.as_str(), id) {
            out.push(docs[i].clone());
        }
        i = i + 1;
    }
    proof {
        assert(docs@.take(n as int) =~= docs@);
    }
    out
}

/// The semantic terms that do not belong to the document `did`.
fn retain_terms_without_doc(terms: &Vec<SemanticTerm>, did: &str) -> (r: Vec<SemanticTerm>)
    ensures
        r@ == terms@.filter(term_doc_differs(did@)),
{
    let pred = Ghost(term_doc_differs(did@));
    let n = terms.len();
    let mut out: Vec<SemanticTerm> = Vec::new();
    let mut i: usize = 0;
    proof {
        assert(terms@.take(0).filter(pred@) =~= Seq::<SemanticTerm>::empty());
    }
    while i < n
        invariant
            i <= n,
            n == terms.len(),
            pred@ == term_doc_differs(did@),
            out@ == terms@.take(i as int).filter(pred@),
        decreases n - i,
    {
        proof {
            lemma_filter_push(terms@.take(i as int), terms@[i as int], pred@);
            assert(terms@.take(i + 1) =~= terms@.take(i as int).push(terms@[i as int]));
        }
        if !str_eq(terms[i].document_id.as_str(), did) {
            out.push(terms[i].clone());
        }
        i = i + 1;
    }
    proof {
        assert(terms@.take(n as int) =~= terms@);
    }
    out
}

/// The semantic terms that belong to the document `did`.
fn retain_terms_of_doc(terms: &Vec<SemanticTerm>, did: &str) -> (r: Vec<SemanticTerm>)
    ensures
        r@ == terms@.filter(term_of_doc(did@)),
{
    let pred = Ghost(term_of_doc(did@));
    let n = terms.len();
    let mut out: Vec<SemanticTerm> = Vec::new();
    let mut i: usize = 0;
    proof {
        assert(terms@.take(0).filter(pred@) =~= Seq::<SemanticTerm>::empty());
    }
    while i < n
        invariant
            i <= n,
            n == terms.len(),
            pred@ == term_of_doc(did@),
            out@ == terms@.take(i as int).filter(pred@),
        decreases n - i,
    {
        proof {
            lemma_filter_push(terms@.take(i as int), terms@[i as int], pred@);
            assert(terms@.take(i + 1) =~= terms@.take(i as int).push(terms@[i as int]));
        }
        if str_eq(terms[i].document_id.as_str(), did) {
            out.push(terms[i].clone());
        }
        i = i + 1;
    }
    proof {
        assert(terms@.take(n as int) =~= terms@);
    }
    out
}

/// The analysis-cache entries whose own id differs from `id`.
fn retain_entries_without_id(entries: &Vec<AnalysisCache>, id: &str) -> (r: Vec<AnalysisCache>)
    ensures
        r@ == entries@.filter(entry_id_differs(id@)),
{
    let pred = Ghost(entry_id_differs(id@));
    let n = entries.len();
    let mut out: Vec<AnalysisCache> = Vec::new();
    let mut i: usize = 0;
    proof {
        assert(entries@.take(0).filter(pred@) =~= Seq::<AnalysisCache>::empty());
    }
    while i < n
        invariant
            i <= n,
            n == entries.len(),
            pred@ == entry_id_differs(id@),
            out@ == entries@.take(i as int).filter(pred@),
        decreases n - i,
    {
        proof {
            lemma_filter_push(entries@.take(i as int), entries@[i as int], pred@);
            assert(entries@.take(i + 1) =~= entries@.take(i as int).push(entries@[i as int]));
        }
        if !str_eq(entries[i].id.as_str(), id) {
            out.push(entries[i].clone());
        }
        i = i + 1;
    }
    proof {
        assert(entries@.take(n as int) =~= entries@);
    }
    out
}

/// The analysis-cache entries that do not belong to the document `did`.
fn retain_entries_without_doc(entries: &Vec<AnalysisCache>, did: &str) -> (r: Vec<AnalysisCache>)
    ensures
        r@ == entries@.filter(entry_doc_differs(did@)),
{
    let pred = Ghost(entry_doc_differs(did@));
    let n = entries.len();
    let mut out: Vec<AnalysisCache> = Vec::new();
    let mut i: usize = 0;
    proof {
        assert(entries@.take(0).filter(pred@) =~= Seq::<AnalysisCache>::empty());
    }
    while i < n
        invariant
            i <= n,
            n == entries.len(),
            pred@ == entry_doc_differs(did@),
            out@ == entries@.take(i as int).filter(pred@),
        decreases n - i,
    {
        proof {
            lemma_filter_push(entries@.take(i as int), entries@[i as int], pred@);
            assert(entries@.take(i + 1) =~= entries@.take(i as int).push(entries@[i as int]));
        }
        if !str_eq(entries[i].document_id.as_str(), did) {
            out.push(entries[i].clone());
        }
        i = i + 1;
    }
    proof {
        assert(entries@.take(n as int) =~= entries@);
    }
    out
}

/// Sort semantic terms by position, ascending. The result is a permutation
/// of the input.
fn sort_terms_by_position(input: &Vec<SemanticTerm>) -> (r: Vec<SemanticTerm>)
    ensures
        r@.to_multiset() == input@.to_multiset(),
        terms_sorted(r@),
        r@.len() == input@.len(),
{
    broadcast use vstd::seq_lib::group_to_multiset_ensures;

    let n = input.len();
    let mut out: Vec<SemanticTerm> = Vec::new();
    let mut i: usize = 0;
    proof {
        assert(input@.take(0) =~= Seq::<SemanticTerm>::empty());
        assert(out@ =~= Seq::<SemanticTerm>::empty());
        assert(input@.take(0).to_multiset() =~= Seq::<SemanticTerm>::empty().to_multiset());
    }
    while i < n
        invariant
            i <= n,
            n == input.len(),
            out@.to_multiset() == input@.take(i as int).to_multiset(),
            out@.len() == i,
            terms_sorted(out@),
        decreases n - i,
    {
        let x = input[i].clone();
        let m = out.len();
        let mut p: usize = 0;
        while p < m && out[p].position <= x.position
            invariant
                p <= m,
                m == out.len(),
                forall|q: int| 0 <= q < p ==> out@[q].position <= x.position,
            decreases m - p,
        {
            p = p + 1;
        }
        proof {
            let mid = out@;
            assert forall|q: int| p <= q < mid.len() implies mid[q].position >= x.position by {
                assert(mid[p as int].position <= mid[q].position);
                assert(mid[p as int].position > x.position);
            }
            lemma_to_multiset_insert(mid, p as int, input@[i as int]);
            assert(input@.take(i + 1) =~= input@.take(i as int).push(input@[i as int]));
            vstd::seq_lib::to_multiset_build(input@.take(i as int), input@[i as int]);
        }
        let ghost mid = out@;
        out.insert(p, x);
        proof {
            let t = out@;
            assert(t == mid.insert(p as int, input@[i as int]));
            assert forall|a: int, b: int| 0 <= a <= b < t.len() implies t[a].position
                <= t[b].position by {
                if a < p {
                    assert(t[a] == mid[a]);
                }
                if b < p {
                    assert(t[b] == mid[b]);
                }
                if a > p {
                    assert(t[a] == mid[a - 1]);
                }
                if b > p {
                    assert(t[b] == mid[b - 1]);
                }
            }
        }
        i = i + 1;
    }
    proof {
        assert(input@.take(n as int) =~= input@);
        broadcast use vstd::seq_lib::group_to_multiset_ensures;

        assert(out@.to_multiset().len() == input@.to_multiset().len());
    }
    out
}

impl Database {
    /// Remove the document stored under `id`, together with its semantic
    /// terms and analysis-cache entries; rules are global and stay.
    pub fn delete_document(&mut self, id: &str)
        requires
            old(self).wf(),
        ensures
            final(self).wf(),
            final(self).documents@ == old(self).documents@.filter(doc_id_differs(id@)),
            final(self).terms@ == old(self).terms@.filter(term_doc_differs(id@)),
            final(self).entries@ == old(self).entries@.filter(entry_doc_differs(id@)),
            final(self).spec_document(id@) == None::<Document>,
            final(self).rules@ == old(self).rules@,
            final(self).document_reads == old(self).document_reads,
    {
        proof {
            lemma_sorted_filter(self.documents@, doc_id_differs(id@));
            lemma_filter_unique(self.documents@, doc_key(), doc_id_differs(id@));
            lemma_filter_unique(self.entries@, entry_key(), entry_doc_differs(id@));
            lemma_filter_killed_key(self.documents@, doc_key(), id@);
        }
        self.documents = retain_docs_without_id(&self.documents, id);
        self.terms = retain_terms_without_doc(&self.terms, id);
        self.entries = retain_entries_without_doc(&self.entries, id);
    }

    /// Replace the semantic terms of `document_id` wholesale with the given
    /// batch, as one atomic unit: every stored term of that document goes,
    /// the batch takes their place, and no other document's terms move.
    pub fn save_semantic_terms(&mut self, document_id: &str, terms: &Vec<SemanticTerm>)
        requires
            old(self).wf(),
        ensures
            final(self).wf(),
            final(self).terms@ == old(self).terms@.filter(term_doc_differs(document_id@))
                + terms@,
            final(self).documents@ == old(self).documents@,
            final(self).rules@ == old(self).rules@,
            final(self).entries@ == old(self).entries@,
            final(self).document_reads == old(self).document_reads,
    {
        let kept = retain_terms_without_doc(&self.terms, document_id);
        self.terms = kept;
        let ghost f = self.terms@;
        let n = terms.len();
        let mut i: usize = 0;
        proof {
            assert(terms@.take(0) =~= Seq::<SemanticTerm>::empty());
            assert(f + terms@.take(0) =~= f);
        }
        while i < n
            invariant
                i <= n,
                n == terms.len(),
                self.terms@ == f + terms@.take(i as int),
                self.documents@ == old(self).documents@,
                self.rules@ == old(self).rules@,
                self.entries@ == old(self).entries@,
                self.document_reads == old(self).document_reads,
                docs_sorted(self.documents@),
                unique_by(self.documents@, doc_key()),
                unique_by(self.rules@, rule_key()),
                unique_by(self.entries@, entry_key()),
            decreases n - i,
        {
            self.terms.push(terms[i].clone());
            proof {
                assert((f + terms@.take(i as int)).push(terms@[i as int]) =~= f + terms@.take(
                    i + 1,
                ));
            }
            i = i + 1;
        }
        proof {
            assert(f + terms@.take(n as int) =~= f + terms@);
        }
    }

    /// The semantic terms of the document `document_id`, ordered by position
    /// ascending.
    pub fn get_semantic_terms(&self, document_id: &str) -> (r: Vec<SemanticTerm>)
        requires
            self.wf(),
        ensures
            r@.to_multiset() == self.terms@.filter(term_of_doc(document_id@)).to_multiset(),
            r@.len() == self.terms@.filter(term_of_doc(document_id@)).len(),
            terms_sorted(r@),
            forall|i: int| 0 <= i < r@.len() ==> #[trigger] r@[i].document_id@ == document_id@,
    {
        broadcast use vstd::seq_lib::group_to_multiset_ensures;

        let of_doc = retain_terms_of_doc(&self.terms, document_id);
        let r = sort_terms_by_position(&of_doc);
        proof {
            broadcast use vstd::seq_lib::group_filter_ensures;
            assert forall|i: int| 0 <= i < r@.len() implies #[trigger] r@[i].document_id@
                == document_id@ by {
                assert(r@.to_multiset().count(r@[i]) > 0);
                assert(of_doc@.to_multiset().count(r@[i]) > 0);
                assert(of_doc@.contains(r@[i]));
                let w = choose|w: int| 0 <= w < of_doc@.len() && of_doc@[w] == r@[i];
                assert(term_of_doc(document_id@)(of_doc@[w]));
            }
        }
        r
    }

    /// Upsert by id: store the entry, replacing any stored entry with the
    /// same id.
    pub fn save_analysis_cache(&mut self, cache: &AnalysisCache)
        requires
            old(self).wf(),
        ensures
            final(self).wf(),
            final(self).entries@ == old(self).entries@.filter(entry_id_differs(cache.id@)).push(
                *cache,
            ),
            final(self).documents@ == old(self).documents@,
            final(self).terms@ == old(self).terms@,
            final(self).rules@ == old(self).rules@,
            final(self).document_reads == old(self).document_reads,
    {
        proof {
            lemma_filter_unique(self.entries@, entry_key(), entry_id_differs(cache.id@));
            lemma_filter_killed_key(self.entries@, entry_key(), cache.id@);
        }
        let ghost before = self.entries@;
        let kept = retain_entries_without_id(&self.entries, cache.id.as_str());
        self.entries = kept;
        self.entries.push(cache.clone());
        proof {
            let f = before.filter(entry_id_differs(cache.id@));
            assert(self.entries@ == f.push(*cache));
            assert forall|a: int, b: int| 0 <= a < b < self.entries@.len() implies entry_key()(
                self.entries@[a],
            ) != entry_key()(self.entries@[b]) by {
                if b == self.entries@.len() - 1 {
                    assert(self.entries@[a] == f[a]);
                    if entry_key()(f[a]) == entry_key()(*cache) {
                        assert(has_key(f, entry_key(), cache.id@));
                    }
                } else {
                    assert(self.entries@[a] == f[a] && self.entries@[b] == f[b]);
                }
            }
        }
    }

    /// The stored entry for exactly this document and content hash, if any.
    pub fn get_analysis_cache(&self, document_id: &str, content_hash: &str) -> (r: Option<
        AnalysisCache,
    >)
        requires
            self.wf(),
        ensures
            match r {
                Some(e) => e.document_id@ == document_id@ && e.content_hash@ == content_hash@
                    && self.entries@.contains(e),
                None => forall|i: int| 0 <= i < self.entries@.len()
                    ==> !((#[trigger] self.entries@[i]).document_id@ == document_id@
                    && self.entries@[i].content_hash@ == content_hash@),
            },
    {
        let n = self.entries.len();
        let mut i: usize = 0;
        while i < n
            invariant
                i <= n,
                n == self.entries.len(),
                forall|j: int| 0 <= j < i ==> !((#[trigger] self.entries@[j]).document_id@
                    == document_id@ && self.entries@[j].content_hash@ == content_hash@),
            decreases n - i,
        {
            if str_eq(self.entries[i].document_id.as_str(), document_id) && str_eq(
                self.entries[i].content_hash.as_str(),
                content_hash,
            ) {
                let e = self.entries[i].clone();
                proof {
                    assert(self.entries@.contains(e));
                }
                return Some(e);
            }
            i = i + 1;
        }
        None
    }
}

/// Keeps the consistency rules that govern a term other than the given one.
pub open spec fn rule_term_differs(term: Seq<char>) -> spec_fn(ConsistencyRule) -> bool {
    |r: ConsistencyRule| r.term@ != term
}

/// Keeps the consistency rules whose active flag is set.
pub open spec fn rule_active() -> spec_fn(ConsistencyRule) -> bool {
    |r: ConsistencyRule| r.is_active
}

/// Consistency rules ordered by the term they govern, ascending.
pub open spec fn rules_sorted(s: Seq<ConsistencyRule>) -> bool {
    forall|i: int, j: int| 0 <= i <= j < s.len() ==> lex_le(s[i].term@, s[j].term@)
}

/// The consistency rules that govern a term other than `term`.
fn retain_rules_without_term(rules: &Vec<ConsistencyRule>, term: &str) -> (r: Vec<
    ConsistencyRule,
>)
    ensures
        r@ == rules@.filter(rule_term_differs(term@)),
{
    let pred = Ghost(rule_term_differs(term@));
    let n = rules.len();
    let mut out: Vec<ConsistencyRule> = Vec::new();
    let mut i: usize = 0;
    proof {
        assert(rules@.take(0).filter(pred@) =~= Seq::<ConsistencyRule>::empty());
    }
    while i < n
        invariant
            i <= n,
            n == rules.len(),
            pred@ == rule_term_differs(term@),
            out@ == rules@.take(i as int).filter(pred@),
        decreases n - i,
    {
        proof {
            lemma_filter_push(rules@.take(i as int), rules@[i as int], pred@);
            assert(rules@.take(i + 1) =~= rules@.take(i as int).push(rules@[i as int]));
        }
        if !str_eq(rules[i].term.as_str(), term) {
            out.push(rules[i].clone());
        }
        i = i + 1;
    }
    proof {
        assert(rules@.take(n as int) =~= rules@);
    }
    out
}

/// The consistency rules whose active flag is set.
fn retain_rules_active(rules: &Vec<ConsistencyRule>) -> (r: Vec<ConsistencyRule>)
    ensures
        r@ == rules@.filter(rule_active()),
{
    let pred = Ghost(rule_active());
    let n = rules.len();
    let mut out: Vec<ConsistencyRule> = Vec::new();
    let mut i: usize = 0;
    proof {
        assert(rules@.take(0).filter(pred@) =~= Seq::<ConsistencyRule>::empty());
    }
    while i < n
        invariant
            i <= n,
            n == rules.len(),
            pred@ == rule_active(),
            out@ == rules@.take(i as int).filter(pred@),
        decreases n - i,
    {
        proof {
            lemma_filter_push(rules@.take(i as int), rules@[i as int], pred@);
            assert(rules@.take(i + 1) =~= rules@.take(i as int).push(rules@[i as int]));
        }
        if rules[i].is_active {
            out.push(rules[i].clone());
        }
        i = i + 1;
    }
    proof {
        assert(rules@.take(n as int) =~= rules@);
    }
    out
}

/// Sort consistency rules by governed term, ascending. The result is a
/// permutation of the input.
fn sort_rules_by_term(input: &Vec<ConsistencyRule>) -> (r: Vec<ConsistencyRule>)
    ensures
        r@.to_multiset() == input@.to_multiset(),
        rules_sorted(r@),
        r@.len() == input@.len(),
{
    broadcast use vstd::seq_lib::group_to_multiset_ensures;

    let n = input.len();
    let mut out: Vec<ConsistencyRule> = Vec::new();
    let mut i: usize = 0;
    proof {
        assert(input@.take(0) =~= Seq::<ConsistencyRule>::empty());
        assert(out@ =~= Seq::<ConsistencyRule>::empty());
        assert(input@.take(0).to_multiset() =~= Seq::<ConsistencyRule>::empty().to_multiset());
    }
    while i < n
        invariant
            i <= n,
            n == input.len(),
            out@.to_multiset() == input@.take(i as int).to_multiset(),
            out@.len() == i,
            rules_sorted(out@),
        decreases n - i,
    {
        let x = input[i].clone();
        let m = out.len();
        let mut p: usize = 0;
        while p < m && str_le(out[p].term.as_str(), x.term.as_str())
            invariant
                p <= m,
                m == out.len(),
                x == input@[i as int],
                i < n,
                n == input.len(),
                forall|q: int| 0 <= q < p ==> lex_le(#[trigger] out@[q].term@, x.term@),
            decreases m - p,
        {
            p = p + 1;
        }
        proof {
            let mid = out@;
            if p < m {
                lemma_lex_total(mid[p as int].term@, x.term@);
            }
            assert forall|q: int| p <= q < mid.len() implies lex_le(
                x.term@,
                #[trigger] mid[q].term@,
            ) by {
                assert(lex_le(mid[p as int].term@, mid[q].term@));
                lemma_lex_trans(x.term@, mid[p as int].term@, mid[q].term@);
            }
            lemma_to_multiset_insert(mid, p as int, input@[i as int]);
            assert(input@.take(i + 1) =~= input@.take(i as int).push(input@[i as int]));
            vstd::seq_lib::to_multiset_build(input@.take(i as int), input@[i as int]);
            lemma_lex_total(x.term@, x.term@);
        }
        let ghost mid = out@;
        out.insert(p, x);
        proof {
            let t = out@;
            assert(t == mid.insert(p as int, input@[i as int]));
            assert forall|a: int, b: int| 0 <= a <= b < t.len() implies lex_le(
                t[a].term@,
                t[b].term@,
            ) by {
                if a < p {
                    assert(t[a] == mid[a]);
                }
                if b < p {
                    assert(t[b] == mid[b]);
                }
                if a > p {
                    assert(t[a] == mid[a - 1]);
                }
                if b > p {
                    assert(t[b] == mid[b - 1]);
                }
                if a == p && b == p {
                    assert(lex_le(t[a].term@, t[b].term@));
                }
            }
        }
        i = i + 1;
    }
    proof {
        assert(input@.take(n as int) =~= input@);
    }
    out
}

impl Database {
    /// Upsert keyed by term: store the rule, replacing any stored rule that
    /// governs the same term.
    pub fn save_consistency_rule(&mut self, rule: &ConsistencyRule)
        requires
            old(self).wf(),
        ensures
            final(self).wf(),
            final(self).rules@ == old(self).rules@.filter(rule_term_differs(rule.term@)).push(
                *rule,
            ),
            final(self).documents@ == old(self).documents@,
            final(self).terms@ == old(self).terms@,
            final(self).entries@ == old(self).entries@,
            final(self).document_reads == old(self).document_reads,
    {
        proof {
            lemma_filter_unique(self.rules@, rule_key(), rule_term_differs(rule.term@));
            lemma_filter_killed_key(self.rules@, rule_key(), rule.term@);
        }
        let ghost before = self.rules@;
        let kept = retain_rules_without_term(&self.rules, rule.term.as_str());
        self.rules = kept;
        self.rules.push(rule.clone());
        proof {
            let f = before.filter(rule_term_differs(rule.term@));
            assert(self.rules@ == f.push(*rule));
            assert forall|a: int, b: int| 0 <= a < b < self.rules@.len() implies rule_key()(
                self.rules@[a],
            ) != rule_key()(self.rules@[b]) by {
                if b == self.rules@.len() - 1 {
                    assert(self.rules@[a] == f[a]);
                    if rule_key()(f[a]) == rule_key()(*rule) {
                        assert(has_key(f, rule_key(), rule.term@));
                    }
                } else {
                    assert(self.rules@[a] == f[a] && self.rules@[b] == f[b]);
                }
            }
        }
    }

    /// The active consistency rules, ordered by governed term ascending.
    /// Inactive rules are retained in the store but never returned here.
    pub fn get_consistency_rules(&self) -> (r: Vec<ConsistencyRule>)
        requires
            self.wf(),
        ensures
            r@.to_multiset() == self.rules@.filter(rule_active()).to_multiset(),
            r@.len() == self.rules@.filter(rule_active()).len(),
            rules_sorted(r@),
            forall|i: int| 0 <= i < r@.len() ==> (#[trigger] r@[i]).is_active,
    {
        broadcast use vstd::seq_lib::group_to_multiset_ensures;

        let active = retain_rules_active(&self.rules);
        let r = sort_rules_by_term(&active);
        proof {
            broadcast use vstd::seq_lib::group_filter_ensures;
            assert forall|i: int| 0 <= i < r@.len() implies (#[trigger] r@[i]).is_active by {
                assert(r@.to_multiset().count(r@[i]) > 0);
                assert(active@.to_multiset().count(r@[i]) > 0);
                assert(active@.contains(r@[i]));
                let w = choose|w: int| 0 <= w < active@.len() && active@[w] == r@[i];
                assert(rule_active()(active@[w]));
            }
        }
        r
    }
}

/// Wholesale replacement, read back: when every term of a batch belongs to
/// the document `did`, the terms read for `did` after the batch replaced
/// that document's terms are exactly the batch.
pub proof fn lemma_terms_replaced_wholesale(
    terms: Seq<SemanticTerm>,
    batch: Seq<SemanticTerm>,
    did: Seq<char>,
)
    requires
        forall|i: int| 0 <= i < batch.len() ==> (#[trigger] batch[i]).document_id@ == did,
    ensures
        (terms.filter(term_doc_differs(did)) + batch).filter(term_of_doc(did)) == batch,
{
    let kept = terms.filter(term_doc_differs(did));
    Seq::filter_distributes_over_add(kept, batch, term_of_doc(did));
    lemma_delete_clears_terms(terms, did);
    assert forall|i: int| 0 <= i < batch.len() implies term_of_doc(did)(#[trigger] batch[i]) by {
    }
    lemma_filter_all(batch, term_of_doc(did));
    assert(Seq::<SemanticTerm>::empty() + batch =~= batch);
}

/// Filtering keeps the most-recently-modified-first order.
proof fn lemma_sorted_filter(s: Seq<Document>, pred: spec_fn(Document) -> bool)
    requires
        docs_sorted(s),
    ensures
        docs_sorted(s.filter(pred)),
    decreases s.len(),
{
    reveal(Seq::filter);
    if s.len() > 0 {
        let a = s.drop_last();
        assert forall|i: int, j: int| 0 <= i <= j < a.len() implies a[i].updated_at
            >= a[j].updated_at by {
            assert(a[i] == s[i] && a[j] == s[j]);
        }
        lemma_sorted_filter(a, pred);
        if pred(s.last()) {
            lemma_filter_sub(a, pred);
            let t = s.filter(pred);
            assert(t == a.filter(pred).push(s.last()));
            assert forall|i: int, j: int| 0 <= i <= j < t.len() implies t[i].updated_at
                >= t[j].updated_at by {
                if j == t.len() - 1 {
                    if i < j {
                        assert(a.filter(pred).contains(t[i]));
                        let i0 = choose|i0: int| 0 <= i0 < a.len() && a[i0] == t[i];
                        assert(s[i0] == t[i]);
                        assert(s[i0].updated_at >= s[s.len() - 1].updated_at);
                    }
                } else {
                    assert(t[i] == a.filter(pred)[i] && t[j] == a.filter(pred)[j]);
                }
            }
        }
    }
}

/// After a document's rows are filtered away, no semantic term of it
/// remains: reading the deleted document's terms yields nothing.
pub proof fn lemma_delete_clears_terms(terms: Seq<SemanticTerm>, id: Seq<char>)
    ensures
        terms.filter(term_doc_differs(id)).filter(term_of_doc(id)) =~= Seq::<
            SemanticTerm,
        >::empty(),
{
    let f1 = terms.filter(term_doc_differs(id));
    let f2 = f1.filter(term_of_doc(id));
    broadcast use vstd::seq_lib::group_filter_ensures;

    lemma_filter_sub(f1, term_of_doc(id));
    if f2.len() > 0 {
        assert(term_of_doc(id)(f2[0]));
        assert(f2.contains(f2[0]));
        assert(f1.contains(f2[0]));
        let w = choose|w: int| 0 <= w < f1.len() && f1[w] == f2[0];
        assert(term_doc_differs(id)(f1[w]));
    }
}

/// After a document's rows are filtered away, no analysis-cache entry of it
/// remains: a lookup under the deleted document's id misses for every hash.
pub proof fn lemma_delete_clears_entries(entries: Seq<AnalysisCache>, id: Seq<char>)
    ensures
        forall|i: int| 0 <= i < entries.filter(entry_doc_differs(id)).len() ==> (
        #[trigger] entries.filter(entry_doc_differs(id))[i]).document_id@ != id,
{
    broadcast use vstd::seq_lib::group_filter_ensures;

}

/// Removing a row keeps the most-recently-modified-first order.
proof fn lemma_sorted_remove(s: Seq<Document>, idx: int)
    requires
        docs_sorted(s),
        0 <= idx < s.len(),
    ensures
        docs_sorted(s.remove(idx)),
{
    let t = s.remove(idx);
    assert forall|i: int, j: int| 0 <= i <= j < t.len() implies t[i].updated_at
        >= t[j].updated_at by {
        let i0: int = if i < idx { i } else { i + 1 };
        let j0: int = if j < idx { j } else { j + 1 };
        assert(t[i] == s[i0] && t[j] == s[j0]);
    }
}

} // verus!
