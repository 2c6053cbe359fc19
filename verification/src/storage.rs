//! The storage service: the single authoritative façade over the store and
//! the vault, owning the in-memory document cache and the coherence between
//! the two.

use vstd::prelude::*;

use crate::database::{bumped, doc_id_differs, doc_key, docs_sorted, entry_doc_differs,
    entry_id_differs, find_doc_index, retain_docs_without_id, rule_active, rule_term_differs,
    rules_sorted, term_doc_differs, term_of_doc, terms_sorted, AnalysisCache,
    ConsistencyRule, Database, Document, SemanticTerm};
use crate::file_handler::{backup_content_spec, backup_path_spec, backup_title_spec, dir_files,
    export_content_spec, extract_body_spec, infos_sorted, title_from_path_spec, BackupFile,
    DirEntry, FileHandler, FileInfo, ImportResult};
use crate::ids::fresh_id;
use crate::clock::now_millis;
use crate::table::{lookup, unique_by, lemma_filter_killed_key, lemma_filter_unique,
    lemma_lookup_filter, lemma_lookup_insert};
use crate::text::{count_words, hex_of, push_hex, word_count_spec, chars_to_string};

verus! {

/// Tunable settings of the service. `app_data_dir` is set by the host;
/// the remaining fields are advisory limits the host may act on.
pub struct StorageConfig {
    pub app_data_dir: String,
    pub auto_save_interval: u64,
    pub max_backups: usize,
    pub cache_size_limit: usize,
}

impl Default for StorageConfig {
    /// The default settings: an unset data directory, a 30-second save
    /// interval, ten backups, a 100-megabyte cache limit.
    fn default() -> (r: Self)
        ensures
            r.app_data_dir@ == Seq::<char>::empty(),
            r.auto_save_interval == 30,
            r.max_backups == 10,
            r.cache_size_limit == 100,
    {
        StorageConfig {
            app_data_dir: String::new(),
            auto_save_interval: 30,
            max_backups: 10,
            cache_size_limit: 100,
        }
    }
}

/// A read-only diagnostic snapshot of the store and the cache.
pub struct StorageStats {
    pub total_documents: usize,
    pub total_words: usize,
    pub total_characters: usize,
    pub cached_documents: usize,
    pub database_path: String,
    pub app_data_dir: String,
}

/// The total word count over a listing.
pub open spec fn sum_words(s: Seq<Document>) -> int
    decreases s.len(),
{
    if s.len() == 0 {
        0
    } else {
        s[0].word_count + sum_words(s.skip(1))
    }
}

/// The total character count over a listing.
pub open spec fn sum_chars(s: Seq<Document>) -> int
    decreases s.len(),
{
    if s.len() == 0 {
        0
    } else {
        s[0].content@.len() + sum_chars(s.skip(1))
    }
}

/// A sum clamped to what a machine word can carry.
pub open spec fn clamped(n: int) -> int {
    if n <= usize::MAX {
        n
    } else {
        usize::MAX as int
    }
}

proof fn lemma_sum_words_push(a: Seq<Document>, x: Document)
    ensures
        sum_words(a.push(x)) == sum_words(a) + x.word_count,
    decreases a.len(),
{
    if a.len() == 0 {
        assert(a.push(x)[0] == x);
        assert(a.push(x).skip(1) =~= Seq::<Document>::empty());
        assert(sum_words(Seq::<Document>::empty()) == 0);
    } else {
        assert(a.push(x)[0] == a[0]);
        assert(a.push(x).skip(1) =~= a.skip(1).push(x));
        lemma_sum_words_push(a.skip(1), x);
    }
}

proof fn lemma_sum_chars_push(a: Seq<Document>, x: Document)
    ensures
        sum_chars(a.push(x)) == sum_chars(a) + x.content@.len(),
    decreases a.len(),
{
    if a.len() == 0 {
        assert(a.push(x)[0] == x);
        assert(a.push(x).skip(1) =~= Seq::<Document>::empty());
        assert(sum_chars(Seq::<Document>::empty()) == 0);
    } else {
        assert(a.push(x)[0] == a[0]);
        assert(a.push(x).skip(1) =~= a.skip(1).push(x));
        lemma_sum_chars_push(a.skip(1), x);
    }
}

/// The basis of the content fingerprint.
pub open spec fn fnv_offset() -> u64 {
    0xcbf29ce484222325u64
}

/// The multiplier of the content fingerprint.
pub open spec fn fnv_prime() -> u64 {
    0x100000001b3u64
}

/// The fingerprint state after mixing in the characters of `s`, starting
/// from state `h`: xor the character in, multiply, keep the low 64 bits.
pub open spec fn fnv1a_from(h: u64, s: Seq<char>) -> u64
    decreases s.len(),
{
    if s.len() == 0 {
        h
    } else {
        fnv1a_from(
            ((((h ^ ((s[0] as u32) as u64)) as int) * (fnv_prime() as int))
                % 0x10000000000000000) as u64,
            s.skip(1),
        )
    }
}

/// The content fingerprint: the fingerprint state over the whole text,
/// written in lower-case hexadecimal without leading zeros.
pub open spec fn content_hash_spec(s: Seq<char>) -> Seq<char> {
    hex_of(fnv1a_from(fnv_offset(), s) as nat)
}

/// The document stored in `cache` under `id`, if any.
fn cache_find(cache: &Vec<Document>, id: &str) -> (r: Option<Document>)
    requires
        unique_by(cache@, doc_key()),
    ensures
        r == lookup(cache@, doc_key(), id@),
{
    match find_doc_index(cache, id) {
        Some(i) => {
            proof {
                crate::table::lemma_lookup_at(cache@, doc_key(), i as int);
            }
            Some(cache[i].clone())
        },
        None => None,
    }
}

/// Store `document` in `cache`, replacing any copy with the same id.
fn cache_put(cache: &mut Vec<Document>, document: Document)
    requires
        unique_by(old(cache)@, doc_key()),
    ensures
        unique_by(final(cache)@, doc_key()),
        lookup(final(cache)@, doc_key(), document.id@) == Some(document),
        forall|k: Seq<char>| k != document.id@ ==> #[trigger] lookup(final(cache)@, doc_key(), k)
            == lookup(old(cache)@, doc_key(), k),
{
    proof {
        lemma_filter_unique(cache@, doc_key(), doc_id_differs(document.id@));
        lemma_filter_killed_key(cache@, doc_key(), document.id@);
        assert forall|k: Seq<char>| k != document.id@ implies #[trigger] lookup(
            cache@.filter(doc_id_differs(document.id@)),
            doc_key(),
            k,
        ) == lookup(cache@, doc_key(), k) by {
            lemma_lookup_filter(cache@, doc_key(), doc_id_differs(document.id@), k);
        }
    }
    let ghost before = cache@;
    let kept = retain_docs_without_id(cache, document.id.as_str());
    *cache = kept;
    let ghost f = cache@;
    proof {
        lemma_lookup_insert(f, doc_key(), f.len() as int, document);
    }
    cache.push(document);
    proof {
        assert(cache@ == f.insert(f.len() as int, cache@[f.len() as int]));
    }
}

/// Cache coherence: a read of a document the cache holds resolves to the
/// cached copy. Together with the write paths, which leave the written state
/// in the cache, and the read path, which touches nothing on a cache hit,
/// this says a read right after a write reflects the write without a store
/// round trip.
pub proof fn lemma_cached_read(s: StorageService, id: Seq<char>, d: Document)
    requires
        s.wf(),
        s.spec_cached(id) == Some(d),
    ensures
        s.spec_resolve(id) == Some(d),
{
}

/// The storage service. The store is the source of truth; the cache holds
/// the last-known copy of recently touched documents and never survives a
/// write to the store without being refreshed or evicted in the same call.
///
/// Known resource-growth risk: the cache has no eviction policy and grows
/// with every distinct document touched until `clear_document_cache` is
/// called; `cache_size_limit` is advisory, and a host that cares should
/// clear the cache when the limit is reached.
pub struct StorageService {
    pub db: Database,
    pub file_handler: FileHandler,
    pub config: StorageConfig,
    pub document_cache: Vec<Document>,
}

impl StorageService {
    /// Well-formedness: the store is well-formed and the cache holds at most
    /// one copy per document id.
    pub open spec fn wf(&self) -> bool {
        &&& self.db.wf()
        &&& unique_by(self.document_cache@, doc_key())
    }

    /// The cached copy of the document `id`, if any.
    pub open spec fn spec_cached(&self, id: Seq<char>) -> Option<Document> {
        lookup(self.document_cache@, doc_key(), id)
    }

    /// What a read of document `id` resolves to: the cached copy if one is
    /// held, else the stored document.
    pub open spec fn spec_resolve(&self, id: Seq<char>) -> Option<Document> {
        match self.spec_cached(id) {
            Some(d) => Some(d),
            None => self.db.spec_document(id),
        }
    }

    /// A service over the given application data directory, with an empty
    /// store and an empty cache.
    pub fn new(app_data_dir: String) -> (r: Self)
        ensures
            r.wf(),
            r.db.documents@ =~= Seq::<Document>::empty(),
            r.db.terms@ =~= Seq::<SemanticTerm>::empty(),
            r.db.rules@ =~= Seq::<ConsistencyRule>::empty(),
            r.db.entries@ =~= Seq::<AnalysisCache>::empty(),
            r.db.document_reads == 0,
            r.document_cache@ =~= Seq::<Document>::empty(),
            r.config.app_data_dir == app_data_dir,
            r.config.auto_save_interval == 30,
            r.config.max_backups == 10,
            r.config.cache_size_limit == 100,
            r.file_handler.app_data_dir == app_data_dir,
    {
        let file_handler = FileHandler::new(app_data_dir.clone());
        let config = StorageConfig {
            app_data_dir,
            auto_save_interval: 30,
            max_backups: 10,
            cache_size_limit: 100,
        };
        StorageService { db: Database::new(), file_handler, config, document_cache: Vec::new() }
    }

    /// Create a document: fresh id, both timestamps at now, word count
    /// derived from the content; stored, cached, and its id returned.
    pub fn create_document(&mut self, title: String, content: String) -> (r: Result<
        String,
        String,
    >)
        requires
            old(self).wf(),
        ensures
            final(self).wf(),
            match r {
                Ok(id) => {
                    &&& match final(self).db.spec_document(id@) {
                        Some(d) => d.title == title && d.content == content && d.word_count
                            == word_count_spec(content@) && d.file_path == None::<String>
                            && d.created_at == d.updated_at && final(self).spec_cached(id@)
                            == Some(d),
                        None => false,
                    }
                    &&& forall|k: Seq<char>| k != id@ ==> #[trigger] final(self).db.spec_document(
                        k,
                    ) == old(self).db.spec_document(k)
                    &&& forall|k: Seq<char>| k != id@ ==> #[trigger] final(self).spec_cached(k)
                        == old(self).spec_cached(k)
                },
                Err(_) => false,
            },
            final(self).db.terms@ == old(self).db.terms@,
            final(self).db.rules@ == old(self).db.rules@,
            final(self).db.entries@ == old(self).db.entries@,
            final(self).db.document_reads == old(self).db.document_reads,
            final(self).config == old(self).config,
            final(self).file_handler == old(self).file_handler,
    {
        let word_count = count_words(content.as_str());
        let now = now_millis();
        let id = fresh_id();
        let document = Document {
            id: id.clone(),
            title,
            content,
            file_path: None,
            created_at: now,
            updated_at: now,
            word_count,
        };
        self.db.save_document(&document);
        cache_put(&mut self.document_cache, document);
        Ok(id)
    }

    /// Update a document in place: only the supplied fields change, the word
    /// count is recomputed only when the content changes, and the modified
    /// timestamp strictly increases (until the clock's range is exhausted).
    /// The current state is read from the store, not the cache; the cache is
    /// refreshed with the new state. Fails only when the id is not stored.
    pub fn update_document(
        &mut self,
        id: String,
        title: Option<String>,
        content: Option<String>,
    ) -> (r: Result<(), String>)
        requires
            old(self).wf(),
        ensures
            final(self).wf(),
            r is Ok <==> old(self).db.spec_document(id@) is Some,
            r is Ok ==> match (old(self).db.spec_document(id@), final(self).db.spec_document(
                id@,
            )) {
                (Some(before), Some(after)) => {
                    &&& after.id == before.id
                    &&& after.title == (match title {
                        Some(t) => t,
                        None => before.title,
                    })
                    &&& after.content == (match content {
                        Some(c) => c,
                        None => before.content,
                    })
                    &&& after.word_count as int == (match content {
                        Some(c) => word_count_spec(c@) as int,
                        None => before.word_count as int,
                    })
                    &&& after.created_at == before.created_at
                    &&& after.file_path == before.file_path
                    &&& (after.updated_at > before.updated_at || before.updated_at == i64::MAX)
                    &&& final(self).spec_cached(id@) == Some(after)
                },
                _ => false,
            },
            r is Err ==> final(self).db.documents@ == old(self).db.documents@ && final(self).document_cache@ == old(self).document_cache@,
            forall|k: Seq<char>| k != id@ ==> #[trigger] final(self).db.spec_document(k) == old(self).db.spec_document(k),
            forall|k: Seq<char>| k != id@ ==> #[trigger] final(self).spec_cached(k) == old(self).spec_cached(k),
            final(self).db.terms@ == old(self).db.terms@,
            final(self).db.rules@ == old(self).db.rules@,
            final(self).db.entries@ == old(self).db.entries@,
            final(self).db.document_reads == bumped(old(self).db.document_reads),
            final(self).config == old(self).config,
            final(self).file_handler == old(self).file_handler,
    {
        match self.db.get_document(id.as_str()) {
            None => Err(String::from_str("Document not found")),
            Some(stored) => {
                let mut document = stored;
                match title {
                    Some(t) => {
                        document.title = t;
                    },
                    None => {},
                }
                match content {
                    Some(c) => {
                        document.word_count = count_words(c.as_str());
                        document.content = c;
                    },
                    None => {},
                }
                let now = now_millis();
                document.updated_at = if now > document.updated_at {
                    now
                } else if document.updated_at < i64::MAX {
                    document.updated_at + 1
                } else {
                    document.updated_at
                };
                self.db.save_document(&document);
                cache_put(&mut self.document_cache, document);
                Ok(())
            },
        }
    }

    /// Read a document, cache first. A cache hit is trusted and touches
    /// nothing; only a miss consults the store, and a store hit populates
    /// the cache. What any id resolves to never changes under this call.
    pub fn get_document(&mut self, id: &str) -> (r: Result<Option<Document>, String>)
        requires
            old(self).wf(),
        ensures
            final(self).wf(),
            match r {
                Ok(d) => d == old(self).spec_resolve(id@),
                Err(_) => false,
            },
            old(self).spec_cached(id@) is Some ==> final(self).db == old(self).db && final(self).document_cache@ == old(self).document_cache@,
            old(self).spec_cached(id@) is None ==> final(self).db.document_reads == bumped(
                old(self).db.document_reads,
            ),
            old(self).spec_cached(id@) is None && old(self).db.spec_document(id@) is Some
                ==> final(self).spec_cached(id@) == old(self).db.spec_document(id@),
            old(self).spec_cached(id@) is None && old(self).db.spec_document(id@) is None
                ==> final(self).document_cache@ == old(self).document_cache@,
            final(self).db.documents@ == old(self).db.documents@,
            final(self).db.terms@ == old(self).db.terms@,
            final(self).db.rules@ == old(self).db.rules@,
            final(self).db.entries@ == old(self).db.entries@,
            forall|k: Seq<char>| #[trigger] final(self).spec_resolve(k) == old(self).spec_resolve(
                k,
            ),
            final(self).config == old(self).config,
            final(self).file_handler == old(self).file_handler,
    {
        match cache_find(&self.document_cache, id) {
            Some(d) => Ok(Some(d)),
            None => {
                match self.db.get_document(id) {
                    Some(doc) => {
                        cache_put(&mut self.document_cache, doc.clone());
                        proof {
                            assert forall|k: Seq<char>| #[trigger] self.spec_resolve(k) == old(self).spec_resolve(k) by {
                                if k != doc.id@ {
                                    assert(self.spec_cached(k) == old(self).spec_cached(k));
                                }
                            }
                        }
                        Ok(Some(doc))
                    },
                    None => Ok(None),
                }
            },
        }
    }

    /// All documents, read directly from the store, most recently modified
    /// first. The cache plays no part in a listing.
    pub fn list_documents(&self) -> (r: Result<Vec<Document>, String>)
        requires
            self.wf(),
        ensures
            match r {
                Ok(v) => v@ == self.db.documents@ && docs_sorted(v@),
                Err(_) => false,
            },
    {
        Ok(self.db.list_documents())
    }

    /// Delete a document: first render a backup snapshot of the stored state
    /// (returned for the host to write, best-effort), then remove the
    /// document with its semantic terms and analysis-cache entries, and
    /// evict it from the cache.
    pub fn delete_document(&mut self, id: &str) -> (r: Result<Option<BackupFile>, String>)
        requires
            old(self).wf(),
        ensures
            final(self).wf(),
            match r {
                Ok(b) => match (old(self).db.spec_document(id@), b) {
                    (Some(d), Some(bf)) => bf.content@ == backup_content_spec(d) && exists|t: int|
                        bf.path@ == backup_path_spec(
                            old(self).file_handler.app_data_dir@,
                            d.title@,
                            t,
                        ),
                    (None, None) => true,
                    _ => false,
                },
                Err(_) => false,
            },
            final(self).db.documents@ == old(self).db.documents@.filter(doc_id_differs(id@)),
            final(self).db.terms@ == old(self).db.terms@.filter(term_doc_differs(id@)),
            final(self).db.entries@ == old(self).db.entries@.filter(entry_doc_differs(id@)),
            final(self).db.rules@ == old(self).db.rules@,
            final(self).db.spec_document(id@) is None,
            final(self).document_cache@ == old(self).document_cache@.filter(doc_id_differs(id@)),
            final(self).spec_cached(id@) is None,
            final(self).db.document_reads == bumped(old(self).db.document_reads),
            final(self).config == old(self).config,
            final(self).file_handler == old(self).file_handler,
    {
        let backup = match self.db.get_document(id) {
            Some(d) => Some(self.file_handler.create_backup(&d)),
            None => None,
        };
        self.db.delete_document(id);
        proof {
            lemma_filter_unique(self.document_cache@, doc_key(), doc_id_differs(id@));
            lemma_filter_killed_key(self.document_cache@, doc_key(), id@);
        }
        let kept = retain_docs_without_id(&self.document_cache, id);
        self.document_cache = kept;
        Ok(backup)
    }

    /// Import a file the host has read; the cache is not touched.
    pub fn import_document(&mut self, file_path: &str, content: String) -> (r: Result<
        ImportResult,
        String,
    >)
        requires
            old(self).wf(),
        ensures
            final(self).wf(),
            match r {
                Ok(res) => {
                    &&& res.success
                    &&& match res.document_id {
                        Some(rid) => {
                            &&& match final(self).db.spec_document(rid@) {
                                Some(doc) => doc.title@ == title_from_path_spec(file_path@)
                                    && doc.content@ == content@ && doc.word_count
                                    == word_count_spec(content@) && doc.created_at
                                    == doc.updated_at && match doc.file_path {
                                    Some(fp) => fp@ == file_path@,
                                    None => false,
                                },
                                None => false,
                            }
                            &&& forall|k: Seq<char>| k != rid@ ==> #[trigger] final(self).db.spec_document(k) == old(self).db.spec_document(k)
                        },
                        None => false,
                    }
                },
                Err(_) => false,
            },
            final(self).db.terms@ == old(self).db.terms@,
            final(self).db.rules@ == old(self).db.rules@,
            final(self).db.entries@ == old(self).db.entries@,
            final(self).db.document_reads == old(self).db.document_reads,
            final(self).document_cache@ == old(self).document_cache@,
            final(self).config == old(self).config,
            final(self).file_handler == old(self).file_handler,
    {
        let r = self.file_handler.import_document(file_path, content, &mut self.db);
        Ok(r)
    }

    /// Export a document to a path: resolve it cache-first, render what the
    /// target format asks for, and hand the text to the host to write.
    /// Fails only when the id resolves to nothing.
    pub fn export_document(&mut self, id: &str, export_path: &str) -> (r: Result<String, String>)
        requires
            old(self).wf(),
        ensures
            final(self).wf(),
            r is Ok <==> old(self).spec_resolve(id@) is Some,
            match (r, old(self).spec_resolve(id@)) {
                (Ok(text), Some(d)) => text@ == export_content_spec(d, export_path@),
                (Err(_), None) => true,
                _ => false,
            },
            final(self).db.documents@ == old(self).db.documents@,
            final(self).db.terms@ == old(self).db.terms@,
            final(self).db.rules@ == old(self).db.rules@,
            final(self).db.entries@ == old(self).db.entries@,
            forall|k: Seq<char>| #[trigger] final(self).spec_resolve(k) == old(self).spec_resolve(
                k,
            ),
            final(self).config == old(self).config,
            final(self).file_handler == old(self).file_handler,
    {
        let resolved = self.get_document(id);
        match resolved {
            Ok(Some(d)) => Ok(self.file_handler.export_document(&d, export_path)),
            Ok(None) => Err(String::from_str("Document not found")),
            Err(e) => Err(e),
        }
    }

    /// Replace the semantic terms of `document_id` wholesale with the given
    /// batch, as one atomic unit: no partial-term diffing, and no other
    /// document's terms move.
    pub fn save_semantic_terms(&mut self, document_id: &str, terms: Vec<SemanticTerm>) -> (r:
        Result<(), String>)
        requires
            old(self).wf(),
        ensures
            final(self).wf(),
            r is Ok,
            final(self).db.terms@ == old(self).db.terms@.filter(term_doc_differs(document_id@))
                + terms@,
            final(self).db.documents@ == old(self).db.documents@,
            final(self).db.rules@ == old(self).db.rules@,
            final(self).db.entries@ == old(self).db.entries@,
            final(self).db.document_reads == old(self).db.document_reads,
            final(self).document_cache@ == old(self).document_cache@,
            final(self).config == old(self).config,
            final(self).file_handler == old(self).file_handler,
    {
        self.db.save_semantic_terms(document_id, &terms);
        Ok(())
    }

    /// The semantic terms of one document, ordered by position ascending.
    pub fn get_semantic_terms(&self, document_id: &str) -> (r: Result<Vec<SemanticTerm>, String>)
        requires
            self.wf(),
        ensures
            match r {
                Ok(v) => {
                    &&& v@.to_multiset() == self.db.terms@.filter(
                        term_of_doc(document_id@),
                    ).to_multiset()
                    &&& v@.len() == self.db.terms@.filter(term_of_doc(document_id@)).len()
                    &&& terms_sorted(v@)
                    &&& forall|i: int| 0 <= i < v@.len() ==> (#[trigger] v@[i]).document_id@
                        == document_id@
                },
                Err(_) => false,
            },
    {
        Ok(self.db.get_semantic_terms(document_id))
    }

    /// Store a consistency rule, replacing any stored rule that governs the
    /// same term.
    pub fn save_consistency_rule(&mut self, rule: ConsistencyRule) -> (r: Result<(), String>)
        requires
            old(self).wf(),
        ensures
            final(self).wf(),
            r is Ok,
            final(self).db.rules@ == old(self).db.rules@.filter(rule_term_differs(rule.term@)).push(
                rule,
            ),
            final(self).db.documents@ == old(self).db.documents@,
            final(self).db.terms@ == old(self).db.terms@,
            final(self).db.entries@ == old(self).db.entries@,
            final(self).db.document_reads == old(self).db.document_reads,
            final(self).document_cache@ == old(self).document_cache@,
            final(self).config == old(self).config,
            final(self).file_handler == old(self).file_handler,
    {
        self.db.save_consistency_rule(&rule);
        Ok(())
    }

    /// The active consistency rules, ordered by governed term ascending.
    /// A rule whose active flag is false is never returned, however it came
    /// to be stored.
    pub fn get_consistency_rules(&self) -> (r: Result<Vec<ConsistencyRule>, String>)
        requires
            self.wf(),
        ensures
            match r {
                Ok(v) => {
                    &&& v@.to_multiset() == self.db.rules@.filter(rule_active()).to_multiset()
                    &&& v@.len() == self.db.rules@.filter(rule_active()).len()
                    &&& rules_sorted(v@)
                    &&& forall|i: int| 0 <= i < v@.len() ==> (#[trigger] v@[i]).is_active
                },
                Err(_) => false,
            },
    {
        Ok(self.db.get_consistency_rules())
    }

    /// Store an analysis-cache entry, replacing any entry with the same id.
    pub fn save_analysis_cache(&mut self, cache: AnalysisCache) -> (r: Result<(), String>)
        requires
            old(self).wf(),
        ensures
            final(self).wf(),
            r is Ok,
            final(self).db.entries@ == old(self).db.entries@.filter(
                entry_id_differs(cache.id@),
            ).push(cache),
            final(self).db.documents@ == old(self).db.documents@,
            final(self).db.terms@ == old(self).db.terms@,
            final(self).db.rules@ == old(self).db.rules@,
            final(self).db.document_reads == old(self).db.document_reads,
            final(self).document_cache@ == old(self).document_cache@,
            final(self).config == old(self).config,
            final(self).file_handler == old(self).file_handler,
    {
        self.db.save_analysis_cache(&cache);
        Ok(())
    }

    /// The stored entry for exactly this document and content hash, if any.
    /// The lookup is exact-match on both keys; a differing hash is a miss.
    pub fn get_analysis_cache(&self, document_id: &str, content_hash: &str) -> (r: Result<
        Option<AnalysisCache>,
        String,
    >)
        requires
            self.wf(),
        ensures
            match r {
                Ok(o) => match o {
                    Some(e) => e.document_id@ == document_id@ && e.content_hash@ == content_hash@
                        && self.db.entries@.contains(e),
                    None => forall|i: int| 0 <= i < self.db.entries@.len()
                        ==> !((#[trigger] self.db.entries@[i]).document_id@ == document_id@
                        && self.db.entries@[i].content_hash@ == content_hash@),
                },
                Err(_) => false,
            },
    {
        Ok(self.db.get_analysis_cache(document_id, content_hash))
    }

    /// Render a backup snapshot of a document, resolved cache-first, for the
    /// host to write. Fails only when the id resolves to nothing.
    pub fn create_backup(&mut self, document_id: &str) -> (r: Result<BackupFile, String>)
        requires
            old(self).wf(),
        ensures
            final(self).wf(),
            r is Ok <==> old(self).spec_resolve(document_id@) is Some,
            match (r, old(self).spec_resolve(document_id@)) {
                (Ok(bf), Some(d)) => bf.content@ == backup_content_spec(d) && exists|t: int|
                    bf.path@ == backup_path_spec(
                        old(self).file_handler.app_data_dir@,
                        d.title@,
                        t,
                    ),
                (Err(_), None) => true,
                _ => false,
            },
            final(self).db.documents@ == old(self).db.documents@,
            final(self).db.terms@ == old(self).db.terms@,
            final(self).db.rules@ == old(self).db.rules@,
            final(self).db.entries@ == old(self).db.entries@,
            forall|k: Seq<char>| #[trigger] final(self).spec_resolve(k) == old(self).spec_resolve(
                k,
            ),
            final(self).config == old(self).config,
            final(self).file_handler == old(self).file_handler,
    {
        let resolved = self.get_document(document_id);
        match resolved {
            Ok(Some(d)) => Ok(self.file_handler.create_backup(&d)),
            Ok(None) => Err(String::from_str("Document not found")),
            Err(e) => Err(e),
        }
    }

    /// The regular files among the entries the host read from the backups
    /// directory, ordered by name.
    pub fn list_backups(&self, entries: &Vec<DirEntry>) -> (r: Result<Vec<FileInfo>, String>)
        ensures
            match r {
                Ok(v) => v@.to_multiset() == dir_files(entries@).to_multiset() && v@.len()
                    == dir_files(entries@).len() && infos_sorted(v@),
                Err(_) => false,
            },
    {
        Ok(self.file_handler.list_backups(entries))
    }

    /// Restore a snapshot the host has read: a new document, its body
    /// recovered from the snapshot text, carrying no originating file path.
    pub fn restore_from_backup(&mut self, backup_path: &str, backup_content: String) -> (r: Result<
        ImportResult,
        String,
    >)
        requires
            old(self).wf(),
        ensures
            final(self).wf(),
            match r {
                Ok(res) => {
                    &&& res.success
                    &&& match res.document_id {
                        Some(rid) => {
                            &&& match final(self).db.spec_document(rid@) {
                                Some(doc) => doc.title@ == backup_title_spec(backup_path@)
                                    && doc.content@ == extract_body_spec(backup_content@)
                                    && doc.word_count == word_count_spec(
                                    extract_body_spec(backup_content@),
                                ) && doc.created_at == doc.updated_at && doc.file_path
                                    == None::<String>,
                                None => false,
                            }
                            &&& forall|k: Seq<char>| k != rid@ ==> #[trigger] final(self).db.spec_document(k) == old(self).db.spec_document(k)
                        },
                        None => false,
                    }
                },
                Err(_) => false,
            },
            final(self).db.terms@ == old(self).db.terms@,
            final(self).db.rules@ == old(self).db.rules@,
            final(self).db.entries@ == old(self).db.entries@,
            final(self).db.document_reads == old(self).db.document_reads,
            final(self).document_cache@ == old(self).document_cache@,
            final(self).config == old(self).config,
            final(self).file_handler == old(self).file_handler,
    {
        let r = self.file_handler.restore_from_backup(backup_path, backup_content, &mut self.db);
        Ok(r)
    }

    /// The current settings.
    pub fn get_config(&self) -> (r: &StorageConfig)
        ensures
            r == &self.config,
    {
        &self.config
    }

    /// Replace the settings; nothing else changes.
    pub fn update_config(&mut self, new_config: StorageConfig)
        ensures
            final(self).config == new_config,
            final(self).db == old(self).db,
            final(self).document_cache@ == old(self).document_cache@,
            final(self).file_handler == old(self).file_handler,
    {
        self.config = new_config;
    }

    /// Empty the cache; the store is untouched, and later reads repopulate
    /// the cache on demand.
    pub fn clear_document_cache(&mut self) -> (r: Result<(), String>)
        requires
            old(self).wf(),
        ensures
            final(self).wf(),
            r is Ok,
            final(self).document_cache@ =~= Seq::<Document>::empty(),
            final(self).db == old(self).db,
            final(self).config == old(self).config,
            final(self).file_handler == old(self).file_handler,
    {
        self.document_cache.clear();
        Ok(())
    }

    /// How many documents the cache currently holds.
    pub fn get_cache_size(&self) -> (r: Result<usize, String>)
        ensures
            match r {
                Ok(n) => n == self.document_cache@.len(),
                Err(_) => false,
            },
    {
        Ok(self.document_cache.len())
    }

    /// The content fingerprint: deterministic, fast, non-cryptographic, used
    /// only for cache-key equality. Equal text always fingerprints equal;
    /// collisions are tolerated as cache-miss risk.
    pub fn calculate_content_hash(&self, content: &str) -> (r: String)
        ensures
            r@ == content_hash_spec(content@),
    {
        let n = content.unicode_len();
        let mut h: u64 = 0xcbf29ce484222325u64;
        let mut i: usize = 0;
        proof {
            assert(content@.skip(0) =~= content@);
        }
        while i < n
            invariant
                i <= n,
                n == content@.len(),
                fnv1a_from(h, content@.skip(i as int)) == fnv1a_from(fnv_offset(), content@),
            decreases n - i,
        {
            let c = content.get_char(i);
            let mixed: u64 = h ^ ((c as u32) as u64);
            let prod: u128 = (mixed as u128) * 0x100000001b3u128;
            let next: u64 = (prod % 0x10000000000000000u128) as u64;
            proof {
                assert(content@.skip(i as int)[0] == content@[i as int]);
                assert(content@.skip(i as int).skip(1) =~= content@.skip(i + 1));
                assert(prod == (mixed as int) * (fnv_prime() as int));
                assert(next == (((mixed as int) * (fnv_prime() as int))
                    % 0x10000000000000000) as u64);
            }
            h = next;
            i = i + 1;
        }
        proof {
            assert(content@.skip(n as int) =~= Seq::<char>::empty());
        }
        let mut out: Vec<char> = Vec::new();
        push_hex(&mut out, h);
        proof {
            assert(Seq::<char>::empty() + hex_of(h as nat) =~= hex_of(h as nat));
        }
        chars_to_string(&out)
    }

    /// A read-only snapshot: document, word and character totals over a
    /// direct store listing, the cache population, and the resolved paths.
    /// Word and character totals clamp at the machine's word size.
    pub fn get_storage_stats(&self) -> (r: Result<StorageStats, String>)
        requires
            self.wf(),
        ensures
            match r {
                Ok(st) => {
                    &&& st.total_documents == self.db.documents@.len()
                    &&& st.total_words == clamped(sum_words(self.db.documents@))
                    &&& st.total_characters == clamped(sum_chars(self.db.documents@))
                    &&& st.cached_documents == self.document_cache@.len()
                    &&& st.database_path@ == self.file_handler.app_data_dir@
                        + "/semantic_assistant.db"@
                    &&& st.app_data_dir == self.config.app_data_dir
                },
                Err(_) => false,
            },
    {
        let documents = self.db.list_documents();
        let n = documents.len();
        let mut total_words: usize = 0;
        let mut total_characters: usize = 0;
        let mut i: usize = 0;
        proof {
            assert(documents@.take(0) =~= Seq::<Document>::empty());
        }
        while i < n
            invariant
                i <= n,
                n == documents@.len(),
                documents@ == self.db.documents@,
                total_words == clamped(sum_words(documents@.take(i as int))),
                total_characters == clamped(sum_chars(documents@.take(i as int))),
            decreases n - i,
        {
            proof {
                lemma_sum_words_push(documents@.take(i as int), documents@[i as int]);
                lemma_sum_chars_push(documents@.take(i as int), documents@[i as int]);
                assert(documents@.take(i + 1) =~= documents@.take(i as int).push(
                    documents@[i as int],
                ));
            }
            let w = documents[i].word_count;
            if usize::MAX - total_words >= w {
                total_words = total_words + w;
            } else {
                total_words = usize::MAX;
            }
            let c = documents[i].content.as_str().unicode_len();
            if usize::MAX - total_characters >= c {
                total_characters = total_characters + c;
            } else {
                total_characters = usize::MAX;
            }
            i = i + 1;
        }
        proof {
            assert(documents@.take(n as int) =~= documents@);
        }
        Ok(
            StorageStats {
                total_documents: documents.len(),
                total_words,
                total_characters,
                cached_documents: self.document_cache.len(),
                database_path: self.file_handler.get_database_path(),
                app_data_dir: self.config.app_data_dir.clone(),
            },
        )
    }
}

} // verus!


