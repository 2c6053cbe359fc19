use semantic_assistant::database::{AnalysisCache, ConsistencyRule, SemanticTerm};
use semantic_assistant::storage::{StorageConfig, StorageService};

fn service() -> StorageService {
    StorageService::new(String::from("/tmp/appdata"))
}

fn term(id: &str, doc: &str, text: &str, position: i32) -> SemanticTerm {
    SemanticTerm {
        id: String::from(id),
        document_id: String::from(doc),
        term: String::from(text),
        context: String::from("ctx"),
        position,
        confidence: 900_000,
        created_at: 1_700_000_000_000,
    }
}

fn rule(id: &str, term: &str, preferred: &str, active: bool) -> ConsistencyRule {
    ConsistencyRule {
        id: String::from(id),
        term: String::from(term),
        preferred_form: String::from(preferred),
        alternatives: String::from("[]"),
        is_active: active,
        created_at: 1_700_000_000_000,
    }
}

#[test]
fn create_then_get_reports_word_count() {
    let mut svc = service();
    let id = svc
        .create_document(String::from("Title"), String::from("alpha  beta\tgamma"))
        .unwrap();
    let doc = svc.get_document(&id).unwrap().unwrap();
    assert_eq!(doc.word_count, 3);
    assert_eq!(doc.title, "Title");
    assert_eq!(doc.content, "alpha  beta\tgamma");
    assert!(doc.file_path.is_none());
    assert_eq!(doc.created_at, doc.updated_at);
    assert_eq!(doc.id.len(), 36);
}

#[test]
fn create_empty_content_counts_zero_words() {
    let mut svc = service();
    let id = svc.create_document(String::from("T"), String::new()).unwrap();
    assert_eq!(svc.get_document(&id).unwrap().unwrap().word_count, 0);
    let id2 = svc.create_document(String::from("T"), String::from("   \n ")).unwrap();
    assert_eq!(svc.get_document(&id2).unwrap().unwrap().word_count, 0);
}

#[test]
fn update_title_only_keeps_content_and_count() {
    let mut svc = service();
    let id = svc
        .create_document(String::from("Old"), String::from("one two"))
        .unwrap();
    let before = svc.get_document(&id).unwrap().unwrap();
    svc.update_document(id.clone(), Some(String::from("New")), None).unwrap();
    let after = svc.get_document(&id).unwrap().unwrap();
    assert_eq!(after.title, "New");
    assert_eq!(after.content, "one two");
    assert_eq!(after.word_count, 2);
    assert!(after.updated_at > before.updated_at);
    assert_eq!(after.created_at, before.created_at);
}

#[test]
fn update_content_only_recounts_and_keeps_title() {
    let mut svc = service();
    let id = svc
        .create_document(String::from("Kept"), String::from("one two"))
        .unwrap();
    let before = svc.get_document(&id).unwrap().unwrap();
    svc.update_document(id.clone(), None, Some(String::from("a b c d e"))).unwrap();
    let after = svc.get_document(&id).unwrap().unwrap();
    assert_eq!(after.title, "Kept");
    assert_eq!(after.content, "a b c d e");
    assert_eq!(after.word_count, 5);
    assert!(after.updated_at > before.updated_at);
}

#[test]
fn update_missing_document_fails() {
    let mut svc = service();
    let r = svc.update_document(String::from("absent"), Some(String::from("x")), None);
    assert!(r.is_err());
}

#[test]
fn delete_clears_document_terms_and_cache_entries() {
    let mut svc = service();
    let id = svc
        .create_document(String::from("Doomed"), String::from("text here"))
        .unwrap();
    svc.save_semantic_terms(&id, vec![term("t1", &id, "alpha", 0), term("t2", &id, "beta", 1)])
        .unwrap();
    let hash = svc.calculate_content_hash("text here");
    svc.save_analysis_cache(AnalysisCache {
        id: String::from("c1"),
        document_id: id.clone(),
        content_hash: hash.clone(),
        analysis_result: String::from("{}"),
        created_at: 1,
    })
    .unwrap();
    let backup = svc.delete_document(&id).unwrap();
    assert!(backup.is_some());
    assert!(svc.get_document(&id).unwrap().is_none());
    assert!(svc.get_semantic_terms(&id).unwrap().is_empty());
    assert!(svc.get_analysis_cache(&id, &hash).unwrap().is_none());
    assert!(svc.get_analysis_cache(&id, "otherhash").unwrap().is_none());
}

#[test]
fn delete_missing_document_renders_no_backup() {
    let mut svc = service();
    let backup = svc.delete_document("missing").unwrap();
    assert!(backup.is_none());
}

#[test]
fn list_documents_sorted_by_updated_at_descending() {
    let mut svc = service();
    let a = svc.create_document(String::from("a"), String::from("1")).unwrap();
    let b = svc.create_document(String::from("b"), String::from("2")).unwrap();
    let c = svc.create_document(String::from("c"), String::from("3")).unwrap();
    // Touch the middle one so it moves to the front.
    svc.update_document(b.clone(), None, Some(String::from("fresh words"))).unwrap();
    let docs = svc.list_documents().unwrap();
    assert_eq!(docs.len(), 3);
    assert_eq!(docs[0].id, b);
    for w in docs.windows(2) {
        assert!(w[0].updated_at >= w[1].updated_at);
    }
    let _ = (a, c);
}

#[test]
fn inactive_rules_are_never_returned() {
    let mut svc = service();
    svc.save_consistency_rule(rule("r1", "colour", "color", true)).unwrap();
    svc.save_consistency_rule(rule("r2", "aeroplane", "airplane", false)).unwrap();
    let rules = svc.get_consistency_rules().unwrap();
    assert_eq!(rules.len(), 1);
    assert_eq!(rules[0].term, "colour");
    assert!(rules[0].is_active);
}

#[test]
fn rules_upsert_by_term_and_sort_ascending() {
    let mut svc = service();
    svc.save_consistency_rule(rule("r1", "zebra", "Zebra", true)).unwrap();
    svc.save_consistency_rule(rule("r2", "apple", "Apple", true)).unwrap();
    svc.save_consistency_rule(rule("r3", "zebra", "ZEBRA", true)).unwrap();
    let rules = svc.get_consistency_rules().unwrap();
    assert_eq!(rules.len(), 2);
    assert_eq!(rules[0].term, "apple");
    assert_eq!(rules[1].term, "zebra");
    assert_eq!(rules[1].preferred_form, "ZEBRA");
}

#[test]
fn backup_then_restore_recovers_content() {
    let mut svc = service();
    let id = svc
        .create_document(String::from("Journal"), String::from("day one\nday two"))
        .unwrap();
    let backup = svc.create_backup(&id).unwrap();
    let restored = svc
        .restore_from_backup(&backup.path, backup.content.clone())
        .unwrap();
    assert!(restored.success);
    let new_id = restored.document_id.unwrap();
    assert_ne!(new_id, id);
    let doc = svc.get_document(&new_id).unwrap().unwrap();
    assert_eq!(doc.content, "day one\nday two");
    assert!(doc.file_path.is_none());
}

#[test]
fn backup_then_restore_keeps_content_holding_a_delimiter() {
    let mut svc = service();
    let body = String::from("before\n\n---\n\nafter");
    let id = svc.create_document(String::from("Tricky"), body.clone()).unwrap();
    let backup = svc.create_backup(&id).unwrap();
    let restored = svc.restore_from_backup(&backup.path, backup.content.clone()).unwrap();
    let doc = svc.get_document(&restored.document_id.unwrap()).unwrap().unwrap();
    assert_eq!(doc.content, body);
}

#[test]
fn backup_then_restore_handles_dashed_titles() {
    let mut svc = service();
    let id = svc
        .create_document(String::from("my-doc -- draft"), String::from("dash - heavy\ntext"))
        .unwrap();
    let backup = svc.create_backup(&id).unwrap();
    let restored = svc.restore_from_backup(&backup.path, backup.content.clone()).unwrap();
    let doc = svc.get_document(&restored.document_id.unwrap()).unwrap().unwrap();
    assert_eq!(doc.content, "dash - heavy\ntext");
}

#[test]
fn backup_of_missing_document_fails() {
    let mut svc = service();
    assert!(svc.create_backup("absent").is_err());
}

#[test]
fn cache_serves_reads_after_update_without_store_round_trip() {
    let mut svc = service();
    let id = svc
        .create_document(String::from("Cached"), String::from("v1"))
        .unwrap();
    let reads0 = svc.db.document_reads;
    // The creation left the document in the cache: a read touches no store.
    let d = svc.get_document(&id).unwrap().unwrap();
    assert_eq!(d.content, "v1");
    assert_eq!(svc.db.document_reads, reads0);
    // The update reads the store once and refreshes the cache.
    svc.update_document(id.clone(), None, Some(String::from("v2 now"))).unwrap();
    let reads1 = svc.db.document_reads;
    assert_eq!(reads1, reads0 + 1);
    let d2 = svc.get_document(&id).unwrap().unwrap();
    assert_eq!(d2.content, "v2 now");
    assert_eq!(svc.db.document_reads, reads1);
    // Once the cache is cleared, a read must consult the store again.
    svc.clear_document_cache().unwrap();
    let d3 = svc.get_document(&id).unwrap().unwrap();
    assert_eq!(d3.content, "v2 now");
    assert_eq!(svc.db.document_reads, reads1 + 1);
}

#[test]
fn notes_scenario_counts_updates_and_exports() {
    let mut svc = service();
    let id = svc
        .create_document(String::from("Notes"), String::from("hello hello world"))
        .unwrap();
    assert_eq!(svc.get_document(&id).unwrap().unwrap().word_count, 3);
    svc.update_document(id.clone(), None, Some(String::from("one two three four")))
        .unwrap();
    let doc = svc.get_document(&id).unwrap().unwrap();
    assert_eq!(doc.word_count, 4);
    assert_eq!(doc.id, id);
    let text = svc.export_document(&id, "notes.md").unwrap();
    assert!(text.starts_with("# Notes\n\n"));
    assert!(text.ends_with("one two three four"));
}

#[test]
fn export_to_plain_target_is_verbatim() {
    let mut svc = service();
    let id = svc
        .create_document(String::from("Plain"), String::from("just text"))
        .unwrap();
    assert_eq!(svc.export_document(&id, "out.txt").unwrap(), "just text");
    assert_eq!(svc.export_document(&id, "out.markdown").unwrap(), "# Plain\n\njust text");
    assert!(svc.export_document("missing", "out.txt").is_err());
}

#[test]
fn semantic_terms_come_back_ordered_by_position() {
    let mut svc = service();
    let id = svc.create_document(String::from("D"), String::from("x")).unwrap();
    svc.save_semantic_terms(&id, vec![term("t1", &id, "later", 2), term("t2", &id, "first", 0)])
        .unwrap();
    let terms = svc.get_semantic_terms(&id).unwrap();
    assert_eq!(terms.len(), 2);
    assert_eq!(terms[0].position, 0);
    assert_eq!(terms[0].term, "first");
    assert_eq!(terms[1].position, 2);
    assert_eq!(terms[1].term, "later");
}

#[test]
fn semantic_terms_replace_wholesale() {
    let mut svc = service();
    let id = svc.create_document(String::from("D"), String::from("x")).unwrap();
    let other = svc.create_document(String::from("E"), String::from("y")).unwrap();
    svc.save_semantic_terms(&other, vec![term("t0", &other, "kept", 0)]).unwrap();
    svc.save_semantic_terms(&id, vec![term("t1", &id, "old", 0), term("t2", &id, "older", 1)])
        .unwrap();
    // A re-analysis hands over a fresh batch with fresh ids: the prior terms
    // of the document are gone wholesale, nothing of them survives.
    svc.save_semantic_terms(&id, vec![term("t3", &id, "new", 1)]).unwrap();
    let terms = svc.get_semantic_terms(&id).unwrap();
    assert_eq!(terms.len(), 1);
    assert_eq!(terms[0].term, "new");
    assert_eq!(terms[0].position, 1);
    // Another document's terms do not move, and an empty batch clears.
    assert_eq!(svc.get_semantic_terms(&other).unwrap().len(), 1);
    svc.save_semantic_terms(&id, Vec::new()).unwrap();
    assert!(svc.get_semantic_terms(&id).unwrap().is_empty());
    assert_eq!(svc.get_semantic_terms(&other).unwrap()[0].term, "kept");
}

#[test]
fn analysis_cache_is_exact_match_only() {
    let mut svc = service();
    let id = svc.create_document(String::from("D"), String::from("body")).unwrap();
    let hash_b = svc.calculate_content_hash("body");
    svc.save_analysis_cache(AnalysisCache {
        id: String::from("e1"),
        document_id: id.clone(),
        content_hash: hash_b.clone(),
        analysis_result: String::from("ok"),
        created_at: 7,
    })
    .unwrap();
    let hash_a = svc.calculate_content_hash("something else");
    assert!(svc.get_analysis_cache(&id, &hash_a).unwrap().is_none());
    let hit = svc.get_analysis_cache(&id, &hash_b).unwrap().unwrap();
    assert_eq!(hit.analysis_result, "ok");
    assert_eq!(hit.content_hash, hash_b);
}

#[test]
fn content_hash_is_deterministic_with_known_values() {
    let svc = service();
    assert_eq!(svc.calculate_content_hash(""), "cbf29ce484222325");
    assert_eq!(svc.calculate_content_hash("a"), "af63dc4c8601ec8c");
    let h1 = svc.calculate_content_hash("same text");
    let h2 = svc.calculate_content_hash("same text");
    assert_eq!(h1, h2);
    assert_ne!(svc.calculate_content_hash("x"), svc.calculate_content_hash("y"));
}

#[test]
fn storage_stats_aggregate_store_and_cache() {
    let mut svc = service();
    svc.create_document(String::from("A"), String::from("one two")).unwrap();
    svc.create_document(String::from("B"), String::from("three")).unwrap();
    let stats = svc.get_storage_stats().unwrap();
    assert_eq!(stats.total_documents, 2);
    assert_eq!(stats.total_words, 3);
    assert_eq!(stats.total_characters, "one two".len() + "three".len());
    assert_eq!(stats.cached_documents, 2);
    assert_eq!(stats.database_path, "/tmp/appdata/semantic_assistant.db");
    assert_eq!(stats.app_data_dir, "/tmp/appdata");
}

#[test]
fn cache_size_and_clear() {
    let mut svc = service();
    assert_eq!(svc.get_cache_size().unwrap(), 0);
    svc.create_document(String::from("A"), String::from("x")).unwrap();
    svc.create_document(String::from("B"), String::from("y")).unwrap();
    assert_eq!(svc.get_cache_size().unwrap(), 2);
    svc.clear_document_cache().unwrap();
    assert_eq!(svc.get_cache_size().unwrap(), 0);
}

#[test]
fn config_defaults_and_update() {
    let mut svc = service();
    assert_eq!(svc.get_config().app_data_dir, "/tmp/appdata");
    assert_eq!(svc.get_config().auto_save_interval, 30);
    assert_eq!(svc.get_config().max_backups, 10);
    assert_eq!(svc.get_config().cache_size_limit, 100);
    let fresh = StorageConfig::default();
    assert_eq!(fresh.app_data_dir, "");
    svc.update_config(StorageConfig {
        app_data_dir: String::from("/elsewhere"),
        auto_save_interval: 60,
        max_backups: 3,
        cache_size_limit: 10,
    });
    assert_eq!(svc.get_config().auto_save_interval, 60);
}
