use semantic_assistant::database::Database;
use semantic_assistant::file_handler::{DirEntry, FileHandler, FileInfo};
use semantic_assistant::storage::StorageService;
use semantic_assistant::text::count_words;

fn vault() -> FileHandler {
    FileHandler::new(String::from("/data/app"))
}

fn entry(name: &str, is_file: bool) -> DirEntry {
    DirEntry {
        info: FileInfo {
            name: String::from(name),
            path: format!("/data/app/backups/{}", name),
            size: 10,
            modified: String::from("mtime"),
            extension: None,
        },
        is_file,
    }
}

#[test]
fn stable_paths_under_the_data_directory() {
    let v = vault();
    assert_eq!(v.get_app_data_dir(), "/data/app");
    assert_eq!(v.get_database_path(), "/data/app/semantic_assistant.db");
    assert_eq!(v.get_documents_dir(), "/data/app/documents");
    assert_eq!(v.get_backups_dir(), "/data/app/backups");
}

#[test]
fn file_info_derives_name_and_extension() {
    let v = vault();
    let info = v.get_file_info("/a/b/report.txt", 42, String::from("t0"));
    assert_eq!(info.name, "report.txt");
    assert_eq!(info.path, "/a/b/report.txt");
    assert_eq!(info.size, 42);
    assert_eq!(info.modified, "t0");
    assert_eq!(info.extension.as_deref(), Some("txt"));
    let plain = v.get_file_info("/a/README", 1, String::from("t1"));
    assert_eq!(plain.name, "README");
    assert!(plain.extension.is_none());
    let hidden = v.get_file_info("/home/.bashrc", 1, String::from("t2"));
    assert_eq!(hidden.name, ".bashrc");
    assert!(hidden.extension.is_none());
}

#[test]
fn listing_keeps_regular_files_sorted_by_name() {
    let v = vault();
    let entries = vec![entry("b.txt", true), entry("sub", false), entry("a.md", true)];
    let files = v.list_directory(&entries);
    assert_eq!(files.len(), 2);
    assert_eq!(files[0].name, "a.md");
    assert_eq!(files[1].name, "b.txt");
    let backups = v.list_backups(&entries);
    assert_eq!(backups.len(), 2);
    assert_eq!(backups[0].name, "a.md");
}

#[test]
fn import_derives_title_and_counts_words() {
    let v = vault();
    let mut db = Database::new();
    let r = v.import_document("/docs/my_note.md", String::from("one two three"), &mut db);
    assert!(r.success);
    assert_eq!(r.message, "Document imported successfully");
    let id = r.document_id.unwrap();
    let doc = db.get_document(&id).unwrap();
    assert_eq!(doc.title, "my_note");
    assert_eq!(doc.content, "one two three");
    assert_eq!(doc.word_count, 3);
    assert_eq!(doc.file_path.as_deref(), Some("/docs/my_note.md"));
}

#[test]
fn backup_path_carries_sanitized_title_and_stamp() {
    let mut svc = StorageService::new(String::from("/data/app"));
    let id = svc
        .create_document(String::from("My Doc/v2"), String::from("two words"))
        .unwrap();
    let backup = svc.create_backup(&id).unwrap();
    assert!(backup.path.starts_with("/data/app/backups/My_Doc_v2_"));
    assert!(backup.path.ends_with(".backup.md"));
    // The stamp between title and suffix reads YYYYMMDD_HHMMSS.
    let stem = backup.path.strip_suffix(".backup.md").unwrap();
    let stamp = &stem["/data/app/backups/My_Doc_v2_".len()..];
    assert_eq!(stamp.len(), 15);
    assert_eq!(stamp.as_bytes()[8], b'_');
    assert!(stamp.chars().filter(|c| c.is_ascii_digit()).count() == 14);
}

#[test]
fn backup_content_has_header_delimiter_and_body() {
    let mut svc = StorageService::new(String::from("/data/app"));
    let id = svc
        .create_document(String::from("My Doc/v2"), String::from("two words"))
        .unwrap();
    let backup = svc.create_backup(&id).unwrap();
    assert!(backup.content.starts_with("# My Doc/v2 (Backup)\n\nCreated: "));
    assert!(backup.content.contains("\nLast Modified: "));
    assert!(backup.content.contains("\nWord Count: 2\n\n---\n\n"));
    assert!(backup.content.ends_with("two words"));
    // The rendered timestamp labels read like dates and never run two
    // dashes together, which is what keeps the delimiter unambiguous.
    let created = backup
        .content
        .split("Created: ")
        .nth(1)
        .unwrap()
        .split('\n')
        .next()
        .unwrap();
    assert!(created.ends_with(" UTC"));
    assert_eq!(created.len(), 23);
    assert!(!created.contains("--"));
}

#[test]
fn restore_without_delimiter_takes_the_whole_text() {
    let v = vault();
    let mut db = Database::new();
    let r = v.restore_from_backup(
        "/data/app/backups/Untitled_20240101_000000.backup.md",
        String::from("plain body"),
        &mut db,
    );
    assert!(r.success);
    assert_eq!(r.message, "Document restored successfully");
    let doc = db.get_document(&r.document_id.unwrap()).unwrap();
    assert_eq!(doc.content, "plain body");
    assert_eq!(doc.title, "Untitled 20240101 000000");
    assert!(doc.file_path.is_none());
}

#[test]
fn restore_with_leading_delimiter_keeps_the_whole_text() {
    let v = vault();
    let mut db = Database::new();
    let body = String::from("---\n\nrest of it");
    let r = v.restore_from_backup("/b/X.backup.md", body.clone(), &mut db);
    let doc = db.get_document(&r.document_id.unwrap()).unwrap();
    assert_eq!(doc.content, body);
}

#[test]
fn export_wraps_only_markdown_targets() {
    let v = vault();
    let doc = semantic_assistant::database::Document {
        id: String::from("d1"),
        title: String::from("T"),
        content: String::from("body"),
        file_path: None,
        created_at: 0,
        updated_at: 0,
        word_count: 1,
    };
    assert_eq!(v.export_document(&doc, "x.md"), "# T\n\nbody");
    assert_eq!(v.export_document(&doc, "x.markdown"), "# T\n\nbody");
    assert_eq!(v.export_document(&doc, "x.txt"), "body");
    assert_eq!(v.export_document(&doc, "x"), "body");
}

#[test]
fn paths_without_a_base_name_fall_back() {
    let v = vault();
    let info = v.get_file_info("/a/b/", 0, String::from("t"));
    assert_eq!(info.name, "Unknown");
    assert!(info.extension.is_none());
    let mut db = Database::new();
    let r = v.import_document("/a/b/", String::from("x y"), &mut db);
    let doc = db.get_document(&r.document_id.unwrap()).unwrap();
    assert_eq!(doc.title, "Untitled");
}

#[test]
fn word_counting_handles_edges() {
    assert_eq!(count_words(""), 0);
    assert_eq!(count_words("   "), 0);
    assert_eq!(count_words("one"), 1);
    assert_eq!(count_words(" one  two\nthree\tfour "), 4);
    assert_eq!(count_words("hello hello world"), 3);
    // The full Unicode White_Space set delimits words, as str::split_whitespace would.
    assert_eq!(count_words("a\u{b}b\u{c}c"), 3);
    assert_eq!(count_words("a\u{a0}b\u{2028}c\u{3000}d"), 4);
    assert_eq!(count_words("\u{2003}x\u{2009}"), 1);
}
