//! The file vault: everything the system knows about files and backup
//! snapshots, stated over plain values.
//!
//! The vault never touches a disk. It derives titles and stable paths,
//! renders export and snapshot text, and parses snapshots back; a host shell
//! performs the reads and writes and hands the bytes across as strings.

use vstd::prelude::*;

use crate::clock::{datetime_label_of, format_datetime_label, format_stamp_label, now_millis,
    stamp_label_of};
use crate::database::{Database, Document};
use crate::ids::fresh_id;
use crate::table::{lemma_filter_push, lemma_to_multiset_insert};
use crate::text::{chars_to_string, count_words, decimal_of, find_sub, lemma_lex_total,
    lemma_lex_trans, lex_le, match_at, matches_at, push_decimal, push_str_chars, replace_chars,
    replaced2, rfind_char, str_eq, str_le, string_to_chars, word_count_spec};

verus! {

/// What a directory listing reports of one regular file.
pub struct FileInfo {
    pub name: String,
    pub path: String,
    pub size: u64,
    pub modified: String,
    pub extension: Option<String>,
}

impl Clone for FileInfo {
    fn clone(&self) -> (r: Self)
        ensures
            r == *self,
    {
        FileInfo {
            name: self.name.clone(),
            path: self.path.clone(),
            size: self.size,
            modified: self.modified.clone(),
            extension: match &self.extension {
                Some(e) => Some(e.clone()),
                None => None,
            },
        }
    }
}

/// The structured outcome of an import or restore.
pub struct ImportResult {
    pub success: bool,
    pub document_id: Option<String>,
    pub message: String,
}

/// What the host read from one directory entry: the file's description and
/// whether the entry is a regular file.
pub struct DirEntry {
    pub info: FileInfo,
    pub is_file: bool,
}

/// A backup snapshot ready to be written: where it goes and what it holds.
pub struct BackupFile {
    pub path: String,
    pub content: String,
}

/// Whether some position of `s` holds the character `c`.
pub open spec fn has_char(s: Seq<char>, c: char) -> bool {
    exists|i: int| 0 <= i < s.len() && s[i] == c
}

/// The last position of `c` in `s` (meaningful only when one exists).
pub open spec fn last_pos(s: Seq<char>, c: char) -> int {
    choose|i: int|
        0 <= i < s.len() && s[i] == c && (forall|j: int| i < j < s.len() ==> s[j] != c)
}

/// The base name of a path: what follows the last `/`, or the whole path.
pub open spec fn base_name_spec(p: Seq<char>) -> Seq<char> {
    if has_char(p, '/') {
        p.skip(last_pos(p, '/') + 1)
    } else {
        p
    }
}

/// Whether the name has an extension: a dot after the first character.
pub open spec fn has_ext(b: Seq<char>) -> bool {
    exists|i: int| 1 <= i < b.len() && b[i] == '.'
}

/// The stem of a name: what precedes the last dot, or the whole name. A dot
/// in first position marks a hidden file, not an extension.
pub open spec fn stem_spec(b: Seq<char>) -> Seq<char> {
    if has_ext(b) {
        b.take(last_pos(b, '.'))
    } else {
        b
    }
}

/// The extension of a name: what follows the last dot, if any.
pub open spec fn extension_spec(b: Seq<char>) -> Option<Seq<char>> {
    if has_ext(b) {
        Some(b.skip(last_pos(b, '.') + 1))
    } else {
        None
    }
}

/// The characters of the base name of `p`.
fn base_name_chars(p: &str) -> (r: Vec<char>)
    ensures
        r@ == base_name_spec(p@),
{
    let pv = string_to_chars(p);
    match rfind_char(&pv, '/') {
        Some(i) => {
            proof {
                assert(0 <= i < p@.len() && p@[i as int] == '/' && (forall|j: int|
                    i < j < p@.len() ==> p@[j] != '/'));
                assert(has_char(p@, '/'));
                let i2 = last_pos(p@, '/');
                if i2 != i as int {
                    if i2 < i as int {
                        assert(p@[i as int] == '/');
                    } else {
                        assert(p@[i2] == '/');
                    }
                }
            }
            let n = pv.len();
            let mut out: Vec<char> = Vec::new();
            let mut k: usize = i + 1;
            while k < n
                invariant
                    i < k <= n,
                    n == pv@.len(),
                    out@ == pv@.subrange(i + 1, k as int),
                decreases n - k,
            {
                out.push(pv[k]);
                proof {
                    assert(pv@.subrange(i + 1, k as int).push(pv@[k as int]) =~= pv@.subrange(
                        i + 1,
                        k + 1,
                    ));
                }
                k = k + 1;
            }
            proof {
                assert(pv@.subrange(i + 1, n as int) =~= p@.skip(i + 1));
            }
            out
        },
        None => {
            proof {
                if has_char(p@, '/') {
                    let w = choose|w: int| 0 <= w < p@.len() && p@[w] == '/';
                }
            }
            pv
        },
    }
}

/// The characters of `v` from `from` (inclusive) to `to` (exclusive).
fn chars_range(v: &Vec<char>, from: usize, to: usize) -> (r: Vec<char>)
    requires
        from <= to <= v@.len(),
    ensures
        r@ == v@.subrange(from as int, to as int),
{
    let mut out: Vec<char> = Vec::new();
    let mut k: usize = from;
    while k < to
        invariant
            from <= k <= to <= v@.len(),
            out@ == v@.subrange(from as int, k as int),
        decreases to - k,
    {
        out.push(v[k]);
        proof {
            assert(v@.subrange(from as int, k as int).push(v@[k as int]) =~= v@.subrange(
                from as int,
                k + 1,
            ));
        }
        k = k + 1;
    }
    out
}

/// The position of the extension dot of `b`, if `b` has an extension.
fn find_ext_dot(b: &Vec<char>) -> (r: Option<usize>)
    ensures
        match r {
            Some(i) => has_ext(b@) && i == last_pos(b@, '.') && 1 <= i < b@.len(),
            None => !has_ext(b@),
        },
{
    match rfind_char(b, '.') {
        Some(i) => {
            if i == 0 {
                proof {
                    if has_ext(b@) {
                        let w = choose|w: int| 1 <= w < b@.len() && b@[w] == '.';
                        assert(b@[w] != '.');
                    }
                }
                None
            } else {
                proof {
                    assert(has_ext(b@));
                    let i2 = last_pos(b@, '.');
                    if i2 != i as int {
                        if i2 < i as int {
                            assert(b@[i as int] == '.');
                        } else {
                            assert(b@[i2] == '.');
                        }
                    }
                }
                Some(i)
            }
        },
        None => {
            proof {
                if has_ext(b@) {
                    let w = choose|w: int| 1 <= w < b@.len() && b@[w] == '.';
                }
            }
            None
        },
    }
}

/// The stem of the name held in `b`.
fn stem_chars(b: &Vec<char>) -> (r: Vec<char>)
    ensures
        r@ == stem_spec(b@),
{
    match find_ext_dot(b) {
        Some(i) => {
            let r = chars_range(b, 0, i);
            proof {
                assert(b@.subrange(0, i as int) =~= b@.take(i as int));
            }
            r
        },
        None => {
            let r = chars_range(b, 0, b.len());
            proof {
                assert(b@.subrange(0, b@.len() as int) =~= b@);
            }
            r
        },
    }
}

/// The extension of the name held in `b`, if any.
fn extension_string(b: &Vec<char>) -> (r: Option<String>)
    ensures
        match r {
            Some(e) => extension_spec(b@) == Some(e@),
            None => extension_spec(b@) == None::<Seq<char>>,
        },
{
    match find_ext_dot(b) {
        Some(i) => {
            let bl = b.len();
            let part = chars_range(b, i + 1, bl);
            proof {
                assert(b@.subrange(i + 1, b@.len() as int) =~= b@.skip(i + 1));
            }
            Some(chars_to_string(&part))
        },
        None => None,
    }
}

/// The title an imported file gets: the stem of its base name, or `Untitled`
/// where the path yields no stem.
pub open spec fn title_from_path_spec(p: Seq<char>) -> Seq<char> {
    let stem = stem_spec(base_name_spec(p));
    if stem.len() == 0 {
        untitled_name()
    } else {
        stem
    }
}

/// The fallback title of an import without a usable file name.
pub open spec fn untitled_name() -> Seq<char> {
    seq!['U', 'n', 't', 'i', 't', 'l', 'e', 'd']
}

/// The title an imported file gets.
fn title_from_path(p: &str) -> (r: String)
    ensures
        r@ == title_from_path_spec(p@),
{
    let base = base_name_chars(p);
    let stem = stem_chars(&base);
    if stem.len() == 0 {
        let mut out: Vec<char> = Vec::new();
        out.push('U');
        out.push('n');
        out.push('t');
        out.push('i');
        out.push('t');
        out.push('l');
        out.push('e');
        out.push('d');
        proof {
            assert(out@ =~= untitled_name());
        }
        chars_to_string(&out)
    } else {
        chars_to_string(&stem)
    }
}

/// Whether an extension marks a markdown-like format.
pub open spec fn is_markdown_ext(e: Option<Seq<char>>) -> bool {
    e == Some(seq!['m', 'd']) || e == Some(
        seq!['m', 'a', 'r', 'k', 'd', 'o', 'w', 'n'],
    )
}

/// What an export writes: for a markdown-like target the content under a
/// `# <title>` heading, otherwise the content verbatim.
pub open spec fn export_content_spec(d: Document, path: Seq<char>) -> Seq<char> {
    if is_markdown_ext(extension_spec(base_name_spec(path))) {
        seq!['#', ' '] + d.title@ + seq!['\n', '\n'] + d.content@
    } else {
        d.content@
    }
}

/// The ` (Backup)` tag and `Created: ` label between title and timestamp.
pub open spec fn bk_tag() -> Seq<char> {
    seq![' ', '(', 'B', 'a', 'c', 'k', 'u', 'p', ')', '\n', '\n', 'C', 'r', 'e', 'a', 't', 'e', 'd', ':', ' ']
}

/// The `Last Modified: ` label.
pub open spec fn bk_mod() -> Seq<char> {
    seq!['\n', 'L', 'a', 's', 't', ' ', 'M', 'o', 'd', 'i', 'f', 'i', 'e', 'd', ':', ' ']
}

/// The `Word Count: ` label.
pub open spec fn bk_wc() -> Seq<char> {
    seq!['\n', 'W', 'o', 'r', 'd', ' ', 'C', 'o', 'u', 'n', 't', ':', ' ']
}

/// The delimiter line separating a snapshot's header from its body.
pub open spec fn bk_delim() -> Seq<char> {
    seq!['-', '-', '-', '\n', '\n']
}

/// The text of a backup snapshot: a readable header, the delimiter line, and
/// the raw content.
pub open spec fn backup_text(
    title: Seq<char>,
    c: Seq<char>,
    m: Seq<char>,
    wc: nat,
    content: Seq<char>,
) -> Seq<char> {
    seq!['#', ' '] + title + bk_tag() + c + bk_mod() + m + bk_wc() + decimal_of(wc) + seq!['\n', '\n']
        + bk_delim() + content
}

/// The snapshot text of a document, its timestamps formatted as labels.
pub open spec fn backup_content_spec(d: Document) -> Seq<char> {
    backup_text(
        d.title@,
        datetime_label_of(d.created_at as int),
        datetime_label_of(d.updated_at as int),
        d.word_count as nat,
        d.content@,
    )
}

/// The snapshot's file name: the sanitized title, the instant's stamp, and
/// the snapshot suffix.
pub open spec fn backup_filename_spec(title: Seq<char>, t: int) -> Seq<char> {
    replaced2(title, ' ', '/', '_') + seq!['_'] + stamp_label_of(t) + seq!['.', 'b', 'a', 'c', 'k', 'u', 'p', '.', 'm', 'd']
}

/// Where the snapshot of a document titled `title` at instant `t` goes.
pub open spec fn backup_path_spec(dir: Seq<char>, title: Seq<char>, t: int) -> Seq<char> {
    dir + seq!['/', 'b', 'a', 'c', 'k', 'u', 'p', 's', '/'] + backup_filename_spec(title, t)
}

/// Whether the snapshot delimiter occurs anywhere in `s`.
pub open spec fn has_delim(s: Seq<char>) -> bool {
    exists|i: int| matches_at(s, bk_delim(), i)
}

/// The first position of the snapshot delimiter in `s` (meaningful only when
/// one exists).
pub open spec fn first_delim(s: Seq<char>) -> int {
    choose|i: int|
        matches_at(s, bk_delim(), i) && (forall|j: int| 0 <= j < i ==> !matches_at(
            s,
            bk_delim(),
            j,
        ))
}

/// The body a restore recovers from snapshot text: what follows the first
/// delimiter, or, when the delimiter is absent or sits at the very start,
/// the whole text (a deliberate fallback, not an error).
pub open spec fn extract_body_spec(s: Seq<char>) -> Seq<char> {
    if has_delim(s) && first_delim(s) > 0 {
        s.skip(first_delim(s) + 5)
    } else {
        s
    }
}

/// The suffix a snapshot's stem carries.
pub open spec fn bk_suffix() -> Seq<char> {
    seq!['.', 'b', 'a', 'c', 'k', 'u', 'p']
}

/// The fallback title of a restore without a usable file name.
pub open spec fn restored_name() -> Seq<char> {
    seq!['R', 'e', 's', 't', 'o', 'r', 'e', 'd', ' ', 'D', 'o', 'c', 'u', 'm', 'e', 'n', 't']
}

/// The title a restored document gets: the snapshot file's stem, the backup
/// suffix stripped, underscores read back as spaces.
pub open spec fn backup_title_spec(p: Seq<char>) -> Seq<char> {
    let stem = stem_spec(base_name_spec(p));
    let name = if stem.len() == 0 {
        restored_name()
    } else {
        stem
    };
    let trimmed = if name.len() >= 7 && name.skip(name.len() - 7) == bk_suffix() {
        name.take(name.len() - 7)
    } else {
        name
    };
    replaced2(trimmed, '_', '_', ' ')
}

/// The title a restored document gets.
fn backup_title(p: &str) -> (r: String)
    ensures
        r@ == backup_title_spec(p@),
{
    let base = base_name_chars(p);
    let stem = stem_chars(&base);
    let name: Vec<char> = if stem.len() == 0 {
        let mut out: Vec<char> = Vec::new();
        out.push('R');
        out.push('e');
        out.push('s');
        out.push('t');
        out.push('o');
        out.push('r');
        out.push('e');
        out.push('d');
        out.push(' ');
        out.push('D');
        out.push('o');
        out.push('c');
        out.push('u');
        out.push('m');
        out.push('e');
        out.push('n');
        out.push('t');
        proof {
            assert(out@ =~= restored_name());
        }
        out
    } else {
        stem
    };
    let mut suf: Vec<char> = Vec::new();
    suf.push('.');
    suf.push('b');
    suf.push('a');
    suf.push('c');
    suf.push('k');
    suf.push('u');
    suf.push('p');
    proof {
        assert(suf@ =~= bk_suffix());
    }
    let nl = name.len();
    let trimmed: Vec<char> = if nl >= 7 && match_at(&name, &suf, nl - 7) {
        proof {
            assert(name@.subrange(nl - 7, nl as int) =~= name@.skip(nl - 7));
        }
        let t = chars_range(&name, 0, nl - 7);
        proof {
            assert(name@.subrange(0, nl - 7) =~= name@.take(nl - 7));
        }
        t
    } else {
        proof {
            if nl >= 7 && name@.skip(nl - 7) == bk_suffix() {
                assert(name@.subrange(nl - 7, nl as int) =~= name@.skip(nl - 7));
            }
        }
        name
    };
    let rep = replace_chars(&trimmed, '_', '_', ' ');
    chars_to_string(&rep)
}

/// The body a restore recovers from snapshot text.
pub fn extract_backup_body(s: &str) -> (r: String)
    ensures
        r@ == extract_body_spec(s@),
{
    let sv = string_to_chars(s);
    let mut dv: Vec<char> = Vec::new();
    dv.push('-');
    dv.push('-');
    dv.push('-');
    dv.push('\n');
    dv.push('\n');
    proof {
        assert(dv@ =~= bk_delim());
    }
    match find_sub(&sv, &dv) {
        Some(i) => {
            proof {
                assert(matches_at(s@, bk_delim(), i as int) && (forall|j: int|
                    0 <= j < i ==> !matches_at(s@, bk_delim(), j)));
                assert(has_delim(s@));
                let i2 = first_delim(s@);
                assert(matches_at(s@, bk_delim(), i2) && (forall|j: int|
                    0 <= j < i2 ==> !matches_at(s@, bk_delim(), j)));
                if i2 < i as int {
                    assert(!matches_at(s@, bk_delim(), i2));
                } else if i2 > i as int {
                    assert(!matches_at(s@, bk_delim(), i as int));
                }
            }
            if i > 0 {
                let n = s.unicode_len();
                let body = s.substring_char(i + 5, n);
                proof {
                    assert(body@ =~= s@.skip(i + 5));
                }
                String::from_str(body)
            } else {
                String::from_str(s)
            }
        },
        None => String::from_str(s),
    }
}

/// Keeps the directory entries that are regular files.
pub open spec fn entry_is_file() -> spec_fn(DirEntry) -> bool {
    |e: DirEntry| e.is_file
}

/// The description of a directory entry.
pub open spec fn entry_info() -> spec_fn(DirEntry) -> FileInfo {
    |e: DirEntry| e.info
}

/// The regular files among the entries, in listing order.
pub open spec fn dir_files(s: Seq<DirEntry>) -> Seq<FileInfo> {
    s.filter(entry_is_file()).map_values(entry_info())
}

/// File descriptions ordered by name, ascending.
pub open spec fn infos_sorted(s: Seq<FileInfo>) -> bool {
    forall|i: int, j: int| 0 <= i <= j < s.len() ==> lex_le(s[i].name@, s[j].name@)
}

/// Sort file descriptions by name, ascending. The result is a permutation of
/// the input.
fn sort_infos_by_name(input: &Vec<FileInfo>) -> (r: Vec<FileInfo>)
    ensures
        r@.to_multiset() == input@.to_multiset(),
        infos_sorted(r@),
        r@.len() == input@.len(),
{
    broadcast use vstd::seq_lib::group_to_multiset_ensures;

    let n = input.len();
    let mut out: Vec<FileInfo> = Vec::new();
    let mut i: usize = 0;
    proof {
        assert(input@.take(0) =~= Seq::<FileInfo>::empty());
        assert(out@ =~= Seq::<FileInfo>::empty());
        assert(input@.take(0).to_multiset() =~= Seq::<FileInfo>::empty().to_multiset());
    }
    while i < n
        invariant
            i <= n,
            n == input.len(),
            out@.to_multiset() == input@.take(i as int).to_multiset(),
            out@.len() == i,
            infos_sorted(out@),
        decreases n - i,
    {
        let x = input[i].clone();
        let m = out.len();
        let mut p: usize = 0;
        while p < m && str_le(out[p].name.as_str(), x.name.as_str())
            invariant
                p <= m,
                m == out.len(),
                x == input@[i as int],
                i < n,
                n == input.len(),
                forall|q: int| 0 <= q < p ==> lex_le(#[trigger] out@[q].name@, x.name@),
            decreases m - p,
        {
            p = p + 1;
        }
        proof {
            let mid = out@;
            if p < m {
                lemma_lex_total(mid[p as int].name@, x.name@);
            }
            assert forall|q: int| p <= q < mid.len() implies lex_le(
                x.name@,
                #[trigger] mid[q].name@,
            ) by {
                assert(lex_le(mid[p as int].name@, mid[q].name@));
                lemma_lex_trans(x.name@, mid[p as int].name@, mid[q].name@);
            }
            lemma_to_multiset_insert(mid, p as int, input@[i as int]);
            assert(input@.take(i + 1) =~= input@.take(i as int).push(input@[i as int]));
            vstd::seq_lib::to_multiset_build(input@.take(i as int), input@[i as int]);
            lemma_lex_total(x.name@, x.name@);
        }
        let ghost mid = out@;
        out.insert(p, x);
        proof {
            let t = out@;
            assert(t == mid.insert(p as int, input@[i as int]));
            assert forall|a: int, b: int| 0 <= a <= b < t.len() implies lex_le(
                t[a].name@,
                t[b].name@,
            ) by {
                if a < p {
                    assert(t[a] == mid[a]);
                }
                if b < p {
                    assert(t[b] == mid[b]);
                }
                if a > p {
                    assert(t[a] == mid[a - 1]);
                }
                if b > p {
                    assert(t[b] == mid[b - 1]);
                }
                if a == p && b == p {
                    assert(lex_le(t[a].name@, t[b].name@));
                }
            }
        }
        i = i + 1;
    }
    proof {
        assert(input@.take(n as int) =~= input@);
    }
    out
}

/// The file vault: derives the stable paths under one application data
/// directory and all file-shaped values the system reads and writes.
pub struct FileHandler {
    pub app_data_dir: String,
}

impl FileHandler {
    /// A vault over the given application data directory. Creating the
    /// directory itself is the host's I/O.
    pub fn new(app_data_dir: String) -> (r: Self)
        ensures
            r.app_data_dir == app_data_dir,
    {
        FileHandler { app_data_dir }
    }

    /// The application data directory.
    pub fn get_app_data_dir(&self) -> (r: String)
        ensures
            r == self.app_data_dir,
    {
        self.app_data_dir.clone()
    }

    /// Where the database file lives.
    pub fn get_database_path(&self) -> (r: String)
        ensures
            r@ == self.app_data_dir@ + "/semantic_assistant.db"@,
    {
        self.app_data_dir.clone().concat("/semantic_assistant.db")
    }

    /// Where documents live (reserved; no operation reads it yet).
    pub fn get_documents_dir(&self) -> (r: String)
        ensures
            r@ == self.app_data_dir@ + "/documents"@,
    {
        self.app_data_dir.clone().concat("/documents")
    }

    /// Where backup snapshots live.
    pub fn get_backups_dir(&self) -> (r: String)
        ensures
            r@ == self.app_data_dir@ + "/backups"@,
    {
        self.app_data_dir.clone().concat("/backups")
    }

    /// The regular files among the given directory entries, ordered by name.
    pub fn list_directory(&self, entries: &Vec<DirEntry>) -> (r: Vec<FileInfo>)
        ensures
            r@.to_multiset() == dir_files(entries@).to_multiset(),
            r@.len() == dir_files(entries@).len(),
            infos_sorted(r@),
    {
        broadcast use vstd::seq_lib::group_to_multiset_ensures;

        let n = entries.len();
        let mut out: Vec<FileInfo> = Vec::new();
        let mut i: usize = 0;
        proof {
            assert(entries@.take(0).filter(entry_is_file()) =~= Seq::<DirEntry>::empty());
            assert(out@ =~= dir_files(entries@.take(0)));
        }
        while i < n
            invariant
                i <= n,
                n == entries.len(),
                out@ == dir_files(entries@.take(i as int)),
            decreases n - i,
        {
            proof {
                lemma_filter_push(entries@.take(i as int), entries@[i as int], entry_is_file());
                assert(entries@.take(i + 1) =~= entries@.take(i as int).push(entries@[i as int]));
                if entry_is_file()(entries@[i as int]) {
                    assert(entries@.take(i as int).filter(entry_is_file()).push(
                        entries@[i as int],
                    ).map_values(entry_info()) =~= dir_files(entries@.take(i as int)).push(
                        entries@[i as int].info,
                    ));
                }
            }
            if entries[i].is_file {
                out.push(entries[i].info.clone());
            }
            i = i + 1;
        }
        proof {
            assert(entries@.take(n as int) =~= entries@);
        }
        let r = sort_infos_by_name(&out);
        r
    }

    /// The regular files among the entries of the backups directory, ordered
    /// by name. Reading that directory is the host's I/O.
    pub fn list_backups(&self, entries: &Vec<DirEntry>) -> (r: Vec<FileInfo>)
        ensures
            r@.to_multiset() == dir_files(entries@).to_multiset(),
            r@.len() == dir_files(entries@).len(),
            infos_sorted(r@),
    {
        self.list_directory(entries)
    }

    /// The description of one file, from its path and the metadata the host
    /// read for it.
    pub fn get_file_info(&self, file_path: &str, size: u64, modified: String) -> (r: FileInfo)
        ensures
            r.name@ == (if base_name_spec(file_path@).len() == 0 {
                unknown_name()
            } else {
                base_name_spec(file_path@)
            }),
            r.path@ == file_path@,
            r.size == size,
            r.modified == modified,
            match r.extension {
                Some(e) => extension_spec(base_name_spec(file_path@)) == Some(e@),
                None => extension_spec(base_name_spec(file_path@)) == None::<Seq<char>>,
            },
    {
        let base = base_name_chars(file_path);
        let name: String = if base.len() == 0 {
            let mut out: Vec<char> = Vec::new();
            out.push('U');
            out.push('n');
            out.push('k');
            out.push('n');
            out.push('o');
            out.push('w');
            out.push('n');
            proof {
                assert(out@ =~= unknown_name());
            }
            chars_to_string(&out)
        } else {
            chars_to_string(&base)
        };
        let extension = extension_string(&base);
        FileInfo { name, path: String::from_str(file_path), size, modified, extension }
    }

    /// Render the backup snapshot of `document` stamped with instant `t`.
    #[verifier::rlimit(100)]
    pub fn render_backup(&self, document: &Document, t: i64) -> (r: BackupFile)
        ensures
            r.path@ == backup_path_spec(self.app_data_dir@, document.title@, t as int),
            r.content@ == backup_content_spec(*document),
    {
        // The file's path.
        let mut pv = string_to_chars(self.app_data_dir.as_str());
        pv.push('/');
        pv.push('b');
        pv.push('a');
        pv.push('c');
        pv.push('k');
        pv.push('u');
        pv.push('p');
        pv.push('s');
        pv.push('/');
        let tv = string_to_chars(document.title.as_str());
        let mut sanitized = replace_chars(&tv, ' ', '/', '_');
        pv.append(&mut sanitized);
        pv.push('_');
        let stamp = format_stamp_label(t);
        push_str_chars(&mut pv, stamp.as_str());
        pv.push('.');
        pv.push('b');
        pv.push('a');
        pv.push('c');
        pv.push('k');
        pv.push('u');
        pv.push('p');
        pv.push('.');
        pv.push('m');
        pv.push('d');
        proof {
            assert(pv@ =~= backup_path_spec(self.app_data_dir@, document.title@, t as int));
        }
        // The file's text.
        let mut cv: Vec<char> = Vec::new();
        cv.push('#');
        cv.push(' ');
        push_str_chars(&mut cv, document.title.as_str());
        cv.push(' ');
        cv.push('(');
        cv.push('B');
        cv.push('a');
        cv.push('c');
        cv.push('k');
        cv.push('u');
        cv.push('p');
        cv.push(')');
        cv.push('\n');
        cv.push('\n');
        cv.push('C');
        cv.push('r');
        cv.push('e');
        cv.push('a');
        cv.push('t');
        cv.push('e');
        cv.push('d');
        cv.push(':');
        cv.push(' ');
        let created_label = format_datetime_label(document.created_at);
        push_str_chars(&mut cv, created_label.as_str());
        cv.push('\n');
        cv.push('L');
        cv.push('a');
        cv.push('s');
        cv.push('t');
        cv.push(' ');
        cv.push('M');
        cv.push('o');
        cv.push('d');
        cv.push('i');
        cv.push('f');
        cv.push('i');
        cv.push('e');
        cv.push('d');
        cv.push(':');
        cv.push(' ');
        let modified_label = format_datetime_label(document.updated_at);
        push_str_chars(&mut cv, modified_label.as_str());
        cv.push('\n');
        cv.push('W');
        cv.push('o');
        cv.push('r');
        cv.push('d');
        cv.push(' ');
        cv.push('C');
        cv.push('o');
        cv.push('u');
        cv.push('n');
        cv.push('t');
        cv.push(':');
        cv.push(' ');
        push_decimal(&mut cv, document.word_count);
        cv.push('\n');
        cv.push('\n');
        cv.push('-');
        cv.push('-');
        cv.push('-');
        cv.push('\n');
        cv.push('\n');
        push_str_chars(&mut cv, document.content.as_str());
        proof {
            assert(cv@ =~= backup_content_spec(*document));
        }
        BackupFile { path: chars_to_string(&pv), content: chars_to_string(&cv) }
    }

    /// The backup snapshot of `document`, stamped with the instant the wall
    /// clock reads now.
    pub fn create_backup(&self, document: &Document) -> (r: BackupFile)
        ensures
            r.content@ == backup_content_spec(*document),
            exists|t: int| r.path@ == backup_path_spec(self.app_data_dir@, document.title@, t),
    {
        let t = now_millis();
        let r = self.render_backup(document, t);
        proof {
            assert(r.path@ == backup_path_spec(self.app_data_dir@, document.title@, t as int));
        }
        r
    }

    /// Import a file the host has read: derive the title from the path,
    /// count the words, and store a new document carrying the file's path.
    pub fn import_document(&self, file_path: &str, content: String, db: &mut Database) -> (r:
        ImportResult)
        requires
            old(db).wf(),
        ensures
            final(db).wf(),
            r.success,
            match r.document_id {
                Some(id) => {
                    &&& match final(db).spec_document(id@) {
                        Some(doc) => doc.title@ == title_from_path_spec(file_path@)
                            && doc.content@ == content@ && doc.word_count == word_count_spec(
                            content@,
                        ) && doc.created_at == doc.updated_at && match doc.file_path {
                            Some(fp) => fp@ == file_path@,
                            None => false,
                        },
                        None => false,
                    }
                    &&& forall|k: Seq<char>| k != id@ ==> #[trigger] final(db).spec_document(k)
                        == old(db).spec_document(k)
                },
                None => false,
            },
            final(db).terms@ == old(db).terms@,
            final(db).rules@ == old(db).rules@,
            final(db).entries@ == old(db).entries@,
            final(db).document_reads == old(db).document_reads,
    {
        let word_count = count_words(content.as_str());
        let now = now_millis();
        let title = title_from_path(file_path);
        let id = fresh_id();
        let document = Document {
            id,
            title,
            content,
            file_path: Some(String::from_str(file_path)),
            created_at: now,
            updated_at: now,
            word_count,
        };
        db.save_document(&document);
        ImportResult {
            success: true,
            document_id: Some(document.id),
            message: String::from_str("Document imported successfully"),
        }
    }

    /// What an export of `document` to `export_path` writes.
    pub fn export_document(&self, document: &Document, export_path: &str) -> (r: String)
        ensures
            r@ == export_content_spec(*document, export_path@),
    {
        let base = base_name_chars(export_path);
        let ext = extension_string(&base);
        let is_md: bool = match &ext {
            Some(e) => {
                let md = str_eq(e.as_str(), "md");
                let markdown = str_eq(e.as_str(), "markdown");
                proof {
                    reveal_strlit("md");
                    reveal_strlit("markdown");
                    assert("md"@ =~= seq!['m', 'd']);
                    assert("markdown"@ =~= seq!['m', 'a', 'r', 'k', 'd', 'o', 'w', 'n']);
                }
                md || markdown
            },
            None => false,
        };
        if is_md {
            let mut out: Vec<char> = Vec::new();
            out.push('#');
            out.push(' ');
            push_str_chars(&mut out, document.title.as_str());
            out.push('\n');
            out.push('\n');
            push_str_chars(&mut out, document.content.as_str());
            proof {
                assert(out@ =~= export_content_spec(*document, export_path@));
            }
            chars_to_string(&out)
        } else {
            document.content.clone()
        }
    }

    /// Restore a snapshot the host has read: recover the body, derive the
    /// title from the snapshot's file name, and store a new document without
    /// an originating file path.
    pub fn restore_from_backup(&self, backup_path: &str, backup_content: String, db: &mut Database)
        -> (r: ImportResult)
        requires
            old(db).wf(),
        ensures
            final(db).wf(),
            r.success,
            match r.document_id {
                Some(id) => {
                    &&& match final(db).spec_document(id@) {
                        Some(doc) => doc.title@ == backup_title_spec(backup_path@) && doc.content@
                            == extract_body_spec(backup_content@) && doc.word_count
                            == word_count_spec(extract_body_spec(backup_content@))
                            && doc.created_at == doc.updated_at && doc.file_path
                            == None::<String>,
                        None => false,
                    }
                    &&& forall|k: Seq<char>| k != id@ ==> #[trigger] final(db).spec_document(k)
                        == old(db).spec_document(k)
                },
                None => false,
            },
            final(db).terms@ == old(db).terms@,
            final(db).rules@ == old(db).rules@,
            final(db).entries@ == old(db).entries@,
            final(db).document_reads == old(db).document_reads,
    {
        let content = extract_backup_body(backup_content.as_str());
        let title = backup_title(backup_path);
        let word_count = count_words(content.as_str());
        let now = now_millis();
        let id = fresh_id();
        let document = Document {
            id,
            title,
            content,
            file_path: None,
            created_at: now,
            updated_at: now,
            word_count,
        };
        db.save_document(&document);
        ImportResult {
            success: true,
            document_id: Some(document.id),
            message: String::from_str("Document restored successfully"),
        }
    }
}

/// The fallback name of a file whose path yields no base name.
pub open spec fn unknown_name() -> Seq<char> {
    seq!['U', 'n', 'k', 'n', 'o', 'w', 'n']
}

/// No two adjacent positions of `s` both hold dashes.
pub open spec fn no_adjacent_dashes(s: Seq<char>) -> bool {
    forall|i: int| 0 < i < s.len() ==> !(s[i - 1] == '-' && #[trigger] s[i] == '-')
}

/// No three adjacent positions of `s` all hold dashes.
pub open spec fn no_triple_dash(s: Seq<char>) -> bool {
    forall|i: int| 1 < i < s.len() ==> !(s[i - 2] == '-' && s[i - 1] == '-' && #[trigger] s[i]
        == '-')
}

/// Round trip: recovering the body of a rendered snapshot yields exactly the
/// content the snapshot was rendered from, provided the title never runs
/// three dashes together and neither timestamp label carries two adjacent
/// dashes (the labels the clock renders for instants at or after the epoch
/// never do). A title that breaks this puts the delimiter line's own text
/// into the header, where the parse finds it first.
/// The round trip stated of one document's snapshot: recovering the body of
/// `backup_content_spec(d)` yields `d.content` under the same dash
/// conditions, the labels now being the document's own timestamp labels.
pub proof fn lemma_snapshot_round_trip(d: Document)
    requires
        no_triple_dash(d.title@),
        no_adjacent_dashes(datetime_label_of(d.created_at as int)),
        no_adjacent_dashes(datetime_label_of(d.updated_at as int)),
    ensures
        extract_body_spec(backup_content_spec(d)) == d.content@,
{
    lemma_backup_round_trip(
        d.title@,
        datetime_label_of(d.created_at as int),
        datetime_label_of(d.updated_at as int),
        d.word_count as nat,
        d.content@,
    );
}

#[verifier::rlimit(100)]
pub proof fn lemma_backup_round_trip(
    title: Seq<char>,
    c: Seq<char>,
    m: Seq<char>,
    wc: nat,
    content: Seq<char>,
)
    requires
        no_triple_dash(title),
        no_adjacent_dashes(c),
        no_adjacent_dashes(m),
    ensures
        extract_body_spec(backup_text(title, c, m, wc, content)) == content,
{
    let dec = decimal_of(wc);
    let pre = seq!['#', ' '] + title + bk_tag() + c + bk_mod() + m + bk_wc() + dec + seq!['\n', '\n'];
    let full = backup_text(title, c, m, wc, content);
    let dl = bk_delim();
    assert(full =~= pre + dl + content);
    let b0 = 2int;
    let b1 = b0 + title.len() as int;
    let b2 = b1 + 20;
    let b3 = b2 + c.len() as int;
    let b4 = b3 + 16;
    let b5 = b4 + m.len() as int;
    let b6 = b5 + 13;
    let b7 = b6 + dec.len() as int;
    let h = b7 + 2;
    assert(bk_tag().len() == 20);
    assert(bk_mod().len() == 16);
    assert(bk_wc().len() == 13);
    assert(pre.len() == h);
    crate::text::lemma_decimal_no_dash(wc);
    // A dash in the header can only sit inside the title or one of the
    // timestamp labels.
    assert forall|k: int| 0 <= k < h && pre[k] == '-' implies (b0 <= k < b1 && title[k - b0]
        == '-') || (b2 <= k < b3 && c[k - b2] == '-') || (b4 <= k < b5 && m[k - b4] == '-') by {
        if k < b0 {
            assert(pre[k] == seq!['#', ' '][k]);
        } else if k < b1 {
            assert(pre[k] == title[k - b0]);
        } else if k < b2 {
            assert(pre[k] == bk_tag()[k - b1]);
        } else if k < b3 {
            assert(pre[k] == c[k - b2]);
        } else if k < b4 {
            assert(pre[k] == bk_mod()[k - b3]);
        } else if k < b5 {
            assert(pre[k] == m[k - b4]);
        } else if k < b6 {
            assert(pre[k] == bk_wc()[k - b5]);
        } else if k < b7 {
            assert(pre[k] == dec[k - b6]);
        } else {
            assert(pre[k] == seq!['\n', '\n'][k - b7]);
        }
    }
    // So the header never holds three adjacent dashes: the dash-carrying
    // regions are kept apart by fixed dash-free text, a run of three cannot
    // cross out of a region, the title never runs three, and the labels
    // never run two.
    assert forall|i: int| 1 < i < h implies !(pre[i - 2] == '-' && pre[i - 1] == '-'
        && #[trigger] pre[i] == '-') by {
        if pre[i - 2] == '-' && pre[i - 1] == '-' && pre[i] == '-' {
            assert((b0 <= i - 2 < b1 && title[i - 2 - b0] == '-') || (b2 <= i - 2 < b3 && c[
                i - 2 - b2
            ] == '-') || (b4 <= i - 2 < b5 && m[i - 2 - b4] == '-'));
            assert((b0 <= i - 1 < b1 && title[i - 1 - b0] == '-') || (b2 <= i - 1 < b3 && c[
                i - 1 - b2
            ] == '-') || (b4 <= i - 1 < b5 && m[i - 1 - b4] == '-'));
            assert((b0 <= i < b1 && title[i - b0] == '-') || (b2 <= i < b3 && c[i - b2] == '-')
                || (b4 <= i < b5 && m[i - b4] == '-'));
            if b0 <= i - 2 < b1 && b0 <= i - 1 < b1 && b0 <= i < b1 {
                assert(!(title[i - b0 - 2] == '-' && title[i - b0 - 1] == '-' && title[i - b0]
                    == '-'));
            } else if b2 <= i - 2 < b3 && b2 <= i - 1 < b3 {
                assert(!(c[i - b2 - 2] == '-' && c[i - b2 - 1] == '-'));
            } else if b4 <= i - 2 < b5 && b4 <= i - 1 < b5 {
                assert(!(m[i - b4 - 2] == '-' && m[i - b4 - 1] == '-'));
            } else if b2 <= i - 1 < b3 && b2 <= i < b3 {
                assert(!(c[i - b2 - 1] == '-' && c[i - b2] == '-'));
            } else if b4 <= i - 1 < b5 && b4 <= i < b5 {
                assert(!(m[i - b4 - 1] == '-' && m[i - b4] == '-'));
            }
        }
    }
    // The rendered delimiter is the first one in the whole snapshot.
    assert(full.subrange(h, h + 5) =~= dl);
    assert(matches_at(full, dl, h));
    assert forall|j: int| 0 <= j < h implies !matches_at(full, dl, j) by {
        if matches_at(full, dl, j) {
            assert(full.subrange(j, j + 5) == dl);
            assert(full.subrange(j, j + 5)[0] == full[j]);
            assert(full.subrange(j, j + 5)[1] == full[j + 1]);
            assert(full.subrange(j, j + 5)[2] == full[j + 2]);
            assert(dl[0] == '-' && dl[1] == '-' && dl[2] == '-');
            if j + 2 < h {
                assert(full[j] == pre[j] && full[j + 1] == pre[j + 1] && full[j + 2] == pre[
                    j + 2
                ]);
            } else if j + 2 == h {
                assert(full[j] == pre[j]);
                assert(pre[h - 2] == seq!['\n', '\n'][0]);
            } else {
                assert(full[j] == pre[j]);
                assert(pre[h - 1] == seq!['\n', '\n'][1]);
            }
        }
    }
    assert(has_delim(full));
    let fd = first_delim(full);
    assert(exists|i: int|
        matches_at(full, dl, i) && (forall|j: int| 0 <= j < i ==> !matches_at(full, dl, j))) by {
        assert(matches_at(full, dl, h) && (forall|j: int| 0 <= j < h ==> !matches_at(
            full,
            dl,
            j,
        )));
    }
    assert(matches_at(full, dl, fd) && (forall|j: int| 0 <= j < fd ==> !matches_at(full, dl, j)));
    if fd < h {
        assert(!matches_at(full, dl, fd));
    }
    if fd > h {
        assert(!matches_at(full, dl, h));
    }
    assert(fd == h);
    assert(full.skip(h + 5) =~= content);
}

} // verus!
