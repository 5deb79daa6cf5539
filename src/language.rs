//! The fixed table from file extension to grammar, and the file classifier.
use vstd::prelude::*;
use vstd::string::*;

verus! {

/// A language whose grammar is bundled with the library.
#[derive(PartialEq, Eq, Structural, Clone, Copy, Debug)]
pub enum SourceLanguage {
    TypeScript,
    Tsx,
    Rust,
    CSharp,
}

/// The language registered for a file extension; extensions are compared
/// exactly (case-sensitively, no normalisation).
pub open spec fn language_of_extension(ext: Seq<char>) -> Option<SourceLanguage> {
    if ext == "ts"@ {
        Some(SourceLanguage::TypeScript)
    } else if ext == "tsx"@ {
        Some(SourceLanguage::Tsx)
    } else if ext == "rs"@ {
        Some(SourceLanguage::Rust)
    } else if ext == "cs"@ {
        Some(SourceLanguage::CSharp)
    } else {
        None
    }
}

/// Whether two strings hold the same characters.
pub fn same_text(a: &str, b: &str) -> (r: bool)
    ensures
        r == (a@ == b@),
{
    let n = a.unicode_len();
    if n != b.unicode_len() {
        return false;
    }
    let mut i: usize = 0;
    while i < n
        invariant
            n == a@.len(),
            n == b@.len(),
            i <= n,
            a@.subrange(0, i as int) == b@.subrange(0, i as int),
        decreases n - i,
    {
        if a.get_char(i) != b.get_char(i) {
            assert(a@[i as int] != b@[i as int]);
            return false;
        }
        assert(a@.subrange(0, i + 1) == a@.subrange(0, i as int).push(a@[i as int]));
        assert(b@.subrange(0, i + 1) == b@.subrange(0, i as int).push(b@[i as int]));
        i = i + 1;
    }
    assert(a@ == a@.subrange(0, n as int));
    assert(b@ == b@.subrange(0, n as int));
    true
}

/// Looks up the language registered for a file extension; an unknown
/// extension is a normal outcome and gives `None`.
pub fn language_by_file_type(file_type: &str) -> (r: Option<SourceLanguage>)
    ensures
        r == language_of_extension(file_type@),
{
    if same_text(file_type, "ts") {
        Some(SourceLanguage::TypeScript)
    } else if same_text(file_type, "tsx") {
        Some(SourceLanguage::Tsx)
    } else if same_text(file_type, "rs") {
        Some(SourceLanguage::Rust)
    } else if same_text(file_type, "cs") {
        Some(SourceLanguage::CSharp)
    } else {
        None
    }
}

/// Position of the last occurrence of `c` in `s`, or -1 where there is none.
pub open spec fn last_index_of(s: Seq<char>, c: char) -> int
    decreases s.len(),
{
    if s.len() == 0 {
        -1
    } else if s.last() == c {
        s.len() - 1
    } else {
        last_index_of(s.drop_last(), c)
    }
}

/// The last component of a path: what follows its last `/`.
pub open spec fn file_name_of(path: Seq<char>) -> Seq<char> {
    path.subrange(last_index_of(path, '/') + 1, path.len() as int)
}

/// The extension of a path: what follows the last `.` of its file name. A
/// name without a dot has none.
pub open spec fn extension_of(path: Seq<char>) -> Option<Seq<char>> {
    let name = file_name_of(path);
    let dot = last_index_of(name, '.');
    if dot < 0 {
        None
    } else {
        Some(name.subrange(dot + 1, name.len() as int))
    }
}

/// The language that a path is analysed with, if any.
pub open spec fn language_of_path(path: Seq<char>) -> Option<SourceLanguage> {
    match extension_of(path) {
        Some(ext) => language_of_extension(ext),
        None => None,
    }
}

proof fn lemma_last_index_of(s: Seq<char>, c: char, i: int)
    requires
        -1 <= i < s.len(),
        i >= 0 ==> s[i] == c,
        forall|j: int| i < j < s.len() ==> s[j] != c,
    ensures
        last_index_of(s, c) == i,
    decreases s.len(),
{
    if s.len() > 0 && s.last() != c {
        lemma_last_index_of(s.drop_last(), c, i);
    }
}

/// Finds the last `c` at or after position `lo` of `s`.
fn rfind_char(s: &str, lo: usize, c: char) -> (r: Option<usize>)
    requires
        lo <= s@.len(),
    ensures
        match r {
            Some(i) => lo <= i < s@.len() && s@[i as int] == c && forall|j: int|
                i < j < s@.len() ==> s@[j] != c,
            None => forall|j: int| lo <= j < s@.len() ==> s@[j] != c,
        },
{
    let mut i: usize = s.unicode_len();
    while i > lo
        invariant
            lo <= i <= s@.len(),
            forall|j: int| i <= j < s@.len() ==> s@[j] != c,
        decreases i,
    {
        if s.get_char(i - 1) == c {
            return Some(i - 1);
        }
        i = i - 1;
    }
    None
}

/// The extension of a path (see `extension_of`).
pub fn file_extension(path: &str) -> (r: Option<&str>)
    ensures
        match extension_of(path@) {
            Some(ext) => r.is_some() && r.unwrap()@ == ext,
            None => r.is_none(),
        },
{
    let n = path.unicode_len();
    let slash = rfind_char(path, 0, '/');
    let start: usize = match slash {
        Some(i) => i + 1,
        None => 0,
    };
    proof {
        let si: int = match slash {
            Some(i) => i as int,
            None => -1,
        };
        lemma_last_index_of(path@, '/', si);
    }
    let ghost name = path@.subrange(start as int, n as int);
    let dot = rfind_char(path, start, '.');
    match dot {
        Some(d) => {
            proof {
                lemma_last_index_of(name, '.', d - start);
            }
            let ext = path.substring_char(d + 1, n);
            assert(ext@ == name.subrange(d - start + 1, name.len() as int));
            Some(ext)
        },
        None => {
            proof {
                lemma_last_index_of(name, '.', -1);
            }
            None
        },
    }
}

/// The File Classifier: the language of a path, or `None` where the file is
/// skipped (no extension, or one that no grammar is registered for).
pub fn classify(path: &str) -> (r: Option<SourceLanguage>)
    ensures
        r == language_of_path(path@),
{
    match file_extension(path) {
        Some(ext) => language_by_file_type(ext),
        None => None,
    }
}

} // verus!
