use syntax_outline::language::{classify, file_extension, language_by_file_type, same_text, SourceLanguage};
use syntax_outline::scan::{select_source_files, SourceFile};

#[test]
fn registered_extensions_map_to_their_languages() {
    assert_eq!(language_by_file_type("ts"), Some(SourceLanguage::TypeScript));
    assert_eq!(language_by_file_type("tsx"), Some(SourceLanguage::Tsx));
    assert_eq!(language_by_file_type("rs"), Some(SourceLanguage::Rust));
    assert_eq!(language_by_file_type("cs"), Some(SourceLanguage::CSharp));
}

#[test]
fn unknown_extensions_are_absent() {
    assert_eq!(language_by_file_type("txt"), None);
    assert_eq!(language_by_file_type(""), None);
    assert_eq!(language_by_file_type("RS"), None);
    assert_eq!(language_by_file_type("r"), None);
    assert_eq!(language_by_file_type("rss"), None);
}

#[test]
fn same_text_compares_characters() {
    assert!(same_text("abc", "abc"));
    assert!(!same_text("abc", "abd"));
    assert!(!same_text("abc", "ab"));
    assert!(same_text("", ""));
}

#[test]
fn extension_is_taken_after_the_last_dot_of_the_file_name() {
    assert_eq!(file_extension("src/main.rs"), Some("rs"));
    assert_eq!(file_extension("a.tar.gz"), Some("gz"));
    assert_eq!(file_extension("types/index.d.ts"), Some("ts"));
    assert_eq!(file_extension("dir/foo."), Some(""));
    assert_eq!(file_extension("home/.bashrc"), Some("bashrc"));
}

#[test]
fn names_without_an_extension_have_none() {
    assert_eq!(file_extension("Makefile"), None);
    assert_eq!(file_extension("release.v2/README"), None);
    assert_eq!(file_extension(""), None);
}

#[test]
fn classify_picks_the_grammar_of_a_path() {
    assert_eq!(classify("./a.rs"), Some(SourceLanguage::Rust));
    assert_eq!(classify("web/app.tsx"), Some(SourceLanguage::Tsx));
    assert_eq!(classify("web/index.d.ts"), Some(SourceLanguage::TypeScript));
    assert_eq!(classify("Program.cs"), Some(SourceLanguage::CSharp));
    assert_eq!(classify("notes.txt"), None);
    assert_eq!(classify("LIB.RS"), None);
    assert_eq!(classify("rs"), None);
    assert_eq!(classify("src/.rs"), Some(SourceLanguage::Rust));
}

#[test]
fn one_section_per_source_file() {
    let paths = vec![
        "./a.rs".to_string(),
        "./notes.txt".to_string(),
        "./web/b.tsx".to_string(),
        "./Makefile".to_string(),
        "./c.cs".to_string(),
    ];
    let plan = select_source_files(&paths);
    assert_eq!(
        plan,
        vec![
            SourceFile { index: 0, language: SourceLanguage::Rust },
            SourceFile { index: 2, language: SourceLanguage::Tsx },
            SourceFile { index: 4, language: SourceLanguage::CSharp },
        ]
    );
}

#[test]
fn a_directory_with_only_notes_has_no_sections() {
    let paths = vec!["./notes.txt".to_string()];
    assert!(select_source_files(&paths).is_empty());
    assert!(select_source_files(&Vec::new()).is_empty());
}
