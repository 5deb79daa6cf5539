//! The grammar registry: each bundled grammar loaded once and shared
//! read-only for the whole scan.
use crate::language::{language_of_extension, language_by_file_type, SourceLanguage};
use tree_sitter::Language;
use vstd::prelude::*;

verus! {

#[verifier::external_type_specification]
#[verifier::external_body]
pub struct ExLanguage(tree_sitter::Language);

/// Relies on tree_sitter_typescript::LANGUAGE_TYPESCRIPT: the TypeScript grammar, turned into a
/// tree_sitter::Language by its `From` impl.
#[verifier::external_body]
fn typescript_grammar() -> (r: Grammar)
    ensures
        r.lang() == SourceLanguage::TypeScript,
{
    Grammar { language: tree_sitter_typescript::LANGUAGE_TYPESCRIPT.into(), tag: Ghost(SourceLanguage::TypeScript) }
}

/// Relies on tree_sitter_typescript::LANGUAGE_TSX: the TSX grammar, turned into a
/// tree_sitter::Language by its `From` impl.
#[verifier::external_body]
fn tsx_grammar() -> (r: Grammar)
    ensures
        r.lang() == SourceLanguage::Tsx,
{
    Grammar { language: tree_sitter_typescript::LANGUAGE_TSX.into(), tag: Ghost(SourceLanguage::Tsx) }
}

/// Relies on tree_sitter_rust::LANGUAGE: the Rust grammar, turned into a tree_sitter::Language
/// by its `From` impl.
#[verifier::external_body]
fn rust_grammar() -> (r: Grammar)
    ensures
        r.lang() == SourceLanguage::Rust,
{
    Grammar { language: tree_sitter_rust::LANGUAGE.into(), tag: Ghost(SourceLanguage::Rust) }
}

/// Relies on tree_sitter_c_sharp::LANGUAGE: the C# grammar, turned into a
/// tree_sitter::Language by its `From` impl.
#[verifier::external_body]
fn c_sharp_grammar() -> (r: Grammar)
    ensures
        r.lang() == SourceLanguage::CSharp,
{
    Grammar { language: tree_sitter_c_sharp::LANGUAGE.into(), tag: Ghost(SourceLanguage::CSharp) }
}

/// A loaded grammar, tagged with the language it parses.
pub struct Grammar {
    pub(crate) language: Language,
    pub(crate) tag: Ghost<SourceLanguage>,
}

impl Grammar {
    /// The language whose bundled grammar this is.
    pub closed spec fn lang(&self) -> SourceLanguage {
        self.tag@
    }

    /// The tree-sitter grammar itself.
    pub fn tree_sitter_language(&self) -> &Language {
        &self.language
    }
}

/// One loaded grammar per supported language.
pub struct GrammarRegistry {
    typescript: Grammar,
    tsx: Grammar,
    rust: Grammar,
    c_sharp: Grammar,
}

impl GrammarRegistry {
    /// Each slot holds the bundled grammar of its own language.
    #[verifier::type_invariant]
    spec fn slots_match(&self) -> bool {
        &&& self.typescript.lang() == SourceLanguage::TypeScript
        &&& self.tsx.lang() == SourceLanguage::Tsx
        &&& self.rust.lang() == SourceLanguage::Rust
        &&& self.c_sharp.lang() == SourceLanguage::CSharp
    }

    /// The grammar that this registry holds for `lang`.
    pub closed spec fn spec_grammar(&self, lang: SourceLanguage) -> Grammar {
        match lang {
            SourceLanguage::TypeScript => self.typescript,
            SourceLanguage::Tsx => self.tsx,
            SourceLanguage::Rust => self.rust,
            SourceLanguage::CSharp => self.c_sharp,
        }
    }

    /// Loads every bundled grammar.
    pub fn new() -> (r: GrammarRegistry)
        ensures
            forall|l: SourceLanguage| (#[trigger] r.spec_grammar(l)).lang() == l,
    {
        GrammarRegistry {
            typescript: typescript_grammar(),
            tsx: tsx_grammar(),
            rust: rust_grammar(),
            c_sharp: c_sharp_grammar(),
        }
    }

    /// The grammar registered for `lang`.
    pub fn grammar(&self, lang: SourceLanguage) -> (r: &Grammar)
        ensures
            *r == self.spec_grammar(lang),
            r.lang() == lang,
    {
        proof {
            use_type_invariant(self);
        }
        match lang {
            SourceLanguage::TypeScript => &self.typescript,
            SourceLanguage::Tsx => &self.tsx,
            SourceLanguage::Rust => &self.rust,
            SourceLanguage::CSharp => &self.c_sharp,
        }
    }

    /// The grammar registered for a file extension, or `None` for an
    /// extension that no grammar is registered for.
    pub fn lookup(&self, file_type: &str) -> (r: Option<&Grammar>)
        ensures
            r.is_some() == language_of_extension(file_type@).is_some(),
            r.is_some() ==> *r.unwrap() == self.spec_grammar(
                language_of_extension(file_type@).unwrap(),
            ),
    {
        match language_by_file_type(file_type) {
            Some(lang) => Some(self.grammar(lang)),
            None => None,
        }
    }
}

} // verus!
