//! The languages of code snippets, and the file extension that names each one's syntax.
use crate::text_util::str_eq;
use vstd::prelude::*;

verus! {

/// The language of a code snippet.
#[derive(Clone, Debug, PartialEq, Eq)]
pub enum SnippetLanguage {
    Ada,
    Asp,
    Awk,
    Bash,
    BatchFile,
    C,
    CMake,
    CSharp,
    Clojure,
    Cpp,
    Crontab,
    Css,
    DLang,
    Diff,
    Docker,
    Dotenv,
    Elixir,
    Elm,
    Erlang,
    Fish,
    Go,
    Haskell,
    Html,
    Java,
    JavaScript,
    Json,
    Kotlin,
    Latex,
    Lua,
    Makefile,
    Markdown,
    Mermaid,
    Nix,
    Nushell,
    OCaml,
    Perl,
    Php,
    Protobuf,
    Puppet,
    Python,
    R,
    Ruby,
    Rust,
    RustScript,
    Scala,
    Shell,
    Sql,
    Swift,
    Svelte,
    Terraform,
    TypeScript,
    Typst,
    Vue,
    Xml,
    Yaml,
    Zsh,
    Zig,
    /// A language with no syntax of its own.
    Unknown(String),
}

/// The file extension whose syntax highlights a language; plain text for the languages without
/// a syntax of their own, so that they look the same.
pub open spec fn extension_of(language: SnippetLanguage) -> Seq<char> {
    match language {
        SnippetLanguage::Ada => "adb"@,
        SnippetLanguage::Asp => "asa"@,
        SnippetLanguage::Awk => "awk"@,
        SnippetLanguage::Bash => "sh"@,
        SnippetLanguage::BatchFile => "bat"@,
        SnippetLanguage::C => "c"@,
        SnippetLanguage::CMake => "cmake"@,
        SnippetLanguage::CSharp => "cs"@,
        SnippetLanguage::Clojure => "clj"@,
        SnippetLanguage::Cpp => "cpp"@,
        SnippetLanguage::Crontab => "crontab"@,
        SnippetLanguage::Css => "css"@,
        SnippetLanguage::DLang => "d"@,
        SnippetLanguage::Diff => "diff"@,
        SnippetLanguage::Docker => "Dockerfile"@,
        SnippetLanguage::Dotenv => "env"@,
        SnippetLanguage::Elixir => "ex"@,
        SnippetLanguage::Elm => "elm"@,
        SnippetLanguage::Erlang => "erl"@,
        SnippetLanguage::Fish => "fish"@,
        SnippetLanguage::Go => "go"@,
        SnippetLanguage::Haskell => "hs"@,
        SnippetLanguage::Html => "html"@,
        SnippetLanguage::Java => "java"@,
        SnippetLanguage::JavaScript => "js"@,
        SnippetLanguage::Json => "json"@,
        SnippetLanguage::Kotlin => "kt"@,
        SnippetLanguage::Latex => "tex"@,
        SnippetLanguage::Lua => "lua"@,
        SnippetLanguage::Makefile => "make"@,
        SnippetLanguage::Markdown => "md"@,
        SnippetLanguage::Mermaid => "txt"@,
        SnippetLanguage::Nix => "nix"@,
        SnippetLanguage::Nushell => "txt"@,
        SnippetLanguage::OCaml => "ml"@,
        SnippetLanguage::Perl => "pl"@,
        SnippetLanguage::Php => "php"@,
        SnippetLanguage::Protobuf => "proto"@,
        SnippetLanguage::Puppet => "pp"@,
        SnippetLanguage::Python => "py"@,
        SnippetLanguage::R => "r"@,
        SnippetLanguage::Ruby => "rb"@,
        SnippetLanguage::Rust => "rs"@,
        SnippetLanguage::RustScript => "rs"@,
        SnippetLanguage::Scala => "scala"@,
        SnippetLanguage::Shell => "sh"@,
        SnippetLanguage::Sql => "sql"@,
        SnippetLanguage::Swift => "swift"@,
        SnippetLanguage::Svelte => "svelte"@,
        SnippetLanguage::Terraform => "tf"@,
        SnippetLanguage::TypeScript => "ts"@,
        SnippetLanguage::Typst => "txt"@,
        SnippetLanguage::Vue => "vue"@,
        SnippetLanguage::Xml => "xml"@,
        SnippetLanguage::Yaml => "yaml"@,
        SnippetLanguage::Zsh => "sh"@,
        SnippetLanguage::Zig => "zig"@,
        SnippetLanguage::Unknown(_) => "txt"@,
    }
}

/// Whether the syntax set registers a file extension for a syntax: each extension selects the
/// syntax of one language, and `txt` plain text.
pub open spec fn registered_syntax(ext: Seq<char>, syntax: Seq<char>) -> bool {
    ||| ext == "adb"@ && syntax == "Ada"@
    ||| ext == "asa"@ && syntax == "ASP"@
    ||| ext == "awk"@ && syntax == "AWK"@
    ||| ext == "sh"@ && syntax == "Bourne Again Shell (bash)"@
    ||| ext == "bat"@ && syntax == "Batch File"@
    ||| ext == "c"@ && syntax == "C"@
    ||| ext == "cmake"@ && syntax == "CMake"@
    ||| ext == "cs"@ && syntax == "C#"@
    ||| ext == "clj"@ && syntax == "Clojure"@
    ||| ext == "cpp"@ && syntax == "C++"@
    ||| ext == "crontab"@ && syntax == "Crontab"@
    ||| ext == "css"@ && syntax == "CSS"@
    ||| ext == "d"@ && syntax == "D"@
    ||| ext == "diff"@ && syntax == "Diff"@
    ||| ext == "Dockerfile"@ && syntax == "Dockerfile"@
    ||| ext == "env"@ && syntax == "Dotenv"@
    ||| ext == "ex"@ && syntax == "Elixir"@
    ||| ext == "elm"@ && syntax == "Elm"@
    ||| ext == "erl"@ && syntax == "Erlang"@
    ||| ext == "fish"@ && syntax == "Fish"@
    ||| ext == "go"@ && syntax == "Go"@
    ||| ext == "hs"@ && syntax == "Haskell"@
    ||| ext == "html"@ && syntax == "HTML"@
    ||| ext == "java"@ && syntax == "Java"@
    ||| ext == "js"@ && syntax == "JavaScript"@
    ||| ext == "json"@ && syntax == "JSON"@
    ||| ext == "kt"@ && syntax == "Kotlin"@
    ||| ext == "tex"@ && syntax == "LaTeX"@
    ||| ext == "lua"@ && syntax == "Lua"@
    ||| ext == "make"@ && syntax == "Makefile"@
    ||| ext == "md"@ && syntax == "Markdown"@
    ||| ext == "txt"@ && syntax == "Plain Text"@
    ||| ext == "nix"@ && syntax == "Nix"@
    ||| ext == "ml"@ && syntax == "OCaml"@
    ||| ext == "pl"@ && syntax == "Perl"@
    ||| ext == "php"@ && syntax == "PHP"@
    ||| ext == "proto"@ && syntax == "Protocol Buffer"@
    ||| ext == "pp"@ && syntax == "Puppet"@
    ||| ext == "py"@ && syntax == "Python"@
    ||| ext == "r"@ && syntax == "R"@
    ||| ext == "rb"@ && syntax == "Ruby"@
    ||| ext == "rs"@ && syntax == "Rust"@
    ||| ext == "scala"@ && syntax == "Scala"@
    ||| ext == "sql"@ && syntax == "SQL"@
    ||| ext == "swift"@ && syntax == "Swift"@
    ||| ext == "svelte"@ && syntax == "Svelte"@
    ||| ext == "tf"@ && syntax == "Terraform"@
    ||| ext == "ts"@ && syntax == "TypeScript"@
    ||| ext == "vue"@ && syntax == "Vue"@
    ||| ext == "xml"@ && syntax == "XML"@
    ||| ext == "yaml"@ && syntax == "YAML"@
    ||| ext == "zig"@ && syntax == "Zig"@
}

/// The syntax that highlights a language: the language's own, the shell's for the shells,
/// Rust's for Rust scripts, and plain text for the languages that have none.
pub open spec fn language_syntax(language: SnippetLanguage) -> Seq<char> {
    match language {
        SnippetLanguage::Ada => "Ada"@,
        SnippetLanguage::Asp => "ASP"@,
        SnippetLanguage::Awk => "AWK"@,
        SnippetLanguage::Bash => "Bourne Again Shell (bash)"@,
        SnippetLanguage::BatchFile => "Batch File"@,
        SnippetLanguage::C => "C"@,
        SnippetLanguage::CMake => "CMake"@,
        SnippetLanguage::CSharp => "C#"@,
        SnippetLanguage::Clojure => "Clojure"@,
        SnippetLanguage::Cpp => "C++"@,
        SnippetLanguage::Crontab => "Crontab"@,
        SnippetLanguage::Css => "CSS"@,
        SnippetLanguage::DLang => "D"@,
        SnippetLanguage::Diff => "Diff"@,
        SnippetLanguage::Docker => "Dockerfile"@,
        SnippetLanguage::Dotenv => "Dotenv"@,
        SnippetLanguage::Elixir => "Elixir"@,
        SnippetLanguage::Elm => "Elm"@,
        SnippetLanguage::Erlang => "Erlang"@,
        SnippetLanguage::Fish => "Fish"@,
        SnippetLanguage::Go => "Go"@,
        SnippetLanguage::Haskell => "Haskell"@,
        SnippetLanguage::Html => "HTML"@,
        SnippetLanguage::Java => "Java"@,
        SnippetLanguage::JavaScript => "JavaScript"@,
        SnippetLanguage::Json => "JSON"@,
        SnippetLanguage::Kotlin => "Kotlin"@,
        SnippetLanguage::Latex => "LaTeX"@,
        SnippetLanguage::Lua => "Lua"@,
        SnippetLanguage::Makefile => "Makefile"@,
        SnippetLanguage::Markdown => "Markdown"@,
        SnippetLanguage::Mermaid => "Plain Text"@,
        SnippetLanguage::Nix => "Nix"@,
        SnippetLanguage::Nushell => "Plain Text"@,
        SnippetLanguage::OCaml => "OCaml"@,
        SnippetLanguage::Perl => "Perl"@,
        SnippetLanguage::Php => "PHP"@,
        SnippetLanguage::Protobuf => "Protocol Buffer"@,
        SnippetLanguage::Puppet => "Puppet"@,
        SnippetLanguage::Python => "Python"@,
        SnippetLanguage::R => "R"@,
        SnippetLanguage::Ruby => "Ruby"@,
        SnippetLanguage::Rust => "Rust"@,
        SnippetLanguage::RustScript => "Rust"@,
        SnippetLanguage::Scala => "Scala"@,
        SnippetLanguage::Shell => "Bourne Again Shell (bash)"@,
        SnippetLanguage::Sql => "SQL"@,
        SnippetLanguage::Swift => "Swift"@,
        SnippetLanguage::Svelte => "Svelte"@,
        SnippetLanguage::Terraform => "Terraform"@,
        SnippetLanguage::TypeScript => "TypeScript"@,
        SnippetLanguage::Typst => "Plain Text"@,
        SnippetLanguage::Vue => "Vue"@,
        SnippetLanguage::Xml => "XML"@,
        SnippetLanguage::Yaml => "YAML"@,
        SnippetLanguage::Zsh => "Bourne Again Shell (bash)"@,
        SnippetLanguage::Zig => "Zig"@,
        SnippetLanguage::Unknown(_) => "Plain Text"@,
    }
}

/// The extension chosen for a language is one the syntax set registers for that language's
/// syntax: a snippet is highlighted as the language it is written in.
pub proof fn lemma_extension_selects_the_language_syntax(language: SnippetLanguage)
    ensures
        registered_syntax(extension_of(language), language_syntax(language)),
{
    match language {
        SnippetLanguage::Ada => {},
        SnippetLanguage::Asp => {},
        SnippetLanguage::Awk => {},
        SnippetLanguage::Bash => {},
        SnippetLanguage::BatchFile => {},
        SnippetLanguage::C => {},
        SnippetLanguage::CMake => {},
        SnippetLanguage::CSharp => {},
        SnippetLanguage::Clojure => {},
        SnippetLanguage::Cpp => {},
        SnippetLanguage::Crontab => {},
        SnippetLanguage::Css => {},
        SnippetLanguage::DLang => {},
        SnippetLanguage::Diff => {},
        SnippetLanguage::Docker => {},
        SnippetLanguage::Dotenv => {},
        SnippetLanguage::Elixir => {},
        SnippetLanguage::Elm => {},
        SnippetLanguage::Erlang => {},
        SnippetLanguage::Fish => {},
        SnippetLanguage::Go => {},
        SnippetLanguage::Haskell => {},
        SnippetLanguage::Html => {},
        SnippetLanguage::Java => {},
        SnippetLanguage::JavaScript => {},
        SnippetLanguage::Json => {},
        SnippetLanguage::Kotlin => {},
        SnippetLanguage::Latex => {},
        SnippetLanguage::Lua => {},
        SnippetLanguage::Makefile => {},
        SnippetLanguage::Markdown => {},
        SnippetLanguage::Mermaid => {},
        SnippetLanguage::Nix => {},
        SnippetLanguage::Nushell => {},
        SnippetLanguage::OCaml => {},
        SnippetLanguage::Perl => {},
        SnippetLanguage::Php => {},
        SnippetLanguage::Protobuf => {},
        SnippetLanguage::Puppet => {},
        SnippetLanguage::Python => {},
        SnippetLanguage::R => {},
        SnippetLanguage::Ruby => {},
        SnippetLanguage::Rust => {},
        SnippetLanguage::RustScript => {},
        SnippetLanguage::Scala => {},
        SnippetLanguage::Shell => {},
        SnippetLanguage::Sql => {},
        SnippetLanguage::Swift => {},
        SnippetLanguage::Svelte => {},
        SnippetLanguage::Terraform => {},
        SnippetLanguage::TypeScript => {},
        SnippetLanguage::Typst => {},
        SnippetLanguage::Vue => {},
        SnippetLanguage::Xml => {},
        SnippetLanguage::Yaml => {},
        SnippetLanguage::Zsh => {},
        SnippetLanguage::Zig => {},
        SnippetLanguage::Unknown(_) => {},
    }
}

/// Highlights code snippets.
#[derive(Clone, Copy, Debug, PartialEq, Eq, Structural)]
pub struct CodeHighlighter;

impl CodeHighlighter {
    /// The file extension whose syntax highlights a language.
    pub fn language_extension(language: &SnippetLanguage) -> (e: &'static str)
        ensures
            e@ == extension_of(*language),
    {
        match language {
            SnippetLanguage::Ada => "adb",
            SnippetLanguage::Asp => "asa",
            SnippetLanguage::Awk => "awk",
            SnippetLanguage::Bash => "sh",
            SnippetLanguage::BatchFile => "bat",
            SnippetLanguage::C => "c",
            SnippetLanguage::CMake => "cmake",
            SnippetLanguage::CSharp => "cs",
            SnippetLanguage::Clojure => "clj",
            SnippetLanguage::Cpp => "cpp",
            SnippetLanguage::Crontab => "crontab",
            SnippetLanguage::Css => "css",
            SnippetLanguage::DLang => "d",
            SnippetLanguage::Diff => "diff",
            SnippetLanguage::Docker => "Dockerfile",
            SnippetLanguage::Dotenv => "env",
            SnippetLanguage::Elixir => "ex",
            SnippetLanguage::Elm => "elm",
            SnippetLanguage::Erlang => "erl",
            SnippetLanguage::Fish => "fish",
            SnippetLanguage::Go => "go",
            SnippetLanguage::Haskell => "hs",
            SnippetLanguage::Html => "html",
            SnippetLanguage::Java => "java",
            SnippetLanguage::JavaScript => "js",
            SnippetLanguage::Json => "json",
            SnippetLanguage::Kotlin => "kt",
            SnippetLanguage::Latex => "tex",
            SnippetLanguage::Lua => "lua",
            SnippetLanguage::Makefile => "make",
            SnippetLanguage::Markdown => "md",
            SnippetLanguage::Mermaid => "txt",
            SnippetLanguage::Nix => "nix",
            SnippetLanguage::Nushell => "txt",
            SnippetLanguage::OCaml => "ml",
            SnippetLanguage::Perl => "pl",
            SnippetLanguage::Php => "php",
            SnippetLanguage::Protobuf => "proto",
            SnippetLanguage::Puppet => "pp",
            SnippetLanguage::Python => "py",
            SnippetLanguage::R => "r",
            SnippetLanguage::Ruby => "rb",
            SnippetLanguage::Rust => "rs",
            SnippetLanguage::RustScript => "rs",
            SnippetLanguage::Scala => "scala",
            SnippetLanguage::Shell => "sh",
            SnippetLanguage::Sql => "sql",
            SnippetLanguage::Swift => "swift",
            SnippetLanguage::Svelte => "svelte",
            SnippetLanguage::Terraform => "tf",
            SnippetLanguage::TypeScript => "ts",
            SnippetLanguage::Typst => "txt",
            SnippetLanguage::Vue => "vue",
            SnippetLanguage::Xml => "xml",
            SnippetLanguage::Yaml => "yaml",
            SnippetLanguage::Zsh => "sh",
            SnippetLanguage::Zig => "zig",
            SnippetLanguage::Unknown(_) => "txt",
        }
    }
}

/// Whether two languages are the same one; two languages without a syntax of their own are
/// the same when their names are.
pub open spec fn same_language_spec(a: SnippetLanguage, b: SnippetLanguage) -> bool {
    match (a, b) {
        (SnippetLanguage::Unknown(x), SnippetLanguage::Unknown(y)) => x@ == y@,
        _ => a == b,
    }
}

/// Whether two languages are the same one, as `same_language_spec` says.
pub fn same_language(a: &SnippetLanguage, b: &SnippetLanguage) -> (r: bool)
    ensures
        r == same_language_spec(*a, *b),
{
    match (a, b) {
        (SnippetLanguage::Unknown(x), SnippetLanguage::Unknown(y)) => str_eq(x.as_str(), y.as_str()),
        (SnippetLanguage::Ada, SnippetLanguage::Ada) => true,
        (SnippetLanguage::Asp, SnippetLanguage::Asp) => true,
        (SnippetLanguage::Awk, SnippetLanguage::Awk) => true,
        (SnippetLanguage::Bash, SnippetLanguage::Bash) => true,
        (SnippetLanguage::BatchFile, SnippetLanguage::BatchFile) => true,
        (SnippetLanguage::C, SnippetLanguage::C) => true,
        (SnippetLanguage::CMake, SnippetLanguage::CMake) => true,
        (SnippetLanguage::CSharp, SnippetLanguage::CSharp) => true,
        (SnippetLanguage::Clojure, SnippetLanguage::Clojure) => true,
        (SnippetLanguage::Cpp, SnippetLanguage::Cpp) => true,
        (SnippetLanguage::Crontab, SnippetLanguage::Crontab) => true,
        (SnippetLanguage::Css, SnippetLanguage::Css) => true,
        (SnippetLanguage::DLang, SnippetLanguage::DLang) => true,
        (SnippetLanguage::Diff, SnippetLanguage::Diff) => true,
        (SnippetLanguage::Docker, SnippetLanguage::Docker) => true,
        (SnippetLanguage::Dotenv, SnippetLanguage::Dotenv) => true,
        (SnippetLanguage::Elixir, SnippetLanguage::Elixir) => true,
        (SnippetLanguage::Elm, SnippetLanguage::Elm) => true,
        (SnippetLanguage::Erlang, SnippetLanguage::Erlang) => true,
        (SnippetLanguage::Fish, SnippetLanguage::Fish) => true,
        (SnippetLanguage::Go, SnippetLanguage::Go) => true,
        (SnippetLanguage::Haskell, SnippetLanguage::Haskell) => true,
        (SnippetLanguage::Html, SnippetLanguage::Html) => true,
        (SnippetLanguage::Java, SnippetLanguage::Java) => true,
        (SnippetLanguage::JavaScript, SnippetLanguage::JavaScript) => true,
        (SnippetLanguage::Json, SnippetLanguage::Json) => true,
        (SnippetLanguage::Kotlin, SnippetLanguage::Kotlin) => true,
        (SnippetLanguage::Latex, SnippetLanguage::Latex) => true,
        (SnippetLanguage::Lua, SnippetLanguage::Lua) => true,
        (SnippetLanguage::Makefile, SnippetLanguage::Makefile) => true,
        (SnippetLanguage::Markdown, SnippetLanguage::Markdown) => true,
        (SnippetLanguage::Mermaid, SnippetLanguage::Mermaid) => true,
        (SnippetLanguage::Nix, SnippetLanguage::Nix) => true,
        (SnippetLanguage::Nushell, SnippetLanguage::Nushell) => true,
        (SnippetLanguage::OCaml, SnippetLanguage::OCaml) => true,
        (SnippetLanguage::Perl, SnippetLanguage::Perl) => true,
        (SnippetLanguage::Php, SnippetLanguage::Php) => true,
        (SnippetLanguage::Protobuf, SnippetLanguage::Protobuf) => true,
        (SnippetLanguage::Puppet, SnippetLanguage::Puppet) => true,
        (SnippetLanguage::Python, SnippetLanguage::Python) => true,
        (SnippetLanguage::R, SnippetLanguage::R) => true,
        (SnippetLanguage::Ruby, SnippetLanguage::Ruby) => true,
        (SnippetLanguage::Rust, SnippetLanguage::Rust) => true,
        (SnippetLanguage::RustScript, SnippetLanguage::RustScript) => true,
        (SnippetLanguage::Scala, SnippetLanguage::Scala) => true,
        (SnippetLanguage::Shell, SnippetLanguage::Shell) => true,
        (SnippetLanguage::Sql, SnippetLanguage::Sql) => true,
        (SnippetLanguage::Swift, SnippetLanguage::Swift) => true,
        (SnippetLanguage::Svelte, SnippetLanguage::Svelte) => true,
        (SnippetLanguage::Terraform, SnippetLanguage::Terraform) => true,
        (SnippetLanguage::TypeScript, SnippetLanguage::TypeScript) => true,
        (SnippetLanguage::Typst, SnippetLanguage::Typst) => true,
        (SnippetLanguage::Vue, SnippetLanguage::Vue) => true,
        (SnippetLanguage::Xml, SnippetLanguage::Xml) => true,
        (SnippetLanguage::Yaml, SnippetLanguage::Yaml) => true,
        (SnippetLanguage::Zsh, SnippetLanguage::Zsh) => true,
        (SnippetLanguage::Zig, SnippetLanguage::Zig) => true,
        _ => false,
    }
}

} // verus!
