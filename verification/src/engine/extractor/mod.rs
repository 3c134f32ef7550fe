//! Content extraction: which extractor a file goes to, the size limits that
//! guard the parsers, and turning document markup and raw bytes into plain
//! text.
pub mod decode;
pub mod markup;
pub mod office;

use vstd::prelude::*;
use crate::text::same_text;

verus! {

/// Largest file (and largest decompressed entry or text) whose content is
/// extracted: 50 MiB. Larger files are indexed by metadata only.
pub const MAX_EXTRACT_BYTES: u64 = 52_428_800;

/// The extractor a file goes to, by its (lowercase) extension.
#[derive(PartialEq, Eq, Structural, Clone, Copy, Debug)]
pub enum ExtractKind {
    /// Plain text or source code, encoding detected.
    Text,
    /// Word document (`docx`, `word`).
    Docx,
    /// Legacy WPS Writer document (`wps`).
    Wps,
    /// Legacy WPS Presentation (`dps`).
    Dps,
    /// Spreadsheet (`xlsx`, `xlsm`, WPS `et`).
    Xlsx,
    /// PowerPoint (`pptx`).
    Pptx,
    /// PDF.
    Pdf,
}

/// Extensions read as plain text.
pub open spec fn is_text_ext(e: Seq<char>) -> bool {
    ||| e == "txt"@ ||| e == "md"@ ||| e == "markdown"@ ||| e == "csv"@ ||| e == "log"@
    ||| e == "json"@ ||| e == "xml"@ ||| e == "html"@ ||| e == "htm"@ ||| e == "shtml"@
    ||| e == "yml"@ ||| e == "yaml"@ ||| e == "toml"@ ||| e == "ini"@ ||| e == "conf"@
    ||| e == "cfg"@ ||| e == "properties"@ ||| e == "env"@ ||| e == "py"@ ||| e == "rs"@
    ||| e == "js"@ ||| e == "ts"@ ||| e == "jsx"@ ||| e == "tsx"@ ||| e == "mjs"@
    ||| e == "cjs"@ ||| e == "c"@ ||| e == "cpp"@ ||| e == "h"@ ||| e == "hpp"@
    ||| e == "cs"@ ||| e == "java"@ ||| e == "go"@ ||| e == "sh"@ ||| e == "bash"@
    ||| e == "zsh"@ ||| e == "sql"@ ||| e == "r"@ ||| e == "rb"@ ||| e == "php"@
    ||| e == "swift"@ ||| e == "kt"@ ||| e == "scala"@ ||| e == "vue"@ ||| e == "css"@
    ||| e == "scss"@ ||| e == "less"@ ||| e == "graphql"@
}

/// The extensions read as plain text, as the supported-format list gives
/// them.
pub open spec fn text_extensions() -> Seq<Seq<char>> {
    seq![
        "txt"@,
        "md"@,
        "markdown"@,
        "csv"@,
        "log"@,
        "json"@,
        "xml"@,
        "html"@,
        "htm"@,
        "shtml"@,
        "yml"@,
        "yaml"@,
        "toml"@,
        "ini"@,
        "conf"@,
        "cfg"@,
        "properties"@,
        "env"@,
        "py"@,
        "rs"@,
        "js"@,
        "ts"@,
        "jsx"@,
        "tsx"@,
        "mjs"@,
        "cjs"@,
        "c"@,
        "cpp"@,
        "h"@,
        "hpp"@,
        "cs"@,
        "java"@,
        "go"@,
        "sh"@,
        "bash"@,
        "zsh"@,
        "sql"@,
        "r"@,
        "rb"@,
        "php"@,
        "swift"@,
        "kt"@,
        "scala"@,
        "vue"@,
        "css"@,
        "scss"@,
        "less"@,
        "graphql"@
    ]
}

/// The office and PDF formats with their extractors.
pub open spec fn document_formats() -> Seq<(Seq<char>, ExtractKind)> {
    seq![
        ("docx"@, ExtractKind::Docx),
        ("word"@, ExtractKind::Docx),
        ("wps"@, ExtractKind::Wps),
        ("dps"@, ExtractKind::Dps),
        ("xlsx"@, ExtractKind::Xlsx),
        ("xlsm"@, ExtractKind::Xlsx),
        ("et"@, ExtractKind::Xlsx),
        ("pptx"@, ExtractKind::Pptx),
        ("pdf"@, ExtractKind::Pdf),
    ]
}

proof fn lemma_kind_of_docx()
    ensures
        kind_of("docx"@) == Some(ExtractKind::Docx),
{
    reveal_strlit("docx");
    reveal_strlit("txt");
    assert("docx"@ != "txt"@) by { assert("docx"@.len() != "txt"@.len()); }
    reveal_strlit("md");
    assert("docx"@ != "md"@) by { assert("docx"@.len() != "md"@.len()); }
    reveal_strlit("markdown");
    assert("docx"@ != "markdown"@) by { assert("docx"@.len() != "markdown"@.len()); }
    reveal_strlit("csv");
    assert("docx"@ != "csv"@) by { assert("docx"@.len() != "csv"@.len()); }
    reveal_strlit("log");
    assert("docx"@ != "log"@) by { assert("docx"@.len() != "log"@.len()); }
    reveal_strlit("json");
    assert("docx"@ != "json"@) by { assert("docx"@[0] != "json"@[0]); }
    reveal_strlit("xml");
    assert("docx"@ != "xml"@) by { assert("docx"@.len() != "xml"@.len()); }
    reveal_strlit("html");
    assert("docx"@ != "html"@) by { assert("docx"@[0] != "html"@[0]); }
    reveal_strlit("htm");
    assert("docx"@ != "htm"@) by { assert("docx"@.len() != "htm"@.len()); }
    reveal_strlit("shtml");
    assert("docx"@ != "shtml"@) by { assert("docx"@.len() != "shtml"@.len()); }
    reveal_strlit("yml");
    assert("docx"@ != "yml"@) by { assert("docx"@.len() != "yml"@.len()); }
    reveal_strlit("yaml");
    assert("docx"@ != "yaml"@) by { assert("docx"@[0] != "yaml"@[0]); }
    reveal_strlit("toml");
    assert("docx"@ != "toml"@) by { assert("docx"@[0] != "toml"@[0]); }
    reveal_strlit("ini");
    assert("docx"@ != "ini"@) by { assert("docx"@.len() != "ini"@.len()); }
    reveal_strlit("conf");
    assert("docx"@ != "conf"@) by { assert("docx"@[0] != "conf"@[0]); }
    reveal_strlit("cfg");
    assert("docx"@ != "cfg"@) by { assert("docx"@.len() != "cfg"@.len()); }
    reveal_strlit("properties");
    assert("docx"@ != "properties"@) by { assert("docx"@.len() != "properties"@.len()); }
    reveal_strlit("env");
    assert("docx"@ != "env"@) by { assert("docx"@.len() != "env"@.len()); }
    reveal_strlit("py");
    assert("docx"@ != "py"@) by { assert("docx"@.len() != "py"@.len()); }
    reveal_strlit("rs");
    assert("docx"@ != "rs"@) by { assert("docx"@.len() != "rs"@.len()); }
    reveal_strlit("js");
    assert("docx"@ != "js"@) by { assert("docx"@.len() != "js"@.len()); }
    reveal_strlit("ts");
    assert("docx"@ != "ts"@) by { assert("docx"@.len() != "ts"@.len()); }
    reveal_strlit("jsx");
    assert("docx"@ != "jsx"@) by { assert("docx"@.len() != "jsx"@.len()); }
    reveal_strlit("tsx");
    assert("docx"@ != "tsx"@) by { assert("docx"@.len() != "tsx"@.len()); }
    reveal_strlit("mjs");
    assert("docx"@ != "mjs"@) by { assert("docx"@.len() != "mjs"@.len()); }
    reveal_strlit("cjs");
    assert("docx"@ != "cjs"@) by { assert("docx"@.len() != "cjs"@.len()); }
    reveal_strlit("c");
    assert("docx"@ != "c"@) by { assert("docx"@.len() != "c"@.len()); }
    reveal_strlit("cpp");
    assert("docx"@ != "cpp"@) by { assert("docx"@.len() != "cpp"@.len()); }
    reveal_strlit("h");
    assert("docx"@ != "h"@) by { assert("docx"@.len() != "h"@.len()); }
    reveal_strlit("hpp");
    assert("docx"@ != "hpp"@) by { assert("docx"@.len() != "hpp"@.len()); }
    reveal_strlit("cs");
    assert("docx"@ != "cs"@) by { assert("docx"@.len() != "cs"@.len()); }
    reveal_strlit("java");
    assert("docx"@ != "java"@) by { assert("docx"@[0] != "java"@[0]); }
    reveal_strlit("go");
    assert("docx"@ != "go"@) by { assert("docx"@.len() != "go"@.len()); }
    reveal_strlit("sh");
    assert("docx"@ != "sh"@) by { assert("docx"@.len() != "sh"@.len()); }
    reveal_strlit("bash");
    assert("docx"@ != "bash"@) by { assert("docx"@[0] != "bash"@[0]); }
    reveal_strlit("zsh");
    assert("docx"@ != "zsh"@) by { assert("docx"@.len() != "zsh"@.len()); }
    reveal_strlit("sql");
    assert("docx"@ != "sql"@) by { assert("docx"@.len() != "sql"@.len()); }
    reveal_strlit("r");
    assert("docx"@ != "r"@) by { assert("docx"@.len() != "r"@.len()); }
    reveal_strlit("rb");
    assert("docx"@ != "rb"@) by { assert("docx"@.len() != "rb"@.len()); }
    reveal_strlit("php");
    assert("docx"@ != "php"@) by { assert("docx"@.len() != "php"@.len()); }
    reveal_strlit("swift");
    assert("docx"@ != "swift"@) by { assert("docx"@.len() != "swift"@.len()); }
    reveal_strlit("kt");
    assert("docx"@ != "kt"@) by { assert("docx"@.len() != "kt"@.len()); }
    reveal_strlit("scala");
    assert("docx"@ != "scala"@) by { assert("docx"@.len() != "scala"@.len()); }
    reveal_strlit("vue");
    assert("docx"@ != "vue"@) by { assert("docx"@.len() != "vue"@.len()); }
    reveal_strlit("css");
    assert("docx"@ != "css"@) by { assert("docx"@.len() != "css"@.len()); }
    reveal_strlit("scss");
    assert("docx"@ != "scss"@) by { assert("docx"@[0] != "scss"@[0]); }
    reveal_strlit("less");
    assert("docx"@ != "less"@) by { assert("docx"@[0] != "less"@[0]); }
    reveal_strlit("graphql");
    assert("docx"@ != "graphql"@) by { assert("docx"@.len() != "graphql"@.len()); }
}

proof fn lemma_kind_of_word()
    ensures
        kind_of("word"@) == Some(ExtractKind::Docx),
{
    reveal_strlit("word");
    reveal_strlit("txt");
    assert("word"@ != "txt"@) by { assert("word"@.len() != "txt"@.len()); }
    reveal_strlit("md");
    assert("word"@ != "md"@) by { assert("word"@.len() != "md"@.len()); }
    reveal_strlit("markdown");
    assert("word"@ != "markdown"@) by { assert("word"@.len() != "markdown"@.len()); }
    reveal_strlit("csv");
    assert("word"@ != "csv"@) by { assert("word"@.len() != "csv"@.len()); }
    reveal_strlit("log");
    assert("word"@ != "log"@) by { assert("word"@.len() != "log"@.len()); }
    reveal_strlit("json");
    assert("word"@ != "json"@) by { assert("word"@[0] != "json"@[0]); }
    reveal_strlit("xml");
    assert("word"@ != "xml"@) by { assert("word"@.len() != "xml"@.len()); }
    reveal_strlit("html");
    assert("word"@ != "html"@) by { assert("word"@[0] != "html"@[0]); }
    reveal_strlit("htm");
    assert("word"@ != "htm"@) by { assert("word"@.len() != "htm"@.len()); }
    reveal_strlit("shtml");
    assert("word"@ != "shtml"@) by { assert("word"@.len() != "shtml"@.len()); }
    reveal_strlit("yml");
    assert("word"@ != "yml"@) by { assert("word"@.len() != "yml"@.len()); }
    reveal_strlit("yaml");
    assert("word"@ != "yaml"@) by { assert("word"@[0] != "yaml"@[0]); }
    reveal_strlit("toml");
    assert("word"@ != "toml"@) by { assert("word"@[0] != "toml"@[0]); }
    reveal_strlit("ini");
    assert("word"@ != "ini"@) by { assert("word"@.len() != "ini"@.len()); }
    reveal_strlit("conf");
    assert("word"@ != "conf"@) by { assert("word"@[0] != "conf"@[0]); }
    reveal_strlit("cfg");
    assert("word"@ != "cfg"@) by { assert("word"@.len() != "cfg"@.len()); }
    reveal_strlit("properties");
    assert("word"@ != "properties"@) by { assert("word"@.len() != "properties"@.len()); }
    reveal_strlit("env");
    assert("word"@ != "env"@) by { assert("word"@.len() != "env"@.len()); }
    reveal_strlit("py");
    assert("word"@ != "py"@) by { assert("word"@.len() != "py"@.len()); }
    reveal_strlit("rs");
    assert("word"@ != "rs"@) by { assert("word"@.len() != "rs"@.len()); }
    reveal_strlit("js");
    assert("word"@ != "js"@) by { assert("word"@.len() != "js"@.len()); }
    reveal_strlit("ts");
    assert("word"@ != "ts"@) by { assert("word"@.len() != "ts"@.len()); }
    reveal_strlit("jsx");
    assert("word"@ != "jsx"@) by { assert("word"@.len() != "jsx"@.len()); }
    reveal_strlit("tsx");
    assert("word"@ != "tsx"@) by { assert("word"@.len() != "tsx"@.len()); }
    reveal_strlit("mjs");
    assert("word"@ != "mjs"@) by { assert("word"@.len() != "mjs"@.len()); }
    reveal_strlit("cjs");
    assert("word"@ != "cjs"@) by { assert("word"@.len() != "cjs"@.len()); }
    reveal_strlit("c");
    assert("word"@ != "c"@) by { assert("word"@.len() != "c"@.len()); }
    reveal_strlit("cpp");
    assert("word"@ != "cpp"@) by { assert("word"@.len() != "cpp"@.len()); }
    reveal_strlit("h");
    assert("word"@ != "h"@) by { assert("word"@.len() != "h"@.len()); }
    reveal_strlit("hpp");
    assert("word"@ != "hpp"@) by { assert("word"@.len() != "hpp"@.len()); }
    reveal_strlit("cs");
    assert("word"@ != "cs"@) by { assert("word"@.len() != "cs"@.len()); }
    reveal_strlit("java");
    assert("word"@ != "java"@) by { assert("word"@[0] != "java"@[0]); }
    reveal_strlit("go");
    assert("word"@ != "go"@) by { assert("word"@.len() != "go"@.len()); }
    reveal_strlit("sh");
    assert("word"@ != "sh"@) by { assert("word"@.len() != "sh"@.len()); }
    reveal_strlit("bash");
    assert("word"@ != "bash"@) by { assert("word"@[0] != "bash"@[0]); }
    reveal_strlit("zsh");
    assert("word"@ != "zsh"@) by { assert("word"@.len() != "zsh"@.len()); }
    reveal_strlit("sql");
    assert("word"@ != "sql"@) by { assert("word"@.len() != "sql"@.len()); }
    reveal_strlit("r");
    assert("word"@ != "r"@) by { assert("word"@.len() != "r"@.len()); }
    reveal_strlit("rb");
    assert("word"@ != "rb"@) by { assert("word"@.len() != "rb"@.len()); }
    reveal_strlit("php");
    assert("word"@ != "php"@) by { assert("word"@.len() != "php"@.len()); }
    reveal_strlit("swift");
    assert("word"@ != "swift"@) by { assert("word"@.len() != "swift"@.len()); }
    reveal_strlit("kt");
    assert("word"@ != "kt"@) by { assert("word"@.len() != "kt"@.len()); }
    reveal_strlit("scala");
    assert("word"@ != "scala"@) by { assert("word"@.len() != "scala"@.len()); }
    reveal_strlit("vue");
    assert("word"@ != "vue"@) by { assert("word"@.len() != "vue"@.len()); }
    reveal_strlit("css");
    assert("word"@ != "css"@) by { assert("word"@.len() != "css"@.len()); }
    reveal_strlit("scss");
    assert("word"@ != "scss"@) by { assert("word"@[0] != "scss"@[0]); }
    reveal_strlit("less");
    assert("word"@ != "less"@) by { assert("word"@[0] != "less"@[0]); }
    reveal_strlit("graphql");
    assert("word"@ != "graphql"@) by { assert("word"@.len() != "graphql"@.len()); }
    reveal_strlit("docx");
    assert("word"@ != "docx"@) by { assert("word"@[0] != "docx"@[0]); }
}

proof fn lemma_kind_of_wps()
    ensures
        kind_of("wps"@) == Some(ExtractKind::Wps),
{
    reveal_strlit("wps");
    reveal_strlit("txt");
    assert("wps"@ != "txt"@) by { assert("wps"@[0] != "txt"@[0]); }
    reveal_strlit("md");
    assert("wps"@ != "md"@) by { assert("wps"@.len() != "md"@.len()); }
    reveal_strlit("markdown");
    assert("wps"@ != "markdown"@) by { assert("wps"@.len() != "markdown"@.len()); }
    reveal_strlit("csv");
    assert("wps"@ != "csv"@) by { assert("wps"@[0] != "csv"@[0]); }
    reveal_strlit("log");
    assert("wps"@ != "log"@) by { assert("wps"@[0] != "log"@[0]); }
    reveal_strlit("json");
    assert("wps"@ != "json"@) by { assert("wps"@.len() != "json"@.len()); }
    reveal_strlit("xml");
    assert("wps"@ != "xml"@) by { assert("wps"@[0] != "xml"@[0]); }
    reveal_strlit("html");
    assert("wps"@ != "html"@) by { assert("wps"@.len() != "html"@.len()); }
    reveal_strlit("htm");
    assert("wps"@ != "htm"@) by { assert("wps"@[0] != "htm"@[0]); }
    reveal_strlit("shtml");
    assert("wps"@ != "shtml"@) by { assert("wps"@.len() != "shtml"@.len()); }
    reveal_strlit("yml");
    assert("wps"@ != "yml"@) by { assert("wps"@[0] != "yml"@[0]); }
    reveal_strlit("yaml");
    assert("wps"@ != "yaml"@) by { assert("wps"@.len() != "yaml"@.len()); }
    reveal_strlit("toml");
    assert("wps"@ != "toml"@) by { assert("wps"@.len() != "toml"@.len()); }
    reveal_strlit("ini");
    assert("wps"@ != "ini"@) by { assert("wps"@[0] != "ini"@[0]); }
    reveal_strlit("conf");
    assert("wps"@ != "conf"@) by { assert("wps"@.len() != "conf"@.len()); }
    reveal_strlit("cfg");
    assert("wps"@ != "cfg"@) by { assert("wps"@[0] != "cfg"@[0]); }
    reveal_strlit("properties");
    assert("wps"@ != "properties"@) by { assert("wps"@.len() != "properties"@.len()); }
    reveal_strlit("env");
    assert("wps"@ != "env"@) by { assert("wps"@[0] != "env"@[0]); }
    reveal_strlit("py");
    assert("wps"@ != "py"@) by { assert("wps"@.len() != "py"@.len()); }
    reveal_strlit("rs");
    assert("wps"@ != "rs"@) by { assert("wps"@.len() != "rs"@.len()); }
    reveal_strlit("js");
    assert("wps"@ != "js"@) by { assert("wps"@.len() != "js"@.len()); }
    reveal_strlit("ts");
    assert("wps"@ != "ts"@) by { assert("wps"@.len() != "ts"@.len()); }
    reveal_strlit("jsx");
    assert("wps"@ != "jsx"@) by { assert("wps"@[0] != "jsx"@[0]); }
    reveal_strlit("tsx");
    assert("wps"@ != "tsx"@) by { assert("wps"@[0] != "tsx"@[0]); }
    reveal_strlit("mjs");
    assert("wps"@ != "mjs"@) by { assert("wps"@[0] != "mjs"@[0]); }
    reveal_strlit("cjs");
    assert("wps"@ != "cjs"@) by { assert("wps"@[0] != "cjs"@[0]); }
    reveal_strlit("c");
    assert("wps"@ != "c"@) by { assert("wps"@.len() != "c"@.len()); }
    reveal_strlit("cpp");
    assert("wps"@ != "cpp"@) by { assert("wps"@[0] != "cpp"@[0]); }
    reveal_strlit("h");
    assert("wps"@ != "h"@) by { assert("wps"@.len() != "h"@.len()); }
    reveal_strlit("hpp");
    assert("wps"@ != "hpp"@) by { assert("wps"@[0] != "hpp"@[0]); }
    reveal_strlit("cs");
    assert("wps"@ != "cs"@) by { assert("wps"@.len() != "cs"@.len()); }
    reveal_strlit("java");
    assert("wps"@ != "java"@) by { assert("wps"@.len() != "java"@.len()); }
    reveal_strlit("go");
    assert("wps"@ != "go"@) by { assert("wps"@.len() != "go"@.len()); }
    reveal_strlit("sh");
    assert("wps"@ != "sh"@) by { assert("wps"@.len() != "sh"@.len()); }
    reveal_strlit("bash");
    assert("wps"@ != "bash"@) by { assert("wps"@.len() != "bash"@.len()); }
    reveal_strlit("zsh");
    assert("wps"@ != "zsh"@) by { assert("wps"@[0] != "zsh"@[0]); }
    reveal_strlit("sql");
    assert("wps"@ != "sql"@) by { assert("wps"@[0] != "sql"@[0]); }
    reveal_strlit("r");
    assert("wps"@ != "r"@) by { assert("wps"@.len() != "r"@.len()); }
    reveal_strlit("rb");
    assert("wps"@ != "rb"@) by { assert("wps"@.len() != "rb"@.len()); }
    reveal_strlit("php");
    assert("wps"@ != "php"@) by { assert("wps"@[0] != "php"@[0]); }
    reveal_strlit("swift");
    assert("wps"@ != "swift"@) by { assert("wps"@.len() != "swift"@.len()); }
    reveal_strlit("kt");
    assert("wps"@ != "kt"@) by { assert("wps"@.len() != "kt"@.len()); }
    reveal_strlit("scala");
    assert("wps"@ != "scala"@) by { assert("wps"@.len() != "scala"@.len()); }
    reveal_strlit("vue");
    assert("wps"@ != "vue"@) by { assert("wps"@[0] != "vue"@[0]); }
    reveal_strlit("css");
    assert("wps"@ != "css"@) by { assert("wps"@[0] != "css"@[0]); }
    reveal_strlit("scss");
    assert("wps"@ != "scss"@) by { assert("wps"@.len() != "scss"@.len()); }
    reveal_strlit("less");
    assert("wps"@ != "less"@) by { assert("wps"@.len() != "less"@.len()); }
    reveal_strlit("graphql");
    assert("wps"@ != "graphql"@) by { assert("wps"@.len() != "graphql"@.len()); }
    reveal_strlit("docx");
    assert("wps"@ != "docx"@) by { assert("wps"@.len() != "docx"@.len()); }
    reveal_strlit("word");
    assert("wps"@ != "word"@) by { assert("wps"@.len() != "word"@.len()); }
}

proof fn lemma_kind_of_dps()
    ensures
        kind_of("dps"@) == Some(ExtractKind::Dps),
{
    reveal_strlit("dps");
    reveal_strlit("txt");
    assert("dps"@ != "txt"@) by { assert("dps"@[0] != "txt"@[0]); }
    reveal_strlit("md");
    assert("dps"@ != "md"@) by { assert("dps"@.len() != "md"@.len()); }
    reveal_strlit("markdown");
    assert("dps"@ != "markdown"@) by { assert("dps"@.len() != "markdown"@.len()); }
    reveal_strlit("csv");
    assert("dps"@ != "csv"@) by { assert("dps"@[0] != "csv"@[0]); }
    reveal_strlit("log");
    assert("dps"@ != "log"@) by { assert("dps"@[0] != "log"@[0]); }
    reveal_strlit("json");
    assert("dps"@ != "json"@) by { assert("dps"@.len() != "json"@.len()); }
    reveal_strlit("xml");
    assert("dps"@ != "xml"@) by { assert("dps"@[0] != "xml"@[0]); }
    reveal_strlit("html");
    assert("dps"@ != "html"@) by { assert("dps"@.len() != "html"@.len()); }
    reveal_strlit("htm");
    assert("dps"@ != "htm"@) by { assert("dps"@[0] != "htm"@[0]); }
    reveal_strlit("shtml");
    assert("dps"@ != "shtml"@) by { assert("dps"@.len() != "shtml"@.len()); }
    reveal_strlit("yml");
    assert("dps"@ != "yml"@) by { assert("dps"@[0] != "yml"@[0]); }
    reveal_strlit("yaml");
    assert("dps"@ != "yaml"@) by { assert("dps"@.len() != "yaml"@.len()); }
    reveal_strlit("toml");
    assert("dps"@ != "toml"@) by { assert("dps"@.len() != "toml"@.len()); }
    reveal_strlit("ini");
    assert("dps"@ != "ini"@) by { assert("dps"@[0] != "ini"@[0]); }
    reveal_strlit("conf");
    assert("dps"@ != "conf"@) by { assert("dps"@.len() != "conf"@.len()); }
    reveal_strlit("cfg");
    assert("dps"@ != "cfg"@) by { assert("dps"@[0] != "cfg"@[0]); }
    reveal_strlit("properties");
    assert("dps"@ != "properties"@) by { assert("dps"@.len() != "properties"@.len()); }
    reveal_strlit("env");
    assert("dps"@ != "env"@) by { assert("dps"@[0] != "env"@[0]); }
    reveal_strlit("py");
    assert("dps"@ != "py"@) by { assert("dps"@.len() != "py"@.len()); }
    reveal_strlit("rs");
    assert("dps"@ != "rs"@) by { assert("dps"@.len() != "rs"@.len()); }
    reveal_strlit("js");
    assert("dps"@ != "js"@) by { assert("dps"@.len() != "js"@.len()); }
    reveal_strlit("ts");
    assert("dps"@ != "ts"@) by { assert("dps"@.len() != "ts"@.len()); }
    reveal_strlit("jsx");
    assert("dps"@ != "jsx"@) by { assert("dps"@[0] != "jsx"@[0]); }
    reveal_strlit("tsx");
    assert("dps"@ != "tsx"@) by { assert("dps"@[0] != "tsx"@[0]); }
    reveal_strlit("mjs");
    assert("dps"@ != "mjs"@) by { assert("dps"@[0] != "mjs"@[0]); }
    reveal_strlit("cjs");
    assert("dps"@ != "cjs"@) by { assert("dps"@[0] != "cjs"@[0]); }
    reveal_strlit("c");
    assert("dps"@ != "c"@) by { assert("dps"@.len() != "c"@.len()); }
    reveal_strlit("cpp");
    assert("dps"@ != "cpp"@) by { assert("dps"@[0] != "cpp"@[0]); }
    reveal_strlit("h");
    assert("dps"@ != "h"@) by { assert("dps"@.len() != "h"@.len()); }
    reveal_strlit("hpp");
    assert("dps"@ != "hpp"@) by { assert("dps"@[0] != "hpp"@[0]); }
    reveal_strlit("cs");
    assert("dps"@ != "cs"@) by { assert("dps"@.len() != "cs"@.len()); }
    reveal_strlit("java");
    assert("dps"@ != "java"@) by { assert("dps"@.len() != "java"@.len()); }
    reveal_strlit("go");
    assert("dps"@ != "go"@) by { assert("dps"@.len() != "go"@.len()); }
    reveal_strlit("sh");
    assert("dps"@ != "sh"@) by { assert("dps"@.len() != "sh"@.len()); }
    reveal_strlit("bash");
    assert("dps"@ != "bash"@) by { assert("dps"@.len() != "bash"@.len()); }
    reveal_strlit("zsh");
    assert("dps"@ != "zsh"@) by { assert("dps"@[0] != "zsh"@[0]); }
    reveal_strlit("sql");
    assert("dps"@ != "sql"@) by { assert("dps"@[0] != "sql"@[0]); }
    reveal_strlit("r");
    assert("dps"@ != "r"@) by { assert("dps"@.len() != "r"@.len()); }
    reveal_strlit("rb");
    assert("dps"@ != "rb"@) by { assert("dps"@.len() != "rb"@.len()); }
    reveal_strlit("php");
    assert("dps"@ != "php"@) by { assert("dps"@[0] != "php"@[0]); }
    reveal_strlit("swift");
    assert("dps"@ != "swift"@) by { assert("dps"@.len() != "swift"@.len()); }
    reveal_strlit("kt");
    assert("dps"@ != "kt"@) by { assert("dps"@.len() != "kt"@.len()); }
    reveal_strlit("scala");
    assert("dps"@ != "scala"@) by { assert("dps"@.len() != "scala"@.len()); }
    reveal_strlit("vue");
    assert("dps"@ != "vue"@) by { assert("dps"@[0] != "vue"@[0]); }
    reveal_strlit("css");
    assert("dps"@ != "css"@) by { assert("dps"@[0] != "css"@[0]); }
    reveal_strlit("scss");
    assert("dps"@ != "scss"@) by { assert("dps"@.len() != "scss"@.len()); }
    reveal_strlit("less");
    assert("dps"@ != "less"@) by { assert("dps"@.len() != "less"@.len()); }
    reveal_strlit("graphql");
    assert("dps"@ != "graphql"@) by { assert("dps"@.len() != "graphql"@.len()); }
    reveal_strlit("docx");
    assert("dps"@ != "docx"@) by { assert("dps"@.len() != "docx"@.len()); }
    reveal_strlit("word");
    assert("dps"@ != "word"@) by { assert("dps"@.len() != "word"@.len()); }
    reveal_strlit("wps");
    assert("dps"@ != "wps"@) by { assert("dps"@[0] != "wps"@[0]); }
}

proof fn lemma_kind_of_xlsx()
    ensures
        kind_of("xlsx"@) == Some(ExtractKind::Xlsx),
{
    reveal_strlit("xlsx");
    reveal_strlit("txt");
    assert("xlsx"@ != "txt"@) by { assert("xlsx"@.len() != "txt"@.len()); }
    reveal_strlit("md");
    assert("xlsx"@ != "md"@) by { assert("xlsx"@.len() != "md"@.len()); }
    reveal_strlit("markdown");
    assert("xlsx"@ != "markdown"@) by { assert("xlsx"@.len() != "markdown"@.len()); }
    reveal_strlit("csv");
    assert("xlsx"@ != "csv"@) by { assert("xlsx"@.len() != "csv"@.len()); }
    reveal_strlit("log");
    assert("xlsx"@ != "log"@) by { assert("xlsx"@.len() != "log"@.len()); }
    reveal_strlit("json");
    assert("xlsx"@ != "json"@) by { assert("xlsx"@[0] != "json"@[0]); }
    reveal_strlit("xml");
    assert("xlsx"@ != "xml"@) by { assert("xlsx"@.len() != "xml"@.len()); }
    reveal_strlit("html");
    assert("xlsx"@ != "html"@) by { assert("xlsx"@[0] != "html"@[0]); }
    reveal_strlit("htm");
    assert("xlsx"@ != "htm"@) by { assert("xlsx"@.len() != "htm"@.len()); }
    reveal_strlit("shtml");
    assert("xlsx"@ != "shtml"@) by { assert("xlsx"@.len() != "shtml"@.len()); }
    reveal_strlit("yml");
    assert("xlsx"@ != "yml"@) by { assert("xlsx"@.len() != "yml"@.len()); }
    reveal_strlit("yaml");
    assert("xlsx"@ != "yaml"@) by { assert("xlsx"@[0] != "yaml"@[0]); }
    reveal_strlit("toml");
    assert("xlsx"@ != "toml"@) by { assert("xlsx"@[0] != "toml"@[0]); }
    reveal_strlit("ini");
    assert("xlsx"@ != "ini"@) by { assert("xlsx"@.len() != "ini"@.len()); }
    reveal_strlit("conf");
    assert("xlsx"@ != "conf"@) by { assert("xlsx"@[0] != "conf"@[0]); }
    reveal_strlit("cfg");
    assert("xlsx"@ != "cfg"@) by { assert("xlsx"@.len() != "cfg"@.len()); }
    reveal_strlit("properties");
    assert("xlsx"@ != "properties"@) by { assert("xlsx"@.len() != "properties"@.len()); }
    reveal_strlit("env");
    assert("xlsx"@ != "env"@) by { assert("xlsx"@.len() != "env"@.len()); }
    reveal_strlit("py");
    assert("xlsx"@ != "py"@) by { assert("xlsx"@.len() != "py"@.len()); }
    reveal_strlit("rs");
    assert("xlsx"@ != "rs"@) by { assert("xlsx"@.len() != "rs"@.len()); }
    reveal_strlit("js");
    assert("xlsx"@ != "js"@) by { assert("xlsx"@.len() != "js"@.len()); }
    reveal_strlit("ts");
    assert("xlsx"@ != "ts"@) by { assert("xlsx"@.len() != "ts"@.len()); }
    reveal_strlit("jsx");
    assert("xlsx"@ != "jsx"@) by { assert("xlsx"@.len() != "jsx"@.len()); }
    reveal_strlit("tsx");
    assert("xlsx"@ != "tsx"@) by { assert("xlsx"@.len() != "tsx"@.len()); }
    reveal_strlit("mjs");
    assert("xlsx"@ != "mjs"@) by { assert("xlsx"@.len() != "mjs"@.len()); }
    reveal_strlit("cjs");
    assert("xlsx"@ != "cjs"@) by { assert("xlsx"@.len() != "cjs"@.len()); }
    reveal_strlit("c");
    assert("xlsx"@ != "c"@) by { assert("xlsx"@.len() != "c"@.len()); }
    reveal_strlit("cpp");
    assert("xlsx"@ != "cpp"@) by { assert("xlsx"@.len() != "cpp"@.len()); }
    reveal_strlit("h");
    assert("xlsx"@ != "h"@) by { assert("xlsx"@.len() != "h"@.len()); }
    reveal_strlit("hpp");
    assert("xlsx"@ != "hpp"@) by { assert("xlsx"@.len() != "hpp"@.len()); }
    reveal_strlit("cs");
    assert("xlsx"@ != "cs"@) by { assert("xlsx"@.len() != "cs"@.len()); }
    reveal_strlit("java");
    assert("xlsx"@ != "java"@) by { assert("xlsx"@[0] != "java"@[0]); }
    reveal_strlit("go");
    assert("xlsx"@ != "go"@) by { assert("xlsx"@.len() != "go"@.len()); }
    reveal_strlit("sh");
    assert("xlsx"@ != "sh"@) by { assert("xlsx"@.len() != "sh"@.len()); }
    reveal_strlit("bash");
    assert("xlsx"@ != "bash"@) by { assert("xlsx"@[0] != "bash"@[0]); }
    reveal_strlit("zsh");
    assert("xlsx"@ != "zsh"@) by { assert("xlsx"@.len() != "zsh"@.len()); }
    reveal_strlit("sql");
    assert("xlsx"@ != "sql"@) by { assert("xlsx"@.len() != "sql"@.len()); }
    reveal_strlit("r");
    assert("xlsx"@ != "r"@) by { assert("xlsx"@.len() != "r"@.len()); }
    reveal_strlit("rb");
    assert("xlsx"@ != "rb"@) by { assert("xlsx"@.len() != "rb"@.len()); }
    reveal_strlit("php");
    assert("xlsx"@ != "php"@) by { assert("xlsx"@.len() != "php"@.len()); }
    reveal_strlit("swift");
    assert("xlsx"@ != "swift"@) by { assert("xlsx"@.len() != "swift"@.len()); }
    reveal_strlit("kt");
    assert("xlsx"@ != "kt"@) by { assert("xlsx"@.len() != "kt"@.len()); }
    reveal_strlit("scala");
    assert("xlsx"@ != "scala"@) by { assert("xlsx"@.len() != "scala"@.len()); }
    reveal_strlit("vue");
    assert("xlsx"@ != "vue"@) by { assert("xlsx"@.len() != "vue"@.len()); }
    reveal_strlit("css");
    assert("xlsx"@ != "css"@) by { assert("xlsx"@.len() != "css"@.len()); }
    reveal_strlit("scss");
    assert("xlsx"@ != "scss"@) by { assert("xlsx"@[0] != "scss"@[0]); }
    reveal_strlit("less");
    assert("xlsx"@ != "less"@) by { assert("xlsx"@[0] != "less"@[0]); }
    reveal_strlit("graphql");
    assert("xlsx"@ != "graphql"@) by { assert("xlsx"@.len() != "graphql"@.len()); }
    reveal_strlit("docx");
    assert("xlsx"@ != "docx"@) by { assert("xlsx"@[0] != "docx"@[0]); }
    reveal_strlit("word");
    assert("xlsx"@ != "word"@) by { assert("xlsx"@[0] != "word"@[0]); }
    reveal_strlit("wps");
    assert("xlsx"@ != "wps"@) by { assert("xlsx"@.len() != "wps"@.len()); }
    reveal_strlit("dps");
    assert("xlsx"@ != "dps"@) by { assert("xlsx"@.len() != "dps"@.len()); }
}

proof fn lemma_kind_of_xlsm()
    ensures
        kind_of("xlsm"@) == Some(ExtractKind::Xlsx),
{
    reveal_strlit("xlsm");
    reveal_strlit("txt");
    assert("xlsm"@ != "txt"@) by { assert("xlsm"@.len() != "txt"@.len()); }
    reveal_strlit("md");
    assert("xlsm"@ != "md"@) by { assert("xlsm"@.len() != "md"@.len()); }
    reveal_strlit("markdown");
    assert("xlsm"@ != "markdown"@) by { assert("xlsm"@.len() != "markdown"@.len()); }
    reveal_strlit("csv");
    assert("xlsm"@ != "csv"@) by { assert("xlsm"@.len() != "csv"@.len()); }
    reveal_strlit("log");
    assert("xlsm"@ != "log"@) by { assert("xlsm"@.len() != "log"@.len()); }
    reveal_strlit("json");
    assert("xlsm"@ != "json"@) by { assert("xlsm"@[0] != "json"@[0]); }
    reveal_strlit("xml");
    assert("xlsm"@ != "xml"@) by { assert("xlsm"@.len() != "xml"@.len()); }
    reveal_strlit("html");
    assert("xlsm"@ != "html"@) by { assert("xlsm"@[0] != "html"@[0]); }
    reveal_strlit("htm");
    assert("xlsm"@ != "htm"@) by { assert("xlsm"@.len() != "htm"@.len()); }
    reveal_strlit("shtml");
    assert("xlsm"@ != "shtml"@) by { assert("xlsm"@.len() != "shtml"@.len()); }
    reveal_strlit("yml");
    assert("xlsm"@ != "yml"@) by { assert("xlsm"@.len() != "yml"@.len()); }
    reveal_strlit("yaml");
    assert("xlsm"@ != "yaml"@) by { assert("xlsm"@[0] != "yaml"@[0]); }
    reveal_strlit("toml");
    assert("xlsm"@ != "toml"@) by { assert("xlsm"@[0] != "toml"@[0]); }
    reveal_strlit("ini");
    assert("xlsm"@ != "ini"@) by { assert("xlsm"@.len() != "ini"@.len()); }
    reveal_strlit("conf");
    assert("xlsm"@ != "conf"@) by { assert("xlsm"@[0] != "conf"@[0]); }
    reveal_strlit("cfg");
    assert("xlsm"@ != "cfg"@) by { assert("xlsm"@.len() != "cfg"@.len()); }
    reveal_strlit("properties");
    assert("xlsm"@ != "properties"@) by { assert("xlsm"@.len() != "properties"@.len()); }
    reveal_strlit("env");
    assert("xlsm"@ != "env"@) by { assert("xlsm"@.len() != "env"@.len()); }
    reveal_strlit("py");
    assert("xlsm"@ != "py"@) by { assert("xlsm"@.len() != "py"@.len()); }
    reveal_strlit("rs");
    assert("xlsm"@ != "rs"@) by { assert("xlsm"@.len() != "rs"@.len()); }
    reveal_strlit("js");
    assert("xlsm"@ != "js"@) by { assert("xlsm"@.len() != "js"@.len()); }
    reveal_strlit("ts");
    assert("xlsm"@ != "ts"@) by { assert("xlsm"@.len() != "ts"@.len()); }
    reveal_strlit("jsx");
    assert("xlsm"@ != "jsx"@) by { assert("xlsm"@.len() != "jsx"@.len()); }
    reveal_strlit("tsx");
    assert("xlsm"@ != "tsx"@) by { assert("xlsm"@.len() != "tsx"@.len()); }
    reveal_strlit("mjs");
    assert("xlsm"@ != "mjs"@) by { assert("xlsm"@.len() != "mjs"@.len()); }
    reveal_strlit("cjs");
    assert("xlsm"@ != "cjs"@) by { assert("xlsm"@.len() != "cjs"@.len()); }
    reveal_strlit("c");
    assert("xlsm"@ != "c"@) by { assert("xlsm"@.len() != "c"@.len()); }
    reveal_strlit("cpp");
    assert("xlsm"@ != "cpp"@) by { assert("xlsm"@.len() != "cpp"@.len()); }
    reveal_strlit("h");
    assert("xlsm"@ != "h"@) by { assert("xlsm"@.len() != "h"@.len()); }
    reveal_strlit("hpp");
    assert("xlsm"@ != "hpp"@) by { assert("xlsm"@.len() != "hpp"@.len()); }
    reveal_strlit("cs");
    assert("xlsm"@ != "cs"@) by { assert("xlsm"@.len() != "cs"@.len()); }
    reveal_strlit("java");
    assert("xlsm"@ != "java"@) by { assert("xlsm"@[0] != "java"@[0]); }
    reveal_strlit("go");
    assert("xlsm"@ != "go"@) by { assert("xlsm"@.len() != "go"@.len()); }
    reveal_strlit("sh");
    assert("xlsm"@ != "sh"@) by { assert("xlsm"@.len() != "sh"@.len()); }
    reveal_strlit("bash");
    assert("xlsm"@ != "bash"@) by { assert("xlsm"@[0] != "bash"@[0]); }
    reveal_strlit("zsh");
    assert("xlsm"@ != "zsh"@) by { assert("xlsm"@.len() != "zsh"@.len()); }
    reveal_strlit("sql");
    assert("xlsm"@ != "sql"@) by { assert("xlsm"@.len() != "sql"@.len()); }
    reveal_strlit("r");
    assert("xlsm"@ != "r"@) by { assert("xlsm"@.len() != "r"@.len()); }
    reveal_strlit("rb");
    assert("xlsm"@ != "rb"@) by { assert("xlsm"@.len() != "rb"@.len()); }
    reveal_strlit("php");
    assert("xlsm"@ != "php"@) by { assert("xlsm"@.len() != "php"@.len()); }
    reveal_strlit("swift");
    assert("xlsm"@ != "swift"@) by { assert("xlsm"@.len() != "swift"@.len()); }
    reveal_strlit("kt");
    assert("xlsm"@ != "kt"@) by { assert("xlsm"@.len() != "kt"@.len()); }
    reveal_strlit("scala");
    assert("xlsm"@ != "scala"@) by { assert("xlsm"@.len() != "scala"@.len()); }
    reveal_strlit("vue");
    assert("xlsm"@ != "vue"@) by { assert("xlsm"@.len() != "vue"@.len()); }
    reveal_strlit("css");
    assert("xlsm"@ != "css"@) by { assert("xlsm"@.len() != "css"@.len()); }
    reveal_strlit("scss");
    assert("xlsm"@ != "scss"@) by { assert("xlsm"@[0] != "scss"@[0]); }
    reveal_strlit("less");
    assert("xlsm"@ != "less"@) by { assert("xlsm"@[0] != "less"@[0]); }
    reveal_strlit("graphql");
    assert("xlsm"@ != "graphql"@) by { assert("xlsm"@.len() != "graphql"@.len()); }
    reveal_strlit("docx");
    assert("xlsm"@ != "docx"@) by { assert("xlsm"@[0] != "docx"@[0]); }
    reveal_strlit("word");
    assert("xlsm"@ != "word"@) by { assert("xlsm"@[0] != "word"@[0]); }
    reveal_strlit("wps");
    assert("xlsm"@ != "wps"@) by { assert("xlsm"@.len() != "wps"@.len()); }
    reveal_strlit("dps");
    assert("xlsm"@ != "dps"@) by { assert("xlsm"@.len() != "dps"@.len()); }
    reveal_strlit("xlsx");
    assert("xlsm"@ != "xlsx"@) by { assert("xlsm"@[3] != "xlsx"@[3]); }
}

proof fn lemma_kind_of_et()
    ensures
        kind_of("et"@) == Some(ExtractKind::Xlsx),
{
    reveal_strlit("et");
    reveal_strlit("txt");
    assert("et"@ != "txt"@) by { assert("et"@.len() != "txt"@.len()); }
    reveal_strlit("md");
    assert("et"@ != "md"@) by { assert("et"@[0] != "md"@[0]); }
    reveal_strlit("markdown");
    assert("et"@ != "markdown"@) by { assert("et"@.len() != "markdown"@.len()); }
    reveal_strlit("csv");
    assert("et"@ != "csv"@) by { assert("et"@.len() != "csv"@.len()); }
    reveal_strlit("log");
    assert("et"@ != "log"@) by { assert("et"@.len() != "log"@.len()); }
    reveal_strlit("json");
    assert("et"@ != "json"@) by { assert("et"@.len() != "json"@.len()); }
    reveal_strlit("xml");
    assert("et"@ != "xml"@) by { assert("et"@.len() != "xml"@.len()); }
    reveal_strlit("html");
    assert("et"@ != "html"@) by { assert("et"@.len() != "html"@.len()); }
    reveal_strlit("htm");
    assert("et"@ != "htm"@) by { assert("et"@.len() != "htm"@.len()); }
    reveal_strlit("shtml");
    assert("et"@ != "shtml"@) by { assert("et"@.len() != "shtml"@.len()); }
    reveal_strlit("yml");
    assert("et"@ != "yml"@) by { assert("et"@.len() != "yml"@.len()); }
    reveal_strlit("yaml");
    assert("et"@ != "yaml"@) by { assert("et"@.len() != "yaml"@.len()); }
    reveal_strlit("toml");
    assert("et"@ != "toml"@) by { assert("et"@.len() != "toml"@.len()); }
    reveal_strlit("ini");
    assert("et"@ != "ini"@) by { assert("et"@.len() != "ini"@.len()); }
    reveal_strlit("conf");
    assert("et"@ != "conf"@) by { assert("et"@.len() != "conf"@.len()); }
    reveal_strlit("cfg");
    assert("et"@ != "cfg"@) by { assert("et"@.len() != "cfg"@.len()); }
    reveal_strlit("properties");
    assert("et"@ != "properties"@) by { assert("et"@.len() != "properties"@.len()); }
    reveal_strlit("env");
    assert("et"@ != "env"@) by { assert("et"@.len() != "env"@.len()); }
    reveal_strlit("py");
    assert("et"@ != "py"@) by { assert("et"@[0] != "py"@[0]); }
    reveal_strlit("rs");
    assert("et"@ != "rs"@) by { assert("et"@[0] != "rs"@[0]); }
    reveal_strlit("js");
    assert("et"@ != "js"@) by { assert("et"@[0] != "js"@[0]); }
    reveal_strlit("ts");
    assert("et"@ != "ts"@) by { assert("et"@[0] != "ts"@[0]); }
    reveal_strlit("jsx");
    assert("et"@ != "jsx"@) by { assert("et"@.len() != "jsx"@.len()); }
    reveal_strlit("tsx");
    assert("et"@ != "tsx"@) by { assert("et"@.len() != "tsx"@.len()); }
    reveal_strlit("mjs");
    assert("et"@ != "mjs"@) by { assert("et"@.len() != "mjs"@.len()); }
    reveal_strlit("cjs");
    assert("et"@ != "cjs"@) by { assert("et"@.len() != "cjs"@.len()); }
    reveal_strlit("c");
    assert("et"@ != "c"@) by { assert("et"@.len() != "c"@.len()); }
    reveal_strlit("cpp");
    assert("et"@ != "cpp"@) by { assert("et"@.len() != "cpp"@.len()); }
    reveal_strlit("h");
    assert("et"@ != "h"@) by { assert("et"@.len() != "h"@.len()); }
    reveal_strlit("hpp");
    assert("et"@ != "hpp"@) by { assert("et"@.len() != "hpp"@.len()); }
    reveal_strlit("cs");
    assert("et"@ != "cs"@) by { assert("et"@[0] != "cs"@[0]); }
    reveal_strlit("java");
    assert("et"@ != "java"@) by { assert("et"@.len() != "java"@.len()); }
    reveal_strlit("go");
    assert("et"@ != "go"@) by { assert("et"@[0] != "go"@[0]); }
    reveal_strlit("sh");
    assert("et"@ != "sh"@) by { assert("et"@[0] != "sh"@[0]); }
    reveal_strlit("bash");
    assert("et"@ != "bash"@) by { assert("et"@.len() != "bash"@.len()); }
    reveal_strlit("zsh");
    assert("et"@ != "zsh"@) by { assert("et"@.len() != "zsh"@.len()); }
    reveal_strlit("sql");
    assert("et"@ != "sql"@) by { assert("et"@.len() != "sql"@.len()); }
    reveal_strlit("r");
    assert("et"@ != "r"@) by { assert("et"@.len() != "r"@.len()); }
    reveal_strlit("rb");
    assert("et"@ != "rb"@) by { assert("et"@[0] != "rb"@[0]); }
    reveal_strlit("php");
    assert("et"@ != "php"@) by { assert("et"@.len() != "php"@.len()); }
    reveal_strlit("swift");
    assert("et"@ != "swift"@) by { assert("et"@.len() != "swift"@.len()); }
    reveal_strlit("kt");
    assert("et"@ != "kt"@) by { assert("et"@[0] != "kt"@[0]); }
    reveal_strlit("scala");
    assert("et"@ != "scala"@) by { assert("et"@.len() != "scala"@.len()); }
    reveal_strlit("vue");
    assert("et"@ != "vue"@) by { assert("et"@.len() != "vue"@.len()); }
    reveal_strlit("css");
    assert("et"@ != "css"@) by { assert("et"@.len() != "css"@.len()); }
    reveal_strlit("scss");
    assert("et"@ != "scss"@) by { assert("et"@.len() != "scss"@.len()); }
    reveal_strlit("less");
    assert("et"@ != "less"@) by { assert("et"@.len() != "less"@.len()); }
    reveal_strlit("graphql");
    assert("et"@ != "graphql"@) by { assert("et"@.len() != "graphql"@.len()); }
    reveal_strlit("docx");
    assert("et"@ != "docx"@) by { assert("et"@.len() != "docx"@.len()); }
    reveal_strlit("word");
    assert("et"@ != "word"@) by { assert("et"@.len() != "word"@.len()); }
    reveal_strlit("wps");
    assert("et"@ != "wps"@) by { assert("et"@.len() != "wps"@.len()); }
    reveal_strlit("dps");
    assert("et"@ != "dps"@) by { assert("et"@.len() != "dps"@.len()); }
    reveal_strlit("xlsx");
    assert("et"@ != "xlsx"@) by { assert("et"@.len() != "xlsx"@.len()); }
    reveal_strlit("xlsm");
    assert("et"@ != "xlsm"@) by { assert("et"@.len() != "xlsm"@.len()); }
}

proof fn lemma_kind_of_pptx()
    ensures
        kind_of("pptx"@) == Some(ExtractKind::Pptx),
{
    reveal_strlit("pptx");
    reveal_strlit("txt");
    assert("pptx"@ != "txt"@) by { assert("pptx"@.len() != "txt"@.len()); }
    reveal_strlit("md");
    assert("pptx"@ != "md"@) by { assert("pptx"@.len() != "md"@.len()); }
    reveal_strlit("markdown");
    assert("pptx"@ != "markdown"@) by { assert("pptx"@.len() != "markdown"@.len()); }
    reveal_strlit("csv");
    assert("pptx"@ != "csv"@) by { assert("pptx"@.len() != "csv"@.len()); }
    reveal_strlit("log");
    assert("pptx"@ != "log"@) by { assert("pptx"@.len() != "log"@.len()); }
    reveal_strlit("json");
    assert("pptx"@ != "json"@) by { assert("pptx"@[0] != "json"@[0]); }
    reveal_strlit("xml");
    assert("pptx"@ != "xml"@) by { assert("pptx"@.len() != "xml"@.len()); }
    reveal_strlit("html");
    assert("pptx"@ != "html"@) by { assert("pptx"@[0] != "html"@[0]); }
    reveal_strlit("htm");
    assert("pptx"@ != "htm"@) by { assert("pptx"@.len() != "htm"@.len()); }
    reveal_strlit("shtml");
    assert("pptx"@ != "shtml"@) by { assert("pptx"@.len() != "shtml"@.len()); }
    reveal_strlit("yml");
    assert("pptx"@ != "yml"@) by { assert("pptx"@.len() != "yml"@.len()); }
    reveal_strlit("yaml");
    assert("pptx"@ != "yaml"@) by { assert("pptx"@[0] != "yaml"@[0]); }
    reveal_strlit("toml");
    assert("pptx"@ != "toml"@) by { assert("pptx"@[0] != "toml"@[0]); }
    reveal_strlit("ini");
    assert("pptx"@ != "ini"@) by { assert("pptx"@.len() != "ini"@.len()); }
    reveal_strlit("conf");
    assert("pptx"@ != "conf"@) by { assert("pptx"@[0] != "conf"@[0]); }
    reveal_strlit("cfg");
    assert("pptx"@ != "cfg"@) by { assert("pptx"@.len() != "cfg"@.len()); }
    reveal_strlit("properties");
    assert("pptx"@ != "properties"@) by { assert("pptx"@.len() != "properties"@.len()); }
    reveal_strlit("env");
    assert("pptx"@ != "env"@) by { assert("pptx"@.len() != "env"@.len()); }
    reveal_strlit("py");
    assert("pptx"@ != "py"@) by { assert("pptx"@.len() != "py"@.len()); }
    reveal_strlit("rs");
    assert("pptx"@ != "rs"@) by { assert("pptx"@.len() != "rs"@.len()); }
    reveal_strlit("js");
    assert("pptx"@ != "js"@) by { assert("pptx"@.len() != "js"@.len()); }
    reveal_strlit("ts");
    assert("pptx"@ != "ts"@) by { assert("pptx"@.len() != "ts"@.len()); }
    reveal_strlit("jsx");
    assert("pptx"@ != "jsx"@) by { assert("pptx"@.len() != "jsx"@.len()); }
    reveal_strlit("tsx");
    assert("pptx"@ != "tsx"@) by { assert("pptx"@.len() != "tsx"@.len()); }
    reveal_strlit("mjs");
    assert("pptx"@ != "mjs"@) by { assert("pptx"@.len() != "mjs"@.len()); }
    reveal_strlit("cjs");
    assert("pptx"@ != "cjs"@) by { assert("pptx"@.len() != "cjs"@.len()); }
    reveal_strlit("c");
    assert("pptx"@ != "c"@) by { assert("pptx"@.len() != "c"@.len()); }
    reveal_strlit("cpp");
    assert("pptx"@ != "cpp"@) by { assert("pptx"@.len() != "cpp"@.len()); }
    reveal_strlit("h");
    assert("pptx"@ != "h"@) by { assert("pptx"@.len() != "h"@.len()); }
    reveal_strlit("hpp");
    assert("pptx"@ != "hpp"@) by { assert("pptx"@.len() != "hpp"@.len()); }
    reveal_strlit("cs");
    assert("pptx"@ != "cs"@) by { assert("pptx"@.len() != "cs"@.len()); }
    reveal_strlit("java");
    assert("pptx"@ != "java"@) by { assert("pptx"@[0] != "java"@[0]); }
    reveal_strlit("go");
    assert("pptx"@ != "go"@) by { assert("pptx"@.len() != "go"@.len()); }
    reveal_strlit("sh");
    assert("pptx"@ != "sh"@) by { assert("pptx"@.len() != "sh"@.len()); }
    reveal_strlit("bash");
    assert("pptx"@ != "bash"@) by { assert("pptx"@[0] != "bash"@[0]); }
    reveal_strlit("zsh");
    assert("pptx"@ != "zsh"@) by { assert("pptx"@.len() != "zsh"@.len()); }
    reveal_strlit("sql");
    assert("pptx"@ != "sql"@) by { assert("pptx"@.len() != "sql"@.len()); }
    reveal_strlit("r");
    assert("pptx"@ != "r"@) by { assert("pptx"@.len() != "r"@.len()); }
    reveal_strlit("rb");
    assert("pptx"@ != "rb"@) by { assert("pptx"@.len() != "rb"@.len()); }
    reveal_strlit("php");
    assert("pptx"@ != "php"@) by { assert("pptx"@.len() != "php"@.len()); }
    reveal_strlit("swift");
    assert("pptx"@ != "swift"@) by { assert("pptx"@.len() != "swift"@.len()); }
    reveal_strlit("kt");
    assert("pptx"@ != "kt"@) by { assert("pptx"@.len() != "kt"@.len()); }
    reveal_strlit("scala");
    assert("pptx"@ != "scala"@) by { assert("pptx"@.len() != "scala"@.len()); }
    reveal_strlit("vue");
    assert("pptx"@ != "vue"@) by { assert("pptx"@.len() != "vue"@.len()); }
    reveal_strlit("css");
    assert("pptx"@ != "css"@) by { assert("pptx"@.len() != "css"@.len()); }
    reveal_strlit("scss");
    assert("pptx"@ != "scss"@) by { assert("pptx"@[0] != "scss"@[0]); }
    reveal_strlit("less");
    assert("pptx"@ != "less"@) by { assert("pptx"@[0] != "less"@[0]); }
    reveal_strlit("graphql");
    assert("pptx"@ != "graphql"@) by { assert("pptx"@.len() != "graphql"@.len()); }
    reveal_strlit("docx");
    assert("pptx"@ != "docx"@) by { assert("pptx"@[0] != "docx"@[0]); }
    reveal_strlit("word");
    assert("pptx"@ != "word"@) by { assert("pptx"@[0] != "word"@[0]); }
    reveal_strlit("wps");
    assert("pptx"@ != "wps"@) by { assert("pptx"@.len() != "wps"@.len()); }
    reveal_strlit("dps");
    assert("pptx"@ != "dps"@) by { assert("pptx"@.len() != "dps"@.len()); }
    reveal_strlit("xlsx");
    assert("pptx"@ != "xlsx"@) by { assert("pptx"@[0] != "xlsx"@[0]); }
    reveal_strlit("xlsm");
    assert("pptx"@ != "xlsm"@) by { assert("pptx"@[0] != "xlsm"@[0]); }
    reveal_strlit("et");
    assert("pptx"@ != "et"@) by { assert("pptx"@.len() != "et"@.len()); }
}

proof fn lemma_kind_of_pdf()
    ensures
        kind_of("pdf"@) == Some(ExtractKind::Pdf),
{
    reveal_strlit("pdf");
    reveal_strlit("txt");
    assert("pdf"@ != "txt"@) by { assert("pdf"@[0] != "txt"@[0]); }
    reveal_strlit("md");
    assert("pdf"@ != "md"@) by { assert("pdf"@.len() != "md"@.len()); }
    reveal_strlit("markdown");
    assert("pdf"@ != "markdown"@) by { assert("pdf"@.len() != "markdown"@.len()); }
    reveal_strlit("csv");
    assert("pdf"@ != "csv"@) by { assert("pdf"@[0] != "csv"@[0]); }
    reveal_strlit("log");
    assert("pdf"@ != "log"@) by { assert("pdf"@[0] != "log"@[0]); }
    reveal_strlit("json");
    assert("pdf"@ != "json"@) by { assert("pdf"@.len() != "json"@.len()); }
    reveal_strlit("xml");
    assert("pdf"@ != "xml"@) by { assert("pdf"@[0] != "xml"@[0]); }
    reveal_strlit("html");
    assert("pdf"@ != "html"@) by { assert("pdf"@.len() != "html"@.len()); }
    reveal_strlit("htm");
    assert("pdf"@ != "htm"@) by { assert("pdf"@[0] != "htm"@[0]); }
    reveal_strlit("shtml");
    assert("pdf"@ != "shtml"@) by { assert("pdf"@.len() != "shtml"@.len()); }
    reveal_strlit("yml");
    assert("pdf"@ != "yml"@) by { assert("pdf"@[0] != "yml"@[0]); }
    reveal_strlit("yaml");
    assert("pdf"@ != "yaml"@) by { assert("pdf"@.len() != "yaml"@.len()); }
    reveal_strlit("toml");
    assert("pdf"@ != "toml"@) by { assert("pdf"@.len() != "toml"@.len()); }
    reveal_strlit("ini");
    assert("pdf"@ != "ini"@) by { assert("pdf"@[0] != "ini"@[0]); }
    reveal_strlit("conf");
    assert("pdf"@ != "conf"@) by { assert("pdf"@.len() != "conf"@.len()); }
    reveal_strlit("cfg");
    assert("pdf"@ != "cfg"@) by { assert("pdf"@[0] != "cfg"@[0]); }
    reveal_strlit("properties");
    assert("pdf"@ != "properties"@) by { assert("pdf"@.len() != "properties"@.len()); }
    reveal_strlit("env");
    assert("pdf"@ != "env"@) by { assert("pdf"@[0] != "env"@[0]); }
    reveal_strlit("py");
    assert("pdf"@ != "py"@) by { assert("pdf"@.len() != "py"@.len()); }
    reveal_strlit("rs");
    assert("pdf"@ != "rs"@) by { assert("pdf"@.len() != "rs"@.len()); }
    reveal_strlit("js");
    assert("pdf"@ != "js"@) by { assert("pdf"@.len() != "js"@.len()); }
    reveal_strlit("ts");
    assert("pdf"@ != "ts"@) by { assert("pdf"@.len() != "ts"@.len()); }
    reveal_strlit("jsx");
    assert("pdf"@ != "jsx"@) by { assert("pdf"@[0] != "jsx"@[0]); }
    reveal_strlit("tsx");
    assert("pdf"@ != "tsx"@) by { assert("pdf"@[0] != "tsx"@[0]); }
    reveal_strlit("mjs");
    assert("pdf"@ != "mjs"@) by { assert("pdf"@[0] != "mjs"@[0]); }
    reveal_strlit("cjs");
    assert("pdf"@ != "cjs"@) by { assert("pdf"@[0] != "cjs"@[0]); }
    reveal_strlit("c");
    assert("pdf"@ != "c"@) by { assert("pdf"@.len() != "c"@.len()); }
    reveal_strlit("cpp");
    assert("pdf"@ != "cpp"@) by { assert("pdf"@[0] != "cpp"@[0]); }
    reveal_strlit("h");
    assert("pdf"@ != "h"@) by { assert("pdf"@.len() != "h"@.len()); }
    reveal_strlit("hpp");
    assert("pdf"@ != "hpp"@) by { assert("pdf"@[0] != "hpp"@[0]); }
    reveal_strlit("cs");
    assert("pdf"@ != "cs"@) by { assert("pdf"@.len() != "cs"@.len()); }
    reveal_strlit("java");
    assert("pdf"@ != "java"@) by { assert("pdf"@.len() != "java"@.len()); }
    reveal_strlit("go");
    assert("pdf"@ != "go"@) by { assert("pdf"@.len() != "go"@.len()); }
    reveal_strlit("sh");
    assert("pdf"@ != "sh"@) by { assert("pdf"@.len() != "sh"@.len()); }
    reveal_strlit("bash");
    assert("pdf"@ != "bash"@) by { assert("pdf"@.len() != "bash"@.len()); }
    reveal_strlit("zsh");
    assert("pdf"@ != "zsh"@) by { assert("pdf"@[0] != "zsh"@[0]); }
    reveal_strlit("sql");
    assert("pdf"@ != "sql"@) by { assert("pdf"@[0] != "sql"@[0]); }
    reveal_strlit("r");
    assert("pdf"@ != "r"@) by { assert("pdf"@.len() != "r"@.len()); }
    reveal_strlit("rb");
    assert("pdf"@ != "rb"@) by { assert("pdf"@.len() != "rb"@.len()); }
    reveal_strlit("php");
    assert("pdf"@ != "php"@) by { assert("pdf"@[1] != "php"@[1]); }
    reveal_strlit("swift");
    assert("pdf"@ != "swift"@) by { assert("pdf"@.len() != "swift"@.len()); }
    reveal_strlit("kt");
    assert("pdf"@ != "kt"@) by { assert("pdf"@.len() != "kt"@.len()); }
    reveal_strlit("scala");
    assert("pdf"@ != "scala"@) by { assert("pdf"@.len() != "scala"@.len()); }
    reveal_strlit("vue");
    assert("pdf"@ != "vue"@) by { assert("pdf"@[0] != "vue"@[0]); }
    reveal_strlit("css");
    assert("pdf"@ != "css"@) by { assert("pdf"@[0] != "css"@[0]); }
    reveal_strlit("scss");
    assert("pdf"@ != "scss"@) by { assert("pdf"@.len() != "scss"@.len()); }
    reveal_strlit("less");
    assert("pdf"@ != "less"@) by { assert("pdf"@.len() != "less"@.len()); }
    reveal_strlit("graphql");
    assert("pdf"@ != "graphql"@) by { assert("pdf"@.len() != "graphql"@.len()); }
    reveal_strlit("docx");
    assert("pdf"@ != "docx"@) by { assert("pdf"@.len() != "docx"@.len()); }
    reveal_strlit("word");
    assert("pdf"@ != "word"@) by { assert("pdf"@.len() != "word"@.len()); }
    reveal_strlit("wps");
    assert("pdf"@ != "wps"@) by { assert("pdf"@[0] != "wps"@[0]); }
    reveal_strlit("dps");
    assert("pdf"@ != "dps"@) by { assert("pdf"@[0] != "dps"@[0]); }
    reveal_strlit("xlsx");
    assert("pdf"@ != "xlsx"@) by { assert("pdf"@.len() != "xlsx"@.len()); }
    reveal_strlit("xlsm");
    assert("pdf"@ != "xlsm"@) by { assert("pdf"@.len() != "xlsm"@.len()); }
    reveal_strlit("et");
    assert("pdf"@ != "et"@) by { assert("pdf"@.len() != "et"@.len()); }
    reveal_strlit("pptx");
    assert("pdf"@ != "pptx"@) by { assert("pdf"@.len() != "pptx"@.len()); }
}

/// Every extension of the text list goes to the text extractor, and only
/// those do; each document format goes to its own extractor.
pub proof fn law_extractor_by_extension(e: Seq<char>)
    ensures
        forall|i: int| 0 <= i < text_extensions().len() ==> kind_of(#[trigger] text_extensions()[i]) == Some(ExtractKind::Text),
        kind_of(e) == Some(ExtractKind::Text) <==> text_extensions().contains(e),
        forall|i: int| 0 <= i < document_formats().len() ==> kind_of((#[trigger] document_formats()[i]).0) == Some(document_formats()[i].1),
{
    let l = text_extensions();
    assert(l[0] == "txt"@);
    assert(l[1] == "md"@);
    assert(l[2] == "markdown"@);
    assert(l[3] == "csv"@);
    assert(l[4] == "log"@);
    assert(l[5] == "json"@);
    assert(l[6] == "xml"@);
    assert(l[7] == "html"@);
    assert(l[8] == "htm"@);
    assert(l[9] == "shtml"@);
    assert(l[10] == "yml"@);
    assert(l[11] == "yaml"@);
    assert(l[12] == "toml"@);
    assert(l[13] == "ini"@);
    assert(l[14] == "conf"@);
    assert(l[15] == "cfg"@);
    assert(l[16] == "properties"@);
    assert(l[17] == "env"@);
    assert(l[18] == "py"@);
    assert(l[19] == "rs"@);
    assert(l[20] == "js"@);
    assert(l[21] == "ts"@);
    assert(l[22] == "jsx"@);
    assert(l[23] == "tsx"@);
    assert(l[24] == "mjs"@);
    assert(l[25] == "cjs"@);
    assert(l[26] == "c"@);
    assert(l[27] == "cpp"@);
    assert(l[28] == "h"@);
    assert(l[29] == "hpp"@);
    assert(l[30] == "cs"@);
    assert(l[31] == "java"@);
    assert(l[32] == "go"@);
    assert(l[33] == "sh"@);
    assert(l[34] == "bash"@);
    assert(l[35] == "zsh"@);
    assert(l[36] == "sql"@);
    assert(l[37] == "r"@);
    assert(l[38] == "rb"@);
    assert(l[39] == "php"@);
    assert(l[40] == "swift"@);
    assert(l[41] == "kt"@);
    assert(l[42] == "scala"@);
    assert(l[43] == "vue"@);
    assert(l[44] == "css"@);
    assert(l[45] == "scss"@);
    assert(l[46] == "less"@);
    assert(l[47] == "graphql"@);
    if kind_of(e) == Some(ExtractKind::Text) {
        assert(is_text_ext(e));
    }
    assert forall|i: int| 0 <= i < document_formats().len() implies kind_of(
        (#[trigger] document_formats()[i]).0,
    ) == Some(document_formats()[i].1) by {
        lemma_kind_of_docx();
        lemma_kind_of_word();
        lemma_kind_of_wps();
        lemma_kind_of_dps();
        lemma_kind_of_xlsx();
        lemma_kind_of_xlsm();
        lemma_kind_of_et();
        lemma_kind_of_pptx();
        lemma_kind_of_pdf();
    }
}

/// The extractor for a lowercase extension, if the format is supported.
pub open spec fn kind_of(e: Seq<char>) -> Option<ExtractKind> {
    if is_text_ext(e) {
        Some(ExtractKind::Text)
    } else if e == "docx"@ || e == "word"@ {
        Some(ExtractKind::Docx)
    } else if e == "wps"@ {
        Some(ExtractKind::Wps)
    } else if e == "dps"@ {
        Some(ExtractKind::Dps)
    } else if e == "xlsx"@ || e == "xlsm"@ || e == "et"@ {
        Some(ExtractKind::Xlsx)
    } else if e == "pptx"@ {
        Some(ExtractKind::Pptx)
    } else if e == "pdf"@ {
        Some(ExtractKind::Pdf)
    } else {
        None
    }
}

fn is_text_extension(e: &str) -> (b: bool)
    ensures
        b == is_text_ext(e@),
{
    same_text(e, "txt") || same_text(e, "md") || same_text(e, "markdown") || same_text(e, "csv")
        || same_text(e, "log") || same_text(e, "json") || same_text(e, "xml") || same_text(
        e,
        "html",
    ) || same_text(e, "htm") || same_text(e, "shtml") || same_text(e, "yml") || same_text(
        e,
        "yaml",
    ) || same_text(e, "toml") || same_text(e, "ini") || same_text(e, "conf") || same_text(
        e,
        "cfg",
    ) || same_text(e, "properties") || same_text(e, "env") || same_text(e, "py") || same_text(
        e,
        "rs",
    ) || same_text(e, "js") || same_text(e, "ts") || same_text(e, "jsx") || same_text(e, "tsx")
        || same_text(e, "mjs") || same_text(e, "cjs") || same_text(e, "c") || same_text(e, "cpp")
        || same_text(e, "h") || same_text(e, "hpp") || same_text(e, "cs") || same_text(e, "java")
        || same_text(e, "go") || same_text(e, "sh") || same_text(e, "bash") || same_text(e, "zsh")
        || same_text(e, "sql") || same_text(e, "r") || same_text(e, "rb") || same_text(e, "php")
        || same_text(e, "swift") || same_text(e, "kt") || same_text(e, "scala") || same_text(
        e,
        "vue",
    ) || same_text(e, "css") || same_text(e, "scss") || same_text(e, "less") || same_text(
        e,
        "graphql",
    )
}

/// The extractor for the lowercase extension `ext`.
pub fn extract_kind(ext: &str) -> (k: Option<ExtractKind>)
    ensures
        k == kind_of(ext@),
{
    if is_text_extension(ext) {
        Some(ExtractKind::Text)
    } else if same_text(ext, "docx") || same_text(ext, "word") {
        Some(ExtractKind::Docx)
    } else if same_text(ext, "wps") {
        Some(ExtractKind::Wps)
    } else if same_text(ext, "dps") {
        Some(ExtractKind::Dps)
    } else if same_text(ext, "xlsx") || same_text(ext, "xlsm") || same_text(ext, "et") {
        Some(ExtractKind::Xlsx)
    } else if same_text(ext, "pptx") {
        Some(ExtractKind::Pptx)
    } else if same_text(ext, "pdf") {
        Some(ExtractKind::Pdf)
    } else {
        None
    }
}

/// Which extractor, if any, a file with lowercase extension `ext` and
/// `size` bytes goes to: none for unsupported formats and for files over
/// [`MAX_EXTRACT_BYTES`].
pub fn plan_extraction(ext: &str, size: u64) -> (k: Option<ExtractKind>)
    ensures
        k == (if size > MAX_EXTRACT_BYTES {
            None
        } else {
            kind_of(ext@)
        }),
{
    if size > MAX_EXTRACT_BYTES {
        None
    } else {
        extract_kind(ext)
    }
}

} // verus!
