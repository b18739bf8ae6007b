//! Plain text: the content as it is, with the language that the extension
//! suggests and the number of lines.

use crate::projection::{
    Confidence, Fetch, Fetched, Projection, ProjectionError, ProjectionOutput, Resource,
};
use crate::text::{count_lines, line_count};
use vstd::prelude::*;

verus! {

pub struct TextRaw;

/// The extensions of files that are known to hold text.
pub open spec fn text_extension(ext: Seq<char>) -> bool {
    ||| ext == "txt"@
    ||| ext == "rs"@
    ||| ext == "toml"@
    ||| ext == "json"@
    ||| ext == "yaml"@
    ||| ext == "yml"@
    ||| ext == "xml"@
    ||| ext == "html"@
    ||| ext == "css"@
    ||| ext == "js"@
    ||| ext == "ts"@
    ||| ext == "tsx"@
    ||| ext == "jsx"@
    ||| ext == "py"@
    ||| ext == "rb"@
    ||| ext == "go"@
    ||| ext == "c"@
    ||| ext == "cpp"@
    ||| ext == "h"@
    ||| ext == "hpp"@
    ||| ext == "java"@
    ||| ext == "kt"@
    ||| ext == "swift"@
    ||| ext == "sh"@
    ||| ext == "bash"@
    ||| ext == "zsh"@
    ||| ext == "fish"@
    ||| ext == "ps1"@
    ||| ext == "bat"@
    ||| ext == "cmd"@
    ||| ext == "sql"@
    ||| ext == "graphql"@
    ||| ext == "proto"@
    ||| ext == "lua"@
    ||| ext == "vim"@
    ||| ext == "el"@
    ||| ext == "clj"@
    ||| ext == "ex"@
    ||| ext == "exs"@
    ||| ext == "erl"@
    ||| ext == "hs"@
    ||| ext == "ml"@
    ||| ext == "mli"@
    ||| ext == "r"@
    ||| ext == "jl"@
    ||| ext == "nim"@
    ||| ext == "zig"@
    ||| ext == "v"@
    ||| ext == "d"@
    ||| ext == "ada"@
    ||| ext == "pas"@
    ||| ext == "f90"@
    ||| ext == "lisp"@
    ||| ext == "scm"@
    ||| ext == "rkt"@
    ||| ext == "conf"@
    ||| ext == "ini"@
    ||| ext == "cfg"@
    ||| ext == "env"@
    ||| ext == "lock"@
    ||| ext == "csv"@
    ||| ext == "tsv"@
    ||| ext == "log"@
    ||| ext == "diff"@
    ||| ext == "patch"@
    ||| ext == "nix"@
    ||| ext == "tf"@
    ||| ext == "dockerfile"@
    ||| ext == "makefile"@
}

/// Whether files with this extension are known to hold text.
pub fn is_text_extension(ext: &str) -> (r: bool)
    ensures
        r == text_extension(ext@),
{
    ext.eq("txt")
        || ext.eq("rs")
        || ext.eq("toml")
        || ext.eq("json")
        || ext.eq("yaml")
        || ext.eq("yml")
        || ext.eq("xml")
        || ext.eq("html")
        || ext.eq("css")
        || ext.eq("js")
        || ext.eq("ts")
        || ext.eq("tsx")
        || ext.eq("jsx")
        || ext.eq("py")
        || ext.eq("rb")
        || ext.eq("go")
        || ext.eq("c")
        || ext.eq("cpp")
        || ext.eq("h")
        || ext.eq("hpp")
        || ext.eq("java")
        || ext.eq("kt")
        || ext.eq("swift")
        || ext.eq("sh")
        || ext.eq("bash")
        || ext.eq("zsh")
        || ext.eq("fish")
        || ext.eq("ps1")
        || ext.eq("bat")
        || ext.eq("cmd")
        || ext.eq("sql")
        || ext.eq("graphql")
        || ext.eq("proto")
        || ext.eq("lua")
        || ext.eq("vim")
        || ext.eq("el")
        || ext.eq("clj")
        || ext.eq("ex")
        || ext.eq("exs")
        || ext.eq("erl")
        || ext.eq("hs")
        || ext.eq("ml")
        || ext.eq("mli")
        || ext.eq("r")
        || ext.eq("jl")
        || ext.eq("nim")
        || ext.eq("zig")
        || ext.eq("v")
        || ext.eq("d")
        || ext.eq("ada")
        || ext.eq("pas")
        || ext.eq("f90")
        || ext.eq("lisp")
        || ext.eq("scm")
        || ext.eq("rkt")
        || ext.eq("conf")
        || ext.eq("ini")
        || ext.eq("cfg")
        || ext.eq("env")
        || ext.eq("lock")
        || ext.eq("csv")
        || ext.eq("tsv")
        || ext.eq("log")
        || ext.eq("diff")
        || ext.eq("patch")
        || ext.eq("nix")
        || ext.eq("tf")
        || ext.eq("dockerfile")
        || ext.eq("makefile")
}

/// The language that an extension stands for, for highlighting.
pub open spec fn language_of(ext: Seq<char>) -> Option<Seq<char>> {
    if ext == "rs"@ {
        Some("rust"@)
    } else if ext == "py"@ {
        Some("python"@)
    } else if ext == "js"@ {
        Some("javascript"@)
    } else if ext == "ts"@ {
        Some("typescript"@)
    } else if ext == "tsx"@ {
        Some("tsx"@)
    } else if ext == "jsx"@ {
        Some("jsx"@)
    } else if ext == "rb"@ {
        Some("ruby"@)
    } else if ext == "go"@ {
        Some("go"@)
    } else if ext == "c"@ || ext == "h"@ {
        Some("c"@)
    } else if ext == "cpp"@ || ext == "hpp"@ {
        Some("cpp"@)
    } else if ext == "java"@ {
        Some("java"@)
    } else if ext == "kt"@ {
        Some("kotlin"@)
    } else if ext == "swift"@ {
        Some("swift"@)
    } else if ext == "sh"@ || ext == "bash"@ || ext == "zsh"@ || ext == "fish"@ {
        Some("bash"@)
    } else if ext == "sql"@ {
        Some("sql"@)
    } else if ext == "html"@ {
        Some("html"@)
    } else if ext == "css"@ {
        Some("css"@)
    } else if ext == "json"@ {
        Some("json"@)
    } else if ext == "yaml"@ || ext == "yml"@ {
        Some("yaml"@)
    } else if ext == "toml"@ {
        Some("toml"@)
    } else if ext == "xml"@ {
        Some("xml"@)
    } else if ext == "lua"@ {
        Some("lua"@)
    } else if ext == "nix"@ {
        Some("nix"@)
    } else if ext == "hs"@ {
        Some("haskell"@)
    } else if ext == "ex"@ || ext == "exs"@ {
        Some("elixir"@)
    } else if ext == "erl"@ {
        Some("erlang"@)
    } else if ext == "r"@ {
        Some("r"@)
    } else if ext == "jl"@ {
        Some("julia"@)
    } else if ext == "diff"@ || ext == "patch"@ {
        Some("diff"@)
    } else {
        None
    }
}

/// The language of a resource: that of its extension, if it has one.
pub open spec fn language_for(extension: Option<Seq<char>>) -> Option<Seq<char>> {
    match extension {
        Some(ext) => language_of(ext),
        None => None,
    }
}

/// A text that may be missing, as plain characters.
pub open spec fn text_of(o: Option<String>) -> Option<Seq<char>> {
    match o {
        Some(t) => Some(t@),
        None => None,
    }
}

/// The score of the plain-text projection: 800 for a file with a known
/// text extension, 300 for a file without extension, 0 otherwise.
pub open spec fn text_score(is_dir: bool, extension: Option<Seq<char>>) -> nat {
    if is_dir {
        0
    } else {
        match extension {
            Some(ext) => if text_extension(ext) {
                800
            } else {
                0
            },
            None => 300,
        }
    }
}

impl TextRaw {
    /// Names the language of files with the given extension, if the
    /// extension is one of those that the library knows.
    pub fn detect_language(ext: &str) -> (r: Option<String>)
        ensures
            text_of(r) == language_of(ext@),
    {
        if ext.eq("rs") {
            Some("rust".to_owned())
        } else if ext.eq("py") {
            Some("python".to_owned())
        } else if ext.eq("js") {
            Some("javascript".to_owned())
        } else if ext.eq("ts") {
            Some("typescript".to_owned())
        } else if ext.eq("tsx") {
            Some("tsx".to_owned())
        } else if ext.eq("jsx") {
            Some("jsx".to_owned())
        } else if ext.eq("rb") {
            Some("ruby".to_owned())
        } else if ext.eq("go") {
            Some("go".to_owned())
        } else if ext.eq("c") || ext.eq("h") {
            Some("c".to_owned())
        } else if ext.eq("cpp") || ext.eq("hpp") {
            Some("cpp".to_owned())
        } else if ext.eq("java") {
            Some("java".to_owned())
        } else if ext.eq("kt") {
            Some("kotlin".to_owned())
        } else if ext.eq("swift") {
            Some("swift".to_owned())
        } else if ext.eq("sh") || ext.eq("bash") || ext.eq("zsh") || ext.eq("fish") {
            Some("bash".to_owned())
        } else if ext.eq("sql") {
            Some("sql".to_owned())
        } else if ext.eq("html") {
            Some("html".to_owned())
        } else if ext.eq("css") {
            Some("css".to_owned())
        } else if ext.eq("json") {
            Some("json".to_owned())
        } else if ext.eq("yaml") || ext.eq("yml") {
            Some("yaml".to_owned())
        } else if ext.eq("toml") {
            Some("toml".to_owned())
        } else if ext.eq("xml") {
            Some("xml".to_owned())
        } else if ext.eq("lua") {
            Some("lua".to_owned())
        } else if ext.eq("nix") {
            Some("nix".to_owned())
        } else if ext.eq("hs") {
            Some("haskell".to_owned())
        } else if ext.eq("ex") || ext.eq("exs") {
            Some("elixir".to_owned())
        } else if ext.eq("erl") {
            Some("erlang".to_owned())
        } else if ext.eq("r") {
            Some("r".to_owned())
        } else if ext.eq("jl") {
            Some("julia".to_owned())
        } else if ext.eq("diff") || ext.eq("patch") {
            Some("diff".to_owned())
        } else {
            None
        }
    }

    /// Renders a text: the content itself, the language of the resource's
    /// extension and the number of lines.
    pub fn render(resource: &Resource, content: String) -> (out: ProjectionOutput)
        ensures
            out matches ProjectionOutput::Text { content: c, language, line_count: n } && c@
                == content@ && n == line_count(content@) && text_of(language) == language_for(
                resource.extension_text(),
            ),
    {
        let n = count_lines(content.as_str());
        let language = match &resource.extension {
            Some(ext) => TextRaw::detect_language(ext.as_str()),
            None => None,
        };
        ProjectionOutput::Text { content, language, line_count: n }
    }
}

impl Projection for TextRaw {
    fn id(&self) -> (r: &str)
        ensures
            r@ == "text.raw"@,
    {
        "text.raw"
    }

    fn name(&self) -> (r: &str)
        ensures
            r@ == "Plain Text"@,
    {
        "Plain Text"
    }

    fn confidence(&self, resource: &Resource) -> (c: Confidence)
        ensures
            c.value() == text_score(resource.is_dir, resource.extension_text()),
    {
        if resource.is_dir {
            return Confidence::from_permille(0);
        }
        match &resource.extension {
            Some(ext) => {
                if is_text_extension(ext.as_str()) {
                    Confidence::from_permille(800)
                } else {
                    Confidence::from_permille(0)
                }
            },
            None => Confidence::from_permille(300),
        }
    }

    fn needs(&self, resource: &Resource) -> (f: Fetch)
        ensures
            f == Fetch::Text,
    {
        Fetch::Text
    }

    fn project(&self, resource: &Resource, fetched: Fetched) -> (r: Result<
        ProjectionOutput,
        ProjectionError,
    >)
        ensures
            fetched is Text <==> r is Ok,
            r matches Err(e) ==> e is Unsupported,
            r matches Ok(out) ==> (out matches ProjectionOutput::Text {
                content,
                language,
                line_count: n,
            } && content@ == fetched->Text_0@ && n == line_count(content@) && text_of(language)
                == language_for(resource.extension_text())),
    {
        match fetched {
            Fetched::Text(content) => Ok(TextRaw::render(resource, content)),
            _ => Err(ProjectionError::Unsupported),
        }
    }
}

} // verus!
