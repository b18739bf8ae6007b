use deskspace::projection::{
    Fetch, Fetched, Projection, ProjectionError, ProjectionOutput, Resource,
};
use deskspace::projections::dir_list::DirList;
use deskspace::projections::image_preview::{announce, is_image_extension, media_type_for, ImagePreview};
use deskspace::projections::text_raw::{is_text_extension, TextRaw};
use deskspace::projection::DirectoryEntry;
use deskspace::workspace::{DirEntry, WorkspaceError};

#[test]
fn resource_new_reads_the_extension_in_lowercase() {
    let r = Resource::new("docs/Guide.MD".to_string(), false);
    assert_eq!(r.path, "docs/Guide.MD");
    assert!(!r.is_dir);
    assert_eq!(r.extension, Some("md".to_string()));
    assert_eq!(Resource::new("a.TAR.GZ".to_string(), false).extension, Some("gz".to_string()));
    assert_eq!(Resource::new("Ä.ÄÖ".to_string(), false).extension, Some("äö".to_string()));
}

#[test]
fn resource_new_has_no_extension_for_directories_and_bare_names() {
    assert_eq!(Resource::new("src.d".to_string(), true).extension, None);
    assert!(Resource::new("src.d".to_string(), true).is_dir);
    assert_eq!(Resource::new("Makefile".to_string(), false).extension, None);
    assert_eq!(Resource::new(".gitignore".to_string(), false).extension, None);
    assert_eq!(Resource::new("".to_string(), false).extension, None);
    assert_eq!(Resource::new("name.".to_string(), false).extension, Some("".to_string()));
}

#[test]
fn dir_list_confidence_is_all_or_nothing() {
    let p = DirList;
    assert_eq!(p.id(), "dir.list");
    assert_eq!(p.name(), "Directory Listing");
    assert_eq!(p.confidence(&Resource::new("src".to_string(), true)).permille(), 1000);
    assert_eq!(p.confidence(&Resource::new("src".to_string(), false)).permille(), 0);
    assert_eq!(p.needs(&Resource::new("src".to_string(), true)), Fetch::Listing);
}

#[test]
fn dir_list_shows_entries_with_their_extensions() {
    let p = DirList;
    let listing = vec![
        DirEntry { name: "sub.d".to_string(), is_dir: true, size: 4096 },
        DirEntry { name: "Photo.JPG".to_string(), is_dir: false, size: 12 },
        DirEntry { name: "LICENSE".to_string(), is_dir: false, size: 7 },
    ];
    match p.project(&Resource::new("".to_string(), true), Fetched::Listing(listing)) {
        Ok(ProjectionOutput::DirectoryList { entries }) => {
            assert_eq!(entries.len(), 3);
            assert_eq!(entries[0].name, "sub.d");
            assert!(entries[0].is_dir);
            assert_eq!(entries[0].size, 4096);
            assert_eq!(entries[0].extension, None);
            assert_eq!(entries[1].name, "Photo.JPG");
            assert_eq!(entries[1].extension, Some("jpg".to_string()));
            assert_eq!(entries[1].size, 12);
            assert_eq!(entries[2].extension, None);
        }
        other => panic!("unexpected output: {:?}", other),
    }
}

#[test]
fn dir_list_refuses_what_is_no_listing() {
    let p = DirList;
    let r = Resource::new("".to_string(), true);
    assert!(matches!(p.project(&r, Fetched::Text("x".to_string())), Err(ProjectionError::Unsupported)));
    assert!(matches!(p.project(&r, Fetched::Nothing), Err(ProjectionError::Unsupported)));
}

#[test]
fn directory_entry_of_copies_the_entry() {
    let shown = DirectoryEntry::of(&DirEntry { name: "a.Rs".to_string(), is_dir: false, size: 3 });
    assert_eq!(shown.name, "a.Rs");
    assert_eq!(shown.size, 3);
    assert!(!shown.is_dir);
    assert_eq!(shown.extension, Some("rs".to_string()));
}

#[test]
fn text_raw_confidence_by_extension() {
    let p = TextRaw;
    assert_eq!(p.id(), "text.raw");
    assert_eq!(p.name(), "Plain Text");
    assert_eq!(p.confidence(&Resource::new("main.rs".to_string(), false)).permille(), 800);
    assert_eq!(p.confidence(&Resource::new("NOTES.TXT".to_string(), false)).permille(), 800);
    assert_eq!(p.confidence(&Resource::new("Makefile".to_string(), false)).permille(), 300);
    assert_eq!(p.confidence(&Resource::new("photo.png".to_string(), false)).permille(), 0);
    assert_eq!(p.confidence(&Resource::new("name.".to_string(), false)).permille(), 0);
    assert_eq!(p.confidence(&Resource::new("main.rs".to_string(), true)).permille(), 0);
    assert_eq!(p.confidence(&Resource::new("plain".to_string(), true)).permille(), 0);
}

#[test]
fn text_extensions_are_the_known_ones() {
    for ext in ["txt", "rs", "toml", "json", "yaml", "yml", "xml", "html", "css", "js", "ts", "tsx", "jsx", "py",
        "rb", "go", "c", "cpp", "h", "hpp", "java", "kt", "swift", "sh", "bash", "zsh", "fish", "ps1", "bat",
        "cmd", "sql", "graphql", "proto", "lua", "vim", "el", "clj", "ex", "exs", "erl", "hs", "ml", "mli", "r",
        "jl", "nim", "zig", "v", "d", "ada", "pas", "f90", "lisp", "scm", "rkt", "conf", "ini", "cfg", "env",
        "lock", "csv", "tsv", "log", "diff", "patch", "nix", "tf", "dockerfile", "makefile"] {
        assert!(is_text_extension(ext), "{} should count as text", ext);
    }
    for ext in ["", "md", "png", "RS", "tx", "txtx", "exe"] {
        assert!(!is_text_extension(ext), "{} should not count as text", ext);
    }
}

#[test]
fn detect_language_knows_its_table() {
    let cases = [
        ("rs", "rust"), ("py", "python"), ("js", "javascript"), ("ts", "typescript"), ("tsx", "tsx"),
        ("jsx", "jsx"), ("rb", "ruby"), ("go", "go"), ("c", "c"), ("h", "c"), ("cpp", "cpp"), ("hpp", "cpp"),
        ("java", "java"), ("kt", "kotlin"), ("swift", "swift"), ("sh", "bash"), ("bash", "bash"),
        ("zsh", "bash"), ("fish", "bash"), ("sql", "sql"), ("html", "html"), ("css", "css"), ("json", "json"),
        ("yaml", "yaml"), ("yml", "yaml"), ("toml", "toml"), ("xml", "xml"), ("lua", "lua"), ("nix", "nix"),
        ("hs", "haskell"), ("ex", "elixir"), ("exs", "elixir"), ("erl", "erlang"), ("r", "r"), ("jl", "julia"),
        ("diff", "diff"), ("patch", "diff"),
    ];
    for (ext, language) in cases {
        assert_eq!(TextRaw::detect_language(ext), Some(language.to_string()), "for {}", ext);
    }
    for ext in ["txt", "", "RS", "md", "csv", "rss"] {
        assert_eq!(TextRaw::detect_language(ext), None, "for {:?}", ext);
    }
}

#[test]
fn text_raw_projects_content_language_and_line_count() {
    let p = TextRaw;
    let r = Resource::new("src/Main.RS".to_string(), false);
    assert_eq!(p.needs(&r), Fetch::Text);
    match p.project(&r, Fetched::Text("fn main() {\n}\n".to_string())) {
        Ok(ProjectionOutput::Text { content, language, line_count }) => {
            assert_eq!(content, "fn main() {\n}\n");
            assert_eq!(language, Some("rust".to_string()));
            assert_eq!(line_count, 2);
        }
        other => panic!("unexpected output: {:?}", other),
    }
    match p.project(&Resource::new("LICENSE".to_string(), false), Fetched::Text("a\nb\nc".to_string())) {
        Ok(ProjectionOutput::Text { language, line_count, .. }) => {
            assert_eq!(language, None);
            assert_eq!(line_count, 3);
        }
        other => panic!("unexpected output: {:?}", other),
    }
    assert!(matches!(p.project(&r, Fetched::Nothing), Err(ProjectionError::Unsupported)));
}

#[test]
fn image_preview_confidence_by_extension() {
    let p = ImagePreview;
    assert_eq!(p.id(), "image.preview");
    assert_eq!(p.name(), "Image Preview");
    for name in ["a.png", "a.jpg", "a.jpeg", "a.gif", "a.webp", "a.svg", "A.PNG"] {
        assert_eq!(p.confidence(&Resource::new(name.to_string(), false)).permille(), 1000, "for {}", name);
    }
    assert_eq!(p.confidence(&Resource::new("a.bmp".to_string(), false)).permille(), 0);
    assert_eq!(p.confidence(&Resource::new("png".to_string(), false)).permille(), 0);
    assert_eq!(p.confidence(&Resource::new("a.png".to_string(), true)).permille(), 0);
    assert!(is_image_extension("svg"));
    assert!(!is_image_extension("SVG"));
    assert!(!is_image_extension(""));
}

#[test]
fn image_preview_names_media_type_and_url_without_reading() {
    let p = ImagePreview;
    let r = Resource::new("pics/cat.png".to_string(), false);
    assert_eq!(p.needs(&r), Fetch::Nothing);
    match p.project(&r, Fetched::Nothing) {
        Ok(ProjectionOutput::Image { mime_type, url }) => {
            assert_eq!(mime_type, "image/png");
            assert_eq!(url, "/api/files/raw/pics/cat.png");
        }
        other => panic!("unexpected output: {:?}", other),
    }
}

#[test]
fn media_type_follows_the_extension() {
    assert_eq!(media_type_for("a.png"), "image/png");
    assert_eq!(media_type_for("a.GIF"), "image/gif");
    assert_eq!(media_type_for("notes.txt"), "text/plain");
    assert_eq!(media_type_for("page.html"), "text/html");
    assert_eq!(media_type_for("data.json"), "application/json");
    assert_eq!(media_type_for("noextension"), "application/octet-stream");
    assert_eq!(media_type_for("a.thisisnotknown"), "application/octet-stream");
    assert_eq!(media_type_for(""), "application/octet-stream");
}

#[test]
fn announce_falls_back_to_octet_stream() {
    assert_eq!(announce(Some("image/png".to_string())), "image/png");
    assert_eq!(announce(None), "application/octet-stream");
}

#[test]
fn projection_error_messages() {
    assert_eq!(ProjectionError::Unsupported.message(), "unsupported resource");
    assert_eq!(ProjectionError::Other("boom".to_string()).message(), "boom");
    assert_eq!(
        ProjectionError::Workspace(WorkspaceError::PathTraversal("../x".to_string())).message(),
        "workspace error: path escapes workspace root: ../x"
    );
    assert_eq!(
        ProjectionError::from(WorkspaceError::Io("denied".to_string())).message(),
        "workspace error: io error: denied"
    );
}
