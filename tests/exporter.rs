use apple_notes_exporter::headings::repair_headings;
use apple_notes_exporter::images::{attachment_file_name, plan_images};
use apple_notes_exporter::text::{chars_of, replace_chars, split_lines, string_of, trim_chars};
use apple_notes_exporter::{
    extract_images, get_note_path, html_path, markdown_path, note_document, note_markdown,
    process_note, sanitize_title, ExportConfig, ExportError, Note,
};
use std::path::PathBuf;
use tempfile::tempdir;

const PIXEL: &str = "iVBORw0KGgoAAAANSUhEUgAAAAEAAAABCAQAAAC1HAwCAAAAC0lEQVR42mNk+A8AAQUBAScY42YAAAAASUVORK5CYII=";

fn test_note(content: &str) -> Note {
    Note {
        title: String::from("Test Note"),
        content: String::from(content),
        folder: String::from("Test Folder"),
        account: String::from("Test Account"),
        id: String::from("test-id"),
        created: String::from("2024-01-01"),
        modified: String::from("2024-01-01"),
    }
}

fn config_in(dir: &str) -> ExportConfig {
    ExportConfig {
        output_dir: String::from(dir),
        use_attachments: true,
        filename_format: String::from("&title"),
        subdir_format: String::from("&folder"),
        use_subdirs: true,
    }
}

/// The note's final Markdown: prepared by the library, converted by html2md,
/// then finished by the library.
fn markdown_for(note: &Note, config: &ExportConfig) -> String {
    let processed = process_note(note, config).unwrap();
    let converted = html2md::parse_html(&processed.html);
    note_markdown(&note.content, &processed.html, &converted)
}

fn chars(s: &str) -> Vec<char> {
    s.chars().collect()
}

#[test]
fn test_export_config_default() {
    let config = ExportConfig::default();
    assert_eq!(PathBuf::from(&config.output_dir), PathBuf::from("."));
    assert!(config.use_attachments);
    assert_eq!(config.filename_format, "&title");
    assert_eq!(config.subdir_format, "&folder");
    assert!(config.use_subdirs);
}

#[test]
fn test_process_note_with_images() {
    let temp_dir = tempdir().unwrap();
    let config = config_in(temp_dir.path().to_str().unwrap());
    let note = test_note(&format!(
        r#"<p>Test content</p><img src="data:image/png;base64,{}"/>"#,
        PIXEL
    ));

    let markdown = markdown_for(&note, &config);
    assert!(markdown.contains("![](attachments/attachment-001.png)"));

    let processed = process_note(&note, &config).unwrap();

    // The image is to be written here.
    assert_eq!(processed.images.len(), 1);
    let image_path = PathBuf::from(&processed.attachments_dir).join(&processed.images[0].file_name);
    assert_eq!(
        image_path,
        temp_dir
            .path()
            .join("Test Folder")
            .join("attachments")
            .join("attachment-001.png")
    );
}

#[test]
fn test_process_note_with_h1() {
    let temp_dir = tempdir().unwrap();
    let config = config_in(temp_dir.path().to_str().unwrap());
    let note = test_note("<h1>Title 1</h1><p>Content 1</p><h1>Title 2</h1><p>Content 2</p>");

    let markdown = markdown_for(&note, &config);
    assert!(markdown.starts_with("# Title 1Title 2\n\n"));
    assert!(markdown.contains("Content 1"));
    assert!(markdown.contains("Content 2"));
}

#[test]
fn test_get_note_path() {
    let temp_dir = tempdir().unwrap();
    let config = config_in(temp_dir.path().to_str().unwrap());
    let note = test_note("Test content");

    let path = get_note_path(&note, &config);
    assert_eq!(PathBuf::from(path), temp_dir.path().join("Test Folder"));

    let config_no_subdirs = ExportConfig {
        use_subdirs: false,
        ..config
    };
    let path_no_subdirs = get_note_path(&note, &config_no_subdirs);
    assert_eq!(PathBuf::from(path_no_subdirs), temp_dir.path());
}

#[test]
fn heading_lines_dropped_after_merged_title() {
    let note = test_note("<h1>Title 1</h1><p>Content 1</p><h1>Title 2</h1><p>Content 2</p>");
    let markdown = markdown_for(&note, &config_in("out"));
    let lines: Vec<&str> = markdown.lines().collect();
    assert_eq!(lines[0], "# Title 1Title 2");
    assert_eq!(lines[1], "");
    assert!(lines[2..].iter().all(|l| !l.starts_with('#')));
}

#[test]
fn one_inline_image_with_attachments() {
    let html = format!(r#"<p>x</p><img src="data:image/png;base64,{}">"#, PIXEL);
    let out = extract_images(&html, true).unwrap();
    assert_eq!(out.images.len(), 1);
    assert_eq!(out.images[0].file_name, "attachment-001.png");
    assert_eq!(&out.images[0].data[..4], &[0x89, b'P', b'N', b'G']);
    assert_eq!(out.html, r#"<p>x</p><img src="attachments/attachment-001.png">"#);
}

#[test]
fn one_inline_image_without_attachments() {
    let html = r#"<img src="data:image/jpeg;base64,AAAA">"#;
    let out = extract_images(html, false).unwrap();
    assert_eq!(out.images.len(), 1);
    assert_eq!(out.images[0].file_name, "attachment-001.jpeg");
    assert_eq!(out.images[0].data, vec![0u8, 0, 0]);
    assert_eq!(out.html, r#"<img src="attachment-001.jpeg">"#);
}

#[test]
fn no_inline_image_leaves_html() {
    let html = r#"<p>a</p><img src="http://example.com/a.png"><img alt="b">"#;
    let out = extract_images(html, true).unwrap();
    assert_eq!(out.html, html);
    assert!(out.images.is_empty());
}

#[test]
fn bad_base64_is_an_error() {
    let html = r#"<img src="data:image/png;base64,@@@@">"#;
    match extract_images(html, true) {
        Err(ExportError::ImageDecode { file_name }) => assert_eq!(file_name, "attachment-001.png"),
        Ok(_) => panic!("expected a decode error"),
    }
}

#[test]
fn payload_is_everything_after_first_comma() {
    let html = r#"<img src="data:image/png;base64,AA,AA">"#;
    match extract_images(html, true) {
        Err(ExportError::ImageDecode { file_name }) => assert_eq!(file_name, "attachment-001.png"),
        Ok(_) => panic!("expected a decode error"),
    }
}

#[test]
fn data_url_without_comma_skipped_but_counted() {
    let html = r#"<img src="data:image/png;base64AAAA"><img src="data:image;base64,AAAA">"#;
    let out = extract_images(html, true).unwrap();
    assert_eq!(out.images.len(), 1);
    assert_eq!(out.images[0].file_name, "attachment-002.png");
    assert_eq!(
        out.html,
        r#"<img src="data:image/png;base64AAAA"><img src="attachments/attachment-002.png">"#
    );
}

#[test]
fn one_inline_image_among_others() {
    let html = r#"<img src="a.png"><img src="data:image/gif;base64,AAAA"><img>"#;
    let out = extract_images(html, false).unwrap();
    assert_eq!(out.images.len(), 1);
    assert_eq!(out.images[0].file_name, "attachment-001.gif");
    assert_eq!(out.html, r#"<img src="a.png"><img src="attachment-001.gif"><img>"#);
}

#[test]
fn identical_images_rewritten_together() {
    let html = r#"<img src="data:image/gif;base64,AAAA"><img src="data:image/gif;base64,AAAA">"#;
    let out = extract_images(html, false).unwrap();
    assert_eq!(out.images.len(), 2);
    assert_eq!(out.images[1].file_name, "attachment-002.gif");
    assert_eq!(out.html, r#"<img src="attachment-001.gif"><img src="attachment-001.gif">"#);
}

#[test]
fn plan_from_given_sources() {
    let srcs = vec![
        None,
        Some(String::from("data:image/svg+xml;utf8,abc")),
        Some(String::from("cat.png")),
    ];
    let plan = plan_images("<b>data:image/svg+xml;utf8,abc</b>", &srcs, true);
    assert_eq!(plan.html, "<b>attachments/attachment-001.svg+xml</b>");
    assert_eq!(plan.images.len(), 1);
    assert_eq!(plan.images[0].payload, "abc");
}

#[test]
fn attachment_names_are_padded() {
    let png = chars("png");
    assert_eq!(attachment_file_name(7, &png), chars("attachment-007.png"));
    assert_eq!(attachment_file_name(42, &png), chars("attachment-042.png"));
    assert_eq!(attachment_file_name(1234, &png), chars("attachment-1234.png"));
}

#[test]
fn heading_repair_on_given_texts() {
    let texts = vec![String::from(" A"), String::from("B \n")];
    let r = repair_headings("<h1>A</h1><h1>B</h1>", &texts, "# A\ntext\r\n## sub\nmore\n");
    assert_eq!(r, "# AB\n\ntext\nmore");
}

#[test]
fn heading_repair_needs_h1_tag() {
    let texts = vec![String::from("A")];
    let r = repair_headings("<h2>A</h2>", &texts, "## A\ntext");
    assert_eq!(r, "## A\ntext");
}

#[test]
fn heading_repair_with_blank_title() {
    let texts = vec![String::from("  "), String::from("\t")];
    let r = repair_headings("<h1> </h1>", &texts, "# \ntext");
    assert_eq!(r, "# \ntext");
}

#[test]
fn note_without_h1_keeps_markdown() {
    let note = test_note("<p>plain</p>");
    let markdown = markdown_for(&note, &config_in("out"));
    assert_eq!(markdown, "plain");
}

#[test]
fn sanitize_replaces_each_character() {
    assert_eq!(sanitize_title("My: Note!"), "My--Note-");
    assert_eq!(sanitize_title("My--Note-"), "My--Note-");
    assert_eq!(sanitize_title("Été 2024/x"), "Été-2024-x");
    assert_eq!(sanitize_title(""), "");
}

#[test]
fn sanitize_is_idempotent() {
    for t in ["My: Note!", "a b\tc", "ü/ä?", "--"] {
        let once = sanitize_title(t);
        assert_eq!(sanitize_title(&once), once);
    }
}

#[test]
fn note_dir_without_subdirs_is_output_dir() {
    let mut config = config_in("/tmp/export");
    config.use_subdirs = false;
    for folder in ["Work", "a/b", "", "../x"] {
        let mut note = test_note("");
        note.folder = String::from(folder);
        assert_eq!(get_note_path(&note, &config), "/tmp/export");
    }
}

#[test]
fn note_dir_joins_folder() {
    let note = test_note("");
    assert_eq!(get_note_path(&note, &config_in("out/")), "out/Test Folder");
    assert_eq!(get_note_path(&note, &config_in("")), "Test Folder");
}

#[test]
fn absolute_folder_replaces_output_dir() {
    let mut note = test_note("");
    note.folder = String::from("/abs/notes");
    assert_eq!(get_note_path(&note, &config_in("out")), "/abs/notes");
    assert_eq!(
        PathBuf::from(get_note_path(&note, &config_in("out"))),
        PathBuf::from("out").join("/abs/notes")
    );
}

#[test]
fn file_paths_use_sanitized_title() {
    let mut note = test_note("");
    note.title = String::from("My: Note!");
    let config = config_in("out");
    assert_eq!(markdown_path(&note, &config), "out/Test Folder/My--Note-.md");
    assert_eq!(html_path(&note, &config), "out/Test Folder/My--Note-.html");
}

#[test]
fn document_layout() {
    let note = test_note("");
    let doc = note_document(&note, "body\n");
    assert_eq!(
        doc,
        "---\ntitle: \"Test Note\"\nfolder: \"Test Folder\"\naccount: \"Test Account\"\nid: \"test-id\"\ncreated: \"2024-01-01\"\nmodified: \"2024-01-01\"\n---\n\nbody\n"
    );
}

#[test]
fn header_round_trip() {
    let note = Note {
        title: String::from("Say \"hi\": now"),
        content: String::new(),
        folder: String::from("F"),
        account: String::from("iCloud"),
        id: String::from("x-1"),
        created: String::from("2024-01-01"),
        modified: String::from(""),
    };
    let doc = note_document(&note, "# T\n\ntext");
    let lines: Vec<&str> = doc.split('\n').collect();
    assert_eq!(lines[0], "---");
    assert_eq!(lines[7], "---");
    let keys = ["title", "folder", "account", "id", "created", "modified"];
    let values = [&note.title, &note.folder, &note.account, &note.id, &note.created, &note.modified];
    for k in 0..6 {
        let prefix = format!("{}: \"", keys[k]);
        let line = lines[k + 1];
        assert!(line.starts_with(&prefix) && line.ends_with('"'));
        assert_eq!(&line[prefix.len()..line.len() - 1], values[k].as_str());
    }
}

#[test]
fn text_helpers() {
    let s = chars("a--b--");
    assert_eq!(replace_chars(&s, &chars("--"), &chars("+")), chars("a+b+"));
    assert_eq!(replace_chars(&chars("aaa"), &chars("aa"), &chars("b")), chars("ba"));
    assert_eq!(trim_chars(&chars("\u{3000} x y\n")), chars("x y"));
    assert_eq!(string_of(&chars_of("héllo")), "héllo");
    let lines = split_lines(&chars("a\r\nb\n\nc\r"));
    assert_eq!(lines, vec![chars("a"), chars("b"), chars(""), chars("c\r")]);
}
