//! Notes, the export settings, and where and how a note is written.

use vstd::prelude::*;
use crate::text::{chars_of, lacks, lemma_split_first, line_at, push_char};

verus! {

/// One note: its metadata and its HTML body.
#[derive(Clone, Debug)]
pub struct Note {
    pub title: String,
    /// The HTML body of the note.
    pub content: String,
    pub folder: String,
    /// The account the note belongs to (such as "iCloud").
    pub account: String,
    pub id: String,
    pub created: String,
    pub modified: String,
}

/// Settings for one export run.
#[derive(Clone, Debug)]
pub struct ExportConfig {
    /// The directory under which everything is written.
    pub output_dir: String,
    /// Whether images go in an `attachments` folder beside the note.
    pub use_attachments: bool,
    /// A naming template for files; accepted, not applied.
    pub filename_format: String,
    /// A naming template for folders; accepted, not applied.
    pub subdir_format: String,
    /// Whether each note goes in a folder named after its own folder.
    pub use_subdirs: bool,
}

impl Default for ExportConfig {
    fn default() -> (r: Self)
        ensures
            r.output_dir@ == seq!['.'],
            r.use_attachments,
            r.filename_format@ == seq!['&', 't', 'i', 't', 'l', 'e'],
            r.subdir_format@ == seq!['&', 'f', 'o', 'l', 'd', 'e', 'r'],
            r.use_subdirs,
    {
        let mut output_dir = String::new();
        push_str(&mut output_dir, ".");
        let mut filename_format = String::new();
        push_str(&mut filename_format, "&title");
        let mut subdir_format = String::new();
        push_str(&mut subdir_format, "&folder");
        proof {
            reveal_strlit(".");
            reveal_strlit("&title");
            reveal_strlit("&folder");
        }
        ExportConfig {
            output_dir,
            use_attachments: true,
            filename_format,
            subdir_format,
            use_subdirs: true,
        }
    }
}

/// Appends `t` to `s`.
pub fn push_str(s: &mut String, t: &str)
    ensures
        final(s)@ == old(s)@ + t@,
{
    s.append(t);
}

/// `base` joined with the path `segment`: `segment` itself where it is
/// absolute (starts with `/`), else the two with one `/` between them. The
/// segment is taken as it is: a `/` or `..` inside it is not removed.
pub open spec fn path_join(base: Seq<char>, segment: Seq<char>) -> Seq<char> {
    if segment.len() > 0 && segment[0] == '/' {
        segment
    } else if base.len() == 0 || base.last() == '/' {
        base + segment
    } else {
        base + seq!['/'] + segment
    }
}

/// Joins `base` and the path `segment`; an absolute `segment` replaces
/// `base`.
pub fn join_path(base: &str, segment: &str) -> (r: String)
    ensures
        r@ == path_join(base@, segment@),
{
    let seg = chars_of(segment);
    if seg.len() > 0 && seg[0] == '/' {
        let mut r = String::new();
        push_str(&mut r, segment);
        return r;
    }
    let b = chars_of(base);
    let mut r = String::new();
    push_str(&mut r, base);
    if b.len() > 0 && b[b.len() - 1] != '/' {
        push_char(&mut r, '/');
    }
    push_str(&mut r, segment);
    r
}

/// The directory a note is written to: the output directory, or with
/// subdirectories on, the note's folder inside it.
pub open spec fn note_dir(note: Note, config: ExportConfig) -> Seq<char> {
    if config.use_subdirs {
        path_join(config.output_dir@, note.folder@)
    } else {
        config.output_dir@
    }
}

/// The directory that the note's files are written to.
pub fn get_note_path(note: &Note, config: &ExportConfig) -> (r: String)
    ensures
        r@ == note_dir(*note, *config),
        !config.use_subdirs ==> r@ == config.output_dir@,
{
    if config.use_subdirs {
        join_path(config.output_dir.as_str(), note.folder.as_str())
    } else {
        config.output_dir.clone()
    }
}

/// Whether `c` is alphabetic or numeric in Unicode's sense.
pub uninterp spec fn is_alphanumeric_char(c: char) -> bool;

/// Relies on `char::is_alphanumeric`: whether the character is alphabetic or
/// numeric.
#[verifier::external_body]
fn alphanumeric(c: char) -> (r: bool)
    ensures
        r == is_alphanumeric_char(c),
{
    c.is_alphanumeric()
}

/// A character of a title as it stands in a file name: kept where it is
/// alphanumeric or `-`, else `-`.
pub open spec fn file_name_char(c: char) -> char {
    if is_alphanumeric_char(c) || c == '-' {
        c
    } else {
        '-'
    }
}

/// A title made fit for a file name, one character for each.
pub open spec fn sanitized(title: Seq<char>) -> Seq<char> {
    title.map_values(|c: char| file_name_char(c))
}

/// The title made fit for a file name: every character that is neither
/// alphanumeric nor `-` becomes `-`.
pub fn sanitize_title(title: &str) -> (r: String)
    ensures
        r@ == sanitized(title@),
{
    let t = chars_of(title);
    let mut r = String::new();
    let mut i: usize = 0;
    while i < t.len()
        invariant
            i <= t.len(),
            r@ == sanitized(t@.take(i as int)),
        decreases t.len() - i,
    {
        let c = t[i];
        if alphanumeric(c) || c == '-' {
            push_char(&mut r, c);
        } else {
            push_char(&mut r, '-');
        }
        assert(sanitized(t@.take(i + 1)) =~= sanitized(t@.take(i as int)).push(file_name_char(c)));
        i = i + 1;
    }
    assert(t@.take(i as int) =~= t@);
    r
}

/// Sanitizing a title twice gives what sanitizing it once gives.
pub proof fn lemma_sanitize_idempotent(title: Seq<char>)
    ensures
        sanitized(sanitized(title)) == sanitized(title),
{
    assert(sanitized(sanitized(title)) =~= sanitized(title));
}

/// The path of the note's file with extension `ext`: its sanitized title in
/// the note's directory.
pub open spec fn note_file(note: Note, config: ExportConfig, ext: Seq<char>) -> Seq<char> {
    path_join(note_dir(note, config), sanitized(note.title@) + seq!['.'] + ext)
}

/// The path of the note's Markdown file.
pub fn markdown_path(note: &Note, config: &ExportConfig) -> (r: String)
    ensures
        r@ == note_file(*note, *config, seq!['m', 'd']),
{
    let dir = get_note_path(note, config);
    let mut name = sanitize_title(note.title.as_str());
    push_str(&mut name, ".md");
    proof {
        reveal_strlit(".md");
    }
    join_path(dir.as_str(), name.as_str())
}

/// The path of the file that holds the note's rewritten HTML.
pub fn html_path(note: &Note, config: &ExportConfig) -> (r: String)
    ensures
        r@ == note_file(*note, *config, seq!['h', 't', 'm', 'l']),
{
    let dir = get_note_path(note, config);
    let mut name = sanitize_title(note.title.as_str());
    push_str(&mut name, ".html");
    proof {
        reveal_strlit(".html");
    }
    join_path(dir.as_str(), name.as_str())
}

/// `---`, the line above and below the metadata header.
pub open spec fn fence() -> Seq<char> {
    seq!['-', '-', '-']
}

/// A metadata line: `key: "value"`.
pub open spec fn meta_line(key: Seq<char>, value: Seq<char>) -> Seq<char> {
    key + seq![':', ' ', '"'] + value + seq!['"']
}

/// The keys of the metadata header, in order.
pub open spec fn meta_keys() -> Seq<Seq<char>> {
    seq![
        seq!['t', 'i', 't', 'l', 'e'],
        seq!['f', 'o', 'l', 'd', 'e', 'r'],
        seq!['a', 'c', 'c', 'o', 'u', 'n', 't'],
        seq!['i', 'd'],
        seq!['c', 'r', 'e', 'a', 't', 'e', 'd'],
        seq!['m', 'o', 'd', 'i', 'f', 'i', 'e', 'd'],
    ]
}

/// The metadata values of a note, in the order of `meta_keys`.
pub open spec fn meta_values(note: Note) -> Seq<Seq<char>> {
    seq![note.title@, note.folder@, note.account@, note.id@, note.created@, note.modified@]
}

/// The lines of the metadata header of a note.
pub open spec fn header_lines(note: Note) -> Seq<Seq<char>> {
    seq![fence()] + Seq::new(6, |k: int| meta_line(meta_keys()[k], meta_values(note)[k])) + seq![
        fence(),
    ]
}

/// Each of `lines` followed by a line break, then `rest`.
pub open spec fn framed(lines: Seq<Seq<char>>, rest: Seq<char>) -> Seq<char>
    decreases lines.len(),
{
    if lines.len() == 0 {
        rest
    } else {
        lines[0] + seq!['\n'] + framed(lines.drop_first(), rest)
    }
}

/// The Markdown file of a note: its metadata header, a blank line, and the
/// body.
pub open spec fn note_document_of(note: Note, markdown: Seq<char>) -> Seq<char> {
    framed(header_lines(note), seq!['\n'] + markdown)
}

/// Appends a metadata line and its line break.
fn push_meta_line(s: &mut String, key: &str, value: &str)
    ensures
        final(s)@ == old(s)@ + meta_line(key@, value@) + seq!['\n'],
{
    push_str(s, key);
    push_str(s, ": \"");
    push_str(s, value);
    push_str(s, "\"\n");
    proof {
        reveal_strlit(": \"");
        reveal_strlit("\"\n");
    }
    assert(final(s)@ =~= old(s)@ + meta_line(key@, value@) + seq!['\n']);
}

/// The contents of the note's Markdown file: a header of its metadata between
/// two `---` lines, each value in double quotes, then a blank line and
/// `markdown`.
pub fn note_document(note: &Note, markdown: &str) -> (r: String)
    ensures
        r@ == note_document_of(*note, markdown@),
{
    let mut s = String::new();
    push_str(&mut s, "---\n");
    push_meta_line(&mut s, "title", note.title.as_str());
    push_meta_line(&mut s, "folder", note.folder.as_str());
    push_meta_line(&mut s, "account", note.account.as_str());
    push_meta_line(&mut s, "id", note.id.as_str());
    push_meta_line(&mut s, "created", note.created.as_str());
    push_meta_line(&mut s, "modified", note.modified.as_str());
    push_str(&mut s, "---\n\n");
    push_str(&mut s, markdown);
    proof {
        reveal_strlit("---\n");
        reveal_strlit("title");
        reveal_strlit("folder");
        reveal_strlit("account");
        reveal_strlit("id");
        reveal_strlit("created");
        reveal_strlit("modified");
        reveal_strlit("---\n\n");
        reveal_with_fuel(framed, 9);
        let h = header_lines(*note);
        assert(h.len() == 8);
        assert(h[0] == fence());
        assert(h[1] == meta_line(meta_keys()[0], note.title@));
        assert(h[2] == meta_line(meta_keys()[1], note.folder@));
        assert(h[3] == meta_line(meta_keys()[2], note.account@));
        assert(h[4] == meta_line(meta_keys()[3], note.id@));
        assert(h[5] == meta_line(meta_keys()[4], note.created@));
        assert(h[6] == meta_line(meta_keys()[5], note.modified@));
        assert(h[7] == fence());
        assert(s@ =~= note_document_of(*note, markdown@));
    }
    s
}

/// The value of a metadata line `key: "value"` of key `key`.
pub open spec fn quoted_value(line: Seq<char>, key: Seq<char>) -> Option<Seq<char>> {
    let start = key.len() + 3;
    if line.len() >= start + 1 && line.take(start as int) == key + seq![':', ' ', '"'] && line.last()
        == '"' {
        Some(line.subrange(start as int, line.len() - 1))
    } else {
        None
    }
}

/// The metadata values read back from the header at the top of a Markdown
/// file, in the order of `meta_keys`, where the header has the expected shape.
pub open spec fn read_header(doc: Seq<char>) -> Option<Seq<Seq<char>>> {
    if line_at(doc, 0) == fence() && line_at(doc, 7) == fence() && forall|k: int|
        0 <= k < 6 ==> (#[trigger] quoted_value(line_at(doc, (k + 1) as nat), meta_keys()[k])) is Some {
        Some(Seq::new(6, |k: int| quoted_value(line_at(doc, (k + 1) as nat), meta_keys()[k])->0))
    } else {
        None
    }
}

proof fn lemma_line_at_framed(lines: Seq<Seq<char>>, rest: Seq<char>, k: nat)
    requires
        forall|i: int| 0 <= i < lines.len() ==> lacks(#[trigger] lines[i], '\n'),
        k < lines.len(),
    ensures
        line_at(framed(lines, rest), k) == lines[k as int],
    decreases k,
{
    lemma_split_first(lines[0], framed(lines.drop_first(), rest), '\n');
    if k > 0 {
        lemma_line_at_framed(lines.drop_first(), rest, (k - 1) as nat);
    }
}

proof fn lemma_quoted_value(key: Seq<char>, value: Seq<char>)
    ensures
        quoted_value(meta_line(key, value), key) == Some(value),
{
    let line = meta_line(key, value);
    let start = key.len() + 3;
    assert(line.take(start as int) =~= key + seq![':', ' ', '"']);
    assert(line.subrange(start as int, line.len() - 1) =~= value);
}

/// Writing a note's Markdown file and reading its metadata header back gives
/// the note's title, folder, account, id, creation and modification dates
/// unchanged, for values that hold no line break.
pub proof fn lemma_header_round_trip(note: Note, markdown: Seq<char>)
    requires
        forall|k: int| 0 <= k < 6 ==> lacks(#[trigger] meta_values(note)[k], '\n'),
    ensures
        read_header(note_document_of(note, markdown)) == Some(meta_values(note)),
{
    let lines = header_lines(note);
    let doc = note_document_of(note, markdown);
    assert forall|i: int| 0 <= i < lines.len() implies lacks(#[trigger] lines[i], '\n') by {
        if 1 <= i < 7 {
            let key = meta_keys()[i - 1];
            let value = meta_values(note)[i - 1];
            assert(lacks(value, '\n'));
            assert(lacks(key, '\n'));
            assert(lines[i] == meta_line(key, value));
        }
    }
    lemma_line_at_framed(lines, seq!['\n'] + markdown, 0);
    lemma_line_at_framed(lines, seq!['\n'] + markdown, 7);
    assert forall|k: int| 0 <= k < 6 implies #[trigger] quoted_value(
        line_at(doc, (k + 1) as nat),
        meta_keys()[k],
    ) == Some(meta_values(note)[k]) by {
        lemma_line_at_framed(lines, seq!['\n'] + markdown, (k + 1) as nat);
        lemma_quoted_value(meta_keys()[k], meta_values(note)[k]);
    }
    assert(Seq::new(6, |k: int| quoted_value(line_at(doc, (k + 1) as nat), meta_keys()[k])->0)
        =~= meta_values(note));
}

} // verus!
