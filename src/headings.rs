//! Repair of split titles: when a note's HTML has top-level headings, their
//! text becomes one leading Markdown heading and the converter's own heading
//! lines are dropped.

use vstd::prelude::*;
use crate::text::{
    after_first, append_chars, before_first, chars_of, contains_chars, lacks, lemma_split_first,
    line_at, line_scan, lines_of, occurs, split_lines, string_of, strip_cr, trim_chars, trimmed,
};

verus! {

/// `<h1>`, whose presence in the HTML text calls for the repair.
pub open spec fn h1_open_tag() -> Seq<char> {
    seq!['<', 'h', '1', '>']
}

/// The texts of `ts` one after another, with nothing between them.
pub open spec fn concat_all(ts: Seq<Seq<char>>) -> Seq<char>
    decreases ts.len(),
{
    if ts.len() == 0 {
        seq![]
    } else {
        concat_all(ts.drop_last()) + ts.last()
    }
}

/// A Markdown line that starts with the heading marker `#`.
pub open spec fn is_heading_line(l: Seq<char>) -> bool {
    l.len() > 0 && l[0] == '#'
}

/// The lines of `ls` that are not heading lines, in order.
pub open spec fn without_headings(ls: Seq<Seq<char>>) -> Seq<Seq<char>>
    decreases ls.len(),
{
    if ls.len() == 0 {
        seq![]
    } else if is_heading_line(ls.last()) {
        without_headings(ls.drop_last())
    } else {
        without_headings(ls.drop_last()).push(ls.last())
    }
}

/// The lines of `ls` with a line break between each two.
pub open spec fn join_lines(ls: Seq<Seq<char>>) -> Seq<char>
    decreases ls.len(),
{
    if ls.len() == 0 {
        seq![]
    } else if ls.len() == 1 {
        ls[0]
    } else {
        join_lines(ls.drop_last()) + seq!['\n'] + ls.last()
    }
}

/// The title made of the `h1` texts: all of them joined, then trimmed.
pub open spec fn joined_title(h1_texts: Seq<Seq<char>>) -> Seq<char> {
    trimmed(concat_all(h1_texts))
}

/// The Markdown of a note after repair. `original_html` is the note's HTML as
/// it came, `h1_texts` the texts of the `h1` elements of its HTML after image
/// rewriting, `markdown` the converter's output. Where `original_html` holds
/// `<h1>` and the joined title is not empty, the result is `# <title>`, a
/// blank line, and the lines of `markdown` that are not heading lines; else
/// `markdown` itself.
pub open spec fn repaired_markdown(
    original_html: Seq<char>,
    h1_texts: Seq<Seq<char>>,
    markdown: Seq<char>,
) -> Seq<char> {
    if occurs(original_html, h1_open_tag()) && joined_title(h1_texts).len() > 0 {
        seq!['#', ' '] + joined_title(h1_texts) + seq!['\n', '\n'] + join_lines(
            without_headings(lines_of(markdown)),
        )
    } else {
        markdown
    }
}

/// No line kept in the body after repair is a heading line, and none holds a
/// line break where none of `ls` does.
pub proof fn lemma_no_heading_kept(ls: Seq<Seq<char>>)
    ensures
        forall|i: int|
            0 <= i < without_headings(ls).len() ==> !is_heading_line(
                #[trigger] without_headings(ls)[i],
            ),
        (forall|i: int| 0 <= i < ls.len() ==> lacks(#[trigger] ls[i], '\n')) ==> forall|i: int|
            0 <= i < without_headings(ls).len() ==> lacks(#[trigger] without_headings(ls)[i], '\n'),
    decreases ls.len(),
{
    if ls.len() > 0 {
        lemma_no_heading_kept(ls.drop_last());
        let prev = without_headings(ls.drop_last());
        assert forall|i: int| 0 <= i < without_headings(ls).len() implies !is_heading_line(
            #[trigger] without_headings(ls)[i],
        ) by {
            if i < prev.len() {
                assert(without_headings(ls)[i] == prev[i]);
            }
        }
        if forall|i: int| 0 <= i < ls.len() ==> lacks(#[trigger] ls[i], '\n') {
            assert forall|i: int| 0 <= i < ls.drop_last().len() implies lacks(
                #[trigger] ls.drop_last()[i],
                '\n',
            ) by {
                assert(ls.drop_last()[i] == ls[i]);
            }
            assert forall|i: int| 0 <= i < without_headings(ls).len() implies lacks(
                #[trigger] without_headings(ls)[i],
                '\n',
            ) by {
                if i < prev.len() {
                    assert(without_headings(ls)[i] == prev[i]);
                } else {
                    assert(without_headings(ls)[i] == ls[ls.len() - 1]);
                }
            }
        }
    }
}

proof fn lemma_line_scan_single_lines(s: Seq<char>)
    ensures
        forall|i: int|
            0 <= i < line_scan(s).0.len() ==> lacks(#[trigger] line_scan(s).0[i], '\n'),
        lacks(line_scan(s).1, '\n'),
    decreases s.len(),
{
    if s.len() > 0 {
        lemma_line_scan_single_lines(s.drop_last());
        let (done, cur) = line_scan(s.drop_last());
        assert(lacks(strip_cr(cur), '\n')) by {
            if cur.len() > 0 && cur.last() == '\r' {
                assert forall|i: int| 0 <= i < cur.drop_last().len() implies cur.drop_last()[i]
                    != '\n' by {
                    assert(cur.drop_last()[i] == cur[i]);
                }
            }
        }
        assert forall|i: int|
            0 <= i < line_scan(s).0.len() implies lacks(#[trigger] line_scan(s).0[i], '\n') by {
            if i < done.len() {
                assert(line_scan(s).0[i] == done[i]);
            }
        }
        assert forall|i: int| 0 <= i < line_scan(s).1.len() implies line_scan(s).1[i] != '\n' by {
            if s.last() != '\n' && i < cur.len() {
                assert(line_scan(s).1[i] == cur[i]);
            }
        }
    }
}

proof fn lemma_lines_single(s: Seq<char>)
    ensures
        forall|i: int| 0 <= i < lines_of(s).len() ==> lacks(#[trigger] lines_of(s)[i], '\n'),
{
    lemma_line_scan_single_lines(s);
    let (done, cur) = line_scan(s);
    assert forall|i: int| 0 <= i < lines_of(s).len() implies lacks(#[trigger] lines_of(s)[i], '\n') by {
        if i < done.len() {
            assert(lines_of(s)[i] == done[i]);
        }
    }
}

proof fn lemma_lacks_whole(s: Seq<char>, c: char)
    requires
        lacks(s, c),
    ensures
        before_first(s, c) == s,
        after_first(s, c) == Seq::<char>::empty(),
    decreases s.len(),
{
    if s.len() > 0 {
        assert forall|i: int| 0 <= i < s.drop_first().len() implies s.drop_first()[i] != c by {
            assert(s.drop_first()[i] == s[i + 1]);
        }
        lemma_lacks_whole(s.drop_first(), c);
        assert(seq![s[0]] + s.drop_first() =~= s);
    }
}

proof fn lemma_line_at_empty(k: nat)
    ensures
        line_at(Seq::<char>::empty(), k) == Seq::<char>::empty(),
    decreases k,
{
    if k > 0 {
        lemma_line_at_empty((k - 1) as nat);
    }
}

proof fn lemma_join_front(ls: Seq<Seq<char>>)
    requires
        ls.len() >= 2,
    ensures
        join_lines(ls) == ls[0] + seq!['\n'] + join_lines(ls.drop_first()),
    decreases ls.len(),
{
    if ls.len() == 2 {
        assert(ls.drop_last().len() == 1);
        assert(ls.drop_first().len() == 1);
        assert(ls.drop_first()[0] == ls.last());
        assert(join_lines(ls.drop_last()) == ls.drop_last()[0]);
        assert(ls.drop_last()[0] == ls[0]);
        assert(join_lines(ls.drop_first()) == ls.drop_first()[0]);
    } else {
        lemma_join_front(ls.drop_last());
        assert(ls.drop_last().drop_first() =~= ls.drop_first().drop_last());
        assert(ls.drop_first().last() == ls.last());
        assert(ls.drop_last()[0] == ls[0]);
        assert(join_lines(ls) =~= ls[0] + seq!['\n'] + join_lines(ls.drop_first()));
    }
}

proof fn lemma_join_no_heading(ls: Seq<Seq<char>>, k: nat)
    requires
        forall|i: int| 0 <= i < ls.len() ==> lacks(#[trigger] ls[i], '\n'),
        forall|i: int| 0 <= i < ls.len() ==> !is_heading_line(#[trigger] ls[i]),
    ensures
        !is_heading_line(line_at(join_lines(ls), k)),
    decreases ls.len(),
{
    if ls.len() == 0 {
        lemma_line_at_empty(k);
    } else if ls.len() == 1 {
        assert(lacks(ls[0], '\n'));
        lemma_lacks_whole(ls[0], '\n');
        if k > 0 {
            lemma_line_at_empty((k - 1) as nat);
        }
    } else {
        lemma_join_front(ls);
        assert(lacks(ls[0], '\n'));
        lemma_split_first(ls[0], join_lines(ls.drop_first()), '\n');
        if k > 0 {
            assert forall|i: int| 0 <= i < ls.drop_first().len() implies lacks(
                #[trigger] ls.drop_first()[i],
                '\n',
            ) && !is_heading_line(ls.drop_first()[i]) by {
                assert(ls.drop_first()[i] == ls[i + 1]);
            }
            lemma_join_no_heading(ls.drop_first(), (k - 1) as nat);
        }
    }
}

/// When the repair applies and the merged title holds no line break, the
/// repaired Markdown's first line is `# <title>` and no later line starts with
/// the heading marker `#`.
pub proof fn lemma_repaired_heading_lines(
    original_html: Seq<char>,
    h1_texts: Seq<Seq<char>>,
    markdown: Seq<char>,
    k: nat,
)
    requires
        occurs(original_html, h1_open_tag()),
        joined_title(h1_texts).len() > 0,
        lacks(joined_title(h1_texts), '\n'),
    ensures
        line_at(repaired_markdown(original_html, h1_texts, markdown), 0) == seq!['#', ' ']
            + joined_title(h1_texts),
        k >= 1 ==> !is_heading_line(line_at(repaired_markdown(original_html, h1_texts, markdown), k)),
{
    let title = seq!['#', ' '] + joined_title(h1_texts);
    let kept = without_headings(lines_of(markdown));
    let body = join_lines(kept);
    let r = repaired_markdown(original_html, h1_texts, markdown);
    assert(r =~= title + seq!['\n'] + (seq!['\n'] + body));
    assert(lacks(title, '\n')) by {
        assert forall|i: int| 0 <= i < title.len() implies title[i] != '\n' by {
            if i >= 2 {
                assert(title[i] == joined_title(h1_texts)[i - 2]);
            }
        }
    }
    lemma_split_first(title, seq!['\n'] + body, '\n');
    if k >= 1 {
        let rest = seq!['\n'] + body;
        lemma_split_first(Seq::<char>::empty(), body, '\n');
        assert(Seq::<char>::empty() + seq!['\n'] + body =~= rest);
        assert(after_first(r, '\n') == rest);
        assert(line_at(r, k) == line_at(rest, (k - 1) as nat));
        if k >= 2 {
            lemma_lines_single(markdown);
            lemma_no_heading_kept(lines_of(markdown));
            lemma_join_no_heading(kept, (k - 2) as nat);
            assert(after_first(rest, '\n') == body);
            assert(line_at(rest, (k - 1) as nat) == line_at(body, (k - 2) as nat));
        } else {
            assert(line_at(rest, 0) == before_first(rest, '\n'));
            assert(before_first(rest, '\n').len() == 0);
        }
    }
}

/// Applies the repair to the converter's output `markdown`; see
/// `repaired_markdown`.
pub fn repair_headings(original_html: &str, h1_texts: &Vec<String>, markdown: &str) -> (r: String)
    ensures
        r@ == repaired_markdown(original_html@, h1_texts.deep_view(), markdown@),
{
    let tag = vec!['<', 'h', '1', '>'];
    let md = chars_of(markdown);
    if !contains_chars(&chars_of(original_html), &tag) {
        return string_of(&md);
    }
    let mut joined: Vec<char> = Vec::new();
    let mut i: usize = 0;
    while i < h1_texts.len()
        invariant
            i <= h1_texts.len(),
            joined@ == concat_all(h1_texts.deep_view().take(i as int)),
        decreases h1_texts.len() - i,
    {
        let t = chars_of(h1_texts[i].as_str());
        append_chars(&mut joined, &t);
        assert(h1_texts.deep_view().take(i + 1).drop_last() =~= h1_texts.deep_view().take(i as int));
        i = i + 1;
    }
    assert(h1_texts.deep_view().take(i as int) =~= h1_texts.deep_view());
    let title = trim_chars(&joined);
    if title.len() == 0 {
        return string_of(&md);
    }
    let lines = split_lines(&md);
    let ghost ls = lines.deep_view();
    let mut body: Vec<char> = Vec::new();
    let mut kept: usize = 0;
    let mut j: usize = 0;
    while j < lines.len()
        invariant
            j <= lines.len(),
            ls == lines.deep_view(),
            ls.len() == lines@.len(),
            body@ == join_lines(without_headings(ls.take(j as int))),
            kept == without_headings(ls.take(j as int)).len(),
            kept <= j,
        decreases lines.len() - j,
    {
        let line = &lines[j];
        assert(line.deep_view() =~= line@);
        assert(ls.take(j + 1).drop_last() =~= ls.take(j as int));
        assert(ls.take(j + 1).last() == line@);
        if !(line.len() > 0 && line[0] == '#') {
            let ghost prev = without_headings(ls.take(j as int));
            if kept > 0 {
                body.push('\n');
            }
            append_chars(&mut body, line);
            assert(prev.push(line@).drop_last() =~= prev);
            assert(body@ =~= join_lines(prev.push(line@)));
            kept = kept + 1;
        }
        j = j + 1;
    }
    assert(ls.take(j as int) =~= ls);
    let mut out: Vec<char> = vec!['#', ' '];
    append_chars(&mut out, &title);
    out.push('\n');
    out.push('\n');
    append_chars(&mut out, &body);
    assert(out@ =~= repaired_markdown(original_html@, h1_texts.deep_view(), markdown@));
    string_of(&out)
}

} // verus!
