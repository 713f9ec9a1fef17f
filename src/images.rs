//! Inline images: each `img` whose `src` is a base64 data URL becomes an
//! attachment file, and the HTML is rewritten to refer to that file.

use vstd::prelude::*;
use crate::text::{
    after_first, append_chars, before_first, chars_of, lacks, lemma_split_first, matches_at,
    replace_all, replace_chars, split_chars, split_on, split_scan, split_first, string_of,
};

verus! {

/// `"data:image"`, the start of the `src` of an inline image.
pub open spec fn data_image_prefix() -> Seq<char> {
    seq!['d', 'a', 't', 'a', ':', 'i', 'm', 'a', 'g', 'e']
}

/// `"png"`, the extension used where the data URL names no subtype.
pub open spec fn default_extension() -> Seq<char> {
    seq!['p', 'n', 'g']
}

/// `"attachments/"`, the folder that images go to when attachments are on.
pub open spec fn attachments_prefix() -> Seq<char> {
    seq!['a', 't', 't', 'a', 'c', 'h', 'm', 'e', 'n', 't', 's', '/']
}

/// `"attachment-"`, the start of each image file name.
pub open spec fn attachment_stem() -> Seq<char> {
    seq!['a', 't', 't', 'a', 'c', 'h', 'm', 'e', 'n', 't', '-']
}

/// The decimal digit for `d`, below ten.
pub open spec fn digit_char(d: nat) -> char {
    seq!['0', '1', '2', '3', '4', '5', '6', '7', '8', '9'][d as int]
}

/// The decimal digits of `n`.
pub open spec fn decimal(n: nat) -> Seq<char>
    decreases n,
{
    if n < 10 {
        seq![digit_char(n)]
    } else {
        decimal(n / 10).push(digit_char(n % 10))
    }
}

/// The decimal digits of `n`, with zeros in front up to three digits.
pub open spec fn padded3(n: nat) -> Seq<char> {
    if n < 10 {
        seq!['0', '0'] + decimal(n)
    } else if n < 100 {
        seq!['0'] + decimal(n)
    } else {
        decimal(n)
    }
}

/// The file name of the `n`-th inline image: `attachment-NNN.<ext>`.
pub open spec fn attachment_name(n: nat, ext: Seq<char>) -> Seq<char> {
    attachment_stem() + padded3(n) + seq!['.'] + ext
}

/// The extension named by a data URL header such as `data:image/jpeg;base64`:
/// the text after its first `/`, up to the next `/` or `;`.
pub open spec fn extension_of(header: Seq<char>) -> Seq<char> {
    let slash = split_on(header, '/');
    if slash.len() >= 2 {
        split_on(slash[1], ';')[0]
    } else {
        default_extension()
    }
}

/// Where the rewritten HTML refers to an image file of name `name`.
pub open spec fn image_reference(name: Seq<char>, use_attachments: bool) -> Seq<char> {
    if use_attachments {
        attachments_prefix() + name
    } else {
        name
    }
}

/// An image found in the HTML: its file name, and its payload as base64 text.
pub struct PlannedImage {
    pub file_name: String,
    pub payload: String,
}

/// The HTML with its inline images replaced by references, and those images.
pub struct ImagePlan {
    pub html: String,
    pub images: Vec<PlannedImage>,
}

/// Each planned image as its file name and payload.
pub open spec fn planned_view(v: Seq<PlannedImage>) -> Seq<(Seq<char>, Seq<char>)> {
    v.map_values(|p: PlannedImage| (p.file_name@, p.payload@))
}

/// The result of extraction so far: the HTML, the number of inline images
/// met, and the images planned (file name and payload).
pub type PlanState = (Seq<char>, nat, Seq<(Seq<char>, Seq<char>)>);

/// `s` starts with `data:image`.
pub open spec fn is_inline_image(s: Seq<char>) -> bool {
    s.len() >= data_image_prefix().len() && s.take(data_image_prefix().len() as int)
        == data_image_prefix()
}

/// One `img` element's effect. Each `src` that starts with `data:image`
/// counts; one that holds a comma also yields a file, its header being the
/// text before the first comma and its payload the text after it, and has
/// every occurrence of it in the HTML replaced by the file's reference.
pub open spec fn plan_step(st: PlanState, src: Option<Seq<char>>, use_attachments: bool) -> PlanState {
    match src {
        Some(s) => if is_inline_image(s) {
            let n = st.1 + 1;
            if lacks(s, ',') {
                (st.0, n, st.2)
            } else {
                let name = attachment_name(n, extension_of(before_first(s, ',')));
                (
                    replace_all(st.0, s, image_reference(name, use_attachments)),
                    n,
                    st.2.push((name, after_first(s, ','))),
                )
            }
        } else {
            st
        },
        None => st,
    }
}

/// Extraction over `srcs`, the `src` attributes of the `img` elements of
/// `html` in the order that the HTML parser yields them.
pub open spec fn image_plan(html: Seq<char>, srcs: Seq<Option<Seq<char>>>, use_attachments: bool) -> PlanState
    decreases srcs.len(),
{
    if srcs.len() == 0 {
        (html, 0, seq![])
    } else {
        plan_step(image_plan(html, srcs.drop_last(), use_attachments), srcs.last(), use_attachments)
    }
}

/// Appends the decimal digits of `n`.
fn push_decimal(out: &mut Vec<char>, n: usize)
    ensures
        final(out)@ == old(out)@ + decimal(n as nat),
    decreases n,
{
    let digits = vec!['0', '1', '2', '3', '4', '5', '6', '7', '8', '9'];
    if n >= 10 {
        push_decimal(out, n / 10);
    }
    out.push(digits[n % 10]);
    assert(digits@ == seq!['0', '1', '2', '3', '4', '5', '6', '7', '8', '9']);
    assert(out@ =~= old(out)@ + decimal(n as nat));
}

/// The file name of the `n`-th inline image, with extension `ext`.
pub fn attachment_file_name(n: usize, ext: &Vec<char>) -> (r: Vec<char>)
    ensures
        r@ == attachment_name(n as nat, ext@),
{
    let mut r = vec!['a', 't', 't', 'a', 'c', 'h', 'm', 'e', 'n', 't', '-'];
    if n < 10 {
        r.push('0');
        r.push('0');
    } else if n < 100 {
        r.push('0');
    }
    push_decimal(&mut r, n);
    r.push('.');
    append_chars(&mut r, ext);
    assert(r@ =~= attachment_name(n as nat, ext@));
    r
}

/// The extension named by a data URL header.
pub fn header_extension(header: &Vec<char>) -> (r: Vec<char>)
    ensures
        r@ == extension_of(header@),
{
    let mut slash = split_chars(header, '/');
    assert(slash.deep_view().len() == slash@.len());
    if slash.len() >= 2 {
        let ghost pieces = slash.deep_view();
        let second = slash.remove(1);
        assert(second.deep_view() =~= second@);
        assert(second@ == pieces[1]);
        let mut semi = split_chars(&second, ';');
        let ghost semi_pieces = semi.deep_view();
        assert(semi_pieces.len() == semi@.len());
        assert(semi_pieces.len() >= 1);
        let first = semi.remove(0);
        assert(first.deep_view() =~= first@);
        assert(first@ == semi_pieces[0]);
        first
    } else {
        let r = vec!['p', 'n', 'g'];
        assert(r@ =~= default_extension());
        r
    }
}

/// Finds the inline images among `srcs`, the `src` attributes of the `img`
/// elements of `html` in the order that the HTML parser yields them, and
/// rewrites `html` to refer to their files.
pub fn plan_images(html: &str, srcs: &Vec<Option<String>>, use_attachments: bool) -> (r: ImagePlan)
    ensures
        r.html@ == image_plan(html@, srcs.deep_view(), use_attachments).0,
        planned_view(r.images@) == image_plan(html@, srcs.deep_view(), use_attachments).2,
{
    let prefix = vec!['d', 'a', 't', 'a', ':', 'i', 'm', 'a', 'g', 'e'];
    let mut text = chars_of(html);
    let mut images: Vec<PlannedImage> = Vec::new();
    let mut count: usize = 0;
    let mut i: usize = 0;
    while i < srcs.len()
        invariant
            i <= srcs.len(),
            count <= i,
            prefix@ == data_image_prefix(),
            (text@, count as nat, planned_view(images@)) == image_plan(
                html@,
                srcs.deep_view().take(i as int),
                use_attachments,
            ),
        decreases srcs.len() - i,
    {
        let ghost src = srcs.deep_view()[i as int];
        assert(srcs.deep_view().take(i + 1).drop_last() =~= srcs.deep_view().take(i as int));
        match &srcs[i] {
            Some(s) => {
                let src_chars = chars_of(s.as_str());
                assert(src == Some(src_chars@));
                if matches_at(&src_chars, &prefix, 0) {
                    assert(src_chars@.subrange(0, 10) =~= src_chars@.take(10));
                    count = count + 1;
                    if let Some((header, payload)) = split_first(&src_chars, ',') {
                        let ext = header_extension(&header);
                        let name = attachment_file_name(count, &ext);
                        let reference = if use_attachments {
                            let mut r = vec![
                                'a', 't', 't', 'a', 'c', 'h', 'm', 'e', 'n', 't', 's', '/',
                            ];
                            append_chars(&mut r, &name);
                            r
                        } else {
                            name.clone()
                        };
                        assert(reference@ =~= image_reference(name@, use_attachments));
                        text = replace_chars(&text, &src_chars, &reference);
                        let ghost imgs0 = images@;
                        images.push(
                            PlannedImage { file_name: string_of(&name), payload: string_of(&payload) },
                        );
                        assert(planned_view(images@) =~= planned_view(imgs0).push((name@, payload@)));
                    }
                }
            },
            None => {},
        }
        i = i + 1;
    }
    assert(srcs.deep_view().take(i as int) =~= srcs.deep_view());
    ImagePlan { html: string_of(&text), images }
}

#[verifier::external_type_specification]
#[verifier::external_body]
pub struct ExDecodeError(base64::DecodeError);

/// The bytes that the standard, padded base64 text `text` stands for; `None`
/// where it is not such a text.
pub uninterp spec fn base64_decoded(text: Seq<char>) -> Option<Seq<u8>>;

/// Relies on base64's `Engine::decode` with the `STANDARD` engine: the bytes
/// that a standard base64 text stands for, or an error.
#[verifier::external_body]
fn decode_base64(text: &str) -> (r: Result<Vec<u8>, base64::DecodeError>)
    ensures
        r is Ok <==> base64_decoded(text@) is Some,
        r is Ok ==> base64_decoded(text@) == Some(r->Ok_0@),
{
    base64::Engine::decode(&base64::engine::general_purpose::STANDARD, text)
}

/// Why an export stops.
#[derive(Debug)]
pub enum ExportError {
    /// The payload of an inline image is not valid base64; the error holds
    /// the file name that the image would have had.
    ImageDecode { file_name: String },
}

/// An image file to write: its name and its bytes.
pub struct ImageFile {
    pub file_name: String,
    pub data: Vec<u8>,
}

/// Each image file as its name and bytes.
pub open spec fn files_view(v: Seq<ImageFile>) -> Seq<(Seq<char>, Seq<u8>)> {
    v.map_values(|f: ImageFile| (f.file_name@, f.data@))
}

/// Decoded images (file name and bytes), or the file name of the image that
/// failed.
pub type DecodeOutcome = Result<Seq<(Seq<char>, Seq<u8>)>, Seq<char>>;

/// The planned images with their payloads decoded, or the file name of the
/// first whose payload does not decode.
pub open spec fn decoded_images(planned: Seq<(Seq<char>, Seq<char>)>) -> DecodeOutcome
    decreases planned.len(),
{
    if planned.len() == 0 {
        Ok(seq![])
    } else {
        match decoded_images(planned.drop_last()) {
            Err(name) => Err(name),
            Ok(prev) => match base64_decoded(planned.last().1) {
                Some(data) => Ok(prev.push((planned.last().0, data))),
                None => Err(planned.last().0),
            },
        }
    }
}

proof fn lemma_decode_error_stays(planned: Seq<(Seq<char>, Seq<char>)>, i: int, j: int)
    requires
        0 < i <= j <= planned.len(),
        decoded_images(planned.take(i)) is Err,
    ensures
        decoded_images(planned.take(j)) == decoded_images(planned.take(i)),
    decreases j - i,
{
    if j > i {
        lemma_decode_error_stays(planned, i, j - 1);
        assert(planned.take(j).drop_last() =~= planned.take(j - 1));
    }
}

/// Decodes the payload of each planned image; fails on the first that is not
/// valid base64.
pub fn decode_images(planned: &Vec<PlannedImage>) -> (r: Result<Vec<ImageFile>, ExportError>)
    ensures
        r is Ok <==> decoded_images(planned_view(planned@)) is Ok,
        r is Ok ==> decoded_images(planned_view(planned@)) == DecodeOutcome::Ok(files_view(r->Ok_0@)),
        r matches Err(ExportError::ImageDecode { file_name }) ==> decoded_images(
            planned_view(planned@),
        ) == DecodeOutcome::Err(file_name@),
{
    let ghost pv = planned_view(planned@);
    let mut files: Vec<ImageFile> = Vec::new();
    let mut i: usize = 0;
    assert(pv.take(0).len() == 0);
    assert(files_view(files@) =~= seq![]);
    while i < planned.len()
        invariant
            i <= planned.len(),
            pv == planned_view(planned@),
            decoded_images(pv.take(i as int)) == DecodeOutcome::Ok(files_view(files@)),
        decreases planned.len() - i,
    {
        assert(pv.take(i + 1).drop_last() =~= pv.take(i as int));
        assert(pv.take(i + 1).last() == (planned@[i as int].file_name@, planned@[i as int].payload@));
        match decode_base64(planned[i].payload.as_str()) {
            Ok(data) => {
                let ghost f0 = files@;
                files.push(ImageFile { file_name: planned[i].file_name.clone(), data });
                assert(files_view(files@) =~= files_view(f0).push(
                    (planned@[i as int].file_name@, data@),
                ));
            },
            Err(_) => {
                proof {
                    lemma_decode_error_stays(pv, i + 1, pv.len() as int);
                    assert(pv.take(pv.len() as int) =~= pv);
                }
                return Err(ExportError::ImageDecode { file_name: planned[i].file_name.clone() });
            },
        }
        i = i + 1;
    }
    assert(pv.take(i as int) =~= pv);
    Ok(files)
}

proof fn lemma_split_scan_tail(p: Seq<char>, q: Seq<char>, sep: char)
    requires
        lacks(q, sep),
    ensures
        split_scan(p + q, sep) == (split_scan(p, sep).0, split_scan(p, sep).1 + q),
    decreases q.len(),
{
    if q.len() == 0 {
        assert(p + q =~= p);
        assert(split_scan(p, sep).1 + q =~= split_scan(p, sep).1);
    } else {
        lemma_split_scan_tail(p, q.drop_last(), sep);
        assert((p + q).drop_last() =~= p + q.drop_last());
        assert(split_scan(p, sep).1 + q =~= (split_scan(p, sep).1 + q.drop_last()).push(q.last()));
    }
}

/// Splitting `a`, `sep`, `b` at `sep`, where neither piece holds `sep`, gives
/// the two pieces.
proof fn lemma_split_two(a: Seq<char>, b: Seq<char>, sep: char)
    requires
        lacks(a, sep),
        lacks(b, sep),
    ensures
        split_on(a + seq![sep] + b, sep) == seq![a, b],
{
    lemma_split_scan_tail(seq![], a, sep);
    assert(seq![] + a =~= a);
    assert(split_scan(seq![], sep) == (Seq::<Seq<char>>::empty(), Seq::<char>::empty()));
    assert(Seq::<char>::empty() + a =~= a);
    let pa = a + seq![sep];
    assert(pa.drop_last() =~= a);
    assert(split_scan(pa, sep) == (seq![a], Seq::<char>::empty()));
    lemma_split_scan_tail(pa, b, sep);
    assert(Seq::<char>::empty() + b =~= b);
    assert(split_on(a + seq![sep] + b, sep) =~= seq![a, b]);
}

/// `data:image/<subtype>;base64,<payload>`.
pub open spec fn data_url(subtype: Seq<char>, payload: Seq<char>) -> Seq<char> {
    data_image_prefix() + seq!['/'] + subtype + seq![';', 'b', 'a', 's', 'e', '6', '4', ','] + payload
}

/// The effect of extraction on a body whose one inline image is
/// `data_url(subtype, payload)`: the file `attachment-001.<subtype>` holding
/// `payload`, and every occurrence of the URL replaced by the file's
/// reference.
pub open spec fn one_image_result(
    html: Seq<char>,
    subtype: Seq<char>,
    payload: Seq<char>,
    use_attachments: bool,
) -> PlanState {
    let name = attachment_stem() + seq!['0', '0', '1', '.'] + subtype;
    (
        replace_all(html, data_url(subtype, payload), image_reference(name, use_attachments)),
        1nat,
        seq![(name, payload)],
    )
}

proof fn lemma_one_image_step(
    html: Seq<char>,
    subtype: Seq<char>,
    payload: Seq<char>,
    use_attachments: bool,
)
    requires
        lacks(subtype, '/'),
        lacks(subtype, ';'),
        lacks(subtype, ','),
    ensures
        plan_step(
            (html, 0nat, Seq::<(Seq<char>, Seq<char>)>::empty()),
            Some(data_url(subtype, payload)),
            use_attachments,
        ) == one_image_result(html, subtype, payload, use_attachments),
{
    let marker = seq![';', 'b', 'a', 's', 'e', '6', '4'];
    let header = data_image_prefix() + seq!['/'] + subtype + marker;
    let src = data_url(subtype, payload);
    assert(src =~= header + seq![','] + payload);
    assert(lacks(header, ',')) by {
        assert forall|i: int| 0 <= i < header.len() implies header[i] != ',' by {
            if i >= data_image_prefix().len() + 1 + subtype.len() {
            } else if i >= data_image_prefix().len() + 1 {
                assert(header[i] == subtype[i - data_image_prefix().len() - 1]);
            }
        }
    }
    lemma_split_first(header, payload, ',');
    assert(!lacks(src, ',')) by {
        assert(src[header.len() as int] == ',');
    }
    let rest = subtype + marker;
    assert(lacks(rest, '/')) by {
        assert forall|i: int| 0 <= i < rest.len() implies rest[i] != '/' by {
            if i < subtype.len() {
                assert(rest[i] == subtype[i]);
            }
        }
    }
    assert(header =~= data_image_prefix() + seq!['/'] + rest);
    lemma_split_two(data_image_prefix(), rest, '/');
    let after = seq!['b', 'a', 's', 'e', '6', '4'];
    assert(rest =~= subtype + seq![';'] + after);
    lemma_split_two(subtype, after, ';');
    assert(extension_of(header) == subtype);
    assert(src.take(10) =~= data_image_prefix());
    assert(is_inline_image(src));
    assert(padded3(1) =~= seq!['0', '0', '1']);
    let name = attachment_stem() + seq!['0', '0', '1', '.'] + subtype;
    assert(attachment_name(1, subtype) =~= name);
    assert(Seq::<(Seq<char>, Seq<char>)>::empty().push((name, payload)) =~= seq![(name, payload)]);
}

proof fn lemma_one_image_prefix(
    html: Seq<char>,
    srcs: Seq<Option<Seq<char>>>,
    k: int,
    subtype: Seq<char>,
    payload: Seq<char>,
    use_attachments: bool,
    j: int,
)
    requires
        lacks(subtype, '/'),
        lacks(subtype, ';'),
        lacks(subtype, ','),
        0 <= k < srcs.len(),
        srcs[k] == Some(data_url(subtype, payload)),
        forall|i: int|
            0 <= i < srcs.len() && i != k ==> !(#[trigger] srcs[i] matches Some(s) && is_inline_image(s)),
        0 <= j <= srcs.len(),
    ensures
        image_plan(html, srcs.take(j), use_attachments) == if j <= k {
            (html, 0nat, Seq::<(Seq<char>, Seq<char>)>::empty())
        } else {
            one_image_result(html, subtype, payload, use_attachments)
        },
    decreases j,
{
    if j > 0 {
        lemma_one_image_prefix(html, srcs, k, subtype, payload, use_attachments, j - 1);
        assert(srcs.take(j).drop_last() =~= srcs.take(j - 1));
        assert(srcs.take(j).last() == srcs[j - 1]);
        if j - 1 == k {
            lemma_one_image_step(html, subtype, payload, use_attachments);
        } else {
            assert(!(srcs[j - 1] matches Some(s) && is_inline_image(s)));
        }
    } else {
        assert(srcs.take(0) =~= Seq::<Option<Seq<char>>>::empty());
    }
}

/// A body whose `img` sources hold one base64 data URL of an image of subtype
/// `subtype`, the others (if any) being absent or not data URLs, yields one
/// file, `attachment-001.<subtype>`, holding `payload`, and has every
/// occurrence of that URL replaced by the file's reference:
/// `attachments/attachment-001.<subtype>` or the bare file name.
pub proof fn lemma_one_inline_image(
    html: Seq<char>,
    srcs: Seq<Option<Seq<char>>>,
    k: int,
    subtype: Seq<char>,
    payload: Seq<char>,
    use_attachments: bool,
)
    requires
        lacks(subtype, '/'),
        lacks(subtype, ';'),
        lacks(subtype, ','),
        0 <= k < srcs.len(),
        srcs[k] == Some(data_url(subtype, payload)),
        forall|i: int|
            0 <= i < srcs.len() && i != k ==> !(#[trigger] srcs[i] matches Some(s) && is_inline_image(s)),
    ensures
        image_plan(html, srcs, use_attachments) == one_image_result(
            html,
            subtype,
            payload,
            use_attachments,
        ),
{
    lemma_one_image_prefix(html, srcs, k, subtype, payload, use_attachments, srcs.len() as int);
    assert(srcs.take(srcs.len() as int) =~= srcs);
}

/// A body none of whose `img` sources is a data URL is left as it is, and no
/// image is planned.
pub proof fn lemma_no_inline_image(html: Seq<char>, srcs: Seq<Option<Seq<char>>>, use_attachments: bool)
    requires
        forall|i: int| 0 <= i < srcs.len() ==> !(#[trigger] srcs[i] matches Some(s) && is_inline_image(s)),
    ensures
        image_plan(html, srcs, use_attachments) == (html, 0nat, Seq::<(Seq<char>, Seq<char>)>::empty()),
        decoded_images(image_plan(html, srcs, use_attachments).2) == DecodeOutcome::Ok(seq![]),
    decreases srcs.len(),
{
    if srcs.len() > 0 {
        assert(!(srcs[srcs.len() - 1] matches Some(s) && is_inline_image(s)));
        lemma_no_inline_image(html, srcs.drop_last(), use_attachments);
    }
}

} // verus!
