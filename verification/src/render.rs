//! Request orchestration: decoding the caller's color strings, deriving
//! label colors, substituting the template, and rasterizing the result.

use crate::color::{
    classify, label_hex_seq, label_of, parse_color, rgb_of, valid_hex_color, LabelColor,
};
use crate::hex::{all_hex_digits, is_hex_digit};
use crate::raster::{is_png_prefix, rasterize, svg_parses};
use crate::template::{
    bg_token, lemma_replace_eliminates, lemma_replace_preserves_free, lemma_tokens_cannot_rebuild,
    replace_seq, substitute, substituted_upto, text_token, token_free, wf_assignments,
    SlotAssignment, SLOT_COUNT,
};
use vstd::prelude::*;

verus! {

/// Status of a response to one render request.
#[derive(Clone, Copy, PartialEq, Eq, Structural, Debug)]
pub enum Status {
    /// The image was rendered.
    Success,
    /// A caller-supplied color string was malformed.
    BadRequest,
    /// The rendering stack rejected the substituted document.
    ServerError,
}

/// The numeric HTTP status code of a response status.
pub open spec fn status_code(s: Status) -> u16 {
    match s {
        Status::Success => 200,
        Status::BadRequest => 400,
        Status::ServerError => 500,
    }
}

impl Status {
    /// The numeric HTTP status code.
    pub fn code(&self) -> (r: u16)
        ensures
            r == status_code(*self),
    {
        match *self {
            Status::Success => 200,
            Status::BadRequest => 400,
            Status::ServerError => 500,
        }
    }
}

/// Declared media type of a response body.
#[derive(Clone, Copy, PartialEq, Eq, Structural, Debug)]
pub enum MediaType {
    Png,
    Html,
}

/// The MIME name of a media type.
pub open spec fn mime_seq(m: MediaType) -> Seq<char> {
    match m {
        MediaType::Png => "image/png"@,
        MediaType::Html => "text/html"@,
    }
}

impl MediaType {
    /// The MIME name of this media type.
    pub fn mime(&self) -> (r: &'static str)
        ensures
            r@ == mime_seq(*self),
    {
        match *self {
            MediaType::Png => "image/png",
            MediaType::Html => "text/html",
        }
    }
}

/// The outcome of one render request: a status, the declared media type,
/// and the response body.
pub struct RenderResponse {
    pub status: Status,
    pub media: MediaType,
    pub body: Vec<u8>,
}

/// Every one of the caller's color strings is a well-formed six-digit
/// hexadecimal color.
pub open spec fn all_colors_valid(cs: Seq<Seq<char>>) -> bool {
    forall|i: int| 0 <= i < cs.len() ==> valid_hex_color(#[trigger] cs[i])
}

/// The template after the first `k` slots of a valid request have been
/// substituted: each background placeholder replaced by the caller's
/// original string, each label placeholder by the canonical string of the
/// label derived from the decoded color.
pub open spec fn document_upto(t: Seq<char>, cs: Seq<Seq<char>>, k: int) -> Seq<char>
    decreases k,
{
    if k <= 0 {
        t
    } else {
        replace_seq(
            replace_seq(document_upto(t, cs, k - 1), bg_token(k - 1), cs[k - 1]),
            text_token(k - 1),
            label_hex_seq(label_of(rgb_of(cs[k - 1]))),
        )
    }
}

/// The document handed to the rasterizer for a valid request.
pub open spec fn document_of(t: Seq<char>, cs: Seq<Seq<char>>) -> Seq<char> {
    document_upto(t, cs, cs.len() as int)
}

/// Substituting assignments built from the request's colors and their
/// derived labels produces the request's document.
proof fn lemma_substituted_is_document(
    t: Seq<char>,
    cs: Seq<Seq<char>>,
    a: Seq<SlotAssignment>,
    k: int,
)
    requires
        a.len() == cs.len(),
        forall|j: int| 0 <= j < cs.len() ==> (#[trigger] a[j].background@) == cs[j],
        forall|j: int| 0 <= j < cs.len() ==> (#[trigger] a[j].label) == label_of(rgb_of(cs[j])),
        0 <= k <= cs.len(),
    ensures
        substituted_upto(t, a, k) == document_upto(t, cs, k),
    decreases k,
{
    if k > 0 {
        lemma_substituted_is_document(t, cs, a, k - 1);
    }
}

/// Identical requests are decided alike: the same validation outcome and,
/// for valid colors, the same document handed to the rasterizer. Byte
/// identity of the PNG output then rests on the rendering stack being
/// deterministic over that document.
pub proof fn lemma_identical_requests_agree(
    t: Seq<char>,
    cs1: Seq<Seq<char>>,
    cs2: Seq<Seq<char>>,
)
    requires
        cs1 == cs2,
    ensures
        all_colors_valid(cs1) == all_colors_valid(cs2),
        document_of(t, cs1) == document_of(t, cs2),
{
}

/// A label color's canonical string is six hexadecimal digits.
proof fn lemma_label_hex_is_hex(l: LabelColor)
    ensures
        label_hex_seq(l).len() == 6,
        all_hex_digits(label_hex_seq(l)),
{
    let s = label_hex_seq(l);
    assert forall|m: int| 0 <= m < s.len() implies is_hex_digit(#[trigger] s[m]) by {
        match l {
            LabelColor::Black => {
                assert(s[m] == '0');
            },
            LabelColor::White => {
                assert(s[m] == 'F');
            },
        }
    }
}

/// No placeholder survives the first `k` slots' substitution: the slots
/// already substituted stand nowhere in the partial document.
proof fn lemma_no_placeholder_upto(t: Seq<char>, cs: Seq<Seq<char>>, k: int)
    requires
        cs.len() == SLOT_COUNT,
        all_colors_valid(cs),
        0 <= k <= SLOT_COUNT,
    ensures
        forall|i: int|
            0 <= i < k ==> token_free(document_upto(t, cs, k), #[trigger] bg_token(i))
                && token_free(document_upto(t, cs, k), text_token(i)),
    decreases k,
{
    if k > 0 {
        lemma_no_placeholder_upto(t, cs, k - 1);
        let prev = document_upto(t, cs, k - 1);
        let bg_rep = cs[k - 1];
        let lab = label_of(rgb_of(cs[k - 1]));
        let lab_rep = label_hex_seq(lab);
        lemma_label_hex_is_hex(lab);
        assert(valid_hex_color(bg_rep));
        let mid = replace_seq(prev, bg_token(k - 1), bg_rep);
        let cur = replace_seq(mid, text_token(k - 1), lab_rep);
        assert(cur == document_upto(t, cs, k));
        assert forall|i: int|
            0 <= i < k implies token_free(cur, #[trigger] bg_token(i)) && token_free(
            cur,
            text_token(i),
        ) by {
            lemma_tokens_cannot_rebuild(i, bg_rep);
            lemma_tokens_cannot_rebuild(i, lab_rep);
            if i < k - 1 {
                lemma_replace_preserves_free(prev, bg_token(k - 1), bg_rep, bg_token(i));
                lemma_replace_preserves_free(prev, bg_token(k - 1), bg_rep, text_token(i));
                lemma_replace_preserves_free(mid, text_token(k - 1), lab_rep, bg_token(i));
                lemma_replace_preserves_free(mid, text_token(k - 1), lab_rep, text_token(i));
            } else {
                lemma_replace_eliminates(prev, bg_token(k - 1), bg_rep);
                lemma_replace_preserves_free(mid, text_token(k - 1), lab_rep, bg_token(k - 1));
                lemma_replace_eliminates(mid, text_token(k - 1), lab_rep);
            }
        }
    }
}

/// For a valid request every placeholder is satisfied: no slot's
/// background or label token stands anywhere in the document handed to the
/// rasterizer. The substituted strings are six hexadecimal digits each —
/// the caller's color strings and the canonical label strings — and
/// hexadecimal digits cannot stand in for a token's braces, so
/// substitution can neither miss a token nor stitch one together.
pub proof fn lemma_no_placeholder_remains(t: Seq<char>, cs: Seq<Seq<char>>)
    requires
        cs.len() == SLOT_COUNT,
        all_colors_valid(cs),
    ensures
        forall|i: int|
            0 <= i < SLOT_COUNT ==> token_free(document_of(t, cs), #[trigger] bg_token(i))
                && token_free(document_of(t, cs), text_token(i)),
{
    lemma_no_placeholder_upto(t, cs, SLOT_COUNT as int);
}

/// Handles one request. Decodes the five color strings; if any is
/// malformed the request is rejected at once with status 400 and an empty
/// HTML body, and no image is produced. Otherwise each decoded color's
/// label is derived, both are substituted into the template, and the
/// document is rasterized: status 200 with the PNG bytes on success, and
/// status 500 with an empty HTML body exactly when the document does not
/// parse or no raster buffer of its size — which resolving image
/// resources can sway, so it is no function of the text — can be made.
pub fn render(template: &str, colors: &Vec<String>) -> (r: RenderResponse)
    requires
        colors@.len() == SLOT_COUNT,
    ensures
        !all_colors_valid(colors.deep_view()) ==> r.status == Status::BadRequest && r.media
            == MediaType::Html && r.body@ == Seq::<u8>::empty(),
        all_colors_valid(colors.deep_view()) ==> {
            let doc = document_of(template@, colors.deep_view());
            &&& r.status == Status::Success || r.status == Status::ServerError
            &&& (!svg_parses(doc) ==> r.status == Status::ServerError)
            &&& (r.status == Status::Success ==> svg_parses(doc) && r.media == MediaType::Png
                && is_png_prefix(r.body@))
            &&& (r.status == Status::ServerError ==> r.media == MediaType::Html && r.body@
                == Seq::<u8>::empty())
        },
{
    let ghost cs = colors.deep_view();
    let mut assignments: Vec<SlotAssignment> = Vec::new();
    let mut i: usize = 0;
    while i < SLOT_COUNT
        invariant
            colors@.len() == SLOT_COUNT,
            cs == colors.deep_view(),
            i <= SLOT_COUNT,
            assignments@.len() == i,
            forall|j: int| 0 <= j < i ==> valid_hex_color(#[trigger] cs[j]),
            forall|j: int| 0 <= j < i ==> (#[trigger] assignments@[j].index) == j,
            forall|j: int| 0 <= j < i ==> (#[trigger] assignments@[j].background@) == cs[j],
            forall|j: int|
                0 <= j < i ==> (#[trigger] assignments@[j].label) == label_of(rgb_of(cs[j])),
        decreases SLOT_COUNT - i,
    {
        proof {
            assert(cs[i as int] == colors@[i as int]@);
        }
        match parse_color(colors[i].as_str()) {
            None => {
                assert(!valid_hex_color(cs[i as int]));
                return RenderResponse {
                    status: Status::BadRequest,
                    media: MediaType::Html,
                    body: Vec::new(),
                };
            },
            Some(rgb) => {
                let label = classify(rgb);
                let background = colors[i].clone();
                assignments.push(SlotAssignment { index: i, background, label });
            },
        }
        i += 1;
    }
    assert(all_colors_valid(cs));
    let sub = substitute(template, &assignments);
    match sub {
        Err(_) => {
            proof {
                assert(wf_assignments(assignments@));
                assert(false);
            }
            RenderResponse { status: Status::ServerError, media: MediaType::Html, body: Vec::new() }
        },
        Ok(doc) => {
            proof {
                lemma_substituted_is_document(template@, cs, assignments@, SLOT_COUNT as int);
                assert(doc@ == document_of(template@, cs));
            }
            match rasterize(doc.as_str()) {
                Ok(bytes) => RenderResponse {
                    status: Status::Success,
                    media: MediaType::Png,
                    body: bytes,
                },
                Err(_) => RenderResponse {
                    status: Status::ServerError,
                    media: MediaType::Html,
                    body: Vec::new(),
                },
            }
        },
    }
}

} // verus!
