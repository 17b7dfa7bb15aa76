//! Template substitution: exact textual replacement of the positional
//! background and label placeholders of the swatch template.

use crate::color::{label_hex, label_hex_seq, LabelColor};
use crate::hex::{all_hex_digits, is_hex_digit};
use vstd::prelude::*;

verus! {

/// Number of color slots the swatch template defines.
pub const SLOT_COUNT: usize = 5;

/// Replacement of every occurrence of `pat` in `s` by `rep`, scanning left
/// to right over non-overlapping matches.
pub open spec fn replace_seq(s: Seq<char>, pat: Seq<char>, rep: Seq<char>) -> Seq<char>
    decreases s.len(),
{
    if pat.len() == 0 || s.len() < pat.len() {
        s
    } else if s.take(pat.len() as int) == pat {
        rep + replace_seq(s.skip(pat.len() as int), pat, rep)
    } else {
        seq![s[0]] + replace_seq(s.skip(1), pat, rep)
    }
}

/// When `s` does not begin with the pattern, replacement keeps the first
/// character and continues behind it.
proof fn lemma_replace_step_no_match(s: Seq<char>, pat: Seq<char>, rep: Seq<char>)
    requires
        s.len() >= 1,
        pat.len() >= 1,
        s.len() < pat.len() || s.take(pat.len() as int) != pat,
    ensures
        replace_seq(s, pat, rep) == seq![s[0]] + replace_seq(s.skip(1), pat, rep),
{
    if s.len() < pat.len() {
        assert(s.skip(1).len() < pat.len());
        assert(replace_seq(s.skip(1), pat, rep) == s.skip(1));
        assert(s =~= seq![s[0]] + s.skip(1));
    }
}

/// True when the characters of `text` starting at `i` are exactly `pat`.
fn matches_at(text: &str, pat: &str, i: usize, p: usize) -> (r: bool)
    requires
        p == pat@.len(),
        i + p <= text@.len(),
        i + p <= usize::MAX,
    ensures
        r == (text@.subrange(i as int, i + p) == pat@),
{
    let mut j: usize = 0;
    while j < p
        invariant
            p == pat@.len(),
            i + p <= text@.len(),
            i + p <= usize::MAX,
            j <= p,
            forall|k: int| 0 <= k < j ==> text@[i + k] == pat@[k],
        decreases p - j,
    {
        if text.get_char(i + j) != pat.get_char(j) {
            assert(text@.subrange(i as int, i + p)[j as int] == text@[i + j]);
            return false;
        }
        j += 1;
    }
    proof {
        assert(text@.subrange(i as int, i + p) =~= pat@);
    }
    true
}

/// Replaces every occurrence of the non-empty pattern `pat` in `text` by
/// `rep`, scanning left to right; the input is not changed.
pub fn replace_all(text: &str, pat: &str, rep: &str) -> (r: String)
    requires
        pat@.len() >= 1,
    ensures
        r@ == replace_seq(text@, pat@, rep@),
{
    let n = text.unicode_len();
    let p = pat.unicode_len();
    let mut out = String::new();
    let mut i: usize = 0;
    proof {
        assert(text@.skip(0) =~= text@);
        assert(Seq::<char>::empty() + replace_seq(text@, pat@, rep@) =~= replace_seq(
            text@,
            pat@,
            rep@,
        ));
    }
    while i < n
        invariant
            n == text@.len(),
            p == pat@.len(),
            1 <= p,
            i <= n,
            replace_seq(text@, pat@, rep@) == out@ + replace_seq(
                text@.skip(i as int),
                pat@,
                rep@,
            ),
        decreases n - i,
    {
        let ghost rest = text@.skip(i as int);
        let matched = if p <= n - i {
            matches_at(text, pat, i, p)
        } else {
            false
        };
        if matched {
            out.append(rep);
            proof {
                assert(rest.take(p as int) =~= text@.subrange(i as int, i + p));
                assert(replace_seq(rest, pat@, rep@) == rep@ + replace_seq(
                    rest.skip(p as int),
                    pat@,
                    rep@,
                ));
                assert(rest.skip(p as int) =~= text@.skip(i + p));
            }
            i += p;
        } else {
            let ch = text.substring_char(i, i + 1);
            out.append(ch);
            proof {
                if rest.len() >= p {
                    assert(rest.take(p as int) =~= text@.subrange(i as int, i + p));
                }
                lemma_replace_step_no_match(rest, pat@, rep@);
                assert(ch@ =~= seq![rest[0]]);
                assert(rest.skip(1) =~= text@.skip(i + 1));
            }
            i += 1;
        }
    }
    proof {
        assert(text@.skip(n as int) =~= Seq::<char>::empty());
        assert(out@ + Seq::<char>::empty() =~= out@);
    }
    out
}

/// Number of non-overlapping occurrences of `pat` in `s`, counted scanning
/// left to right.
pub open spec fn count_occurrences(s: Seq<char>, pat: Seq<char>) -> nat
    decreases s.len(),
{
    if pat.len() == 0 || s.len() < pat.len() {
        0
    } else if s.take(pat.len() as int) == pat {
        1 + count_occurrences(s.skip(pat.len() as int), pat)
    } else {
        count_occurrences(s.skip(1), pat)
    }
}

/// When `s` does not begin with the pattern, the count is that of the rest.
proof fn lemma_count_step_no_match(s: Seq<char>, pat: Seq<char>)
    requires
        s.len() >= 1,
        pat.len() >= 1,
        s.len() < pat.len() || s.take(pat.len() as int) != pat,
    ensures
        count_occurrences(s, pat) == count_occurrences(s.skip(1), pat),
{
    if s.len() < pat.len() {
        assert(s.skip(1).len() < pat.len());
    }
}

/// Counts the non-overlapping occurrences of the non-empty pattern `pat` in
/// `text`, scanning left to right.
pub fn occurrences(text: &str, pat: &str) -> (r: usize)
    requires
        pat@.len() >= 1,
    ensures
        r == count_occurrences(text@, pat@),
{
    let n = text.unicode_len();
    let p = pat.unicode_len();
    let mut count: usize = 0;
    let mut i: usize = 0;
    proof {
        assert(text@.skip(0) =~= text@);
    }
    while i < n
        invariant
            n == text@.len(),
            p == pat@.len(),
            1 <= p,
            i <= n,
            count <= i,
            count_occurrences(text@, pat@) == count + count_occurrences(
                text@.skip(i as int),
                pat@,
            ),
        decreases n - i,
    {
        let ghost rest = text@.skip(i as int);
        let matched = if p <= n - i {
            matches_at(text, pat, i, p)
        } else {
            false
        };
        if matched {
            proof {
                assert(rest.take(p as int) =~= text@.subrange(i as int, i + p));
                assert(count_occurrences(rest, pat@) == 1 + count_occurrences(
                    rest.skip(p as int),
                    pat@,
                ));
                assert(rest.skip(p as int) =~= text@.skip(i + p));
            }
            count += 1;
            i += p;
        } else {
            proof {
                if rest.len() >= p {
                    assert(rest.take(p as int) =~= text@.subrange(i as int, i + p));
                }
                lemma_count_step_no_match(rest, pat@);
                assert(rest.skip(1) =~= text@.skip(i + 1));
            }
            i += 1;
        }
    }
    proof {
        assert(text@.skip(n as int) =~= Seq::<char>::empty());
    }
    count
}

/// A complete template: each slot's background placeholder and each slot's
/// label placeholder occurs exactly once.
pub open spec fn spec_template_complete(t: Seq<char>) -> bool {
    &&& forall|i: int|
        0 <= i < SLOT_COUNT ==> #[trigger] count_occurrences(t, bg_token(i)) == 1
    &&& forall|i: int|
        0 <= i < SLOT_COUNT ==> #[trigger] count_occurrences(t, text_token(i)) == 1
}

/// Checks that the template carries each of the slots' placeholders exactly
/// once: one background and one label placeholder per slot. Meant to hold
/// the configured slot count against a loaded template before it is used.
pub fn template_complete(template: &str) -> (r: bool)
    ensures
        r == spec_template_complete(template@),
{
    let mut i: usize = 0;
    while i < SLOT_COUNT
        invariant
            i <= SLOT_COUNT,
            forall|j: int|
                0 <= j < i ==> #[trigger] count_occurrences(template@, bg_token(j)) == 1,
            forall|j: int|
                0 <= j < i ==> #[trigger] count_occurrences(template@, text_token(j)) == 1,
        decreases SLOT_COUNT - i,
    {
        if occurrences(template, bg_placeholder(i)) != 1 {
            assert(count_occurrences(template@, bg_token(i as int)) != 1);
            return false;
        }
        if occurrences(template, text_placeholder(i)) != 1 {
            assert(count_occurrences(template@, text_token(i as int)) != 1);
            return false;
        }
        i += 1;
    }
    true
}

/// `pat` stands in `s` at position `k`.
pub open spec fn token_at(s: Seq<char>, pat: Seq<char>, k: int) -> bool {
    0 <= k && k + pat.len() <= s.len() && s.subrange(k, k + pat.len()) == pat
}

/// `pat` stands nowhere in `s`.
pub open spec fn token_free(s: Seq<char>, pat: Seq<char>) -> bool {
    forall|k: int| !token_at(s, pat, k)
}

/// A placeholder-shaped pattern beside a replacement that cannot rebuild
/// it: the pattern opens with `{` and closes with `}`, the replacement
/// contains neither brace, and no inner window of the pattern equals the
/// replacement. Replacing with such a replacement can then neither leave
/// the pattern standing nor stitch it together across a replacement.
pub open spec fn cannot_rebuild(pat: Seq<char>, rep: Seq<char>) -> bool {
    &&& pat.len() >= 2
    &&& pat[0] == '{'
    &&& pat[pat.len() - 1] == '}'
    &&& rep.len() >= 1
    &&& (forall|m: int| 0 <= m < rep.len() ==> rep[m] != '{' && (#[trigger] rep[m]) != '}')
    &&& (forall|j: int|
        1 <= j <= pat.len() - rep.len() - 1 ==> rep != (#[trigger] pat.subrange(
            j,
            j + rep.len(),
        )))
}

/// When a replaced string begins with a proper tail of a placeholder-shaped
/// token, that tail was already at the front of the source: it cannot begin
/// inside an inserted replacement, for the token's closing brace is not in
/// the replacement and no inner window of the token equals it.
proof fn lemma_replace_prefix_from_source(
    s: Seq<char>,
    q: Seq<char>,
    rep: Seq<char>,
    tok: Seq<char>,
    j: int,
)
    requires
        q.len() >= 1,
        cannot_rebuild(tok, rep),
        1 <= j < tok.len(),
        tok.len() - j <= replace_seq(s, q, rep).len(),
        replace_seq(s, q, rep).take(tok.len() - j) == tok.skip(j),
    ensures
        tok.len() - j <= s.len(),
        s.take(tok.len() - j) == tok.skip(j),
    decreases s.len(),
{
    let r = replace_seq(s, q, rep);
    let len = tok.len() - j;
    if s.len() < q.len() {
        assert(r == s);
    } else if s.take(q.len() as int) == q {
        let r2 = replace_seq(s.skip(q.len() as int), q, rep);
        assert(r == rep + r2);
        if len <= rep.len() {
            assert(tok[tok.len() - 1] == tok.skip(j)[len - 1]);
            assert(tok.skip(j)[len - 1] == r.take(len)[len - 1]);
            assert(r[len - 1] == rep[len - 1]);
            assert(rep[len - 1] == '}');
            assert(false);
        } else {
            assert forall|m: int| 0 <= m < rep.len() implies #[trigger] rep[m] == tok[j + m] by {
                assert(r[m] == rep[m]);
                assert(r.take(len)[m] == r[m]);
                assert(tok.skip(j)[m] == tok[j + m]);
            }
            assert(rep =~= tok.subrange(j, j + rep.len()));
            assert(1 <= j <= tok.len() - rep.len() - 1);
            assert(false);
        }
    } else {
        let r2 = replace_seq(s.skip(1), q, rep);
        assert(r == seq![s[0]] + r2);
        assert(s[0] == r[0]);
        assert(r.take(len)[0] == tok.skip(j)[0]);
        assert(s[0] == tok[j]);
        if len == 1 {
            assert(s.take(1) =~= tok.skip(j));
        } else {
            assert forall|m: int| 0 <= m < len - 1 implies #[trigger] r2[m] == tok[j + 1 + m] by {
                assert(r2[m] == r[m + 1]);
                assert(r.take(len)[m + 1] == r[m + 1]);
                assert(tok.skip(j)[m + 1] == tok[j + 1 + m]);
            }
            assert(r2.take(len - 1) =~= tok.skip(j + 1));
            lemma_replace_prefix_from_source(s.skip(1), q, rep, tok, j + 1);
            assert forall|m: int| 0 <= m < len implies #[trigger] s[m] == tok[j + m] by {
                if m > 0 {
                    assert(s.skip(1).take(len - 1)[m - 1] == tok.skip(j + 1)[m - 1]);
                    assert(s.skip(1)[m - 1] == s[m]);
                    assert(tok.skip(j + 1)[m - 1] == tok[j + m]);
                }
            }
            assert(s.take(len) =~= tok.skip(j));
        }
    }
}

/// Replacing every occurrence of a placeholder-shaped pattern leaves none
/// standing: none survives the scan, and none can be stitched together
/// from the replacement and the surrounding text.
pub proof fn lemma_replace_eliminates(s: Seq<char>, pat: Seq<char>, rep: Seq<char>)
    requires
        cannot_rebuild(pat, rep),
    ensures
        token_free(replace_seq(s, pat, rep), pat),
    decreases s.len(),
{
    let r = replace_seq(s, pat, rep);
    let p = pat.len() as int;
    if s.len() < p {
        assert(token_free(r, pat));
    } else if s.take(p) == pat {
        lemma_replace_eliminates(s.skip(p), pat, rep);
        let r2 = replace_seq(s.skip(p), pat, rep);
        assert(r == rep + r2);
        assert forall|k: int| !token_at(r, pat, k) by {
            if token_at(r, pat, k) {
                assert(r.subrange(k, k + p)[0] == r[k]);
                assert(r[k] == pat[0]);
                if k < rep.len() {
                    assert(r[k] == rep[k]);
                    assert(false);
                } else {
                    assert(r.subrange(k, k + p) =~= r2.subrange(k - rep.len(), k - rep.len() + p));
                    assert(token_at(r2, pat, k - rep.len()));
                    assert(false);
                }
            }
        }
    } else {
        lemma_replace_eliminates(s.skip(1), pat, rep);
        let r2 = replace_seq(s.skip(1), pat, rep);
        assert(r == seq![s[0]] + r2);
        assert forall|k: int| !token_at(r, pat, k) by {
            if token_at(r, pat, k) {
                if k == 0 {
                    assert(r.subrange(0, p)[0] == r[0]);
                    assert(s[0] == pat[0]);
                    assert forall|m: int| 0 <= m < p - 1 implies #[trigger] r2[m] == pat[m
                        + 1] by {
                        assert(r2[m] == r[m + 1]);
                        assert(r.subrange(0, p)[m + 1] == r[m + 1]);
                    }
                    assert(r2.take(p - 1) =~= pat.skip(1));
                    lemma_replace_prefix_from_source(s.skip(1), pat, rep, pat, 1);
                    assert forall|m: int| 0 <= m < p implies #[trigger] s[m] == pat[m] by {
                        if m > 0 {
                            assert(s.skip(1).take(p - 1)[m - 1] == pat.skip(1)[m - 1]);
                            assert(s.skip(1)[m - 1] == s[m]);
                        }
                    }
                    assert(s.take(p) =~= pat);
                    assert(false);
                } else {
                    assert(r.subrange(k, k + p) =~= r2.subrange(k - 1, k - 1 + p));
                    assert(token_at(r2, pat, k - 1));
                    assert(false);
                }
            }
        }
    }
}

/// A token that stands nowhere in a suffix's source stands nowhere in the
/// suffix.
proof fn lemma_token_free_skip(s: Seq<char>, tok: Seq<char>, n: int)
    requires
        token_free(s, tok),
        0 <= n <= s.len(),
    ensures
        token_free(s.skip(n), tok),
{
    assert forall|k: int| !token_at(s.skip(n), tok, k) by {
        if token_at(s.skip(n), tok, k) {
            assert(s.skip(n).subrange(k, k + tok.len()) =~= s.subrange(
                k + n,
                k + n + tok.len(),
            ));
            assert(token_at(s, tok, k + n));
        }
    }
}

/// Replacement cannot conjure a placeholder-shaped token that stood
/// nowhere before, whatever distinct pattern it replaces: the token's
/// braces are not in the replacement, and no inner window of the token
/// equals it.
pub proof fn lemma_replace_preserves_free(
    s: Seq<char>,
    q: Seq<char>,
    rep: Seq<char>,
    tok: Seq<char>,
)
    requires
        q.len() >= 1,
        cannot_rebuild(tok, rep),
        token_free(s, tok),
    ensures
        token_free(replace_seq(s, q, rep), tok),
    decreases s.len(),
{
    let r = replace_seq(s, q, rep);
    let p = tok.len() as int;
    if s.len() < q.len() {
        assert(r == s);
    } else if s.take(q.len() as int) == q {
        lemma_token_free_skip(s, tok, q.len() as int);
        lemma_replace_preserves_free(s.skip(q.len() as int), q, rep, tok);
        let r2 = replace_seq(s.skip(q.len() as int), q, rep);
        assert(r == rep + r2);
        assert forall|k: int| !token_at(r, tok, k) by {
            if token_at(r, tok, k) {
                assert(r.subrange(k, k + p)[0] == r[k]);
                assert(r[k] == tok[0]);
                if k < rep.len() {
                    assert(r[k] == rep[k]);
                    assert(false);
                } else {
                    assert(r.subrange(k, k + p) =~= r2.subrange(k - rep.len(), k - rep.len() + p));
                    assert(token_at(r2, tok, k - rep.len()));
                    assert(false);
                }
            }
        }
    } else {
        lemma_token_free_skip(s, tok, 1);
        lemma_replace_preserves_free(s.skip(1), q, rep, tok);
        let r2 = replace_seq(s.skip(1), q, rep);
        assert(r == seq![s[0]] + r2);
        assert forall|k: int| !token_at(r, tok, k) by {
            if token_at(r, tok, k) {
                if k == 0 {
                    assert(r.subrange(0, p)[0] == r[0]);
                    assert(s[0] == tok[0]);
                    assert forall|m: int| 0 <= m < p - 1 implies #[trigger] r2[m] == tok[m
                        + 1] by {
                        assert(r2[m] == r[m + 1]);
                        assert(r.subrange(0, p)[m + 1] == r[m + 1]);
                    }
                    assert(r2.take(p - 1) =~= tok.skip(1));
                    lemma_replace_prefix_from_source(s.skip(1), q, rep, tok, 1);
                    assert forall|m: int| 0 <= m < p implies #[trigger] s[m] == tok[m] by {
                        if m > 0 {
                            assert(s.skip(1).take(p - 1)[m - 1] == tok.skip(1)[m - 1]);
                            assert(s.skip(1)[m - 1] == s[m]);
                        }
                    }
                    assert(s.subrange(0, p) =~= tok);
                    assert(token_at(s, tok, 0));
                    assert(false);
                } else {
                    assert(r.subrange(k, k + p) =~= r2.subrange(k - 1, k - 1 + p));
                    assert(token_at(r2, tok, k - 1));
                    assert(false);
                }
            }
        }
    }
}

/// Six hexadecimal digits cannot rebuild any slot's placeholder: hex
/// digits are neither brace, and the inner window of a label token opens
/// with `t`, which is no hex digit.
pub proof fn lemma_tokens_cannot_rebuild(i: int, rep: Seq<char>)
    requires
        0 <= i < SLOT_COUNT,
        rep.len() == 6,
        all_hex_digits(rep),
    ensures
        cannot_rebuild(bg_token(i), rep),
        cannot_rebuild(text_token(i), rep),
{
    assert forall|m: int| 0 <= m < rep.len() implies rep[m] != '{' && (#[trigger] rep[m])
        != '}' by {
        assert(is_hex_digit(rep[m]));
    }
    let tok = text_token(i);
    assert forall|j: int| 1 <= j <= tok.len() - rep.len() - 1 implies rep
        != (#[trigger] tok.subrange(j, j + rep.len())) by {
        assert(j == 1);
        assert(tok.subrange(1, 7)[0] == 't');
        assert(is_hex_digit(rep[0]));
    }
}

/// The digit character of a slot index.
pub open spec fn index_char(i: int) -> char {
    if i == 0 {
        '0'
    } else if i == 1 {
        '1'
    } else if i == 2 {
        '2'
    } else if i == 3 {
        '3'
    } else {
        '4'
    }
}

/// The background placeholder token of a slot.
pub open spec fn bg_token(i: int) -> Seq<char> {
    seq!['{', 'b', 'g', '_', index_char(i), '}']
}

/// The label placeholder token of a slot.
pub open spec fn text_token(i: int) -> Seq<char> {
    seq!['{', 't', 'e', 'x', 't', '_', index_char(i), '}']
}

/// The background placeholder token of a slot, as text.
pub fn bg_placeholder(i: usize) -> (r: &'static str)
    requires
        i < SLOT_COUNT,
    ensures
        r@ == bg_token(i as int),
{
    proof {
        reveal_strlit("{bg_0}");
        reveal_strlit("{bg_1}");
        reveal_strlit("{bg_2}");
        reveal_strlit("{bg_3}");
        reveal_strlit("{bg_4}");
    }
    let r = if i == 0 {
        "{bg_0}"
    } else if i == 1 {
        "{bg_1}"
    } else if i == 2 {
        "{bg_2}"
    } else if i == 3 {
        "{bg_3}"
    } else {
        "{bg_4}"
    };
    proof {
        assert(r@ =~= bg_token(i as int));
    }
    r
}

/// The label placeholder token of a slot, as text.
pub fn text_placeholder(i: usize) -> (r: &'static str)
    requires
        i < SLOT_COUNT,
    ensures
        r@ == text_token(i as int),
{
    proof {
        reveal_strlit("{text_0}");
        reveal_strlit("{text_1}");
        reveal_strlit("{text_2}");
        reveal_strlit("{text_3}");
        reveal_strlit("{text_4}");
    }
    let r = if i == 0 {
        "{text_0}"
    } else if i == 1 {
        "{text_1}"
    } else if i == 2 {
        "{text_2}"
    } else if i == 3 {
        "{text_3}"
    } else {
        "{text_4}"
    };
    proof {
        assert(r@ =~= text_token(i as int));
    }
    r
}

/// One slot's substitution input: the slot index, the caller's original
/// background color string, and the derived label color.
pub struct SlotAssignment {
    pub index: usize,
    pub background: String,
    pub label: LabelColor,
}

/// Well-formed substitution input: one assignment per slot, in ascending
/// slot order.
pub open spec fn wf_assignments(a: Seq<SlotAssignment>) -> bool {
    a.len() == SLOT_COUNT && forall|j: int| 0 <= j < a.len() ==> (#[trigger] a[j].index) == j
}

/// Misuse of the substitution engine: the assignments do not cover the
/// template's slots exactly once each, in order.
#[derive(Clone, Copy, PartialEq, Eq, Structural, Debug)]
pub struct SubstitutionError;

/// The template after the first `k` slots have been substituted: for each
/// slot, every occurrence of its background placeholder is replaced by the
/// caller's color string, then every occurrence of its label placeholder by
/// the label color's canonical string.
pub open spec fn substituted_upto(t: Seq<char>, a: Seq<SlotAssignment>, k: int) -> Seq<char>
    decreases k,
{
    if k <= 0 {
        t
    } else {
        replace_seq(
            replace_seq(substituted_upto(t, a, k - 1), bg_token(k - 1), a[k - 1].background@),
            text_token(k - 1),
            label_hex_seq(a[k - 1].label),
        )
    }
}

/// The fully substituted template.
pub open spec fn substituted(t: Seq<char>, a: Seq<SlotAssignment>) -> Seq<char> {
    substituted_upto(t, a, a.len() as int)
}

/// Substitutes all slots of the template, in ascending slot order: each
/// background placeholder is replaced by the caller's original color string
/// and each label placeholder by the canonical string of the chosen label
/// color. Fails, and replaces nothing, unless the assignments list each of
/// the template's slots exactly once, in order.
pub fn substitute(template: &str, assignments: &Vec<SlotAssignment>) -> (r: Result<
    String,
    SubstitutionError,
>)
    ensures
        r is Ok <==> wf_assignments(assignments@),
        r is Ok ==> r->Ok_0@ == substituted(template@, assignments@),
{
    if assignments.len() != SLOT_COUNT {
        return Err(SubstitutionError);
    }
    let mut doc = template.to_owned();
    let mut j: usize = 0;
    while j < SLOT_COUNT
        invariant
            assignments@.len() == SLOT_COUNT,
            j <= SLOT_COUNT,
            forall|k: int| 0 <= k < j ==> (#[trigger] assignments@[k].index) == k,
            doc@ == substituted_upto(template@, assignments@, j as int),
        decreases SLOT_COUNT - j,
    {
        if assignments[j].index != j {
            assert(assignments@[j as int].index != j);
            return Err(SubstitutionError);
        }
        doc = replace_all(doc.as_str(), bg_placeholder(j), assignments[j].background.as_str());
        doc = replace_all(doc.as_str(), text_placeholder(j), label_hex(assignments[j].label));
        j += 1;
    }
    Ok(doc)
}

} // verus!
