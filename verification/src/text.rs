//! Trimming of text content.

use vstd::prelude::*;

verus! {

/// Whether `str::trim` takes `c` for whitespace: the character has the
/// Unicode property White_Space, as `char::is_whitespace` tells.
pub uninterp spec fn is_whitespace(c: char) -> bool;

/// `s` without its leading whitespace.
pub open spec fn skip_leading(s: Seq<char>) -> Seq<char>
    decreases s.len(),
{
    if s.len() > 0 && is_whitespace(s.first()) {
        skip_leading(s.drop_first())
    } else {
        s
    }
}

/// `s` without its trailing whitespace.
pub open spec fn skip_trailing(s: Seq<char>) -> Seq<char>
    decreases s.len(),
{
    if s.len() > 0 && is_whitespace(s.last()) {
        skip_trailing(s.drop_last())
    } else {
        s
    }
}

/// `s` without leading and trailing whitespace.
pub open spec fn trimmed(s: Seq<char>) -> Seq<char> {
    skip_trailing(skip_leading(s))
}

/// Calls `str::trim`. Trusted: the result is the input without the
/// whitespace characters at its start and at its end, where `is_whitespace`
/// names the characters that count as whitespace; so neither end of a
/// result that is not empty is whitespace.
#[verifier::external_body]
pub(crate) fn trim<'a>(s: &'a str) -> (r: &'a str)
    ensures
        r@ == trimmed(s@),
        r@.len() > 0 ==> !is_whitespace(r@.first()) && !is_whitespace(r@.last()),
{
    s.trim()
}

/// What `skip_leading` drops is whitespace, what it keeps is the rest of
/// `s`, and that does not start with whitespace.
pub proof fn lemma_skip_leading(s: Seq<char>)
    ensures
        skip_leading(s).len() <= s.len(),
        skip_leading(s) == s.subrange(s.len() - skip_leading(s).len(), s.len() as int),
        forall|k: int| 0 <= k < s.len() - skip_leading(s).len() ==> is_whitespace(#[trigger] s[k]),
        skip_leading(s).len() > 0 ==> !is_whitespace(skip_leading(s).first()),
    decreases s.len(),
{
    if s.len() > 0 && is_whitespace(s.first()) {
        let rest = s.drop_first();
        lemma_skip_leading(rest);
        let kept = skip_leading(rest);
        assert(kept =~= s.subrange(s.len() - kept.len(), s.len() as int));
        assert forall|k: int| 0 <= k < s.len() - kept.len() implies is_whitespace(
            #[trigger] s[k],
        ) by {
            if k > 0 {
                assert(s[k] == rest[k - 1]);
            }
        }
    } else {
        assert(s =~= s.subrange(0, s.len() as int));
    }
}

/// What `skip_trailing` drops is whitespace, what it keeps is the start of
/// `s`, and that does not end with whitespace.
pub proof fn lemma_skip_trailing(s: Seq<char>)
    ensures
        skip_trailing(s).len() <= s.len(),
        skip_trailing(s) == s.subrange(0, skip_trailing(s).len() as int),
        forall|k: int| skip_trailing(s).len() <= k < s.len() ==> is_whitespace(#[trigger] s[k]),
        skip_trailing(s).len() > 0 ==> !is_whitespace(skip_trailing(s).last()),
    decreases s.len(),
{
    if s.len() > 0 && is_whitespace(s.last()) {
        let rest = s.drop_last();
        lemma_skip_trailing(rest);
        let kept = skip_trailing(rest);
        assert(kept =~= s.subrange(0, kept.len() as int));
        assert forall|k: int| kept.len() <= k < s.len() implies is_whitespace(#[trigger] s[k]) by {
            if k < rest.len() {
                assert(s[k] == rest[k]);
            }
        }
    } else {
        assert(s =~= s.subrange(0, s.len() as int));
    }
}

/// Trimmed text is a stretch of the text with only whitespace before and
/// after it, and neither end of it is whitespace.
pub proof fn lemma_trimmed_is_the_core(s: Seq<char>)
    ensures
        exists|i: int, j: int|
            {
                &&& 0 <= i <= j <= s.len()
                &&& trimmed(s) == #[trigger] s.subrange(i, j)
                &&& forall|k: int| 0 <= k < i ==> is_whitespace(#[trigger] s[k])
                &&& forall|k: int| j <= k < s.len() ==> is_whitespace(#[trigger] s[k])
            },
        trimmed(s).len() > 0 ==> !is_whitespace(trimmed(s).first()) && !is_whitespace(
            trimmed(s).last(),
        ),
{
    lemma_skip_leading(s);
    let mid = skip_leading(s);
    lemma_skip_trailing(mid);
    let i = s.len() - mid.len();
    let j = i + trimmed(s).len();
    assert(trimmed(s) =~= s.subrange(i, j));
    assert forall|k: int| j <= k < s.len() implies is_whitespace(#[trigger] s[k]) by {
        assert(s[k] == mid[k - i]);
    }
    if trimmed(s).len() > 0 {
        assert(trimmed(s).first() == mid.first());
    }
}

/// Trimming text that is trimmed changes nothing.
pub proof fn lemma_trimmed_twice(s: Seq<char>)
    ensures
        trimmed(trimmed(s)) == trimmed(s),
{
    lemma_trimmed_is_the_core(s);
}

} // verus!
