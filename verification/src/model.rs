//! Mathematical model of the engine: token classification, candidate
//! derivation, and the transition function that every engine operation is
//! specified against.

use vstd::prelude::*;

use crate::folding::upper_of;

verus! {

/// The view of a list of strings: the sequence of their character sequences.
pub open spec fn views_of(s: Seq<String>) -> Seq<Seq<char>> {
    Seq::new(s.len(), |i: int| s[i]@)
}

/// No two entries of the list are equal.
pub open spec fn distinct(s: Seq<Seq<char>>) -> bool {
    forall|i: int, j: int| 0 <= i < j < s.len() ==> s[i] != s[j]
}

/// A backspace key event: the single backspace control character.
pub open spec fn is_backspace_token(t: Seq<char>) -> bool {
    t.len() == 1 && t[0] == '\u{08}'
}

/// An escape key event: the single escape control character.
pub open spec fn is_escape_token(t: Seq<char>) -> bool {
    t.len() == 1 && t[0] == '\u{1b}'
}

/// A submit key event: a single space or newline.
pub open spec fn is_submit_token(t: Seq<char>) -> bool {
    t.len() == 1 && (t[0] == ' ' || t[0] == '\n')
}

/// Any other token is printable text to be appended to the buffer.
pub open spec fn is_text_token(t: Seq<char>) -> bool {
    !is_backspace_token(t) && !is_escape_token(t) && !is_submit_token(t)
}

/// The candidate list derived from a buffer: empty for an empty buffer;
/// otherwise the buffer itself, followed by its uppercase form when that
/// differs from the buffer.
pub open spec fn derive_candidates(buf: Seq<char>) -> Seq<Seq<char>> {
    if buf.len() == 0 {
        Seq::empty()
    } else if upper_of(buf) == buf {
        seq![buf]
    } else {
        seq![buf, upper_of(buf)]
    }
}

/// What processing one token does to the engine state `(buffer, candidates)`:
/// the new buffer, the new candidate list, and whether the token was
/// consumed (should be reflected in the UI) rather than fall through.
/// Candidates are re-derived exactly when the buffer changes; a submit token
/// on a non-empty buffer freezes the current list — a rotation applied
/// earlier stays in place.
pub open spec fn spec_process(buf: Seq<char>, cands: Seq<Seq<char>>, t: Seq<char>) -> (
    Seq<char>,
    Seq<Seq<char>>,
    bool,
) {
    if is_backspace_token(t) {
        if buf.len() > 0 {
            let shorter = buf.drop_last();
            (shorter, derive_candidates(shorter), true)
        } else {
            (buf, Seq::empty(), false)
        }
    } else if is_escape_token(t) {
        (Seq::empty(), Seq::empty(), true)
    } else if is_submit_token(t) {
        if buf.len() == 0 {
            (buf, cands, false)
        } else {
            (buf, cands, true)
        }
    } else {
        let longer = buf + t;
        (longer, derive_candidates(longer), true)
    }
}

/// The candidate list rotated left by `shift` positions, `0 <= shift <= len`.
pub open spec fn rotate_left_spec(s: Seq<Seq<char>>, shift: int) -> Seq<Seq<char>> {
    s.subrange(shift, s.len() as int) + s.subrange(0, shift)
}

/// What adjusting the selection by `offset` does to the candidate list: the
/// list rotated left by `offset` modulo its length (always a non-negative
/// shift), and whether anything changed. An empty list, or a shift of zero,
/// changes nothing.
pub open spec fn spec_adjust(cands: Seq<Seq<char>>, offset: int) -> (Seq<Seq<char>>, bool) {
    if cands.len() == 0 {
        (cands, false)
    } else {
        let shift = offset % (cands.len() as int);
        if shift == 0 {
            (cands, false)
        } else {
            (rotate_left_spec(cands, shift), true)
        }
    }
}

/// What commit returns: the current top candidate, or the empty string when
/// there is none.
pub open spec fn spec_commit_result(cands: Seq<Seq<char>>) -> Seq<char> {
    if cands.len() > 0 {
        cands[0]
    } else {
        Seq::empty()
    }
}

/// The state reached by processing a sequence of tokens in order.
pub open spec fn spec_run(buf: Seq<char>, cands: Seq<Seq<char>>, tokens: Seq<Seq<char>>) -> (
    Seq<char>,
    Seq<Seq<char>>,
)
    decreases tokens.len(),
{
    if tokens.len() == 0 {
        (buf, cands)
    } else {
        let step = spec_process(buf, cands, tokens[0]);
        spec_run(step.0, step.1, tokens.subrange(1, tokens.len() as int))
    }
}

/// The concatenation of a sequence of tokens, in order.
pub open spec fn concat_all(tokens: Seq<Seq<char>>) -> Seq<char>
    decreases tokens.len(),
{
    if tokens.len() == 0 {
        Seq::empty()
    } else {
        tokens[0] + concat_all(tokens.subrange(1, tokens.len() as int))
    }
}

/// Appending a string to a list appends its view to the list's view.
pub proof fn lemma_views_of_push(s: Seq<String>, x: String)
    ensures
        views_of(s.push(x)) == views_of(s).push(x@),
{
    assert(views_of(s.push(x)) =~= views_of(s).push(x@));
}

/// Rotation keeps the length and keeps the entries distinct.
pub proof fn lemma_rotate_preserves(s: Seq<Seq<char>>, shift: int)
    requires
        0 <= shift <= s.len(),
        distinct(s),
    ensures
        rotate_left_spec(s, shift).len() == s.len(),
        distinct(rotate_left_spec(s, shift)),
{
    let r = rotate_left_spec(s, shift);
    assert forall|i: int, j: int| 0 <= i < j < r.len() implies r[i] != r[j] by {
        let l = s.len() as int;
        let pi = if i < l - shift { i + shift } else { i + shift - l };
        let pj = if j < l - shift { j + shift } else { j + shift - l };
        assert(r[i] == s[pi]);
        assert(r[j] == s[pj]);
        assert(pi != pj);
    }
}

/// The derived candidate list is well formed: at most two entries, non-empty
/// exactly when the buffer is, with no duplicates, and the buffer itself
/// first.
pub proof fn lemma_derive_candidates_wf(buf: Seq<char>)
    ensures
        derive_candidates(buf).len() <= 2,
        derive_candidates(buf).len() > 0 <==> buf.len() > 0,
        distinct(derive_candidates(buf)),
        buf.len() > 0 ==> derive_candidates(buf)[0] == buf,
{
}

} // verus!
