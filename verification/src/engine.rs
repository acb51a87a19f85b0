//! The composition engine: a buffer of uncommitted text and the ordered
//! candidate list derived from it.

use vstd::prelude::*;

use vstd::string::StrSliceExecFns;
use vstd::string::StringExecFns;

use crate::folding::to_upper;
use crate::model::derive_candidates;
use crate::model::distinct;
use crate::model::rotate_left_spec;
use crate::model::spec_adjust;
use crate::model::spec_commit_result;
use crate::model::spec_process;
use crate::model::views_of;

verus! {

/// The engine's state: the pre-edit buffer and the current candidate list.
/// Index 0 of the candidate list is the currently selected top pick.
pub struct Engine {
    buf: String,
    cands: Vec<String>,
}

impl Engine {
    /// The pre-edit buffer as a sequence of characters.
    pub closed spec fn buffer(&self) -> Seq<char> {
        self.buf@
    }

    /// The candidate list as a sequence of character sequences.
    pub closed spec fn cand_views(&self) -> Seq<Seq<char>> {
        views_of(self.cands@)
    }

    /// Well-formedness: the candidate list has at most two entries, is
    /// non-empty exactly when the buffer is, and holds no duplicates.
    /// Established by the constructor and preserved by every operation.
    pub open spec fn wf(&self) -> bool {
        &&& self.cand_views().len() <= 2
        &&& (self.cand_views().len() > 0 <==> self.buffer().len() > 0)
        &&& distinct(self.cand_views())
    }

    /// A fresh engine: empty buffer, no candidates.
    pub fn new() -> (e: Engine)
        ensures
            e.buffer() == Seq::<char>::empty(),
            e.cand_views() == Seq::<Seq<char>>::empty(),
            e.wf(),
    {
        let e = Engine { buf: String::new(), cands: Vec::new() };
        proof {
            assert(e.buffer() =~= Seq::<char>::empty());
            assert(e.cand_views() =~= Seq::<Seq<char>>::empty());
        }
        e
    }

    /// A pure read of the pre-edit buffer as a fresh string.
    pub fn preedit(&self) -> (out: String)
        ensures
            out@ == self.buffer(),
    {
        if self.buf.as_str().is_empty() {
            proof {
                assert(self.buffer() =~= Seq::<char>::empty());
            }
            String::new()
        } else {
            self.buf.clone()
        }
    }

    /// Recompute the candidate list from the current buffer: the buffer
    /// itself first, then its uppercase form when that differs.
    pub fn generate_candidates(&mut self)
        ensures
            final(self).buffer() == old(self).buffer(),
            final(self).cand_views() == derive_candidates(old(self).buffer()),
            final(self).wf(),
    {
        proof {
            crate::model::lemma_derive_candidates_wf(self.buf@);
        }
        if self.buf.as_str().is_empty() {
            self.cands = Vec::new();
            proof {
                assert(self.buffer() =~= Seq::<char>::empty());
                assert(self.cand_views() =~= derive_candidates(self.buf@));
            }
            return ;
        }
        let mut next: Vec<String> = Vec::new();
        next.push(self.buf.clone());
        let upper = to_upper(self.buf.as_str());
        if !upper.eq(&self.buf) {
            next.push(upper);
        }
        self.cands = next;
        proof {
            assert(self.cand_views() =~= derive_candidates(self.buf@));
        }
    }

    /// Process one key-event token. A backspace removes the last buffer
    /// character, an escape clears the whole state, a space or newline on a
    /// non-empty buffer freezes the current candidates as the commit-ready
    /// set (leaving them exactly as they are, rotation included), and any
    /// other token is appended to the buffer; the candidate list is
    /// recomputed whenever the buffer changes. The result says whether the
    /// token was consumed, so the host knows whether to forward the raw key
    /// elsewhere.
    pub fn process(&mut self, s: &str) -> (handled: bool)
        requires
            old(self).wf(),
        ensures
            final(self).wf(),
            ({
                let step = spec_process(old(self).buffer(), old(self).cand_views(), s@);
                &&& final(self).buffer() == step.0
                &&& final(self).cand_views() == step.1
                &&& handled == step.2
            }),
    {
        let n = s.unicode_len();
        if n == 1 {
            let c = s.get_char(0);
            if c == '\u{08}' {
                let blen = self.buf.as_str().unicode_len();
                if blen > 0 {
                    let shorter = self.buf.as_str().substring_char(0, blen - 1).to_owned();
                    self.buf = shorter;
                    self.generate_candidates();
                    proof {
                        assert(self.buffer() =~= old(self).buffer().drop_last());
                    }
                    return true;
                }
                self.cands.clear();
                proof {
                    assert(self.cand_views() =~= Seq::<Seq<char>>::empty());
                }
                return false;
            }
            if c == '\u{1b}' {
                self.buf = String::new();
                self.cands = Vec::new();
                proof {
                    assert(self.buffer() =~= Seq::<char>::empty());
                    assert(self.cand_views() =~= Seq::<Seq<char>>::empty());
                }
                return true;
            }
            if c == ' ' || c == '\n' {
                if self.buf.as_str().is_empty() {
                    return false;
                }
                return true;
            }
        }
        self.buf.append(s);
        self.generate_candidates();
        proof {
            assert(self.buffer() =~= old(self).buffer() + s@);
        }
        true
    }

    /// Commit: return the current top candidate (the empty string when there
    /// is none) and reset the engine to the empty state.
    pub fn commit(&mut self) -> (out: String)
        ensures
            final(self).buffer() == Seq::<char>::empty(),
            final(self).cand_views() == Seq::<Seq<char>>::empty(),
            final(self).wf(),
            out@ == spec_commit_result(old(self).cand_views()),
    {
        let out = if self.cands.len() > 0 {
            self.cands[0].clone()
        } else {
            String::new()
        };
        self.buf = String::new();
        self.cands = Vec::new();
        proof {
            assert(self.buffer() =~= Seq::<char>::empty());
            assert(self.cand_views() =~= Seq::<Seq<char>>::empty());
        }
        out
    }

    /// Cyclically rotate the candidate list left by `offset` modulo its
    /// length, so that index 0 becomes a new top pick. The shift is always
    /// taken non-negative in `[0, len)`, whatever the sign of `offset`.
    /// Reports whether anything changed: an empty list, or an offset that is
    /// an exact multiple of the length, is a no-op.
    pub fn adjust_selection(&mut self, offset: i32) -> (changed: bool)
        requires
            old(self).wf(),
        ensures
            final(self).wf(),
            final(self).buffer() == old(self).buffer(),
            ({
                let step = spec_adjust(old(self).cand_views(), offset as int);
                &&& final(self).cand_views() == step.0
                &&& changed == step.1
            }),
    {
        let len = self.cands.len();
        if len == 0 {
            return false;
        }
        let len_i = len as i32;
        proof {
            vstd::arithmetic::div_mod::lemma_mod_bound(offset as int, len as int);
        }
        let shift = offset.checked_rem_euclid(len_i).unwrap();
        if shift == 0 {
            return false;
        }
        let shift_u = shift as usize;
        let ghost cv = views_of(self.cands@);
        let mut rotated: Vec<String> = Vec::new();
        let mut i: usize = shift_u;
        while i < len
            invariant
                shift_u <= i <= len,
                len == self.cands@.len(),
                cv == views_of(self.cands@),
                views_of(rotated@) == cv.subrange(shift_u as int, i as int),
            decreases len - i,
        {
            let ghost pre = rotated@;
            let x = self.cands[i].clone();
            rotated.push(x);
            i = i + 1;
            proof {
                crate::model::lemma_views_of_push(pre, x);
                assert(views_of(rotated@) =~= cv.subrange(shift_u as int, i as int));
            }
        }
        let mut j: usize = 0;
        while j < shift_u
            invariant
                0 <= j <= shift_u,
                shift_u <= len == self.cands@.len(),
                cv == views_of(self.cands@),
                views_of(rotated@) == cv.subrange(shift_u as int, len as int) + cv.subrange(
                    0,
                    j as int,
                ),
            decreases shift_u - j,
        {
            let ghost pre = rotated@;
            let x = self.cands[j].clone();
            rotated.push(x);
            j = j + 1;
            proof {
                crate::model::lemma_views_of_push(pre, x);
                assert(views_of(rotated@) =~= cv.subrange(shift_u as int, len as int)
                    + cv.subrange(0, j as int));
            }
        }
        self.cands = rotated;
        proof {
            assert(self.cand_views() =~= rotate_left_spec(cv, shift_u as int));
            crate::model::lemma_rotate_preserves(cv, shift_u as int);
        }
        true
    }

    /// The current candidate list, in preference order.
    pub fn candidates(&self) -> (r: &[String])
        ensures
            views_of(r@) == self.cand_views(),
    {
        self.cands.as_slice()
    }
}

} // verus!
