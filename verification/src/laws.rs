//! Laws relating the engine's operations across calls: typing text tokens
//! builds the buffer by concatenation, and selection rotation is a group
//! action modulo the candidate-list length.

use vstd::prelude::*;

use vstd::arithmetic::div_mod::lemma_add_mod_noop_right;
use vstd::arithmetic::div_mod::lemma_fundamental_div_mod;
use vstd::arithmetic::div_mod::lemma_mod_bound;
use vstd::arithmetic::div_mod::lemma_mod_multiples_vanish;
use vstd::arithmetic::div_mod::lemma_mod_self_0;
use vstd::arithmetic::div_mod::lemma_small_mod;
use vstd::arithmetic::mul::lemma_mul_is_distributive_sub;
use vstd::arithmetic::mul::lemma_mul_unary_negation;

use crate::model::concat_all;
use crate::model::is_text_token;
use crate::model::rotate_left_spec;
use crate::model::spec_adjust;
use crate::model::spec_process;
use crate::model::spec_run;

verus! {

/// Processing a sequence of text tokens appends each of them in order: the
/// buffer afterward is the old buffer followed by the tokens' concatenation,
/// whatever candidate list the run started with.
pub proof fn lemma_text_run_appends(buf: Seq<char>, cands: Seq<Seq<char>>, tokens: Seq<Seq<char>>)
    requires
        forall|i: int| 0 <= i < tokens.len() ==> is_text_token(tokens[i]),
    ensures
        spec_run(buf, cands, tokens).0 == buf + concat_all(tokens),
    decreases tokens.len(),
{
    if tokens.len() == 0 {
        assert(buf + concat_all(tokens) =~= buf);
    } else {
        let step = spec_process(buf, cands, tokens[0]);
        let rest = tokens.subrange(1, tokens.len() as int);
        assert(forall|i: int| 0 <= i < rest.len() ==> is_text_token(rest[i]));
        lemma_text_run_appends(step.0, step.1, rest);
        assert((buf + tokens[0]) + concat_all(rest) =~= buf + (tokens[0] + concat_all(rest)));
    }
}

/// Starting from the empty state, the pre-edit buffer after processing a
/// sequence of text tokens is exactly their concatenation.
pub proof fn lemma_preedit_is_text_concatenation(tokens: Seq<Seq<char>>)
    requires
        forall|i: int| 0 <= i < tokens.len() ==> is_text_token(tokens[i]),
    ensures
        spec_run(Seq::empty(), Seq::empty(), tokens).0 == concat_all(tokens),
{
    lemma_text_run_appends(Seq::empty(), Seq::empty(), tokens);
    assert(Seq::<char>::empty() + concat_all(tokens) =~= concat_all(tokens));
}

/// Each entry of a rotated list is the source entry `shift` further on,
/// cyclically.
proof fn lemma_rotate_index(s: Seq<Seq<char>>, shift: int)
    requires
        0 <= shift < s.len(),
    ensures
        forall|i: int|
            0 <= i < s.len() ==> rotate_left_spec(s, shift)[i] == s[(i + shift) % (
            s.len() as int
            )],
{
    let l = s.len() as int;
    assert forall|i: int| 0 <= i < l implies rotate_left_spec(s, shift)[i] == s[(i + shift)
        % l] by {
        if i + shift < l {
            lemma_small_mod((i + shift) as nat, l as nat);
        } else {
            lemma_mod_multiples_vanish(1, i + shift - l, l);
            lemma_small_mod((i + shift - l) as nat, l as nat);
        }
    }
}

/// Two successive rotations amount to one rotation by the sum of the shifts,
/// modulo the length.
proof fn lemma_rotate_compose(s: Seq<Seq<char>>, a: int, b: int)
    requires
        0 <= a < s.len(),
        0 <= b < s.len(),
    ensures
        rotate_left_spec(rotate_left_spec(s, a), b) == rotate_left_spec(
            s,
            (a + b) % (s.len() as int),
        ),
{
    let l = s.len() as int;
    let r1 = rotate_left_spec(s, a);
    let c = (a + b) % l;
    lemma_mod_bound(a + b, l);
    lemma_rotate_index(s, a);
    lemma_rotate_index(r1, b);
    lemma_rotate_index(s, c);
    assert forall|i: int| 0 <= i < l implies rotate_left_spec(r1, b)[i] == rotate_left_spec(
        s,
        c,
    )[i] by {
        lemma_mod_bound(i + b, l);
        assert(r1[(i + b) % l] == s[((i + b) % l + a) % l]);
        lemma_add_mod_noop_right(a, i + b, l);
        assert(((i + b) % l + a) % l == (a + (i + b)) % l);
        lemma_add_mod_noop_right(i, a + b, l);
        assert((i + c) % l == (i + (a + b)) % l);
    }
    assert(rotate_left_spec(r1, b) =~= rotate_left_spec(s, c));
}

/// Rotating by `k` and then by `-k` restores the original candidate list.
pub proof fn lemma_adjust_inverse(cands: Seq<Seq<char>>, k: int)
    ensures
        spec_adjust(spec_adjust(cands, k).0, -k).0 == cands,
{
    if cands.len() > 0 {
        let l = cands.len() as int;
        let a = k % l;
        lemma_mod_bound(k, l);
        lemma_fundamental_div_mod(k, l);
        lemma_mul_unary_negation(l, k / l);
        if a == 0 {
            lemma_mod_multiples_vanish(-(k / l), 0, l);
            lemma_small_mod(0, l as nat);
            assert(-k == l * -(k / l) + 0);
            assert((-k) % l == 0);
        } else {
            lemma_mod_multiples_vanish(-(k / l) - 1, l - a, l);
            lemma_small_mod((l - a) as nat, l as nat);
            lemma_mul_is_distributive_sub(l, -(k / l), 1);
            assert(-k == l * (-(k / l) - 1) + (l - a));
            assert((-k) % l == l - a);
            let r1 = rotate_left_spec(cands, a);
            assert(r1.len() == l);
            lemma_rotate_compose(cands, a, l - a);
            lemma_mod_self_0(l);
            assert(rotate_left_spec(cands, 0) =~= cands);
        }
    }
}

/// Rotating by `offset` and by `offset + len` produce identical outcomes.
pub proof fn lemma_adjust_periodic(cands: Seq<Seq<char>>, offset: int)
    ensures
        spec_adjust(cands, offset + cands.len()) == spec_adjust(cands, offset),
{
    if cands.len() > 0 {
        let l = cands.len() as int;
        lemma_mod_multiples_vanish(1, offset, l);
        assert(offset + l == l * 1 + offset);
    }
}

/// Adjusting the selection of an empty candidate list changes nothing and
/// reports so, whatever the offset.
pub proof fn lemma_adjust_empty(offset: int)
    ensures
        spec_adjust(Seq::empty(), offset) == (Seq::<Seq<char>>::empty(), false),
{
}

} // verus!
