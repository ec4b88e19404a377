//! Splitting a token run into a head and separator-led groups.
//!
//! A parameter sequence like `:a x y :b z` is split at its directives: the
//! head is whatever precedes the first directive (well-formed input has
//! none), and each group is one directive together with the values that
//! follow it.

use vstd::prelude::*;

use crate::token::{models, Token, TokenModel};

verus! {

/// Index of the first directive (`NameColon`) at or after `from`, or the
/// end of the sequence.
pub open spec fn nonsep_end(ts: Seq<TokenModel>, from: int) -> int
    decreases ts.len() - from,
    when 0 <= from <= ts.len()
{
    if from >= ts.len() {
        from
    } else if ts[from] is NameColon {
        from
    } else {
        nonsep_end(ts, from + 1)
    }
}

pub proof fn lemma_nonsep_end_bounds(ts: Seq<TokenModel>, from: int)
    requires
        0 <= from <= ts.len(),
    ensures
        from <= nonsep_end(ts, from) <= ts.len(),
        forall|j: int| from <= j < nonsep_end(ts, from) ==> !(#[trigger] ts[j] is NameColon),
        nonsep_end(ts, from) == ts.len() || ts[nonsep_end(ts, from)] is NameColon,
    decreases ts.len() - from,
{
    if from < ts.len() && !(ts[from] is NameColon) {
        lemma_nonsep_end_bounds(ts, from + 1);
    }
}

/// The groups of a separator-led tail: each group is one directive and the
/// run of non-directive tokens after it.
pub open spec fn spec_groups(ts: Seq<TokenModel>, from: int) -> Seq<(TokenModel, Seq<TokenModel>)>
    decreases ts.len() - from,
    when 0 <= from <= ts.len()
    via spec_groups_decreases
{
    if from >= ts.len() {
        Seq::empty()
    } else {
        let e = nonsep_end(ts, from + 1);
        seq![(ts[from], ts.subrange(from + 1, e))] + spec_groups(ts, e)
    }
}

#[via_fn]
proof fn spec_groups_decreases(ts: Seq<TokenModel>, from: int) {
    if from < ts.len() {
        lemma_nonsep_end_bounds(ts, from + 1);
    }
}

/// Splits a token run at its directives: the tokens before the first
/// directive, and the directive-led groups after them.
pub fn split_with_head_and_separator(slice: &Vec<Token>) -> (r: (
    Vec<Token>,
    Vec<(Token, Vec<Token>)>,
))
    ensures
        ({
            let ts = models(slice@);
            let h = nonsep_end(ts, 0);
            &&& models(r.0@) == ts.subrange(0, h)
            &&& crate::ast::pairs_view(r.1@) == spec_groups(ts, h)
        }),
{
    let ghost ts = models(slice@);
    proof {
        assert(ts.len() == slice@.len());
        lemma_nonsep_end_bounds(ts, 0);
    }
    let ghost h = nonsep_end(ts, 0);
    let mut head: Vec<Token> = Vec::new();
    let mut i: usize = 0;
    while i < slice.len() && !slice[i].is_name_colon()
        invariant
            0 <= i <= slice@.len(),
            ts == models(slice@),
            ts.len() == slice@.len(),
            h == nonsep_end(ts, 0),
            forall|j: int| 0 <= j < i ==> !(#[trigger] ts[j] is NameColon),
            i <= h,
            models(head@) == ts.subrange(0, i as int),
        decreases slice@.len() - i,
    {
        proof {
            assert(ts[i as int] == slice@[i as int]@);
            assert(models(head@.push(slice@[i as int])) =~= models(head@).push(ts[i as int]));
            assert(ts.subrange(0, i + 1) =~= ts.subrange(0, i as int).push(ts[i as int]));
            lemma_nonsep_end_bounds(ts, 0);
            assert(nonsep_end(ts, i as int) == nonsep_end(ts, i + 1));
        }
        head.push(slice[i].clone());
        i = i + 1;
        proof {
            lemma_nonsep_step(ts, i as int);
        }
    }
    proof {
        assert(i as int == h) by {
            lemma_nonsep_end_bounds(ts, 0);
            lemma_nonsep_steps(ts, 0, i as int);
            if (i as int) < ts.len() {
                assert(ts[i as int] is NameColon);
            }
        }
    }
    let mut groups: Vec<(Token, Vec<Token>)> = Vec::new();
    while i < slice.len()
        invariant
            0 <= i <= slice@.len(),
            ts == models(slice@),
            ts.len() == slice@.len(),
            h == nonsep_end(ts, 0),
            0 <= h <= i,
            i as int == ts.len() || ts[i as int] is NameColon,
            spec_groups(ts, h) == crate::ast::pairs_view(groups@) + spec_groups(ts, i as int),
        decreases slice@.len() - i,
    {
        let name = slice[i].clone();
        let ghost gstart = i as int;
        let mut vals: Vec<Token> = Vec::new();
        let mut j: usize = i + 1;
        proof {
            lemma_nonsep_end_bounds(ts, gstart + 1);
        }
        let ghost e = nonsep_end(ts, gstart + 1);
        while j < slice.len() && !slice[j].is_name_colon()
            invariant
                gstart + 1 <= j <= slice@.len(),
                ts == models(slice@),
                ts.len() == slice@.len(),
                0 <= gstart < ts.len(),
                e == nonsep_end(ts, gstart + 1),
                j <= e,
                forall|k: int| gstart + 1 <= k < j ==> !(#[trigger] ts[k] is NameColon),
                e == nonsep_end(ts, j as int),
                models(vals@) == ts.subrange(gstart + 1, j as int),
            decreases slice@.len() - j,
        {
            proof {
                assert(ts[j as int] == slice@[j as int]@);
                assert(models(vals@.push(slice@[j as int])) =~= models(vals@).push(ts[j as int]));
                assert(ts.subrange(gstart + 1, j + 1) =~= ts.subrange(gstart + 1, j as int).push(
                    ts[j as int],
                ));
                assert(nonsep_end(ts, j as int) == nonsep_end(ts, j + 1));
                lemma_nonsep_end_bounds(ts, j + 1);
            }
            vals.push(slice[j].clone());
            j = j + 1;
        }
        proof {
            assert(j as int == e) by {
                lemma_nonsep_end_bounds(ts, j as int);
                if (j as int) < ts.len() {
                    assert(ts[j as int] is NameColon);
                }
            }
            assert(spec_groups(ts, gstart) == seq![(ts[gstart], ts.subrange(gstart + 1, e))]
                + spec_groups(ts, e));
        }
        let ghost gsnap = groups@;
        groups.push((name, vals));
        proof {
            assert(crate::ast::pairs_view(groups@) =~= crate::ast::pairs_view(gsnap).push(
                (ts[gstart], ts.subrange(gstart + 1, e)),
            ));
            assert(crate::ast::pairs_view(gsnap) + spec_groups(ts, gstart) =~= crate::ast::pairs_view(
                groups@,
            ) + spec_groups(ts, e));
        }
        i = j;
    }
    proof {
        assert(spec_groups(ts, i as int) =~= Seq::<(TokenModel, Seq<TokenModel>)>::empty());
        assert(crate::ast::pairs_view(groups@) + spec_groups(ts, i as int) =~= crate::ast::pairs_view(
            groups@,
        ));
        assert(models(head@) == ts.subrange(0, h));
    }
    (head, groups)
}

/// Stepping over a non-directive keeps the same run end.
proof fn lemma_nonsep_step(ts: Seq<TokenModel>, i: int)
    requires
        0 < i <= ts.len(),
        !(ts[i - 1] is NameColon),
    ensures
        nonsep_end(ts, i - 1) == nonsep_end(ts, i),
{
}

/// The first-directive index is reached by stepping over non-directives.
proof fn lemma_nonsep_steps(ts: Seq<TokenModel>, from: int, i: int)
    requires
        0 <= from <= i <= ts.len(),
        forall|j: int| from <= j < i ==> !(#[trigger] ts[j] is NameColon),
    ensures
        nonsep_end(ts, from) == nonsep_end(ts, i),
    decreases i - from,
{
    if from < i {
        lemma_nonsep_steps(ts, from + 1, i);
    }
}

} // verus!
