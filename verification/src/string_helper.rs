//! Small string shaping helpers for generated class names.

use vstd::prelude::*;

verus! {

/// What `str::to_uppercase` returns for a text: uppercasing depends on
/// the characters alone.
pub uninterp spec fn upper_of(s: Seq<char>) -> Seq<char>;

/// What `str::to_lowercase` returns for a text: lowercasing depends on
/// the characters alone.
pub uninterp spec fn lower_of(s: Seq<char>) -> Seq<char>;

/// Relies on `str::to_uppercase`: the uppercase form of the text, empty
/// exactly for empty input.
#[verifier::external_body]
fn to_uppercase_str(s: &str) -> (r: String)
    ensures
        r@ == upper_of(s@),
        s@.len() == 0 ==> r@.len() == 0,
{
    s.to_uppercase()
}

/// Relies on `str::to_lowercase`: the lowercase form of the text, empty
/// exactly for empty input.
#[verifier::external_body]
fn to_lowercase_str(s: &str) -> (r: String)
    ensures
        r@ == lower_of(s@),
        s@.len() == 0 ==> r@.len() == 0,
{
    s.to_lowercase()
}

/// First character uppercased, the rest lowercased; empty text stays
/// empty.
pub fn to_head_large(s: &str) -> (r: String)
    ensures
        s@.len() == 0 ==> r@ == Seq::<char>::empty(),
        s@.len() > 0 ==> r@ == upper_of(s@.subrange(0, 1)) + lower_of(
            s@.subrange(1, s@.len() as int),
        ),
{
    let n = s.unicode_len();
    if n == 0 {
        return String::new();
    }
    let head = s.substring_char(0, 1);
    let tail = s.substring_char(1, n);
    let up = to_uppercase_str(head);
    let lo = to_lowercase_str(tail);
    up.concat(lo.as_str())
}

/// The parts joined with single spaces.
pub open spec fn join_spaces(v: Seq<Seq<char>>) -> Seq<char>
    decreases v.len(),
{
    if v.len() == 0 {
        Seq::empty()
    } else if v.len() == 1 {
        v[0]
    } else {
        join_spaces(v.drop_last()) + seq![' '] + v.last()
    }
}

/// Joins already-split parts with single spaces.
pub fn to_head_larges(parts: &Vec<String>) -> (r: String)
    ensures
        r@ == join_spaces(parts@.map_values(|s: String| s@)),
{
    let ghost pv = parts@.map_values(|s: String| s@);
    let mut r = String::new();
    let mut i: usize = 0;
    proof {
        assert(pv.take(0) =~= Seq::<Seq<char>>::empty());
    }
    while i < parts.len()
        invariant
            i <= parts@.len(),
            pv == parts@.map_values(|s: String| s@),
            pv.len() == parts@.len(),
            r@ == join_spaces(pv.take(i as int)),
        decreases parts@.len() - i,
    {
        if i > 0 {
            r.append(" ");
        }
        r.append(parts[i].as_str());
        proof {
            assert(pv[i as int] == parts@[i as int]@);
            if i == 0 {
                assert(pv.take(1).len() == 1);
                assert(pv.take(1)[0] == pv[0]);
                assert(r@ == join_spaces(pv.take(1)));
            } else {
                reveal_strlit(" ");
                assert(" "@ =~= seq![' ']);
                assert(pv.take(i + 1).drop_last() =~= pv.take(i as int));
                assert(pv.take(i + 1).last() == pv[i as int]);
                assert(join_spaces(pv.take(i + 1)) == join_spaces(pv.take(i as int)) + seq![' ']
                    + pv[i as int]);
                assert(r@ =~= join_spaces(pv.take(i as int)) + seq![' '] + pv[i as int]);
            }
        }
        i = i + 1;
    }
    proof {
        assert(pv.take(pv.len() as int) =~= pv);
    }
    r
}

} // verus!
