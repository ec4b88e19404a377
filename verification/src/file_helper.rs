//! Output file naming: extensions per framework and timestamped names.

use vstd::prelude::*;

use crate::framework::Framework;
use crate::lexer::{chars_vec, subvec};

verus! {

/// The file extension a framework's migration files carry.
pub open spec fn spec_extension(fw: Framework) -> Seq<char> {
    "php"@
}

/// The extension for the target framework's migration files.
pub fn get_extension_for_framework(framework_type: &Framework) -> (r: String)
    ensures
        r@ == spec_extension(*framework_type),
{
    match framework_type {
        Framework::Laravel => String::from_str("php"),
    }
}

/// The target file's name with the framework's extension appended.
pub fn get_file_name_for_framework(target_file: &str, framework_type: &Framework) -> (r: String)
    ensures
        r@ == target_file@ + "."@ + spec_extension(*framework_type),
{
    let ext = get_extension_for_framework(framework_type);
    let mut r = String::from_str(target_file);
    r.append(".");
    r.append(ext.as_str());
    r
}

fn timestamp_format(framework_type: &Framework) -> (r: &'static str)
    ensures
        r@ == "%Y_%m_%d_%H%M%S_"@,
{
    match framework_type {
        Framework::Laravel => "%Y_%m_%d_%H%M%S_",
    }
}

/// Relies on `chrono::Local::now` and chrono's strftime formatter: the
/// current local time printed with the given (fixed, well-formed) format.
/// The result depends on the clock, so nothing is promised about its
/// characters.
#[verifier::external_body]
fn local_time_formatted(fmt: &str) -> (r: String)
    requires
        fmt@ == "%Y_%m_%d_%H%M%S_"@,
{
    chrono::Local::now().format(fmt).to_string()
}

fn generate_timestamp(framework_type: &Framework) -> String {
    local_time_formatted(timestamp_format(framework_type))
}

/// The target file's name with the framework's extension, prefixed with a
/// timestamp of the moment of the call.
pub fn with_timestamp(target_file: &str, framework_type: &Framework) -> (r: String)
    ensures
        exists|ts: Seq<char>|
            r@ == #[trigger] (ts + target_file@ + "."@ + spec_extension(*framework_type)),
{
    let ts = generate_timestamp(framework_type);
    let tail = get_file_name_for_framework(target_file, framework_type);
    let ghost tsv = ts@;
    let mut r = ts;
    r.append(tail.as_str());
    proof {
        assert(r@ =~= tsv + target_file@ + "."@ + spec_extension(*framework_type));
    }
    r
}

/// Index of the last occurrence of `c` in `s`, or `-1`.
pub open spec fn find_last(s: Seq<char>, c: char) -> int
    decreases s.len(),
{
    if s.len() == 0 {
        -1
    } else if s.last() == c {
        s.len() - 1
    } else {
        find_last(s.drop_last(), c)
    }
}

pub proof fn lemma_find_last_bounds(s: Seq<char>, c: char)
    ensures
        -1 <= find_last(s, c) < s.len(),
        find_last(s, c) >= 0 ==> s[find_last(s, c)] == c,
        forall|j: int| find_last(s, c) < j < s.len() ==> s[j] != c,
    decreases s.len(),
{
    if s.len() > 0 && s.last() != c {
        lemma_find_last_bounds(s.drop_last(), c);
        assert forall|j: int| find_last(s, c) < j < s.len() implies s[j] != c by {
            if j < s.len() - 1 {
                assert(s.drop_last()[j] == s[j]);
            }
        }
        if find_last(s, c) >= 0 {
            assert(s[find_last(s, c)] == s.drop_last()[find_last(s.drop_last(), c)]);
        }
    }
}

/// Scanning a suffix without `c` does not move the last occurrence.
proof fn lemma_find_last_take(s: Seq<char>, c: char, i: int)
    requires
        0 <= i <= s.len(),
        forall|j: int| i <= j < s.len() ==> s[j] != c,
    ensures
        find_last(s, c) == find_last(s.take(i), c),
    decreases s.len() - i,
{
    if i < s.len() {
        lemma_find_last_take(s, c, i + 1);
        assert(s.take(i + 1).drop_last() =~= s.take(i));
        assert(s.take(i + 1).last() == s[i]);
    } else {
        assert(s.take(i) =~= s);
    }
}

/// Index of the last occurrence of `c`, or `None`.
fn find_last_exec(v: &Vec<char>, c: char) -> (r: Option<usize>)
    ensures
        match r {
            Some(k) => k < v@.len() && find_last(v@, c) == k as int,
            None => find_last(v@, c) == -1,
        },
{
    let mut i: usize = v.len();
    while i > 0
        invariant
            i <= v@.len(),
            forall|j: int| i <= j < v@.len() ==> v@[j] != c,
        decreases i,
    {
        i = i - 1;
        if v[i] == c {
            proof {
                lemma_find_last_take(v@, c, i + 1);
                assert(v@.take(i + 1).last() == v@[i as int]);
                assert(find_last(v@.take(i + 1), c) == i as int);
            }
            return Some(i);
        }
    }
    proof {
        lemma_find_last_take(v@, c, 0);
        assert(v@.take(0) =~= Seq::<char>::empty());
    }
    None
}

/// `a` and `b` hold the same characters in the same order.
fn chars_eq(a: &Vec<char>, b: &Vec<char>) -> (r: bool)
    ensures
        r == (a@ == b@),
{
    if a.len() != b.len() {
        return false;
    }
    let mut i: usize = 0;
    while i < a.len()
        invariant
            i <= a@.len(),
            a@.len() == b@.len(),
            forall|j: int| 0 <= j < i ==> a@[j] == b@[j],
        decreases a@.len() - i,
    {
        if a[i] != b[i] {
            return false;
        }
        i = i + 1;
    }
    proof {
        assert(a@ =~= b@);
    }
    true
}

/// The extension of a path: the part of the last path component after its
/// last dot, absent when the component has no dot or starts with its only
/// dot.
pub open spec fn spec_extension_of(s: Seq<char>) -> Option<Seq<char>> {
    let name = s.subrange(find_last(s, '/') + 1, s.len() as int);
    let d = find_last(name, '.');
    if d <= 0 {
        None
    } else {
        Some(name.subrange(d + 1, name.len() as int))
    }
}

/// Whether the path's extension is exactly `extension`.
pub fn is_extension(file_path: &str, extension: &str) -> (r: bool)
    ensures
        r == (spec_extension_of(file_path@) == Some(extension@)),
{
    let v = chars_vec(file_path);
    proof {
        lemma_find_last_bounds(v@, '/');
    }
    let slash = find_last_exec(&v, '/');
    let start: usize = match slash {
        Some(k) => k + 1,
        None => 0,
    };
    let name = subvec(&v, start, v.len());
    proof {
        lemma_find_last_bounds(name@, '.');
    }
    let d = find_last_exec(&name, '.');
    match d {
        Some(k) => {
            if k == 0 {
                return false;
            }
            let ext = subvec(&name, k + 1, name.len());
            let e = chars_vec(extension);
            chars_eq(&ext, &e)
        },
        None => false,
    }
}

} // verus!
