//! The target frameworks a migration can be generated for.

use vstd::prelude::*;

verus! {

/// A supported target framework.
#[derive(Clone, Copy, Debug, PartialEq, Eq, Structural)]
pub enum Framework {
    Laravel,
}

/// The name `laravel`, in any mix of upper and lower case.
pub open spec fn spec_is_laravel(s: Seq<char>) -> bool {
    &&& s.len() == 7
    &&& (s[0] == 'l' || s[0] == 'L')
    &&& (s[1] == 'a' || s[1] == 'A')
    &&& (s[2] == 'r' || s[2] == 'R')
    &&& (s[3] == 'a' || s[3] == 'A')
    &&& (s[4] == 'v' || s[4] == 'V')
    &&& (s[5] == 'e' || s[5] == 'E')
    &&& (s[6] == 'l' || s[6] == 'L')
}

/// Recognizes a framework name, ignoring letter case.
pub fn to_framework_type(from: &str) -> (r: Option<Framework>)
    ensures
        r == if spec_is_laravel(from@) {
            Some(Framework::Laravel)
        } else {
            None::<Framework>
        },
{
    if from.unicode_len() != 7 {
        return None;
    }
    let c0 = from.get_char(0);
    let c1 = from.get_char(1);
    let c2 = from.get_char(2);
    let c3 = from.get_char(3);
    let c4 = from.get_char(4);
    let c5 = from.get_char(5);
    let c6 = from.get_char(6);
    if (c0 == 'l' || c0 == 'L') && (c1 == 'a' || c1 == 'A') && (c2 == 'r' || c2 == 'R') && (c3
        == 'a' || c3 == 'A') && (c4 == 'v' || c4 == 'V') && (c5 == 'e' || c5 == 'E') && (c6 == 'l'
        || c6 == 'L') {
        Some(Framework::Laravel)
    } else {
        None
    }
}

} // verus!
