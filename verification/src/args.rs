//! Command-line parameter lookup over an argument list.

use vstd::prelude::*;

verus! {

/// The index of the first argument equal to `parm`, or `None` when no
/// argument matches.
pub fn check_parm(args: &[String], parm: &str) -> (r: Option<usize>)
    ensures
        match r {
            Some(i) => i < args@.len() && args@[i as int]@ == parm@ && forall|j: int|
                0 <= j < i ==> args@[j]@ != parm@,
            None => forall|j: int| 0 <= j < args@.len() ==> args@[j]@ != parm@,
        },
{
    let p = parm.to_owned();
    let n = args.len();
    for i in 0..n
        invariant
            n == args@.len(),
            p@ == parm@,
            forall|j: int| 0 <= j < i ==> args@[j]@ != parm@,
    {
        if *vstd::slice::slice_index_get(args, i) == p {
            return Some(i);
        }
    }
    None
}

/// Does some argument equal `parm` exactly?
pub fn parm_exists(args: &[String], parm: &str) -> (r: bool)
    ensures
        r == exists|i: int| 0 <= i < args@.len() && (#[trigger] args@[i]@) == parm@,
{
    check_parm(args, parm).is_some()
}

} // verus!
