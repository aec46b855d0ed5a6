//! Tool list assembly of a new session: candidates are taken in priority
//! order (external tools, media generation, built-ins), a name once taken
//! shadows later candidates, and disabled built-ins are left out.
use vstd::prelude::*;

use crate::file_ops::strings_view;
use crate::text::str_eq;

verus! {

/// The candidate at `i` is the first with its name.
pub open spec fn first_of_name(names: Seq<Seq<char>>, i: int) -> bool {
    forall|j: int| 0 <= j < i ==> names[j] != names[i]
}

/// Indices of the candidates among the first `n` that are kept: the first of
/// each name, in order.
pub open spec fn kept_spec(names: Seq<Seq<char>>, n: int) -> Seq<int>
    decreases n,
{
    if n <= 0 {
        Seq::empty()
    } else if first_of_name(names, n - 1) {
        kept_spec(names, n - 1).push(n - 1)
    } else {
        kept_spec(names, n - 1)
    }
}

/// Abstract value of a list of indices.
pub open spec fn indices_view(v: Seq<usize>) -> Seq<int> {
    v.map_values(|i: usize| i as int)
}

/// The candidates kept, by index: the first of each name, in order.
pub fn select_tools(names: &Vec<String>) -> (r: Vec<usize>)
    ensures
        indices_view(r@) == kept_spec(strings_view(names@), names@.len() as int),
{
    let ghost nv = strings_view(names@);
    let mut r: Vec<usize> = Vec::new();
    for i in 0..names.len()
        invariant
            nv == strings_view(names@),
            indices_view(r@) == kept_spec(nv, i as int),
    {
        let mut seen = false;
        let mut j: usize = 0;
        while j < i
            invariant
                j <= i < names@.len(),
                nv == strings_view(names@),
                seen == exists|k: int| 0 <= k < j && nv[k] == nv[i as int],
            decreases i - j,
        {
            let same = str_eq(names[j].as_str(), names[i].as_str());
            proof {
                assert(same == (nv[j as int] == nv[i as int]));
            }
            if same {
                seen = true;
            }
            j = j + 1;
        }
        if !seen {
            let ghost before = indices_view(r@);
            r.push(i);
            proof {
                assert(indices_view(r@) =~= before.push(i as int));
            }
        }
    }
    r
}

/// Indices of the built-ins left enabled: those whose name is not disabled, in order.
pub open spec fn enabled_spec(names: Seq<Seq<char>>, disabled: Seq<Seq<char>>, n: int) -> Seq<int>
    decreases n,
{
    if n <= 0 {
        Seq::empty()
    } else if disabled.contains(names[n - 1]) {
        enabled_spec(names, disabled, n - 1)
    } else {
        enabled_spec(names, disabled, n - 1).push(n - 1)
    }
}

/// The built-ins left enabled, by index.
pub fn enabled_builtins(names: &Vec<String>, disabled: &Vec<String>) -> (r: Vec<usize>)
    ensures
        indices_view(r@) == enabled_spec(strings_view(names@), strings_view(disabled@), names@.len() as int),
{
    let ghost nv = strings_view(names@);
    let ghost dv = strings_view(disabled@);
    let mut r: Vec<usize> = Vec::new();
    for i in 0..names.len()
        invariant
            nv == strings_view(names@),
            dv == strings_view(disabled@),
            indices_view(r@) == enabled_spec(nv, dv, i as int),
    {
        let mut off = false;
        for k in 0..disabled.len()
            invariant
                i < names@.len(),
                nv == strings_view(names@),
                dv == strings_view(disabled@),
                off == exists|m: int| 0 <= m < k && dv[m] == nv[i as int],
        {
            let same = str_eq(disabled[k].as_str(), names[i].as_str());
            proof {
                assert(same == (dv[k as int] == nv[i as int]));
            }
            if same {
                off = true;
            }
        }
        if !off {
            let ghost before = indices_view(r@);
            r.push(i);
            proof {
                assert(indices_view(r@) =~= before.push(i as int));
            }
        }
    }
    r
}

} // verus!
