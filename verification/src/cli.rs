//! Command-line argument sorting.
//!
//! The driver's flags each take one value; the scan walks the argument list,
//! remembers the value after each known flag (a later occurrence wins), and
//! hands back the five values in a fixed order: input folder, output file,
//! config file, listing file, alignment.

use vstd::prelude::*;
use crate::text::str_eq;

verus! {

/// Which result slot a flag token selects.
pub open spec fn spec_flag_slot(s: Seq<char>) -> Option<int> {
    if s == "-i"@ {
        Some(0int)
    } else if s == "-o"@ {
        Some(1int)
    } else if s == "-cfg"@ {
        Some(2int)
    } else if s == "-inter"@ {
        Some(3int)
    } else if s == "-align"@ {
        Some(4int)
    } else {
        None
    }
}

/// The scan never finds a flag in the last position: each flag must be
/// followed by its value.
pub open spec fn spec_scan_ok(args: Seq<Seq<char>>, i: int) -> bool
    decreases args.len() - i,
{
    if i < 0 || i >= args.len() {
        true
    } else {
        match spec_flag_slot(args[i]) {
            Some(_) => i + 1 < args.len() && spec_scan_ok(args, i + 2),
            None => spec_scan_ok(args, i + 1),
        }
    }
}

/// The scan from position `i` on: a known flag stores the following token in
/// its slot and skips it; anything else is ignored.
pub open spec fn spec_resolve_args_from(
    args: Seq<Seq<char>>,
    i: int,
    acc: Seq<Option<Seq<char>>>,
) -> Seq<Option<Seq<char>>>
    decreases args.len() - i,
{
    if i < 0 || i >= args.len() {
        acc
    } else {
        match spec_flag_slot(args[i]) {
            Some(slot) => if i + 1 < args.len() {
                spec_resolve_args_from(args, i + 2, acc.update(slot, Some(args[i + 1])))
            } else {
                acc
            },
            None => spec_resolve_args_from(args, i + 1, acc),
        }
    }
}

/// The five sorted argument values of a command line.
pub open spec fn spec_resolve_args(args: Seq<Seq<char>>) -> Seq<Option<Seq<char>>> {
    spec_resolve_args_from(args, 0, seq![None, None, None, None, None])
}

/// Sorts a raw argument list into the five flag values, in the order: input
/// folder, output file, config file, listing file, alignment.
pub fn resolve_args(args: Vec<String>) -> (r: Vec<Option<String>>)
    requires
        spec_scan_ok(args.deep_view(), 0),
    ensures
        r.deep_view() == spec_resolve_args(args.deep_view()),
        r@.len() == 5,
{
    let ghost adv = args.deep_view();
    let mut input_path: Option<String> = None;
    let mut output_path: Option<String> = None;
    let mut cfg_path: Option<String> = None;
    let mut inter_path: Option<String> = None;
    let mut alignment: Option<String> = None;

    let mut i: usize = 0;
    while i < args.len()
        invariant
            adv == args.deep_view(),
            i <= adv.len(),
            spec_scan_ok(adv, i as int),
            spec_resolve_args(adv) == spec_resolve_args_from(
                adv,
                i as int,
                seq![
                    input_path.deep_view(),
                    output_path.deep_view(),
                    cfg_path.deep_view(),
                    inter_path.deep_view(),
                    alignment.deep_view(),
                ],
            ),
        decreases adv.len() - i,
    {
        let ghost acc0 = seq![
            input_path.deep_view(),
            output_path.deep_view(),
            cfg_path.deep_view(),
            inter_path.deep_view(),
            alignment.deep_view(),
        ];
        proof {
            assert(adv[i as int] == args@[i as int]@);
        }
        let a = args[i].as_str();
        if str_eq(a, "-i") {
            input_path = Some(args[i + 1].clone());
            proof {
                assert(acc0.update(0, Some(adv[i as int + 1])) =~= seq![
                    input_path.deep_view(),
                    output_path.deep_view(),
                    cfg_path.deep_view(),
                    inter_path.deep_view(),
                    alignment.deep_view(),
                ]);
            }
            i = i + 1;
        } else if str_eq(a, "-o") {
            output_path = Some(args[i + 1].clone());
            proof {
                assert(acc0.update(1, Some(adv[i as int + 1])) =~= seq![
                    input_path.deep_view(),
                    output_path.deep_view(),
                    cfg_path.deep_view(),
                    inter_path.deep_view(),
                    alignment.deep_view(),
                ]);
            }
            i = i + 1;
        } else if str_eq(a, "-cfg") {
            cfg_path = Some(args[i + 1].clone());
            proof {
                assert(acc0.update(2, Some(adv[i as int + 1])) =~= seq![
                    input_path.deep_view(),
                    output_path.deep_view(),
                    cfg_path.deep_view(),
                    inter_path.deep_view(),
                    alignment.deep_view(),
                ]);
            }
            i = i + 1;
        } else if str_eq(a, "-inter") {
            inter_path = Some(args[i + 1].clone());
            proof {
                assert(acc0.update(3, Some(adv[i as int + 1])) =~= seq![
                    input_path.deep_view(),
                    output_path.deep_view(),
                    cfg_path.deep_view(),
                    inter_path.deep_view(),
                    alignment.deep_view(),
                ]);
            }
            i = i + 1;
        } else if str_eq(a, "-align") {
            alignment = Some(args[i + 1].clone());
            proof {
                assert(acc0.update(4, Some(adv[i as int + 1])) =~= seq![
                    input_path.deep_view(),
                    output_path.deep_view(),
                    cfg_path.deep_view(),
                    inter_path.deep_view(),
                    alignment.deep_view(),
                ]);
            }
            i = i + 1;
        }
        i = i + 1;
    }
    let mut r: Vec<Option<String>> = Vec::new();
    r.push(input_path);
    r.push(output_path);
    r.push(cfg_path);
    r.push(inter_path);
    r.push(alignment);
    proof {
        assert(r.deep_view() =~= spec_resolve_args(adv));
    }
    r
}

} // verus!
