//! Command-line arguments of a node.
//!
//! `--bind <addr:port>` gives the gossip address (the last one given wins);
//! each `--seed <addr:port>` names a node to join through. Other arguments
//! are skipped. The addresses are returned as text, to be parsed by the
//! caller.

use vstd::prelude::*;

verus! {

/// The parsed arguments.
#[derive(Debug)]
pub struct CliArgs {
    pub bind: Option<String>,
    pub seeds: Vec<String>,
}

/// Whether `a` is a flag that takes a value.
pub open spec fn takes_value(a: Seq<char>) -> bool {
    a == "--bind"@ || a == "--seed"@
}

/// Whether every flag read from position `i` on has a value after it.
pub open spec fn flags_have_values(args: Seq<Seq<char>>, i: nat) -> bool
    decreases args.len() - i,
{
    if i >= args.len() {
        true
    } else if takes_value(args[i as int]) {
        i + 1 < args.len() && flags_have_values(args, i + 2)
    } else {
        flags_have_values(args, i + 1)
    }
}

/// The bind address (last one wins) and the seeds (in order) read from
/// position `i` on.
pub open spec fn scan_args(args: Seq<Seq<char>>, i: nat) -> (Option<Seq<char>>, Seq<Seq<char>>)
    decreases args.len() - i,
{
    if i >= args.len() {
        (None, Seq::empty())
    } else if takes_value(args[i as int]) && i + 1 < args.len() {
        let rest = scan_args(args, i + 2);
        if args[i as int] == "--bind"@ {
            (
                if rest.0 is Some {
                    rest.0
                } else {
                    Some(args[i + 1 as int])
                },
                rest.1,
            )
        } else {
            (rest.0, seq![args[i + 1 as int]] + rest.1)
        }
    } else {
        scan_args(args, i + 1)
    }
}

/// The views of the arguments.
pub open spec fn arg_views(args: Seq<String>) -> Seq<Seq<char>> {
    args.map_values(|s: String| s@)
}

/// Reads the arguments after the program name.
pub fn parse_args(args: &Vec<String>) -> (r: CliArgs)
    requires
        flags_have_values(arg_views(args@), 1),
    ensures
        (match r.bind {
            Some(b) => Some(b@),
            None => None,
        }) == scan_args(arg_views(args@), 1).0,
        arg_views(r.seeds@) == scan_args(arg_views(args@), 1).1,
{
    let ghost av = arg_views(args@);
    let bind_flag = "--bind".to_owned();
    let seed_flag = "--seed".to_owned();
    let mut bind: Option<String> = None;
    let mut seeds: Vec<String> = Vec::new();
    let n = args.len();
    let mut i: usize = 1;
    while i < n
        invariant
            av == arg_views(args@),
            n == args@.len(),
            bind_flag@ == "--bind"@,
            seed_flag@ == "--seed"@,
            1 <= i,
            i <= n + 1,
            flags_have_values(av, i as nat),
            scan_args(av, 1) == ({
                let rest = scan_args(av, i as nat);
                (
                    if rest.0 is Some {
                        rest.0
                    } else {
                        match bind {
                            Some(b) => Some(b@),
                            None => None,
                        }
                    },
                    arg_views(seeds@) + rest.1,
                )
            }),
        decreases n + 1 - i,
    {
        let a = &args[i];
        proof {
            assert(av[i as int] == a@);
        }
        if *a == bind_flag {
            proof {
                assert(i + 1 < n);
                assert(av[i + 1] == args@[i + 1]@);
            }
            bind = Some(args[i + 1].clone());
            i = i + 2;
        } else if *a == seed_flag {
            proof {
                assert(i + 1 < n);
                assert(av[i + 1] == args@[i + 1]@);
            }
            let ghost before = seeds@;
            seeds.push(args[i + 1].clone());
            proof {
                assert(arg_views(seeds@) =~= arg_views(before).push(av[i + 1]));
                let rest = scan_args(av, (i + 2) as nat);
                assert(arg_views(before) + (seq![av[i + 1]] + rest.1) =~= arg_views(seeds@) + rest.1);
            }
            i = i + 2;
        } else {
            i = i + 1;
        }
    }
    proof {
        assert(arg_views(seeds@) + Seq::<Seq<char>>::empty() =~= arg_views(seeds@));
    }
    CliArgs { bind, seeds }
}

/// Whether every `--bind` and `--seed` after the program name is followed
/// by a value (what `parse_args` needs).
pub fn args_complete(args: &Vec<String>) -> (b: bool)
    ensures
        b == flags_have_values(arg_views(args@), 1),
{
    let ghost av = arg_views(args@);
    let bind_flag = "--bind".to_owned();
    let seed_flag = "--seed".to_owned();
    let n = args.len();
    let mut i: usize = 1;
    while i < n
        invariant
            av == arg_views(args@),
            n == args@.len(),
            bind_flag@ == "--bind"@,
            seed_flag@ == "--seed"@,
            1 <= i,
            flags_have_values(av, 1) == flags_have_values(av, i as nat),
        decreases n - i,
    {
        let a = &args[i];
        proof {
            assert(av[i as int] == a@);
        }
        if *a == bind_flag || *a == seed_flag {
            if i + 1 >= n {
                return false;
            }
            i = i + 2;
        } else {
            i = i + 1;
        }
    }
    true
}

} // verus!
