//! The `export` built-in: apply each well-formed `NAME=VALUE` argument
//! to the environment in order, and hand back the malformed ones so the
//! caller can report each as a usage error while the rest still apply.

use vstd::prelude::*;

use crate::pipeline::find_ch;
use crate::pipeline::parse_assignment;
use crate::store::env_lookup;
use crate::store::ShellState;

verus! {

/// An `export` argument without an `=` in it.
pub open spec fn is_malformed(a: Seq<char>) -> bool {
    find_ch(a, '=') < 0
}

/// The malformed arguments, in order.
pub open spec fn malformed_of(args: Seq<Seq<char>>) -> Seq<Seq<char>>
    decreases args.len(),
{
    if args.len() == 0 {
        Seq::empty()
    } else {
        let m = malformed_of(args.drop_last());
        if is_malformed(args.last()) {
            m.push(args.last())
        } else {
            m
        }
    }
}

/// The value the last well-formed assignment gives to `k`, if any.
pub open spec fn export_gives(args: Seq<Seq<char>>, k: Seq<char>) -> Option<Seq<char>>
    decreases args.len(),
{
    if args.len() == 0 {
        None
    } else {
        let a = args.last();
        let p = find_ch(a, '=');
        if p >= 0 && a.take(p) == k {
            Some(a.skip(p + 1))
        } else {
            export_gives(args.drop_last(), k)
        }
    }
}

impl ShellState {
    /// Apply the assignments of one `export` call; the returned list
    /// holds the malformed arguments, in order.
    pub fn run_export(&mut self, args: &Vec<String>) -> (malformed: Vec<String>)
        ensures
            malformed.deep_view() == malformed_of(args.deep_view()),
            forall|k: Seq<char>|
                env_lookup(final(self).env@, k) == match export_gives(args.deep_view(), k) {
                    Some(v) => Some(v),
                    None => env_lookup(old(self).env@, k),
                },
            final(self).cwd == old(self).cwd,
            final(self).persisted == old(self).persisted,
    {
        let ghost all = args.deep_view();
        let mut malformed: Vec<String> = Vec::new();
        let mut i: usize = 0;
        proof {
            assert(all.subrange(0, 0) =~= Seq::<Seq<char>>::empty());
            assert(malformed.deep_view() =~= malformed_of(all.subrange(0, 0)));
        }
        while i < args.len()
            invariant
                all == args.deep_view(),
                i <= args@.len(),
                malformed.deep_view() == malformed_of(all.subrange(0, i as int)),
                self.cwd == old(self).cwd,
                self.persisted == old(self).persisted,
                forall|k: Seq<char>|
                    env_lookup(self.env@, k) == match export_gives(all.subrange(0, i as int), k) {
                        Some(v) => Some(v),
                        None => env_lookup(old(self).env@, k),
                    },
            decreases args@.len() - i,
        {
            proof {
                assert(all[i as int] == args@[i as int]@);
                assert(all.subrange(0, i as int + 1).drop_last() =~= all.subrange(0, i as int));
                assert(all.subrange(0, i as int + 1).last() == all[i as int]);
            }
            let ghost env_before = self.env@;
            match parse_assignment(args[i].as_str()) {
                Some(kv) => {
                    let (key, value) = kv;
                    self.set_env(key.as_str(), value);
                    proof {
                        let a = all[i as int];
                        let p = find_ch(a, '=');
                        assert(p >= 0);
                        assert(key@ == a.take(p));
                        assert forall|k: Seq<char>|
                            env_lookup(self.env@, k) == match export_gives(
                                all.subrange(0, i as int + 1),
                                k,
                            ) {
                                Some(v) => Some(v),
                                None => env_lookup(old(self).env@, k),
                            } by {
                            if k == key@ {
                            } else {
                                assert(env_lookup(self.env@, k) == env_lookup(env_before, k));
                            }
                        }
                    }
                },
                None => {
                    let ghost prev = malformed.deep_view();
                    malformed.push(args[i].clone());
                    proof {
                        let a = all[i as int];
                        assert(is_malformed(a));
                        assert(malformed.deep_view() =~= prev.push(a));
                        assert forall|k: Seq<char>|
                            env_lookup(self.env@, k) == match export_gives(
                                all.subrange(0, i as int + 1),
                                k,
                            ) {
                                Some(v) => Some(v),
                                None => env_lookup(old(self).env@, k),
                            } by {}
                    }
                },
            }
            i = i + 1;
        }
        proof {
            assert(all.subrange(0, args@.len() as int) =~= all);
        }
        malformed
    }
}

} // verus!
