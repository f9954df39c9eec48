//! The resolved invocation configuration: which paths to list, whether to
//! render the detailed form, and whether to announce each path's name.

use vstd::prelude::*;

verus! {

/// The characters of the detailed-listing flag.
pub open spec fn flag_chars() -> Seq<char> {
    seq!['-', 'l']
}

/// The characters of the default target path.
pub open spec fn dot_chars() -> Seq<char> {
    seq!['.']
}

/// The views of a sequence of strings.
pub open spec fn views_of(s: Seq<String>) -> Seq<Seq<char>> {
    s.map_values(|x: String| x@)
}

/// The arguments that are not the detailed-listing flag, in order.
pub open spec fn non_flag_args(args: Seq<Seq<char>>) -> Seq<Seq<char>>
    decreases args.len(),
{
    if args.len() == 0 {
        args
    } else {
        let pre = non_flag_args(args.drop_last());
        if args.last() == flag_chars() {
            pre
        } else {
            pre.push(args.last())
        }
    }
}

/// Whether some argument is the detailed-listing flag.
pub open spec fn has_flag(args: Seq<Seq<char>>) -> bool {
    exists|i: int| 0 <= i < args.len() && args[i] == flag_chars()
}

/// The paths a run will list, in the order requested, with the default path
/// standing in when none was requested.
pub open spec fn requested_paths(args: Seq<Seq<char>>) -> Seq<Seq<char>> {
    if non_flag_args(args).len() == 0 {
        seq![dot_chars()]
    } else {
        non_flag_args(args)
    }
}

/// The parsed invocation configuration.
pub struct Config {
    /// The paths to list, in the order requested.
    pub directories: Vec<String>,
    /// Whether each listed path's name is announced before its contents:
    /// exactly when more than one path was requested.
    pub show_directory_name: bool,
    /// Whether the detailed form is rendered instead of the compact one.
    pub list_output: bool,
}

impl Config {
    /// Parse the command-line arguments that follow the program name: the
    /// detailed-listing flag may appear anywhere, every other argument is a
    /// target path, and the default path stands in when none is given.
    pub fn new(args: Vec<String>) -> (c: Config)
        ensures
            c.list_output == has_flag(views_of(args@)),
            views_of(c.directories@) == requested_paths(views_of(args@)),
            c.show_directory_name == (c.directories@.len() > 1),
    {
        proof {
            reveal_strlit("-l");
            reveal_strlit(".");
        }
        let ghost all = views_of(args@);
        let flag = String::from_str("-l");
        assert(flag@ =~= flag_chars());
        let mut rest = args;
        let mut directories: Vec<String> = Vec::new();
        let mut list_output = false;
        let ghost mut i: int = 0;
        proof {
            assert(views_of(rest@) =~= all);
            assert(all.take(0) =~= Seq::<Seq<char>>::empty());
            assert(views_of(directories@) =~= non_flag_args(all.take(0)));
            assert(!has_flag(all.take(0)));
        }
        while rest.len() > 0
            invariant
                0 <= i,
                i + rest@.len() == all.len(),
                all == views_of(args@),
                views_of(rest@) == all.skip(i),
                views_of(directories@) == non_flag_args(all.take(i)),
                list_output == has_flag(all.take(i)),
                flag@ == flag_chars(),
            decreases rest@.len(),
        {
            let ghost before = rest@;
            let directory = rest.remove(0);
            proof {
                assert(rest@ =~= before.drop_first());
                assert(views_of(before.drop_first()) =~= views_of(before).drop_first());
                assert(views_of(before).drop_first() =~= all.skip(i + 1)) by {
                    assert(views_of(before) == all.skip(i));
                    assert(all.skip(i).drop_first() =~= all.skip(i + 1));
                }
                assert(directory == before[0]);
                assert(views_of(before)[0] == before[0]@);
                assert(directory@ == all[i]);
                assert(all.take(i + 1).drop_last() =~= all.take(i));
                assert(all.take(i + 1).last() == all[i]);
            }
            if directory.eq(&flag) {
                list_output = true;
                proof {
                    assert(all.take(i + 1)[i] == flag_chars());
                    assert(has_flag(all.take(i + 1)));
                }
            } else {
                directories.push(directory);
                proof {
                    assert(views_of(directories@) =~= non_flag_args(all.take(i + 1)));
                    if !list_output {
                        assert(!has_flag(all.take(i + 1))) by {
                            assert forall|j: int|
                                0 <= j < all.take(i + 1).len() implies #[trigger] all.take(
                                i + 1,
                            )[j] != flag_chars() by {
                                if j < i {
                                    assert(all.take(i)[j] == all.take(i + 1)[j]);
                                }
                            }
                        }
                    } else {
                        let j = choose|j: int| 0 <= j < all.take(i).len() && all.take(i)[j]
                            == flag_chars();
                        assert(all.take(i + 1)[j] == flag_chars());
                    }
                }
            }
            proof {
                i = i + 1;
            }
        }
        proof {
            assert(all.take(i) =~= all);
        }
        if directories.len() == 0 {
            let dot = String::from_str(".");
            assert(dot@ =~= dot_chars());
            directories.push(dot);
            proof {
                assert(views_of(directories@) =~= seq![dot_chars()]);
            }
        }
        let show_directory_name = directories.len() > 1;
        Config { directories, show_directory_name, list_output }
    }
}

} // verus!
