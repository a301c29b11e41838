//! Command-line argument parsing, from the argument vector inward.
//!
//! The process's first argument is its own path. Every later argument
//! that starts with a dash names an option: its key is the argument with
//! all leading dashes removed and its value is the following argument,
//! which must exist. The keys `h` and `help` request the help text
//! instead. Every other argument is positional. Reading the argument
//! vector from the environment stays outside this crate.

use vstd::prelude::*;

verus! {

/// Why the argument vector could not be parsed into options.
#[derive(Clone, Copy, PartialEq, Eq, Structural, Debug)]
pub enum CliError {
    /// An option key asked for the help text.
    HelpRequested,
    /// The last argument names an option but no value follows it.
    MissingValue,
}

/// The parsed arguments: option keys with their values, and the
/// positional arguments, each in the order given.
pub struct ArgsModel {
    pub named: Seq<(Seq<char>, Seq<char>)>,
    pub unnamed: Seq<Seq<char>>,
}

/// An argument that names an option: it starts with a dash.
pub open spec fn is_flag(a: Seq<char>) -> bool {
    a.len() > 0 && a[0] == '-'
}

/// The option key inside a flag argument: the argument with every
/// leading dash removed.
pub open spec fn strip_dashes(a: Seq<char>) -> Seq<char>
    decreases a.len(),
{
    if a.len() > 0 && a[0] == '-' {
        strip_dashes(a.skip(1))
    } else {
        a
    }
}

/// A key that requests the help text.
pub open spec fn is_help_key(k: Seq<char>) -> bool {
    k == seq!['h'] || k == seq!['h', 'e', 'l', 'p']
}

/// What parsing the arguments from position `i` on yields: flags consume
/// the following argument as their value, help keys and missing values
/// stop parsing, everything else is positional.
pub open spec fn spec_parse(args: Seq<Seq<char>>, i: int) -> Result<ArgsModel, CliError>
    decreases args.len() - i,
{
    if i < 0 || i >= args.len() {
        Ok(ArgsModel { named: Seq::empty(), unnamed: Seq::empty() })
    } else {
        let a = args[i];
        if is_flag(a) {
            let k = strip_dashes(a);
            if is_help_key(k) {
                Err(CliError::HelpRequested)
            } else if i + 1 >= args.len() {
                Err(CliError::MissingValue)
            } else {
                match spec_parse(args, i + 2) {
                    Ok(m) => Ok(
                        ArgsModel {
                            named: seq![(k, args[i + 1])] + m.named,
                            unnamed: m.unnamed,
                        },
                    ),
                    Err(e) => Err(e),
                }
            }
        } else {
            match spec_parse(args, i + 1) {
                Ok(m) => Ok(ArgsModel { named: m.named, unnamed: seq![a] + m.unnamed }),
                Err(e) => Err(e),
            }
        }
    }
}

/// The character sequences of a vector of strings.
pub open spec fn string_views(ss: Seq<String>) -> Seq<Seq<char>> {
    ss.map_values(|s: String| s@)
}

/// The character sequences of a vector of key/value pairs.
pub open spec fn pair_views(ps: Seq<(String, String)>) -> Seq<(Seq<char>, Seq<char>)> {
    ps.map_values(|p: (String, String)| (p.0@, p.1@))
}

/// Stripping dashes removes exactly the leading run of dashes.
proof fn lemma_strip_dashes_scan(a: Seq<char>, k: int)
    requires
        0 <= k <= a.len(),
        forall|j: int| 0 <= j < k ==> a[j] == '-',
        k == a.len() || a[k] != '-',
    ensures
        strip_dashes(a) == a.skip(k),
    decreases k,
{
    if k == 0 {
        assert(a.skip(0) =~= a);
    } else {
        let t = a.skip(1);
        assert forall|j: int| 0 <= j < k - 1 implies t[j] == '-' by {
            assert(t[j] == a[j + 1]);
        }
        if k < a.len() {
            assert(t[k - 1] == a[k]);
        }
        lemma_strip_dashes_scan(t, k - 1);
        assert(a.skip(1).skip(k - 1) =~= a.skip(k));
    }
}

/// The parsed command line: the program path, then options and
/// positional arguments.
#[derive(Debug, PartialEq, Eq)]
pub struct Arguments {
    pub path: String,
    pub named: Vec<(String, String)>,
    pub unnamed: Vec<String>,
}

impl Arguments {
    /// Parse an argument vector. The first entry is the program path;
    /// the rest parse as [`spec_parse`] says.
    pub fn new(argv: Vec<String>) -> (r: Result<Arguments, CliError>)
        requires
            argv@.len() >= 1,
        ensures
            match r {
                Ok(a) => a.path@ == argv@[0]@ && spec_parse(string_views(argv@), 1) == Ok::<
                    ArgsModel,
                    CliError,
                >(ArgsModel { named: pair_views(a.named@), unnamed: string_views(a.unnamed@) }),
                Err(e) => spec_parse(string_views(argv@), 1) == Err::<ArgsModel, CliError>(e),
            },
    {
        let ghost gargs = string_views(argv@);
        let len = argv.len();
        let mut named: Vec<(String, String)> = Vec::new();
        let mut unnamed: Vec<String> = Vec::new();
        let mut i: usize = 1;
        proof {
            assert(gargs.len() == argv@.len());
        }
        while i < len
            invariant
                len == argv@.len(),
                gargs == string_views(argv@),
                gargs.len() == len,
                1 <= i <= len,
                match spec_parse(gargs, i as int) {
                    Ok(m) => spec_parse(gargs, 1) == Ok::<ArgsModel, CliError>(
                        ArgsModel {
                            named: pair_views(named@) + m.named,
                            unnamed: string_views(unnamed@) + m.unnamed,
                        },
                    ),
                    Err(e) => spec_parse(gargs, 1) == Err::<ArgsModel, CliError>(e),
                },
            decreases len - i,
        {
            let a = &argv[i];
            let ghost ga = gargs[i as int];
            proof {
                assert(ga == argv@[i as int]@);
            }
            let n = a.as_str().unicode_len();
            let flagged = n > 0 && a.as_str().get_char(0) == '-';
            proof {
                assert(flagged == is_flag(ga));
            }
            if flagged {
                let mut j: usize = 0;
                while j < n && a.as_str().get_char(j) == '-'
                    invariant
                        n == a@.len(),
                        j <= n,
                        forall|q: int| 0 <= q < j ==> a@[q] == '-',
                    decreases n - j,
                {
                    j = j + 1;
                }
                proof {
                    lemma_strip_dashes_scan(a@, j as int);
                }
                let ghost key = strip_dashes(ga);
                let help = (n - j == 1 && a.as_str().get_char(j) == 'h') || (n - j == 4
                    && a.as_str().get_char(j) == 'h' && a.as_str().get_char(j + 1) == 'e'
                    && a.as_str().get_char(j + 2) == 'l' && a.as_str().get_char(j + 3) == 'p');
                proof {
                    assert(key == a@.skip(j as int));
                    assert(key.len() == n - j);
                    if help {
                        if n - j == 1 {
                            assert(key =~= seq!['h']);
                        } else {
                            assert(key[0] == a@[j as int] && key[1] == a@[j + 1]
                                && key[2] == a@[j + 2] && key[3] == a@[j + 3]);
                            assert(key =~= seq!['h', 'e', 'l', 'p']);
                        }
                    } else {
                        if key.len() == 1 {
                            assert(key[0] == a@[j as int]);
                            assert(key != seq!['h']);
                        } else {
                            assert(key.len() != 1);
                        }
                        if key.len() == 4 {
                            assert(key[0] == a@[j as int] && key[1] == a@[j + 1]
                                && key[2] == a@[j + 2] && key[3] == a@[j + 3]);
                            assert(key != seq!['h', 'e', 'l', 'p']);
                        } else {
                            assert(key.len() != 4);
                        }
                        assert(!is_help_key(key));
                    }
                }
                if help {
                    return Err(CliError::HelpRequested);
                }
                if i + 1 >= len {
                    return Err(CliError::MissingValue);
                }
                let key_str = a.as_str().substring_char(j, n);
                let key_string = key_str.to_owned();
                let value = argv[i + 1].clone();
                proof {
                    assert(key_string@ == key);
                    assert(value@ == gargs[i + 1]);
                    let m_rest = spec_parse(gargs, i + 2);
                    if let Ok(m2) = m_rest {
                        assert(pair_views(named@.push((key_string, value))) =~= pair_views(named@)
                            + seq![(key, gargs[i + 1])]);
                        assert(pair_views(named@) + (seq![(key, gargs[i + 1])] + m2.named)
                            =~= (pair_views(named@) + seq![(key, gargs[i + 1])]) + m2.named);
                    }
                }
                named.push((key_string, value));
                i = i + 2;
            } else {
                let arg_clone = argv[i].clone();
                proof {
                    assert(arg_clone@ == ga);
                    let m_rest = spec_parse(gargs, i + 1);
                    if let Ok(m2) = m_rest {
                        assert(string_views(unnamed@.push(arg_clone)) =~= string_views(unnamed@)
                            + seq![ga]);
                        assert(string_views(unnamed@) + (seq![ga] + m2.unnamed) =~= (string_views(
                            unnamed@,
                        ) + seq![ga]) + m2.unnamed);
                    }
                }
                unnamed.push(arg_clone);
                i = i + 1;
            }
        }
        proof {
            let m_end = spec_parse(gargs, i as int);
            if let Ok(m) = m_end {
                assert(m.named =~= Seq::<(Seq<char>, Seq<char>)>::empty());
                assert(m.unnamed =~= Seq::<Seq<char>>::empty());
                assert(pair_views(named@) + m.named =~= pair_views(named@));
                assert(string_views(unnamed@) + m.unnamed =~= string_views(unnamed@));
            }
        }
        let path = argv[0].clone();
        Ok(Arguments { path, named, unnamed })
    }
}

} // verus!
