//! The line-search tool: a configuration built from the argument list and an
//! optional environment override, and case-sensitive and case-insensitive
//! substring search over the lines of a text.

use crate::text::{
    contains_seq, contains_sub, lower_of, parse_bool, parse_bool_spec, split_lines,
    split_lines_spec, to_lowercase,
};
use vstd::prelude::*;

verus! {

/// Why building a configuration failed.
pub enum ConfigError {
    NotEnoughArguments,
    InvalidIgnoreCaseEnv,
    InvalidIgnoreCaseArgument,
}

/// The view of the optional environment value.
pub open spec fn env_view(env: Option<&str>) -> Option<Seq<char>> {
    match env {
        Some(s) => Some(s@),
        None => None,
    }
}

/// What building a configuration produces: the query, the file path, and the
/// case-insensitivity flag, or the reason the arguments were rejected. The
/// flag is the disjunction of the environment's setting and a fourth
/// argument, so a true fourth argument is never overridden.
pub open spec fn build_model(args: Seq<Seq<char>>, env: Option<Seq<char>>) -> Result<
    (Seq<char>, Seq<char>, bool),
    ConfigError,
> {
    if args.len() < 3 {
        Err(ConfigError::NotEnoughArguments)
    } else if match env {
        Some(s) => parse_bool_spec(s) is None,
        None => false,
    } {
        Err(ConfigError::InvalidIgnoreCaseEnv)
    } else {
        let env_flag = match env {
            Some(s) => parse_bool_spec(s) == Some(true),
            None => false,
        };
        if args.len() > 3 {
            match parse_bool_spec(args[3]) {
                None => Err(ConfigError::InvalidIgnoreCaseArgument),
                Some(arg_flag) => Ok((args[1], args[2], env_flag || arg_flag)),
            }
        } else {
            Ok((args[1], args[2], env_flag))
        }
    }
}

/// A fourth argument reading `"true"` always yields a case-insensitive
/// configuration, whatever the environment said.
pub proof fn lemma_true_argument_forces_insensitive(
    args: Seq<Seq<char>>,
    env: Option<Seq<char>>,
)
    requires
        args.len() > 3,
        parse_bool_spec(args[3]) == Some(true),
        build_model(args, env) is Ok,
    ensures
        build_model(args, env) matches Ok(c) && c.2 == true,
{
}

/// Search configuration: what to look for, where, and whether letter case is
/// ignored.
pub struct Config {
    pub query: String,
    pub file_path: String,
    pub ignore_case: bool,
}

impl Config {
    /// Builds a configuration from the full argument list (program name
    /// first) and the optional `IGNORE_CASE` environment value.
    pub fn build(args: &Vec<String>, ignore_case_env: Option<&str>) -> (r: Result<
        Config,
        &'static str,
    >)
        ensures
            ({
                match build_model(args.deep_view(), env_view(ignore_case_env)) {
                    Err(ConfigError::NotEnoughArguments) => r matches Err(e) && e@
                        == "not enough arguments"@,
                    Err(ConfigError::InvalidIgnoreCaseEnv) => r matches Err(e) && e@
                        == "IGNORE_CASE must be a boolean"@,
                    Err(ConfigError::InvalidIgnoreCaseArgument) => r matches Err(e)
                        && e@ == "third argument must be a boolean value"@,
                    Ok(c) => r matches Ok(conf) && conf.query@ == c.0
                        && conf.file_path@ == c.1 && conf.ignore_case == c.2,
                }
            }),
    {
        proof {
            assert(args.deep_view().len() == args@.len());
        }
        if args.len() < 3 {
            return Err("not enough arguments");
        }

        let query = args[1].clone();
        let file_path = args[2].clone();
        let mut ignore_case = false;

        match ignore_case_env {
            Some(value) => {
                match parse_bool(value) {
                    Some(v) => {
                        ignore_case = v;
                    },
                    None => {
                        return Err("IGNORE_CASE must be a boolean");
                    },
                }
            },
            None => {},
        }

        if args.len() > 3 {
            proof {
                assert(args.deep_view()[3] == args@[3]@);
            }
            let is_argument_ignore_case: bool = match parse_bool(args[3].as_str()) {
                Some(value) => value,
                None => {
                    return Err("third argument must be a boolean value");
                },
            };

            if !ignore_case && is_argument_ignore_case {
                ignore_case = true;
            }
        }

        proof {
            assert(args.deep_view()[1] == args@[1]@);
            assert(args.deep_view()[2] == args@[2]@);
        }
        Ok(Config { query, file_path, ignore_case })
    }
}

/// The lines that contain the query, with the original case, in order.
pub open spec fn matching_lines(lines: Seq<Seq<char>>, query: Seq<char>) -> Seq<
    Seq<char>,
>
    decreases lines.len(),
{
    if lines.len() == 0 {
        Seq::empty()
    } else {
        let rest = matching_lines(lines.drop_first(), query);
        if contains_seq(lines[0], query) {
            seq![lines[0]] + rest
        } else {
            rest
        }
    }
}

/// The lines whose lowercase form contains the lowercase form of the query,
/// still returned in their original case and order.
pub open spec fn matching_lines_ci(lines: Seq<Seq<char>>, query: Seq<char>) -> Seq<
    Seq<char>,
>
    decreases lines.len(),
{
    if lines.len() == 0 {
        Seq::empty()
    } else {
        let rest = matching_lines_ci(lines.drop_first(), query);
        if contains_seq(lower_of(lines[0]), lower_of(query)) {
            seq![lines[0]] + rest
        } else {
            rest
        }
    }
}

/// Every line of `contents` that contains `query` as an exact-case
/// substring, in the original order.
pub fn search(query: &str, contents: &str) -> (result: Vec<String>)
    ensures
        result.deep_view() == matching_lines(split_lines_spec(contents@), query@),
{
    let mut result: Vec<String> = Vec::new();
    let lines = split_lines(contents);
    let ghost all = lines.deep_view();
    let n = lines.len();
    let mut j: usize = 0;

    proof {
        assert(all.skip(0) =~= all);
        assert(result.deep_view() =~= Seq::<Seq<char>>::empty());
        assert(Seq::<Seq<char>>::empty() + matching_lines(all, query@)
            =~= matching_lines(all, query@));
        assert(all.len() == lines@.len());
    }
    while j < n
        invariant
            n == lines@.len(),
            all == lines.deep_view(),
            all.len() == n,
            j <= n,
            result.deep_view() + matching_lines(all.skip(j as int), query@)
                == matching_lines(all, query@),
        decreases n - j,
    {
        let ghost rest = all.skip(j as int);
        let ghost pre = result.deep_view();
        proof {
            assert(rest[0] == all[j as int]);
            assert(all[j as int] == lines@[j as int]@);
            assert(rest.drop_first() =~= all.skip(j + 1));
        }
        let line = &lines[j];
        if contains_sub(line.as_str(), query) {
            result.push(line.clone());
            proof {
                assert(result.deep_view() =~= pre + seq![all[j as int]]);
                assert(pre + (seq![all[j as int]] + matching_lines(
                    all.skip(j + 1),
                    query@,
                )) =~= (pre + seq![all[j as int]]) + matching_lines(
                    all.skip(j + 1),
                    query@,
                ));
            }
        }
        j += 1;
    }
    proof {
        assert(all.skip(n as int).len() == 0);
        assert(matching_lines(all.skip(n as int), query@) == Seq::<Seq<char>>::empty());
        assert(result.deep_view() + Seq::<Seq<char>>::empty() =~= result.deep_view());
    }
    result
}

/// Every line of `contents` whose lowercase form contains the lowercase form
/// of `query`, in the original order and with the original case.
pub fn search_case_insensitive(query: &str, contents: &str) -> (result: Vec<String>)
    ensures
        result.deep_view() == matching_lines_ci(split_lines_spec(contents@), query@),
{
    let mut result: Vec<String> = Vec::new();
    let query_lower = to_lowercase(query);
    let lines = split_lines(contents);
    let ghost all = lines.deep_view();
    let n = lines.len();
    let mut j: usize = 0;

    proof {
        assert(all.skip(0) =~= all);
        assert(result.deep_view() =~= Seq::<Seq<char>>::empty());
        assert(Seq::<Seq<char>>::empty() + matching_lines_ci(all, query@)
            =~= matching_lines_ci(all, query@));
        assert(all.len() == lines@.len());
    }
    while j < n
        invariant
            n == lines@.len(),
            all == lines.deep_view(),
            all.len() == n,
            j <= n,
            query_lower@ == lower_of(query@),
            result.deep_view() + matching_lines_ci(all.skip(j as int), query@)
                == matching_lines_ci(all, query@),
        decreases n - j,
    {
        let ghost rest = all.skip(j as int);
        let ghost pre = result.deep_view();
        proof {
            assert(rest[0] == all[j as int]);
            assert(all[j as int] == lines@[j as int]@);
            assert(rest.drop_first() =~= all.skip(j + 1));
        }
        let line = &lines[j];
        let line_lower = to_lowercase(line.as_str());
        if contains_sub(line_lower.as_str(), query_lower.as_str()) {
            result.push(line.clone());
            proof {
                assert(result.deep_view() =~= pre + seq![all[j as int]]);
                assert(pre + (seq![all[j as int]] + matching_lines_ci(
                    all.skip(j + 1),
                    query@,
                )) =~= (pre + seq![all[j as int]]) + matching_lines_ci(
                    all.skip(j + 1),
                    query@,
                ));
            }
        }
        j += 1;
    }
    proof {
        assert(all.skip(n as int).len() == 0);
        assert(matching_lines_ci(all.skip(n as int), query@) == Seq::<
            Seq<char>,
        >::empty());
        assert(result.deep_view() + Seq::<Seq<char>>::empty() =~= result.deep_view());
    }
    result
}

/// The search step of a run: picks the search the configuration calls for
/// and hands back the matching lines. Reading the file and printing the
/// matches stay with the caller.
pub fn run_search(config: &Config, contents: &str) -> (result: Vec<String>)
    ensures
        config.ignore_case ==> result.deep_view() == matching_lines_ci(
            split_lines_spec(contents@),
            config.query@,
        ),
        !config.ignore_case ==> result.deep_view() == matching_lines(
            split_lines_spec(contents@),
            config.query@,
        ),
{
    if config.ignore_case {
        search_case_insensitive(config.query.as_str(), contents)
    } else {
        search(config.query.as_str(), contents)
    }
}

} // verus!
