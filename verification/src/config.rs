//! Configuration resolution: turn raw invocation tokens and the
//! environment's case flag into a validated configuration.

use vstd::prelude::*;

verus! {

/// Why configuration resolution failed.
#[derive(Clone, Copy, Debug, PartialEq, Eq, Structural)]
pub enum ConfigError {
    /// No usable query token was supplied.
    MissingQuery,
    /// A query was supplied but no file-path token followed it.
    MissingFilePath,
}

/// A validated run configuration: what to search for, where to read the
/// text, and whether to ignore case.  Built once by [`Config::build`] and
/// never mutated.
pub struct Config {
    /// The text to search for; never empty.
    pub query: String,
    /// The file to read; not checked until the file is opened.
    pub file_path: String,
    /// Whether matching folds case.
    pub ignore_case: bool,
}

/// Whether the tokens carry a usable case override: a fourth token that is
/// non-empty.
pub open spec fn has_override_token(args: Seq<String>) -> bool {
    args.len() >= 4 && args[3]@.len() > 0
}

/// The case mode the resolver picks.  A usable override token decides by
/// its first character: `t`/`T` forces case-insensitive, `f`/`F` forces
/// case-sensitive, and any other character defers to the environment flag,
/// as does a missing or empty override token.
pub open spec fn resolved_ignore_case(args: Seq<String>, env_ignore_case: bool) -> bool {
    if has_override_token(args) {
        let c = args[3]@[0];
        if c == 't' || c == 'T' {
            true
        } else if c == 'f' || c == 'F' {
            false
        } else {
            env_ignore_case
        }
    } else {
        env_ignore_case
    }
}

impl Config {
    /// A well-formed configuration carries a non-empty query.
    pub open spec fn wf(self) -> bool {
        self.query@.len() > 0
    }

    /// Resolve invocation tokens into a configuration.  The first token is
    /// the program name and is discarded; the second is the query, the
    /// third the file path, and an optional fourth token may override the
    /// environment's case flag, which the caller passes in as
    /// `env_ignore_case`.  Fails with `MissingQuery` when no non-empty
    /// query token is there, and with `MissingFilePath` when the file-path
    /// token is missing; it cannot fail for any other reason.
    pub fn build(args: &[String], env_ignore_case: bool) -> (r: Result<Config, ConfigError>)
        ensures
            r is Ok <==> args@.len() >= 3 && args@[1]@.len() > 0,
            r matches Ok(c) ==> {
                &&& c.query@ == args@[1]@
                &&& c.file_path@ == args@[2]@
                &&& c.ignore_case == resolved_ignore_case(args@, env_ignore_case)
                &&& c.wf()
            },
            r matches Err(e) ==> e == (if args@.len() < 2 || args@[1]@.len() == 0 {
                ConfigError::MissingQuery
            } else {
                ConfigError::MissingFilePath
            }),
    {
        if args.len() < 2 || args[1].as_str().is_empty() {
            return Err(ConfigError::MissingQuery);
        }
        if args.len() < 3 {
            return Err(ConfigError::MissingFilePath);
        }
        let query = args[1].clone();
        let file_path = args[2].clone();
        let ignore_case: bool;
        if args.len() >= 4 && !args[3].as_str().is_empty() {
            let c = args[3].as_str().get_char(0);
            if c == 't' || c == 'T' {
                ignore_case = true;
            } else if c == 'f' || c == 'F' {
                ignore_case = false;
            } else {
                ignore_case = env_ignore_case;
            }
        } else {
            ignore_case = env_ignore_case;
        }
        Ok(Config { query, file_path, ignore_case })
    }
}

} // verus!
