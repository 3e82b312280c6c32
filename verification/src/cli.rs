//! The command line: `[--config <path>] <mbox_path> [output_dir]`.

use vstd::prelude::*;
use crate::config::Config;
use crate::text::{chars_of, same_chars};

verus! {

/// What the command line asks for.
#[derive(Debug)]
pub struct CliArgs {
    /// The path given with `--config`, if any (the last one wins).
    pub config_path: Option<String>,
    /// The mbox file to read.
    pub mbox_path: String,
    /// The output directory, if one was given.
    pub output_dir: Option<String>,
}

/// Why the command line was refused.
#[derive(Debug, PartialEq, Eq, Structural)]
pub enum CliError {
    /// `--config` was the last argument, with no path after it.
    MissingConfigValue,
    /// No mbox path, or more than two positional arguments.
    Usage,
}

/// The characters of each argument.
pub open spec fn args_view(args: Seq<String>) -> Seq<Seq<char>> {
    args.map_values(|a: String| a@)
}

/// Reading the arguments from index `i` on, with the `--config` path and
/// the positional arguments found before it: the `--config` path found
/// last and all positional arguments in order, or the error met first.
pub open spec fn scan_args(
    args: Seq<Seq<char>>,
    i: int,
    config: Option<Seq<char>>,
    positional: Seq<Seq<char>>,
) -> Result<(Option<Seq<char>>, Seq<Seq<char>>), CliError>
    decreases args.len() - i,
{
    if i >= args.len() {
        Ok((config, positional))
    } else if args[i] == "--config"@ {
        if i + 1 < args.len() {
            scan_args(args, i + 2, Some(args[i + 1]), positional)
        } else {
            Err(CliError::MissingConfigValue)
        }
    } else {
        scan_args(args, i + 1, config, positional.push(args[i]))
    }
}

/// The meaning of a command line whose first argument is the program name:
/// an error as described by [`CliError`], or the `--config` path, the mbox
/// path and the optional output directory.
pub open spec fn cli_meaning(args: Seq<Seq<char>>) -> Result<
    (Option<Seq<char>>, Seq<char>, Option<Seq<char>>),
    CliError,
> {
    match scan_args(args, 1, None, Seq::empty()) {
        Err(e) => Err(e),
        Ok((config, positional)) => {
            if positional.len() == 0 || positional.len() > 2 {
                Err(CliError::Usage)
            } else {
                Ok((config, positional[0], if positional.len() == 2 { Some(positional[1]) } else { None }))
            }
        },
    }
}

fn opt_clone(o: &Option<String>) -> (r: Option<String>)
    ensures
        crate::mime::opt_view(r) == crate::mime::opt_view(*o),
{
    match o {
        Some(s) => Some(s.clone()),
        None => None,
    }
}

/// Reads the command line (the program name first, as `std::env::args`
/// gives it).
pub fn parse_args(args: &Vec<String>) -> (r: Result<CliArgs, CliError>)
    ensures
        match (r, cli_meaning(args_view(args@))) {
            (Ok(a), Ok((config, mbox, out))) => crate::mime::opt_view(a.config_path) == config
                && a.mbox_path@ == mbox && crate::mime::opt_view(a.output_dir) == out,
            (Err(e), Err(f)) => e == f,
            _ => false,
        },
{
    let ghost v = args_view(args@);
    let flag = chars_of("--config");
    let mut config_path: Option<String> = None;
    let mut positional: Vec<String> = Vec::new();
    let mut i: usize = 1;
    assert(args_view(positional@) =~= Seq::<Seq<char>>::empty());
    while i < args.len()
        invariant
            v == args_view(args@),
            flag@ == "--config"@,
            1 <= i,
            scan_args(v, i as int, crate::mime::opt_view(config_path), args_view(positional@))
                == scan_args(v, 1, None, Seq::empty()),
        decreases args@.len() - i,
    {
        if same_chars(&chars_of(args[i].as_str()), &flag) {
            if i + 1 < args.len() {
                config_path = Some(args[i + 1].clone());
                i = i + 2;
            } else {
                return Err(CliError::MissingConfigValue);
            }
        } else {
            let ghost before = args_view(positional@);
            positional.push(args[i].clone());
            assert(args_view(positional@) =~= before.push(v[i as int]));
            i = i + 1;
        }
    }
    if positional.len() == 0 || positional.len() > 2 {
        return Err(CliError::Usage);
    }
    let output_dir = if positional.len() == 2 { Some(positional[1].clone()) } else { None };
    Ok(CliArgs { config_path, mbox_path: positional[0].clone(), output_dir })
}

impl CliArgs {
    /// The configuration file to read: the `--config` path, or
    /// `./config.toml`.
    pub fn config_file(&self) -> (r: String)
        ensures
            r@ == (match crate::mime::opt_view(self.config_path) {
                Some(p) => p,
                None => "./config.toml"@,
            }),
    {
        match &self.config_path {
            Some(p) => p.clone(),
            None => "./config.toml".to_string(),
        }
    }

    /// The directory to write to: the one given, or the configured default.
    pub fn output_dir_or_default(&self, config: &Config) -> (r: String)
        ensures
            r@ == (match crate::mime::opt_view(self.output_dir) {
                Some(d) => d,
                None => config.paths.default_output_dir@,
            }),
    {
        match &self.output_dir {
            Some(d) => d.clone(),
            None => config.paths.default_output_dir.clone(),
        }
    }
}


/// The usual command lines mean what they say: `prog mbox` reads `mbox`
/// into the configured directory, `prog mbox out` writes to `out`, and a
/// leading `--config path` sets the configuration file without changing
/// either (for any program name, paths that are not `--config`, and any
/// configuration path).
pub proof fn lemma_usual_command_lines(p: Seq<char>, c: Seq<char>, m: Seq<char>, o: Seq<char>)
    requires
        m != "--config"@,
        o != "--config"@,
    ensures
        cli_meaning(seq![p, m]) == Ok::<_, CliError>((None::<Seq<char>>, m, None::<Seq<char>>)),
        cli_meaning(seq![p, m, o]) == Ok::<_, CliError>((None::<Seq<char>>, m, Some(o))),
        cli_meaning(seq![p, "--config"@, c, m]) == Ok::<_, CliError>((Some(c), m, None::<Seq<char>>)),
        cli_meaning(seq![p, "--config"@, c, m, o]) == Ok::<_, CliError>((Some(c), m, Some(o))),
        cli_meaning(seq![p, m, o, "--config"@, c]) == Ok::<_, CliError>((Some(c), m, Some(o))),
{
    reveal_with_fuel(scan_args, 4);
    let a1 = seq![p, m];
    assert(scan_args(a1, 1, None, Seq::empty()) == scan_args(a1, 2, None, seq![m]));
    let a2 = seq![p, m, o];
    assert(scan_args(a2, 2, None, seq![m]) == scan_args(a2, 3, None, seq![m, o])) by {
        assert(seq![m].push(o) =~= seq![m, o]);
    }
    assert(scan_args(a2, 1, None, Seq::empty()) == scan_args(a2, 2, None, seq![m]));
    let a3 = seq![p, "--config"@, c, m];
    assert(scan_args(a3, 1, None, Seq::empty()) == scan_args(a3, 3, Some(c), Seq::empty()));
    assert(scan_args(a3, 3, Some(c), Seq::empty()) == scan_args(a3, 4, Some(c), seq![m]));
    let a4 = seq![p, "--config"@, c, m, o];
    assert(scan_args(a4, 1, None, Seq::empty()) == scan_args(a4, 3, Some(c), Seq::empty()));
    assert(scan_args(a4, 3, Some(c), Seq::empty()) == scan_args(a4, 4, Some(c), seq![m]));
    assert(scan_args(a4, 4, Some(c), seq![m]) == scan_args(a4, 5, Some(c), seq![m, o])) by {
        assert(seq![m].push(o) =~= seq![m, o]);
    }
    let a5 = seq![p, m, o, "--config"@, c];
    assert(scan_args(a5, 1, None, Seq::empty()) == scan_args(a5, 2, None, seq![m]));
    assert(scan_args(a5, 2, None, seq![m]) == scan_args(a5, 3, None, seq![m, o])) by {
        assert(seq![m].push(o) =~= seq![m, o]);
    }
    assert(scan_args(a5, 3, None, seq![m, o]) == scan_args(a5, 5, Some(c), seq![m, o]));
}

} // verus!
