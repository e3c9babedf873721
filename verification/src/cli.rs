//! Start-up decisions: the command line and the log filter.
use vstd::prelude::*;

use crate::text::{chars_of, concat, str_eq};

verus! {

/// The verbosity of the server's own log.
#[derive(Clone, Copy, Debug, PartialEq, Eq, Structural)]
pub enum LogLevel {
    Trace,
    Debug,
    Info,
    Warn,
    Error,
}

/// `str::to_lowercase` restricted to what a level name can match: letters
/// are compared without regard to ASCII case.
pub open spec fn ascii_fold(s: Seq<char>) -> Seq<char> {
    s.map_values(|c: char| if 'A' <= c <= 'Z' { ((c as u32) + 32) as char } else { c })
}

/// The level a configured name selects: the five names, in any case;
/// anything else is `info`.
pub open spec fn level_of(s: Seq<char>) -> LogLevel {
    let l = ascii_fold(s);
    if l == "trace"@ {
        LogLevel::Trace
    } else if l == "debug"@ {
        LogLevel::Debug
    } else if l == "warn"@ {
        LogLevel::Warn
    } else if l == "error"@ {
        LogLevel::Error
    } else {
        LogLevel::Info
    }
}

fn fold_ascii(s: &str) -> (r: Vec<char>)
    ensures
        r@ == ascii_fold(s@),
{
    let v = chars_of(s);
    let mut l: Vec<char> = Vec::new();
    let mut i: usize = 0;
    while i < v.len()
        invariant
            i <= v@.len(),
            v@ == s@,
            l@ == ascii_fold(v@.take(i as int)),
        decreases v.len() - i,
    {
        let c = v[i];
        let d = if 'A' <= c && c <= 'Z' { ((c as u8) + 32u8) as char } else { c };
        l.push(d);
        i = i + 1;
        assert(l@ =~= ascii_fold(v@.take(i as int)));
    }
    assert(v@.take(v@.len() as int) =~= v@);
    l
}

pub fn parse_level(s: &str) -> (r: LogLevel)
    ensures
        r == level_of(s@),
{
    let l = fold_ascii(s);
    if crate::text::chars_eq(&l, &chars_of("trace")) {
        LogLevel::Trace
    } else if crate::text::chars_eq(&l, &chars_of("debug")) {
        LogLevel::Debug
    } else if crate::text::chars_eq(&l, &chars_of("warn")) {
        LogLevel::Warn
    } else if crate::text::chars_eq(&l, &chars_of("error")) {
        LogLevel::Error
    } else {
        LogLevel::Info
    }
}

/// What the command line asks for as the configuration file: the argument
/// after the first `-c` or `--config` (the program name not counted); `Err`
/// when that flag ends the line.
pub open spec fn config_arg(args: Seq<Seq<char>>, i: int) -> Result<Option<Seq<char>>, ()>
    decreases args.len() - i,
{
    if i < 1 || i >= args.len() {
        Ok(None)
    } else if args[i] == "-c"@ || args[i] == "--config"@ {
        if i + 1 < args.len() { Ok(Some(args[i + 1])) } else { Err(()) }
    } else {
        config_arg(args, i + 1)
    }
}

pub open spec fn arg_views(args: Seq<String>) -> Seq<Seq<char>> {
    args.map_values(|a: String| a@)
}

/// The configuration path given on the command line `args` (program name
/// first).
pub fn parse_config_path(args: &Vec<String>) -> (r: Result<Option<String>, ()>)
    ensures
        match config_arg(arg_views(args@), 1) {
            Ok(None) => r matches Ok(None),
            Ok(Some(p)) => r matches Ok(Some(s)) && s@ == p,
            Err(()) => r is Err,
        },
{
    let mut i: usize = 1;
    while i < args.len()
        invariant
            1 <= i,
            config_arg(arg_views(args@), 1) == config_arg(arg_views(args@), i as int),
        decreases args.len() - i,
    {
        if str_eq(args[i].as_str(), "-c") || str_eq(args[i].as_str(), "--config") {
            if i + 1 < args.len() {
                return Ok(Some(args[i + 1].clone()));
            }
            return Err(());
        }
        i = i + 1;
    }
    Ok(None)
}

/// The tracing filter used when the environment sets none.
pub fn log_filter(level: &str, axum: &str) -> (r: String)
    ensures
        r@ == "info,ait="@ + level@ + ",axum="@ + axum@,
{
    let a = concat("info,ait=", level);
    let b = concat(a.as_str(), ",axum=");
    concat(b.as_str(), axum)
}

} // verus!
