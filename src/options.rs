//! Building the options of a run from the values of the command line.
use crate::error::Error;
use crate::types::{Format, FormatConfig, Mode, ProcessParametersOptions, RunConfig};
use vstd::prelude::*;
use vstd::string::StringExecFns;

verus! {

/// The values given on the command line, as the argument parser found them.
pub struct ArgValues {
    pub get: bool,
    pub set: bool,
    pub application: Option<String>,
    pub target: Option<String>,
    pub includes: Option<Vec<String>>,
    pub merges: Option<Vec<String>>,
    pub format: Option<String>,
    pub raw: bool,
    pub env_vars: Option<Vec<String>>,
    pub env_vars_base64: Option<Vec<String>>,
    pub cmd: Option<Vec<String>>,
}

/// The output format a name selects; `None` for an unknown name.
pub open spec fn format_named(name: Option<Seq<char>>) -> Option<Format> {
    match name {
        None => Some(Format::ENV),
        Some(n) => if n == "export"@ {
            Some(Format::EXPORT)
        } else if n == "json"@ {
            Some(Format::JSON)
        } else if n == "env"@ {
            Some(Format::ENV)
        } else {
            None
        },
    }
}

/// The mode the flags select; GET wins over SET.
pub open spec fn mode_of(get: bool, set: bool) -> Option<Mode> {
    if get {
        Some(Mode::GET)
    } else if set {
        Some(Mode::SET)
    } else {
        None
    }
}

/// An optional text, as a sequence of characters.
pub open spec fn opt_view(s: Option<String>) -> Option<Seq<char>> {
    match s {
        Some(x) => Some(x@),
        None => None,
    }
}

/// The store path `/{application}/{target}`, when both are given.
pub open spec fn path_of(application: Option<String>, target: Option<String>) -> Option<Seq<char>> {
    match (application, target) {
        (Some(a), Some(t)) => Some("/"@ + a@ + "/"@ + t@),
        _ => None,
    }
}

/// The command to run: the first trailing value, with the rest as its arguments.
pub open spec fn run_config_of(cmd: Option<Vec<String>>) -> Option<(String, Seq<String>)> {
    match cmd {
        Some(v) => if v@.len() > 0 {
            Some((v@[0], v@.skip(1)))
        } else {
            None
        },
        None => None,
    }
}

/// The output format a name selects, or an error naming the unknown format.
fn format_from_name(name: &Option<String>) -> (r: Result<Format, Error>)
    ensures
        match format_named(opt_view(*name)) {
            Some(f) => r == Ok::<Format, Error>(f),
            None => r matches Err(Error::BadFormat(m)) && m@ == "Unknown format "@ + name->Some_0@,
        },
{
    match name {
        None => Ok(Format::ENV),
        Some(n) => {
            if *n == String::from_str("export") {
                Ok(Format::EXPORT)
            } else if *n == String::from_str("json") {
                Ok(Format::JSON)
            } else if *n == String::from_str("env") {
                Ok(Format::ENV)
            } else {
                let mut m = String::from_str("Unknown format ");
                m.append(n.as_str());
                Err(Error::BadFormat(m))
            }
        },
    }
}

/// Builds the options of a run: the mode from the flags, the store path from
/// the application and target, the output format from its name, and the
/// command from the trailing values.
pub fn options_from_matches(args: ArgValues) -> (r: Result<ProcessParametersOptions, Error>)
    ensures
        match format_named(opt_view(args.format)) {
            None => r matches Err(Error::BadFormat(m)) && m@ == "Unknown format "@
                + args.format->Some_0@,
            Some(f) => r matches Ok(o) && o.format_config == (FormatConfig {
                format: f,
                raw: args.raw,
            }) && o.mode == mode_of(args.get, args.set) && opt_view(o.path) == path_of(
                args.application,
                args.target,
            ) && o.app == args.application && o.target == args.target && o.includes
                == args.includes && o.merges == args.merges && o.env_vars == args.env_vars
                && o.env_vars_base64 == args.env_vars_base64 && match run_config_of(args.cmd) {
                Some((c, rest)) => o.run_config matches Some(rc) && rc.cmd == c && rc.args@
                    == rest,
                None => o.run_config is None,
            },
        },
{
    let format = match format_from_name(&args.format) {
        Ok(f) => f,
        Err(e) => {
            return Err(e);
        },
    };
    let mode = if args.get {
        Some(Mode::GET)
    } else if args.set {
        Some(Mode::SET)
    } else {
        None
    };
    let path = match (&args.application, &args.target) {
        (Some(a), Some(t)) => {
            let mut p = String::from_str("/");
            p.append(a.as_str());
            p.append("/");
            p.append(t.as_str());
            Some(p)
        },
        _ => None,
    };
    let ghost cmd = args.cmd;
    let run_config = match args.cmd {
        Some(mut values) => {
            if values.len() > 0 {
                let rest = values.split_off(1);
                let head = values.pop();
                match head {
                    Some(c) => Some(RunConfig { cmd: c, args: rest }),
                    None => None,
                }
            } else {
                None
            }
        },
        None => None,
    };
    Ok(
        ProcessParametersOptions {
            app: args.application,
            env_vars: args.env_vars,
            env_vars_base64: args.env_vars_base64,
            format_config: FormatConfig { format, raw: args.raw },
            includes: args.includes,
            merges: args.merges,
            mode,
            path,
            run_config,
            target: args.target,
        },
    )
}

} // verus!
