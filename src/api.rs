//! The resolution pipeline and the sources it merges.
use crate::codec::{
    fold_outcomes, lemma_fold_error_prefix, lines_outcome, map_agrees, read_outcome,
    string_from_utf8,
};
use crate::error::{fault, fault_with, Error, ErrorKind, Fault};
use crate::types::{CommandOutput, Mode, ProcessParametersOptions, RemoteEntry, Sources, VariableMap};
use vstd::utf8::{decode_utf8, valid_utf8};
use vstd::prelude::*;
use vstd::string::{StrSliceExecFns, StringExecFns};

pub use crate::codec::{merge_with_env, merge_with_given, parse_line, read_from_reader};
pub use crate::output::{as_env_format, as_export_format, escape_for_bash, render};

verus! {

/// `path` without its first character when that is a separator.
pub open spec fn strip_separator(path: Seq<char>) -> Seq<char> {
    if path.len() > 0 && path[0] == '/' {
        path.drop_first()
    } else {
        path
    }
}

/// Splits `s` at each `c`: the pieces ended so far and the piece after the last `c`.
pub open spec fn split_scan(s: Seq<char>, c: char) -> (Seq<Seq<char>>, Seq<char>)
    decreases s.len(),
{
    if s.len() == 0 {
        (Seq::empty(), Seq::empty())
    } else {
        let (done, cur) = split_scan(s.drop_last(), c);
        if s.last() == c {
            (done.push(cur), Seq::empty())
        } else {
            (done, cur.push(s.last()))
        }
    }
}

/// The pieces of `s` between the copies of `c`.
pub open spec fn split(s: Seq<char>, c: char) -> Seq<Seq<char>> {
    let (done, cur) = split_scan(s, c);
    done.push(cur)
}

/// The key of a store path `/{application}/{target}/{key}`: the last of exactly
/// three segments, once a single leading separator is gone.
pub open spec fn key_of_path(path: Seq<char>) -> Option<Seq<char>> {
    let segments = split(strip_separator(path), '/');
    if segments.len() == 3 {
        Some(segments[2])
    } else {
        None
    }
}

/// Extracts the key from a store path such as `/app/staging/KEY`.
pub fn extract_key_from_path(param_path: &str) -> (r: Result<String, Error>)
    ensures
        match key_of_path(param_path@) {
            Some(k) => r matches Ok(s) && s@ == k,
            None => r matches Err(Error::InvalidPathError(m)) && m@ == "Invalid path "@
                + param_path@,
        },
{
    let n = param_path.unicode_len();
    let ghost p = param_path@;
    let start: usize = if n > 0 && param_path.get_char(0) == '/' {
        1
    } else {
        0
    };
    assert(strip_separator(p) =~= p.skip(start as int));
    let ghost t = p.skip(start as int);
    let mut count: usize = 0;
    let mut last: usize = start;
    let mut i: usize = start;
    while i < n
        invariant
            n == p.len(),
            p == param_path@,
            t == p.skip(start as int),
            start <= last <= i <= n,
            count <= i - start,
            split_scan(t.take(i - start), '/').0.len() == count,
            split_scan(t.take(i - start), '/').1 == p.subrange(last as int, i as int),
        decreases n - i,
    {
        proof {
            assert(t.take(i + 1 - start).drop_last() =~= t.take(i - start));
            assert(t.take(i + 1 - start).last() == p[i as int]);
        }
        if param_path.get_char(i) == '/' {
            count += 1;
            last = i + 1;
            assert(p.subrange(last as int, i + 1) =~= Seq::<char>::empty());
        } else {
            assert(p.subrange(last as int, i + 1) =~= p.subrange(last as int, i as int).push(
                p[i as int],
            ));
        }
        i += 1;
    }
    proof {
        assert(t.take(n - start) =~= t);
    }
    if count == 2 {
        Ok(param_path.substring_char(last, n).to_owned())
    } else {
        let mut m = String::from_str("Invalid path ");
        m.append(param_path);
        Err(Error::InvalidPathError(m))
    }
}

/// What one listed store entry gives: nothing when its name or value is
/// missing, else its key (or an error for a bad path) and value.
pub open spec fn entry_outcome(name: Option<Seq<char>>, value: Option<Seq<char>>) -> Result<
    Option<(Seq<char>, Seq<char>)>,
    Fault,
> {
    match (name, value) {
        (Some(n), Some(v)) => match key_of_path(n) {
            Some(k) => Ok(Some((k, v))),
            None => Err(fault_with(ErrorKind::InvalidPath, "Invalid path "@ + n)),
        },
        _ => Ok(None),
    }
}

/// The name and value of a listed entry, as texts.
pub open spec fn entry_view(e: RemoteEntry) -> (Option<Seq<char>>, Option<Seq<char>>) {
    (
        match e.name {
            Some(n) => Some(n@),
            None => None,
        },
        match e.value {
            Some(v) => Some(v@),
            None => None,
        },
    )
}

/// The mapping that a list of store entries gives.
pub open spec fn parameters_outcome(entries: Seq<RemoteEntry>) -> Result<
    Map<Seq<char>, Seq<char>>,
    Fault,
> {
    fold_outcomes(
        entries.map_values(|e: RemoteEntry| entry_outcome(entry_view(e).0, entry_view(e).1)),
    )
}

/// Turns the entries listed under a store path into a mapping from their keys.
pub fn map_from_parameters(entries: &Vec<RemoteEntry>) -> (r: Result<VariableMap, Error>)
    ensures
        map_agrees(r, parameters_outcome(entries@)),
{
    let ghost f = |e: RemoteEntry| entry_outcome(entry_view(e).0, entry_view(e).1);
    let mut map = VariableMap::new();
    let mut i: usize = 0;
    while i < entries.len()
        invariant
            i <= entries@.len(),
            map.wf(),
            f == (|e: RemoteEntry| entry_outcome(entry_view(e).0, entry_view(e).1)),
            fold_outcomes(entries@.take(i as int).map_values(f)) == Ok::<
                Map<Seq<char>, Seq<char>>,
                Fault,
            >(map@),
        decreases entries@.len() - i,
    {
        let ghost next = entries@.take(i + 1).map_values(f);
        proof {
            assert(next.drop_last() =~= entries@.take(i as int).map_values(f));
        }
        let entry = &entries[i];
        match (&entry.name, &entry.value) {
            (Some(name), Some(value)) => match extract_key_from_path(name.as_str()) {
                Ok(key) => {
                    map.insert(key, value.clone());
                },
                Err(e) => {
                    proof {
                        let all = entries@.map_values(f);
                        assert(all.take(i + 1) =~= next);
                        lemma_fold_error_prefix(all, i + 1);
                    }
                    return Err(e);
                },
            },
            _ => {},
        }
        i += 1;
    }
    proof {
        assert(entries@.take(i as int) =~= entries@);
    }
    Ok(map)
}

/// Reads the contents of several files of base64 or plain lines, in order; the
/// first file that fails ends the batch.
pub fn read_pairs_from_files(contents: &Vec<Vec<u8>>, use_base64: bool, env: &VariableMap) -> (r:
    Result<Vec<VariableMap>, Error>)
    requires
        env.wf(),
    ensures
        match r {
            Ok(maps) => maps@.len() == contents@.len() && forall|i: int|
                0 <= i < maps@.len() ==> #[trigger] maps@[i].wf() && read_outcome(
                    contents@[i]@,
                    use_base64,
                    env@,
                ) == Ok::<Map<Seq<char>, Seq<char>>, Fault>(maps@[i]@),
            Err(e) => exists|i: int|
                0 <= i < contents@.len() && fails_with(read_outcome(contents@[i]@, use_base64, env@), e)
                    && forall|j: int|
                    0 <= j < i ==> #[trigger] read_outcome(contents@[j]@, use_base64, env@) is Ok,
        },
{
    let mut maps: Vec<VariableMap> = Vec::new();
    let mut i: usize = 0;
    while i < contents.len()
        invariant
            i <= contents@.len(),
            env.wf(),
            maps@.len() == i,
            forall|j: int|
                0 <= j < i ==> #[trigger] maps@[j].wf() && read_outcome(
                    contents@[j]@,
                    use_base64,
                    env@,
                ) == Ok::<Map<Seq<char>, Seq<char>>, Fault>(maps@[j]@),
        decreases contents@.len() - i,
    {
        match read_from_reader(contents[i].as_slice(), use_base64, env) {
            Ok(m) => {
                maps.push(m);
            },
            Err(e) => {
                assert forall|j: int| 0 <= j < i implies #[trigger] read_outcome(
                    contents@[j]@,
                    use_base64,
                    env@,
                ) is Ok by {
                    assert(maps@[j].wf());
                }
                return Err(e);
            },
        }
        i += 1;
    }
    Ok(maps)
}

/// The outcome `o` is the failure that `e` is.
pub open spec fn fails_with(o: Result<Map<Seq<char>, Seq<char>>, Fault>, e: Error) -> bool {
    o matches Err(f) && e.is_fault(f)
}

/// What a finished merge program gives: its output read as base64 lines when it
/// exited with code 0; otherwise an error.
pub open spec fn command_outcome(
    code: Option<i32>,
    stdout: Seq<u8>,
    stderr: Seq<u8>,
    env: Map<Seq<char>, Seq<char>>,
) -> Result<Map<Seq<char>, Seq<char>>, Fault> {
    match code {
        Some(c) => if c == 0 {
            read_outcome(stdout, true, env)
        } else if valid_utf8(stderr) {
            Err(fault_with(ErrorKind::Other, decode_utf8(stderr)))
        } else {
            Err(fault(ErrorKind::StringUtf8))
        },
        None => Err(fault_with(ErrorKind::Other, "Terminated by signal"@)),
    }
}

/// What a merge program's output gives.
pub open spec fn output_outcome(o: CommandOutput, env: Map<Seq<char>, Seq<char>>) -> Result<
    Map<Seq<char>, Seq<char>>,
    Fault,
> {
    command_outcome(o.code, o.stdout@, o.stderr@, env)
}

/// Turns what a merge program left into variables: on exit code 0 its standard
/// output, as base64 `KEY=value` lines; on another code an error holding its
/// standard error; when a signal ended it, an error saying so.
pub fn merge_with_command(output: &CommandOutput, env: &VariableMap) -> (r: Result<
    VariableMap,
    Error,
>)
    requires
        env.wf(),
    ensures
        map_agrees(r, output_outcome(*output, env@)),
        (output.code matches Some(c) && c != 0 && valid_utf8(output.stderr@)) ==> (r matches Err(
            Error::Error(m),
        ) && m@ == decode_utf8(output.stderr@)),
        output.code is None ==> (r matches Err(Error::Error(m)) && m@ == "Terminated by signal"@),
{
    match output.code {
        Some(c) => {
            if c == 0 {
                read_from_reader(output.stdout.as_slice(), true, env)
            } else {
                match string_from_utf8(output.stderr.as_slice()) {
                    Ok(text) => Err(Error::Error(text)),
                    Err(m) => Err(Error::StringUtf8Error(m)),
                }
            }
        },
        None => Err(Error::Error(String::from_str("Terminated by signal"))),
    }
}

/// Turns the outputs of several merge programs into variables, in order; the
/// first that fails ends the batch.
pub fn merge_with_commands(outputs: &Vec<CommandOutput>, env: &VariableMap) -> (r: Result<
    Vec<VariableMap>,
    Error,
>)
    requires
        env.wf(),
    ensures
        match r {
            Ok(maps) => maps@.len() == outputs@.len() && forall|i: int|
                0 <= i < maps@.len() ==> #[trigger] maps@[i].wf() && output_outcome(
                    outputs@[i],
                    env@,
                ) == Ok::<Map<Seq<char>, Seq<char>>, Fault>(maps@[i]@),
            Err(e) => exists|i: int|
                0 <= i < outputs@.len() && fails_with(output_outcome(outputs@[i], env@), e)
                    && forall|j: int|
                    0 <= j < i ==> #[trigger] output_outcome(outputs@[j], env@) is Ok,
        },
{
    let mut maps: Vec<VariableMap> = Vec::new();
    let mut i: usize = 0;
    while i < outputs.len()
        invariant
            i <= outputs@.len(),
            env.wf(),
            maps@.len() == i,
            forall|j: int|
                0 <= j < i ==> #[trigger] maps@[j].wf() && output_outcome(outputs@[j], env@) == Ok::<
                    Map<Seq<char>, Seq<char>>,
                    Fault,
                >(maps@[j]@),
        decreases outputs@.len() - i,
    {
        match merge_with_command(&outputs[i], env) {
            Ok(m) => {
                maps.push(m);
            },
            Err(e) => {
                assert forall|j: int| 0 <= j < i implies #[trigger] output_outcome(
                    outputs@[j],
                    env@,
                ) is Ok by {
                    assert(maps@[j].wf());
                }
                return Err(e);
            },
        }
        i += 1;
    }
    Ok(maps)
}

/// Merges `next` into `acc`, the values of `next` winning; an error in either
/// (the earlier first) is the result.
pub open spec fn then_merge(
    acc: Result<Map<Seq<char>, Seq<char>>, Fault>,
    next: Result<Map<Seq<char>, Seq<char>>, Fault>,
) -> Result<Map<Seq<char>, Seq<char>>, Fault> {
    match acc {
        Err(e) => Err(e),
        Ok(a) => match next {
            Err(e) => Err(e),
            Ok(b) => Ok(a.union_prefer_right(b)),
        },
    }
}

/// Merges each of `outcomes` into `acc` in turn.
pub open spec fn merge_all(
    acc: Result<Map<Seq<char>, Seq<char>>, Fault>,
    outcomes: Seq<Result<Map<Seq<char>, Seq<char>>, Fault>>,
) -> Result<Map<Seq<char>, Seq<char>>, Fault>
    decreases outcomes.len(),
{
    if outcomes.len() == 0 {
        acc
    } else {
        then_merge(merge_all(acc, outcomes.drop_last()), outcomes.last())
    }
}

/// Once merging a prefix has failed, merging the whole fails the same way.
proof fn lemma_merge_all_error(
    acc: Result<Map<Seq<char>, Seq<char>>, Fault>,
    outcomes: Seq<Result<Map<Seq<char>, Seq<char>>, Fault>>,
    n: int,
)
    requires
        0 <= n <= outcomes.len(),
        merge_all(acc, outcomes.take(n)) is Err,
    ensures
        merge_all(acc, outcomes) == merge_all(acc, outcomes.take(n)),
    decreases outcomes.len(),
{
    if n < outcomes.len() {
        assert(outcomes.drop_last().take(n) =~= outcomes.take(n));
        lemma_merge_all_error(acc, outcomes.drop_last(), n);
    } else {
        assert(outcomes.take(n) =~= outcomes);
    }
}

/// A failed start stays failed, whatever is merged after it.
proof fn lemma_merge_all_failed(
    acc: Result<Map<Seq<char>, Seq<char>>, Fault>,
    outcomes: Seq<Result<Map<Seq<char>, Seq<char>>, Fault>>,
)
    requires
        acc is Err,
    ensures
        merge_all(acc, outcomes) == acc,
    decreases outcomes.len(),
{
    if outcomes.len() > 0 {
        lemma_merge_all_failed(acc, outcomes.drop_last());
    }
}

/// Whether the remote store is listed: in GET mode with a path.
pub open spec fn remote_requested(options: ProcessParametersOptions) -> bool {
    options.mode == Some(Mode::GET) && options.path is Some
}

/// The texts of a list of lines.
pub open spec fn texts_of(lines: Vec<String>) -> Seq<Seq<char>> {
    lines@.map_values(|s: String| s@)
}

/// What each include file gives, read as base64 lines.
pub open spec fn include_outcomes(sources: Sources) -> Seq<
    Result<Map<Seq<char>, Seq<char>>, Fault>,
> {
    sources.includes@.map_values(|c: Vec<u8>| read_outcome(c@, true, sources.environment@))
}

/// What each merge program's output gives.
pub open spec fn merge_outcomes(sources: Sources) -> Seq<
    Result<Map<Seq<char>, Seq<char>>, Fault>,
> {
    sources.merges@.map_values(|o: CommandOutput| output_outcome(o, sources.environment@))
}

/// The variables before the merge programs run: the remote entries, then each
/// include file (base64 lines), then the literal lines, then the literal base64
/// lines, each step overwriting the keys of the ones before.
pub open spec fn sources_outcome(options: ProcessParametersOptions, sources: Sources) -> Result<
    Map<Seq<char>, Seq<char>>,
    Fault,
> {
    let env = sources.environment@;
    let remote = if remote_requested(options) {
        parameters_outcome(sources.parameters@)
    } else {
        Ok(Map::empty())
    };
    let included = match options.includes {
        Some(_) => merge_all(remote, include_outcomes(sources)),
        None => remote,
    };
    let literal = match options.env_vars {
        Some(lines) => then_merge(included, lines_outcome(texts_of(lines), false, env)),
        None => included,
    };
    match options.env_vars_base64 {
        Some(lines) => then_merge(literal, lines_outcome(texts_of(lines), true, env)),
        None => literal,
    }
}

/// `m` with `key` set to `label` where a label is given and `key` has no value.
pub open spec fn with_label(
    m: Map<Seq<char>, Seq<char>>,
    key: Seq<char>,
    label: Option<String>,
) -> Map<Seq<char>, Seq<char>> {
    match label {
        Some(l) => if m.contains_key(key) {
            m
        } else {
            m.insert(key, l@)
        },
        None => m,
    }
}

/// The final variables: the sources, then each merge program's output, then
/// the application and target labels where those keys are still free.
pub open spec fn process_outcome(options: ProcessParametersOptions, sources: Sources) -> Result<
    Map<Seq<char>, Seq<char>>,
    Fault,
> {
    let merged = match options.merges {
        Some(_) => merge_all(sources_outcome(options, sources), merge_outcomes(sources)),
        None => sources_outcome(options, sources),
    };
    match merged {
        Ok(m) => Ok(
            with_label(
                with_label(m, "PROVIDE_APPLICATION"@, options.app),
                "PROVIDE_TARGET"@,
                options.target,
            ),
        ),
        Err(e) => Err(e),
    }
}

/// Resolves the variables that the merge programs are given: the remote
/// entries, the include files, and the literal lines, in that order.
pub fn resolve_sources(options: &ProcessParametersOptions, sources: &Sources) -> (r: Result<
    VariableMap,
    Error,
>)
    requires
        sources.environment.wf(),
    ensures
        map_agrees(r, sources_outcome(*options, *sources)),
{
    let env = &sources.environment;
    let mut map = VariableMap::new();
    let remote = match (&options.mode, &options.path) {
        (Some(Mode::GET), Some(_)) => true,
        _ => false,
    };
    if remote {
        match map_from_parameters(&sources.parameters) {
            Ok(m) => {
                map.extend(&m);
                assert(map@ =~= m@);
            },
            Err(e) => {
                proof {
                    lemma_merge_all_failed(parameters_outcome(sources.parameters@), include_outcomes(*sources));
                }
                return Err(e);
            },
        }
    }
    let ghost s1 = if remote_requested(*options) {
        parameters_outcome(sources.parameters@)
    } else {
        Ok(Map::empty())
    };
    assert(s1 == Ok::<Map<Seq<char>, Seq<char>>, Fault>(map@));
    match &options.includes {
        Some(_) => {
            let ghost outs = include_outcomes(*sources);
            let mut i: usize = 0;
            while i < sources.includes.len()
                invariant
                    i <= sources.includes@.len(),
                    env == &sources.environment,
                    env.wf(),
                    map.wf(),
                    outs == include_outcomes(*sources),
                    options.includes is Some,
                    s1 == if remote_requested(*options) {
                        parameters_outcome(sources.parameters@)
                    } else {
                        Ok(Map::empty())
                    },
                    merge_all(s1, outs.take(i as int)) == Ok::<
                        Map<Seq<char>, Seq<char>>,
                        Fault,
                    >(map@),
                decreases sources.includes@.len() - i,
            {
                proof {
                    assert(outs.take(i + 1).drop_last() =~= outs.take(i as int));
                }
                assert(outs.take(i + 1).last() == outs[i as int]);
                assert(outs[i as int] == read_outcome(sources.includes@[i as int]@, true, env@));
                match read_from_reader(sources.includes[i].as_slice(), true, env) {
                    Ok(m) => {
                        map.extend(&m);
                    },
                    Err(e) => {
                        proof {
                            assert(merge_all(s1, outs.take(i + 1)) is Err);
                            lemma_merge_all_error(s1, outs, i + 1);
                        }
                        return Err(e);
                    },
                }
                i += 1;
            }
            assert(outs.take(i as int) =~= outs);
        },
        None => {},
    }
    match &options.env_vars {
        Some(lines) => match merge_with_given(lines, false, env) {
            Ok(m) => {
                map.extend(&m);
            },
            Err(e) => {
                return Err(e);
            },
        },
        None => {},
    }
    match &options.env_vars_base64 {
        Some(lines) => match merge_with_given(lines, true, env) {
            Ok(m) => {
                map.extend(&m);
            },
            Err(e) => {
                return Err(e);
            },
        },
        None => {},
    }
    Ok(map)
}

/// Resolves the final variables of a run from what the outside world gave:
/// the sources in their fixed order, then the merge programs' outputs, then
/// `PROVIDE_APPLICATION` and `PROVIDE_TARGET`, each set only if still absent.
pub fn process_parameters(options: &ProcessParametersOptions, sources: &Sources) -> (r: Result<
    VariableMap,
    Error,
>)
    requires
        sources.environment.wf(),
    ensures
        map_agrees(r, process_outcome(*options, *sources)),
{
    let env = &sources.environment;
    let mut map = match resolve_sources(options, sources) {
        Ok(m) => m,
        Err(e) => {
            proof {
                lemma_merge_all_failed(sources_outcome(*options, *sources), merge_outcomes(*sources));
            }
            return Err(e);
        },
    };
    let ghost s4 = sources_outcome(*options, *sources);
    match &options.merges {
        Some(_) => {
            let ghost outs = merge_outcomes(*sources);
            let mut i: usize = 0;
            while i < sources.merges.len()
                invariant
                    i <= sources.merges@.len(),
                    env == &sources.environment,
                    env.wf(),
                    map.wf(),
                    outs == merge_outcomes(*sources),
                    options.merges is Some,
                    s4 == sources_outcome(*options, *sources),
                    merge_all(s4, outs.take(i as int)) == Ok::<
                        Map<Seq<char>, Seq<char>>,
                        Fault,
                    >(map@),
                decreases sources.merges@.len() - i,
            {
                proof {
                    assert(outs.take(i + 1).drop_last() =~= outs.take(i as int));
                }
                assert(outs.take(i + 1).last() == outs[i as int]);
                assert(outs[i as int] == output_outcome(sources.merges@[i as int], env@));
                match merge_with_command(&sources.merges[i], env) {
                    Ok(m) => {
                        map.extend(&m);
                    },
                    Err(e) => {
                        proof {
                            assert(merge_all(s4, outs.take(i + 1)) is Err);
                            lemma_merge_all_error(s4, outs, i + 1);
                        }
                        return Err(e);
                    },
                }
                i += 1;
            }
            assert(outs.take(i as int) =~= outs);
        },
        None => {},
    }
    match &options.app {
        Some(app) => map.insert_if_absent(String::from_str("PROVIDE_APPLICATION"), app.clone()),
        None => {},
    }
    match &options.target {
        Some(target) => map.insert_if_absent(String::from_str("PROVIDE_TARGET"), target.clone()),
        None => {},
    }
    Ok(map)
}

/// The character of a decimal digit.
pub open spec fn digit_char(d: int) -> char {
    if d == 0 {
        '0'
    } else if d == 1 {
        '1'
    } else if d == 2 {
        '2'
    } else if d == 3 {
        '3'
    } else if d == 4 {
        '4'
    } else if d == 5 {
        '5'
    } else if d == 6 {
        '6'
    } else if d == 7 {
        '7'
    } else if d == 8 {
        '8'
    } else {
        '9'
    }
}

/// The decimal digits of a natural number, without leading zeros.
pub open spec fn digits(n: nat) -> Seq<char>
    decreases n,
{
    if n < 10 {
        seq![digit_char(n as int)]
    } else {
        digits(n / 10).push(digit_char((n % 10) as int))
    }
}

/// The decimal form of an integer, with a leading `-` when negative.
pub open spec fn decimal(n: int) -> Seq<char> {
    if n < 0 {
        seq!['-'] + digits((-n) as nat)
    } else {
        digits(n as nat)
    }
}

/// The text of one decimal digit.
fn digit_text(d: u32) -> (r: &'static str)
    requires
        d < 10,
    ensures
        r@ == seq![digit_char(d as int)],
{
    proof {
        reveal_strlit("0");
        reveal_strlit("1");
        reveal_strlit("2");
        reveal_strlit("3");
        reveal_strlit("4");
        reveal_strlit("5");
        reveal_strlit("6");
        reveal_strlit("7");
        reveal_strlit("8");
        reveal_strlit("9");
    }
    if d == 0 {
        "0"
    } else if d == 1 {
        "1"
    } else if d == 2 {
        "2"
    } else if d == 3 {
        "3"
    } else if d == 4 {
        "4"
    } else if d == 5 {
        "5"
    } else if d == 6 {
        "6"
    } else if d == 7 {
        "7"
    } else if d == 8 {
        "8"
    } else {
        "9"
    }
}

/// The decimal form of `n`, `-` first when negative.
fn i32_to_string(n: i32) -> (r: String)
    ensures
        r@ == decimal(n as int),
{
    let negative = n < 0;
    let magnitude: u32 = if negative {
        (0i64 - n as i64) as u32
    } else {
        n as u32
    };
    let ghost whole = magnitude as nat;
    let mut acc = String::from_str(digit_text(magnitude % 10));
    let mut rest: u32 = magnitude / 10;
    while rest > 0
        invariant
            digits(whole) == (if rest == 0 {
                Seq::empty()
            } else {
                digits(rest as nat)
            }) + acc@,
        decreases rest,
    {
        let ghost before = acc@;
        acc = String::from_str(digit_text(rest % 10)).concat(acc.as_str());
        assert(digits(rest as nat) =~= (if rest / 10 == 0 {
            Seq::empty()
        } else {
            digits((rest / 10) as nat)
        }) + seq![digit_char((rest % 10) as int)]);
        rest = rest / 10;
    }
    assert(acc@ =~= digits(whole));
    if negative {
        proof {
            reveal_strlit("-");
        }
        String::from_str("-").concat(acc.as_str())
    } else {
        acc
    }
}

/// Decides how the final command ended: exit code 0 is success, another code
/// an error naming it, no code (a signal ended it) an error saying so.
pub fn run_status(code: Option<i32>) -> (r: Result<(), Error>)
    ensures
        match code {
            Some(c) => if c == 0 {
                r is Ok
            } else {
                r matches Err(Error::Error(m)) && m@ == "Exit code "@ + decimal(c as int)
            },
            None => r matches Err(Error::Error(m)) && m@ == "Terminated by signal"@,
        },
{
    match code {
        Some(c) => {
            if c == 0 {
                Ok(())
            } else {
                let mut m = String::from_str("Exit code ");
                let digits = i32_to_string(c);
                m.append(digits.as_str());
                Err(Error::Error(m))
            }
        },
        None => Err(Error::Error(String::from_str("Terminated by signal"))),
    }
}

} // verus!
