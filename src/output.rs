//! Printing the variables: `KEY=value` lines or shell `export` statements.
use crate::codec::{decoded_text, encode_text, encoded_text, lemma_find_char, line_outcome};
use crate::error::{fault, fault_with, Error, ErrorKind, Fault};
use crate::types::{Format, FormatConfig, VariableMap};
use vstd::prelude::*;
use vstd::string::StringExecFns;

verus! {

/// The upper-case form of a text, as Unicode defines it.
pub uninterp spec fn uppercase_of(s: Seq<char>) -> Seq<char>;

/// Relies on `str::to_uppercase`: the result depends on the characters alone.
#[verifier::external_body]
fn to_uppercase(s: &str) -> (r: String)
    ensures
        r@ == uppercase_of(s@),
{
    s.to_uppercase()
}

/// What replacing every match of a regular expression in `text` gives, where
/// `$1` in `replacement` stands for the first group; `None` when `pattern` is
/// not a valid regular expression.
pub uninterp spec fn regex_replaced(
    pattern: Seq<char>,
    text: Seq<char>,
    replacement: Seq<char>,
) -> Option<Seq<char>>;

/// The characters that bash treats specially inside double quotes, and `)`.
pub open spec fn is_bash_special(c: char) -> bool {
    c == '$' || c == '`' || c == '"' || c == '!' || c == ')' || c == '\\'
}

/// `s` with a backslash before each character that `is_bash_special` holds of.
pub open spec fn bash_escaped(s: Seq<char>) -> Seq<char>
    decreases s.len(),
{
    if s.len() == 0 {
        Seq::empty()
    } else {
        bash_escaped(s.drop_last()) + if is_bash_special(s.last()) {
            seq!['\\', s.last()]
        } else {
            seq![s.last()]
        }
    }
}

/// The regular expression of one character out of `$`, backquote, `"`, `!`,
/// `)` and backslash, as a group.
pub open spec fn bash_special_pattern() -> Seq<char> {
    "([$`\"!\\)\\\\])"@
}

/// Relies on `regex::Regex::new`, which refuses an invalid pattern, and
/// `Regex::replace_all`, which replaces each non-overlapping match, `$1` in
/// the replacement standing for the first group. The pattern
/// `bash_special_pattern` is a valid class of single characters, so each
/// match is one such character and `\$1` puts a backslash before it.
#[verifier::external_body]
fn replace_all(pattern: &str, text: &str, replacement: &str) -> (r: Result<String, String>)
    ensures
        match r {
            Ok(s) => regex_replaced(pattern@, text@, replacement@) == Some(s@) && (pattern@
                == bash_special_pattern() && replacement@ == "\\$1"@ ==> s@ == bash_escaped(
                text@,
            )),
            Err(_) => regex_replaced(pattern@, text@, replacement@) is None && pattern@
                != bash_special_pattern(),
        },
{
    match regex::Regex::new(pattern) {
        Ok(re) => Ok(re.replace_all(text, replacement).into_owned()),
        Err(e) => Err(e.to_string()),
    }
}

/// One line of the `env` format.
pub open spec fn env_line(key: Seq<char>, value: Seq<char>, raw: bool) -> Seq<char> {
    uppercase_of(key) + "="@ + (if raw {
        value
    } else {
        encoded_text(value)
    }) + "\n"@
}

/// One line of the `export` format; the value is base64-encoded either way,
/// and decoded by the shell unless `raw` is set.
pub open spec fn export_line(key: Seq<char>, value: Seq<char>, raw: bool) -> Seq<char> {
    "export "@ + uppercase_of(key) + "="@ + (if raw {
        encoded_text(value)
    } else {
        "$(base64 --decode <<< \""@ + encoded_text(value) + "\")"@
    }) + "\n"@
}

/// The lines of all entries, in entry order.
pub open spec fn render_entries(
    entries: Seq<(Seq<char>, Seq<char>)>,
    raw: bool,
    export: bool,
) -> Seq<char>
    decreases entries.len(),
{
    if entries.len() == 0 {
        Seq::empty()
    } else {
        render_entries(entries.drop_last(), raw, export) + if export {
            export_line(entries.last().0, entries.last().1, raw)
        } else {
            env_line(entries.last().0, entries.last().1, raw)
        }
    }
}

/// A plain `KEY=value` line parses to its key and value, and the `env` format
/// with `raw` set prints that pair back as the same line with the key
/// upper-cased: the value comes back unchanged.
pub proof fn lemma_plain_line_round_trip(
    key: Seq<char>,
    value: Seq<char>,
    env: Map<Seq<char>, Seq<char>>,
)
    requires
        key.len() > 0,
        !key.contains('='),
    ensures
        line_outcome(key + "="@ + value, false, env) == Ok::<
            Option<(Seq<char>, Seq<char>)>,
            Fault,
        >(Some((key, value))),
        render_entries(seq![(key, value)], true, false) == uppercase_of(key) + "="@ + value
            + "\n"@,
{
    reveal_strlit("=");
    let line = key + "="@ + value;
    assert forall|j: int| 0 <= j < key.len() implies line[j] != '=' by {
        assert(line[j] == key[j]);
    }
    assert(line[key.len() as int] == '=');
    lemma_find_char(line, '=', key.len() as int);
    assert(line.take(key.len() as int) =~= key);
    assert(line.skip(key.len() as int + 1) =~= value);
    assert(seq![(key, value)].drop_last() =~= Seq::<(Seq<char>, Seq<char>)>::empty());
    assert(render_entries(Seq::<(Seq<char>, Seq<char>)>::empty(), true, false) =~= Seq::<
        char,
    >::empty());
    assert(render_entries(seq![(key, value)], true, false) =~= uppercase_of(key) + "="@ + value
        + "\n"@);
}

/// Each value, base64-encoded, decodes back to itself.
pub open spec fn values_round_trip(entries: Seq<(Seq<char>, Seq<char>)>) -> bool {
    forall|i: int|
        0 <= i < entries.len() ==> decoded_text(#[trigger] encoded_text(entries[i].1)) == Ok::<
            Seq<char>,
            Fault,
        >(entries[i].1)
}

fn render_lines(map: &VariableMap, raw: bool, export: bool) -> (r: String)
    ensures
        r@ == render_entries(map.entries(), raw, export),
        export || !raw ==> values_round_trip(map.entries()),
{
    let mut out = String::new();
    let mut i: usize = 0;
    let n = map.len();
    while i < n
        invariant
            n == map.entries().len(),
            i <= n,
            out@ == render_entries(map.entries().take(i as int), raw, export),
            export || !raw ==> values_round_trip(map.entries().take(i as int)),
        decreases n - i,
    {
        let (k, v) = map.entry(i);
        let key = to_uppercase(k.as_str());
        let ghost before = out@;
        if export {
            out.append("export ");
            out.append(key.as_str());
            out.append("=");
            let encoded = encode_text(v.as_str());
            if raw {
                out.append(encoded.as_str());
            } else {
                out.append("$(base64 --decode <<< \"");
                out.append(encoded.as_str());
                out.append("\")");
            }
            out.append("\n");
        } else {
            out.append(key.as_str());
            out.append("=");
            if raw {
                out.append(v.as_str());
            } else {
                let encoded = encode_text(v.as_str());
                out.append(encoded.as_str());
            }
            out.append("\n");
        }
        proof {
            let es = map.entries();
            assert(es.take(i + 1).drop_last() =~= es.take(i as int));
            if export || !raw {
                assert forall|j: int| 0 <= j < i + 1 implies decoded_text(
                    #[trigger] encoded_text(es.take(i + 1)[j].1),
                ) == Ok::<Seq<char>, Fault>(es.take(i + 1)[j].1) by {
                    if j < i {
                        assert(es.take(i + 1)[j] == es.take(i as int)[j]);
                    }
                }
            }
            assert(out@ =~= before + if export {
                export_line(es[i as int].0, es[i as int].1, raw)
            } else {
                env_line(es[i as int].0, es[i as int].1, raw)
            });
        }
        i += 1;
    }
    assert(map.entries().take(n as int) =~= map.entries());
    out
}

/// Renders the variables as `KEY=value` lines, keys upper-cased; values are
/// literal when `raw` is set and base64-encoded otherwise.
pub fn as_env_format(map: VariableMap, raw: bool) -> (r: String)
    ensures
        r@ == render_entries(map.entries(), raw, false),
        !raw ==> values_round_trip(map.entries()),
{
    render_lines(&map, raw, false)
}

/// Renders the variables as `export KEY=...` statements, keys upper-cased;
/// values are base64-encoded, and wrapped in a shell decode unless `raw` is set.
pub fn as_export_format(map: VariableMap, raw: bool) -> (r: String)
    ensures
        r@ == render_entries(map.entries(), raw, true),
        values_round_trip(map.entries()),
{
    render_lines(&map, raw, true)
}

/// Renders the variables in the configured format; the JSON format is not
/// implemented and always fails.
pub fn render(config: FormatConfig, map: VariableMap) -> (r: Result<String, Error>)
    ensures
        match config.format {
            Format::ENV => r matches Ok(s) && s@ == render_entries(map.entries(), config.raw, false),
            Format::EXPORT => r matches Ok(s) && s@ == render_entries(
                map.entries(),
                config.raw,
                true,
            ),
            Format::JSON => r matches Err(Error::Error(m)) && m@ == "JSON output is not implemented"@,
        },
{
    match config.format {
        Format::ENV => Ok(as_env_format(map, config.raw)),
        Format::EXPORT => Ok(as_export_format(map, config.raw)),
        Format::JSON => Err(Error::Error(String::from_str("JSON output is not implemented"))),
    }
}

/// Escapes the characters `$`, backquote, `"`, `!`, `)` and backslash with a
/// backslash, for use inside a double-quoted bash string.
pub fn escape_for_bash(val: &str) -> (r: String)
    ensures
        r@ == bash_escaped(val@),
{
    match replace_all("([$`\"!\\)\\\\])", val, "\\$1") {
        Ok(s) => s,
        Err(_) => {
            assert(false);
            String::new()
        },
    }
}

} // verus!
