//! The line format: `KEY=value`, `KEY=<base64 of value>`, or a bare `KEY`
//! whose value comes from the process environment.
use crate::error::{fault, fault_with, Error, ErrorKind, Fault};
use crate::types::{Pair, VariableMap};
use vstd::prelude::*;
use vstd::string::{StrSliceExecFns, StringExecFns};
use vstd::utf8::{decode_utf8, encode_utf8, valid_utf8};

verus! {

broadcast use vstd::utf8::encode_utf8_valid_utf8, vstd::utf8::encode_utf8_decode_utf8;

/// The text that base64 encoding (standard alphabet, padded) makes of some bytes.
pub uninterp spec fn base64_text(bytes: Seq<u8>) -> Seq<char>;

/// The bytes that a base64 text (standard alphabet) stands for; `None` when the
/// text is not valid base64.
pub uninterp spec fn base64_bytes(text: Seq<char>) -> Option<Seq<u8>>;

/// Relies on `base64::encode`: the standard padded encoding of the bytes, which
/// `base64::decode` turns back into the same bytes.
#[verifier::external_body]
fn base64_encode(bytes: &[u8]) -> (r: String)
    ensures
        r@ == base64_text(bytes@),
        base64_bytes(r@) == Some(bytes@),
{
    base64::encode(bytes)
}

/// Relies on `base64::decode`: the bytes a standard base64 text stands for, or
/// the decoder's error message.
#[verifier::external_body]
fn base64_decode(text: &str) -> (r: Result<Vec<u8>, String>)
    ensures
        match r {
            Ok(b) => base64_bytes(text@) == Some(b@),
            Err(_) => base64_bytes(text@) is None,
        },
{
    base64::decode(text).map_err(|e| e.to_string())
}

/// Relies on `String::from_utf8`: it accepts exactly the valid UTF-8 byte
/// sequences and decodes them; otherwise it gives its error message.
#[verifier::external_body]
pub(crate) fn string_from_utf8(bytes: &[u8]) -> (r: Result<String, String>)
    ensures
        match r {
            Ok(s) => valid_utf8(bytes@) && s@ == decode_utf8(bytes@),
            Err(_) => !valid_utf8(bytes@),
        },
{
    String::from_utf8(bytes.to_vec()).map_err(|e| e.to_string())
}

/// Where `c` first occurs in `s`.
pub open spec fn find_char(s: Seq<char>, c: char) -> Option<int>
    decreases s.len(),
{
    if s.len() == 0 {
        None
    } else if s[0] == c {
        Some(0)
    } else {
        match find_char(s.drop_first(), c) {
            Some(i) => Some(i + 1),
            None => None,
        }
    }
}

/// The first `c` is at `i` when none comes before it.
pub proof fn lemma_find_char(s: Seq<char>, c: char, i: int)
    requires
        0 <= i <= s.len(),
        forall|j: int| 0 <= j < i ==> s[j] != c,
    ensures
        i < s.len() && s[i] == c ==> find_char(s, c) == Some(i),
        i == s.len() ==> find_char(s, c) is None,
    decreases i,
{
    if i > 0 {
        lemma_find_char(s.drop_first(), c, i - 1);
    }
}

/// A line that starts with `=` has an empty key: it is malformed, whatever the
/// decoding mode and the environment.
pub proof fn lemma_leading_equals_is_bad_format(
    line: Seq<char>,
    use_base64: bool,
    env: Map<Seq<char>, Seq<char>>,
)
    requires
        line.len() > 0,
        line[0] == '=',
    ensures
        line_outcome(line, use_base64, env) == Err::<Option<(Seq<char>, Seq<char>)>, Fault>(
            fault_with(ErrorKind::BadFormat, "Invalid key has no length"@),
        ),
{
    lemma_find_char(line, '=', 0);
}

/// A base64 text read as the UTF-8 text it encodes.
pub open spec fn decoded_text(text: Seq<char>) -> Result<Seq<char>, Fault> {
    match base64_bytes(text) {
        None => Err(fault(ErrorKind::Base64)),
        Some(b) => if valid_utf8(b) {
            Ok(decode_utf8(b))
        } else {
            Err(fault(ErrorKind::StringUtf8))
        },
    }
}

/// The base64 text that stands for a UTF-8 text.
pub open spec fn encoded_text(value: Seq<char>) -> Seq<char> {
    base64_text(encode_utf8(value))
}

/// A bare key resolved from the environment `env`.
pub open spec fn env_pair(
    key: Seq<char>,
    use_base64: bool,
    env: Map<Seq<char>, Seq<char>>,
) -> Result<(Seq<char>, Seq<char>), Fault> {
    if !env.contains_key(key) {
        Err(fault_with(ErrorKind::Env, "environment variable not found"@))
    } else if use_base64 {
        match decoded_text(env[key]) {
            Ok(v) => Ok((key, v)),
            Err(e) => Err(e),
        }
    } else {
        Ok((key, env[key]))
    }
}

/// What one line gives: nothing (an empty line), a pair, or an error.
pub open spec fn line_outcome(
    line: Seq<char>,
    use_base64: bool,
    env: Map<Seq<char>, Seq<char>>,
) -> Result<Option<(Seq<char>, Seq<char>)>, Fault> {
    if line.len() == 0 {
        Ok(None)
    } else {
        match find_char(line, '=') {
            Some(i) => if i == 0 {
                Err(fault_with(ErrorKind::BadFormat, "Invalid key has no length"@))
            } else if use_base64 {
                match decoded_text(line.skip(i + 1)) {
                    Ok(v) => Ok(Some((line.take(i), v))),
                    Err(e) => Err(e),
                }
            } else {
                Ok(Some((line.take(i), line.skip(i + 1))))
            },
            None => match env_pair(line, use_base64, env) {
                Ok(p) => Ok(Some(p)),
                Err(e) => Err(e),
            },
        }
    }
}

/// The result `r` of an executable parse agrees with the outcome `o`.
pub open spec fn parse_agrees(
    r: Result<Option<Pair>, Error>,
    o: Result<Option<(Seq<char>, Seq<char>)>, Fault>,
) -> bool {
    match o {
        Ok(None) => r matches Ok(None),
        Ok(Some(p)) => r matches Ok(Some(q)) && q.view_pair() == p,
        Err(f) => r matches Err(e) && e.is_fault(f),
    }
}

/// Folds line outcomes into a mapping; the first error ends the fold.
pub open spec fn fold_outcomes(
    outcomes: Seq<Result<Option<(Seq<char>, Seq<char>)>, Fault>>,
) -> Result<Map<Seq<char>, Seq<char>>, Fault>
    decreases outcomes.len(),
{
    if outcomes.len() == 0 {
        Ok(Map::empty())
    } else {
        match fold_outcomes(outcomes.drop_last()) {
            Err(e) => Err(e),
            Ok(m) => match outcomes.last() {
                Err(e) => Err(e),
                Ok(None) => Ok(m),
                Ok(Some(p)) => Ok(m.insert(p.0, p.1)),
            },
        }
    }
}

/// Once the fold of a prefix has failed, the fold of the whole fails the same way.
pub proof fn lemma_fold_error_prefix(
    outcomes: Seq<Result<Option<(Seq<char>, Seq<char>)>, Fault>>,
    n: int,
)
    requires
        0 <= n <= outcomes.len(),
        fold_outcomes(outcomes.take(n)) is Err,
    ensures
        fold_outcomes(outcomes) == fold_outcomes(outcomes.take(n)),
    decreases outcomes.len(),
{
    if n < outcomes.len() {
        assert(outcomes.drop_last().take(n) =~= outcomes.take(n));
        lemma_fold_error_prefix(outcomes.drop_last(), n);
    } else {
        assert(outcomes.take(n) =~= outcomes);
    }
}

/// The result `r` of an executable fold agrees with the outcome `o`.
pub open spec fn map_agrees(
    r: Result<VariableMap, Error>,
    o: Result<Map<Seq<char>, Seq<char>>, Fault>,
) -> bool {
    match o {
        Ok(m) => r matches Ok(v) && v.wf() && v@ == m,
        Err(f) => r matches Err(e) && e.is_fault(f),
    }
}

/// Decodes a base64 text into the UTF-8 text it encodes.
pub fn decode_text(text: &str) -> (r: Result<String, Error>)
    ensures
        match decoded_text(text@) {
            Ok(v) => r matches Ok(s) && s@ == v,
            Err(f) => r matches Err(e) && e.is_fault(f),
        },
{
    match base64_decode(text) {
        Err(m) => Err(Error::Base64Error(m)),
        Ok(bytes) => match string_from_utf8(bytes.as_slice()) {
            Ok(s) => Ok(s),
            Err(m) => Err(Error::StringUtf8Error(m)),
        },
    }
}

/// Encodes a text as base64 of its UTF-8 bytes; decoding the result gives the
/// text back.
pub fn encode_text(value: &str) -> (r: String)
    ensures
        r@ == encoded_text(value@),
        decoded_text(r@) == Ok::<Seq<char>, Fault>(value@),
{
    base64_encode(value.as_bytes())
}

/// Resolves a bare key from the environment `env`, decoding its value when
/// `use_base64` is set.
pub fn merge_with_env(line: &str, use_base64: bool, env: &VariableMap) -> (r: Result<
    (String, String),
    Error,
>)
    requires
        env.wf(),
    ensures
        match env_pair(line@, use_base64, env@) {
            Ok(p) => r matches Ok(q) && (q.0@, q.1@) == p,
            Err(f) => r matches Err(e) && e.is_fault(f),
        },
{
    let key = line.to_owned();
    match env.get(&key) {
        None => Err(Error::EnvError(String::from_str("environment variable not found"))),
        Some(found) => {
            if use_base64 {
                match decode_text(found.as_str()) {
                    Ok(v) => Ok((key, v)),
                    Err(e) => Err(e),
                }
            } else {
                Ok((key, found))
            }
        },
    }
}

/// Parses one line: an empty line gives no pair, `KEY=value` gives a pair (the
/// value base64-decoded when `use_base64` is set), a bare `KEY` is looked up in
/// `env`, and a line that starts with `=` is malformed.
pub fn parse_line(line: &str, use_base64: bool, env: &VariableMap) -> (r: Result<
    Option<Pair>,
    Error,
>)
    requires
        env.wf(),
    ensures
        parse_agrees(r, line_outcome(line@, use_base64, env@)),
{
    let n = line.unicode_len();
    if n == 0 {
        return Ok(None);
    }
    let mut i: usize = 0;
    while i < n && line.get_char(i) != '='
        invariant
            n == line@.len(),
            i <= n,
            forall|j: int| 0 <= j < i ==> line@[j] != '=',
        decreases n - i,
    {
        i += 1;
    }
    proof {
        lemma_find_char(line@, '=', i as int);
    }
    if i == n {
        return match merge_with_env(line, use_base64, env) {
            Ok((k, v)) => Ok(Some(Pair(k, v))),
            Err(e) => Err(e),
        };
    }
    if i == 0 {
        return Err(Error::BadFormat(String::from_str("Invalid key has no length")));
    }
    let key = line.substring_char(0, i).to_owned();
    let raw = line.substring_char(i + 1, n);
    assert(line@.take(i as int) == key@);
    assert(line@.skip(i + 1) =~= raw@);
    if use_base64 {
        match decode_text(raw) {
            Ok(v) => Ok(Some(Pair(key, v))),
            Err(e) => Err(e),
        }
    } else {
        Ok(Some(Pair(key, raw.to_owned())))
    }
}

/// A line without the carriage return that ended it.
pub open spec fn strip_cr(line: Seq<u8>) -> Seq<u8> {
    if line.len() > 0 && line.last() == 13u8 {
        line.drop_last()
    } else {
        line
    }
}

/// Splits bytes at each newline: the lines ended so far, and the bytes after
/// the last newline.
pub open spec fn scan_lines(bytes: Seq<u8>) -> (Seq<Seq<u8>>, Seq<u8>)
    decreases bytes.len(),
{
    if bytes.len() == 0 {
        (Seq::empty(), Seq::empty())
    } else {
        let (done, cur) = scan_lines(bytes.drop_last());
        if bytes.last() == 10u8 {
            (done.push(strip_cr(cur)), Seq::empty())
        } else {
            (done, cur.push(bytes.last()))
        }
    }
}

/// The lines of a byte stream: a newline (or a carriage return and a newline)
/// ends each line, and bytes after the last newline make a last line.
pub open spec fn lines_of(bytes: Seq<u8>) -> Seq<Seq<u8>> {
    let (done, cur) = scan_lines(bytes);
    if cur.len() > 0 {
        done.push(cur)
    } else {
        done
    }
}

/// The lines ended within a prefix of a stream start the lines of a longer prefix.
proof fn lemma_scan_grows(bytes: Seq<u8>, j: int, k: int)
    requires
        0 <= j <= k <= bytes.len(),
    ensures
        scan_lines(bytes.take(j)).0.len() <= scan_lines(bytes.take(k)).0.len(),
        scan_lines(bytes.take(k)).0.take(scan_lines(bytes.take(j)).0.len() as int) == scan_lines(
            bytes.take(j),
        ).0,
    decreases k - j,
{
    if j < k {
        lemma_scan_grows(bytes, j, k - 1);
        assert(bytes.take(k).drop_last() =~= bytes.take(k - 1));
        let a = scan_lines(bytes.take(j)).0;
        let b = scan_lines(bytes.take(k - 1)).0;
        let c = scan_lines(bytes.take(k)).0;
        assert(c.take(a.len() as int) =~= b.take(a.len() as int));
    } else {
        assert(scan_lines(bytes.take(k)).0.take(scan_lines(bytes.take(j)).0.len() as int)
            =~= scan_lines(bytes.take(j)).0);
    }
}

/// The lines ended within a prefix of a stream start the lines of the stream.
proof fn lemma_scan_prefix(bytes: Seq<u8>, j: int)
    requires
        0 <= j <= bytes.len(),
    ensures
        scan_lines(bytes.take(j)).0.len() <= lines_of(bytes).len(),
        lines_of(bytes).take(scan_lines(bytes.take(j)).0.len() as int) == scan_lines(
            bytes.take(j),
        ).0,
{
    lemma_scan_grows(bytes, j, bytes.len() as int);
    assert(bytes.take(bytes.len() as int) =~= bytes);
    let a = scan_lines(bytes.take(j)).0;
    let c = scan_lines(bytes).0;
    assert(lines_of(bytes).take(a.len() as int) =~= c.take(a.len() as int));
}

/// What one line of a byte stream gives; a line that is not UTF-8 is a read error.
pub open spec fn byte_line_outcome(
    line: Seq<u8>,
    use_base64: bool,
    env: Map<Seq<char>, Seq<char>>,
) -> Result<Option<(Seq<char>, Seq<char>)>, Fault> {
    if valid_utf8(line) {
        line_outcome(decode_utf8(line), use_base64, env)
    } else {
        Err(fault(ErrorKind::Io))
    }
}

/// The mapping that a byte stream of lines gives.
pub open spec fn read_outcome(
    bytes: Seq<u8>,
    use_base64: bool,
    env: Map<Seq<char>, Seq<char>>,
) -> Result<Map<Seq<char>, Seq<char>>, Fault> {
    fold_outcomes(lines_of(bytes).map_values(|l: Seq<u8>| byte_line_outcome(l, use_base64, env)))
}

/// The mapping that a list of lines gives.
pub open spec fn lines_outcome(
    lines: Seq<Seq<char>>,
    use_base64: bool,
    env: Map<Seq<char>, Seq<char>>,
) -> Result<Map<Seq<char>, Seq<char>>, Fault> {
    fold_outcomes(lines.map_values(|l: Seq<char>| line_outcome(l, use_base64, env)))
}

/// Parses one line of a stream and adds its pair to `map`.
fn add_byte_line(map: &mut VariableMap, line: Vec<u8>, use_base64: bool, env: &VariableMap) -> (r:
    Result<(), Error>)
    requires
        old(map).wf(),
        env.wf(),
    ensures
        final(map).wf(),
        match byte_line_outcome(line@, use_base64, env@) {
            Err(f) => r matches Err(e) && e.is_fault(f),
            Ok(None) => r is Ok && final(map)@ == old(map)@,
            Ok(Some(p)) => r is Ok && final(map)@ == old(map)@.insert(p.0, p.1),
        },
{
    let text = match string_from_utf8(line.as_slice()) {
        Ok(t) => t,
        Err(m) => {
            return Err(Error::IOError(m));
        },
    };
    match parse_line(text.as_str(), use_base64, env) {
        Err(e) => Err(e),
        Ok(None) => Ok(()),
        Ok(Some(Pair(k, v))) => {
            map.insert(k, v);
            Ok(())
        },
    }
}

/// Reads `KEY=value` lines from a byte stream into a mapping; empty lines are
/// skipped and later keys overwrite earlier ones.
pub fn read_from_reader(bytes: &[u8], use_base64: bool, env: &VariableMap) -> (r: Result<
    VariableMap,
    Error,
>)
    requires
        env.wf(),
    ensures
        map_agrees(r, read_outcome(bytes@, use_base64, env@)),
{
    let ghost f = |l: Seq<u8>| byte_line_outcome(l, use_base64, env@);
    let mut map = VariableMap::new();
    let mut cur: Vec<u8> = Vec::new();
    let mut i: usize = 0;
    while i < bytes.len()
        invariant
            i <= bytes@.len(),
            env.wf(),
            map.wf(),
            f == (|l: Seq<u8>| byte_line_outcome(l, use_base64, env@)),
            scan_lines(bytes@.take(i as int)).1 == cur@,
            fold_outcomes(scan_lines(bytes@.take(i as int)).0.map_values(f)) == Ok::<
                Map<Seq<char>, Seq<char>>,
                Fault,
            >(map@),
        decreases bytes@.len() - i,
    {
        let b = bytes[i];
        let ghost done = scan_lines(bytes@.take(i as int)).0;
        let ghost before = map@;
        proof {
            assert(bytes@.take(i + 1).drop_last() =~= bytes@.take(i as int));
        }
        if b == 10u8 {
            if cur.len() > 0 && cur[cur.len() - 1] == 13u8 {
                cur.pop();
            }
            let line = cur;
            cur = Vec::new();
            let ghost next = scan_lines(bytes@.take(i + 1)).0;
            proof {
                assert(next == done.push(line@));
                assert(next.map_values(f).drop_last() =~= done.map_values(f));
            }
            match add_byte_line(&mut map, line, use_base64, env) {
                Err(e) => {
                    proof {
                        lemma_scan_prefix(bytes@, i + 1);
                        let all = lines_of(bytes@).map_values(f);
                        assert(all.take(next.len() as int) =~= next.map_values(f));
                        lemma_fold_error_prefix(all, next.len() as int);
                    }
                    return Err(e);
                },
                Ok(()) => {},
            }
        } else {
            cur.push(b);
        }
        i += 1;
    }
    proof {
        assert(bytes@.take(i as int) =~= bytes@);
    }
    if cur.len() > 0 {
        let ghost done = scan_lines(bytes@).0;
        let line = cur;
        proof {
            assert(lines_of(bytes@).map_values(f).drop_last() =~= done.map_values(f));
        }
        match add_byte_line(&mut map, line, use_base64, env) {
            Err(e) => {
                return Err(e);
            },
            Ok(()) => {},
        }
    }
    Ok(map)
}

/// Parses each of `lines` and folds the pairs into a mapping; later keys
/// overwrite earlier ones.
pub fn merge_with_given(lines: &Vec<String>, use_base64: bool, env: &VariableMap) -> (r: Result<
    VariableMap,
    Error,
>)
    requires
        env.wf(),
    ensures
        map_agrees(r, lines_outcome(lines@.map_values(|s: String| s@), use_base64, env@)),
{
    let ghost texts = lines@.map_values(|s: String| s@);
    let ghost f = |l: Seq<char>| line_outcome(l, use_base64, env@);
    let mut map = VariableMap::new();
    let mut i: usize = 0;
    while i < lines.len()
        invariant
            i <= lines@.len(),
            env.wf(),
            map.wf(),
            texts == lines@.map_values(|s: String| s@),
            f == (|l: Seq<char>| line_outcome(l, use_base64, env@)),
            fold_outcomes(texts.take(i as int).map_values(f)) == Ok::<
                Map<Seq<char>, Seq<char>>,
                Fault,
            >(map@),
        decreases lines@.len() - i,
    {
        let ghost next = texts.take(i + 1).map_values(f);
        proof {
            assert(next.drop_last() =~= texts.take(i as int).map_values(f));
        }
        match parse_line(lines[i].as_str(), use_base64, env) {
            Err(e) => {
                proof {
                    let all = texts.map_values(f);
                    assert(all.take(i + 1) =~= next);
                    lemma_fold_error_prefix(all, i + 1);
                }
                return Err(e);
            },
            Ok(None) => {},
            Ok(Some(Pair(k, v))) => {
                map.insert(k, v);
            },
        }
        i += 1;
    }
    proof {
        assert(texts.take(i as int) =~= texts);
    }
    Ok(map)
}

} // verus!
