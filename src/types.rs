use vstd::prelude::*;

verus! {

/// One parsed key/value association.
#[derive(Debug, PartialEq, Eq)]
pub struct Pair(pub String, pub String);

impl Pair {
    /// The key and value, as texts.
    pub open spec fn view_pair(&self) -> (Seq<char>, Seq<char>) {
        (self.0@, self.1@)
    }
}

impl From<(String, String)> for Pair {
    fn from(tuple: (String, String)) -> Pair {
        Pair(tuple.0, tuple.1)
    }
}

impl vstd::std_specs::convert::FromSpecImpl<(String, String)> for Pair {
    open spec fn obeys_from_spec() -> bool {
        true
    }

    open spec fn from_spec(v: (String, String)) -> Pair {
        Pair(v.0, v.1)
    }
}

/// The mapping that a sequence of pairs folds into: later pairs overwrite
/// earlier pairs with the same key.
pub open spec fn map_of(pairs: Seq<(Seq<char>, Seq<char>)>) -> Map<Seq<char>, Seq<char>>
    decreases pairs.len(),
{
    if pairs.len() == 0 {
        Map::empty()
    } else {
        map_of(pairs.drop_last()).insert(pairs.last().0, pairs.last().1)
    }
}

/// No key occurs twice.
pub open spec fn keys_distinct(pairs: Seq<(Seq<char>, Seq<char>)>) -> bool {
    forall|i: int, j: int|
        0 <= i < pairs.len() && 0 <= j < pairs.len() && i != j ==> pairs[i].0 != pairs[j].0
}

/// A key has a value exactly when some pair has that key.
pub proof fn lemma_map_of_contains(pairs: Seq<(Seq<char>, Seq<char>)>, k: Seq<char>)
    ensures
        map_of(pairs).contains_key(k) <==> exists|i: int| 0 <= i < pairs.len() && pairs[i].0 == k,
    decreases pairs.len(),
{
    if pairs.len() > 0 {
        let init = pairs.drop_last();
        lemma_map_of_contains(init, k);
        if map_of(pairs).contains_key(k) && pairs.last().0 != k {
            let i = choose|i: int| 0 <= i < init.len() && init[i].0 == k;
            assert(pairs[i].0 == k);
        }
        if exists|i: int| 0 <= i < pairs.len() && pairs[i].0 == k {
            let i = choose|i: int| 0 <= i < pairs.len() && pairs[i].0 == k;
            if i < pairs.len() - 1 {
                assert(init[i].0 == k);
            }
        }
    }
}

/// With distinct keys, the value a key maps to is the one of its own entry.
pub proof fn lemma_map_of_index(pairs: Seq<(Seq<char>, Seq<char>)>, i: int)
    requires
        keys_distinct(pairs),
        0 <= i < pairs.len(),
    ensures
        map_of(pairs).contains_key(pairs[i].0),
        map_of(pairs)[pairs[i].0] == pairs[i].1,
    decreases pairs.len(),
{
    if i < pairs.len() - 1 {
        let init = pairs.drop_last();
        assert(init[i] == pairs[i]);
        lemma_map_of_index(init, i);
    }
}

/// Replacing the value of an entry whose key is unique is a map insert.
pub proof fn lemma_map_of_update(
    pairs: Seq<(Seq<char>, Seq<char>)>,
    i: int,
    v: Seq<char>,
)
    requires
        keys_distinct(pairs),
        0 <= i < pairs.len(),
    ensures
        map_of(pairs.update(i, (pairs[i].0, v))) == map_of(pairs).insert(pairs[i].0, v),
    decreases pairs.len(),
{
    let k = pairs[i].0;
    let updated = pairs.update(i, (k, v));
    let init = pairs.drop_last();
    if i == pairs.len() - 1 {
        assert(updated.drop_last() =~= init);
        assert(map_of(updated) =~= map_of(pairs).insert(k, v));
    } else {
        assert(updated.drop_last() =~= init.update(i, (k, v)));
        assert(init[i] == pairs[i]);
        lemma_map_of_update(init, i, v);
        assert(pairs.last().0 != k);
        assert(map_of(updated) =~= map_of(pairs).insert(k, v));
    }
}

/// A set of variables: each key holds one value.
#[derive(Debug)]
pub struct VariableMap {
    pairs: Vec<Pair>,
}

impl View for VariableMap {
    type V = Map<Seq<char>, Seq<char>>;

    open spec fn view(&self) -> Map<Seq<char>, Seq<char>> {
        map_of(self.entries())
    }
}

impl VariableMap {
    /// The entries in the order in which their keys were first inserted.
    pub closed spec fn entries(&self) -> Seq<(Seq<char>, Seq<char>)> {
        self.pairs@.map_values(|p: Pair| p.view_pair())
    }

    /// Keys are distinct.
    pub open spec fn wf(&self) -> bool {
        keys_distinct(self.entries())
    }

    /// The empty map.
    pub fn new() -> (r: VariableMap)
        ensures
            r.wf(),
            r@ == Map::<Seq<char>, Seq<char>>::empty(),
            r.entries().len() == 0,
    {
        let r = VariableMap { pairs: Vec::new() };
        assert(r.entries() =~= Seq::<(Seq<char>, Seq<char>)>::empty());
        r
    }

    /// Folds pairs into a map; a later pair overwrites an earlier one with the
    /// same key.
    pub fn from_pairs(pairs: Vec<Pair>) -> (r: VariableMap)
        ensures
            r.wf(),
            r@ == map_of(pairs@.map_values(|p: Pair| p.view_pair())),
    {
        let ghost ps = pairs@.map_values(|p: Pair| p.view_pair());
        let mut r = VariableMap::new();
        let mut i: usize = 0;
        while i < pairs.len()
            invariant
                i <= pairs@.len(),
                ps == pairs@.map_values(|p: Pair| p.view_pair()),
                r.wf(),
                r@ == map_of(ps.take(i as int)),
            decreases pairs@.len() - i,
        {
            r.insert(pairs[i].0.clone(), pairs[i].1.clone());
            assert(ps.take(i + 1).drop_last() =~= ps.take(i as int));
            i += 1;
        }
        assert(ps.take(i as int) =~= ps);
        r
    }

    /// The number of keys.
    pub fn len(&self) -> (n: usize)
        ensures
            n == self.entries().len(),
    {
        self.pairs.len()
    }

    /// The entry at position `i`.
    pub fn entry(&self, i: usize) -> (r: (&String, &String))
        requires
            i < self.entries().len(),
        ensures
            (r.0@, r.1@) == self.entries()[i as int],
    {
        (&self.pairs[i].0, &self.pairs[i].1)
    }

    /// The value of `key`, if it has one.
    pub fn get(&self, key: &String) -> (r: Option<String>)
        requires
            self.wf(),
        ensures
            match r {
                Some(v) => self@.contains_key(key@) && self@[key@] == v@,
                None => !self@.contains_key(key@),
            },
    {
        proof {
            lemma_map_of_contains(self.entries(), key@);
        }
        match self.position(key) {
            Some(i) => {
                proof {
                    lemma_map_of_index(self.entries(), i as int);
                }
                Some(self.pairs[i].1.clone())
            },
            None => None,
        }
    }

    /// The entries as owned key/value tuples, in entry order.
    pub fn to_pairs(&self) -> (r: Vec<(String, String)>)
        ensures
            r@.len() == self.entries().len(),
            forall|i: int| 0 <= i < r@.len() ==> (#[trigger] r@[i].0@, r@[i].1@) == self.entries()[i],
    {
        let mut r: Vec<(String, String)> = Vec::new();
        let mut i: usize = 0;
        while i < self.pairs.len()
            invariant
                i <= self.pairs.len(),
                r@.len() == i,
                forall|j: int| 0 <= j < i ==> (#[trigger] r@[j].0@, r@[j].1@) == self.entries()[j],
            decreases self.pairs.len() - i,
        {
            r.push((self.pairs[i].0.clone(), self.pairs[i].1.clone()));
            i += 1;
        }
        r
    }

    /// The position of `key` among the entries, if it is there.
    fn position(&self, key: &String) -> (r: Option<usize>)
        ensures
            match r {
                Some(i) => i < self.entries().len() && self.entries()[i as int].0 == key@,
                None => forall|j: int| 0 <= j < self.entries().len() ==> self.entries()[j].0 != key@,
            },
    {
        let mut i: usize = 0;
        while i < self.pairs.len()
            invariant
                i <= self.pairs.len(),
                forall|j: int| 0 <= j < i ==> self.entries()[j].0 != key@,
            decreases self.pairs.len() - i,
        {
            if self.pairs[i].0 == *key {
                return Some(i);
            }
            i += 1;
        }
        None
    }

    /// Sets `key` to `value`, replacing any value it had.
    pub fn insert(&mut self, key: String, value: String)
        requires
            old(self).wf(),
        ensures
            final(self).wf(),
            final(self)@ == old(self)@.insert(key@, value@),
    {
        let ghost k = key@;
        let ghost v = value@;
        match self.position(&key) {
            Some(i) => {
                proof {
                    lemma_map_of_update(self.entries(), i as int, v);
                }
                self.pairs.set(i, Pair(key, value));
                assert(self.entries() =~= old(self).entries().update(i as int, (k, v)));
                assert(forall|j: int| 0 <= j < self.entries().len() ==>
                    self.entries()[j].0 == old(self).entries()[j].0);
            },
            None => {
                self.pairs.push(Pair(key, value));
                assert(self.entries().drop_last() =~= old(self).entries());
                assert(forall|j: int| 0 <= j < old(self).entries().len() ==>
                    self.entries()[j] == old(self).entries()[j]);
            },
        }
    }

    /// Sets `key` to `value` only where `key` has no value yet.
    pub fn insert_if_absent(&mut self, key: String, value: String)
        requires
            old(self).wf(),
        ensures
            final(self).wf(),
            final(self)@ == if old(self)@.contains_key(key@) {
                old(self)@
            } else {
                old(self)@.insert(key@, value@)
            },
    {
        proof {
            lemma_map_of_contains(self.entries(), key@);
        }
        match self.position(&key) {
            Some(_) => {},
            None => {
                self.pairs.push(Pair(key, value));
                assert(self.entries().drop_last() =~= old(self).entries());
                assert(forall|j: int| 0 <= j < old(self).entries().len() ==>
                    self.entries()[j] == old(self).entries()[j]);
            },
        }
    }

    /// Merges `other` in; its values win over the ones already here.
    pub fn extend(&mut self, other: &VariableMap)
        requires
            old(self).wf(),
            other.wf(),
        ensures
            final(self).wf(),
            final(self)@ == old(self)@.union_prefer_right(other@),
    {
        let ghost es = other.entries();
        let mut i: usize = 0;
        while i < other.pairs.len()
            invariant
                i <= other.pairs.len(),
                es == other.entries(),
                self.wf(),
                self@ == old(self)@.union_prefer_right(map_of(es.take(i as int))),
            decreases other.pairs.len() - i,
        {
            let key = other.pairs[i].0.clone();
            let value = other.pairs[i].1.clone();
            let ghost before = map_of(es.take(i as int));
            self.insert(key, value);
            proof {
                assert(es.take(i + 1).drop_last() =~= es.take(i as int));
                assert(map_of(es.take(i + 1)) == before.insert(es[i as int].0, es[i as int].1));
                assert(self@ =~= old(self)@.union_prefer_right(map_of(es.take(i + 1))));
            }
            i += 1;
        }
        assert(es.take(i as int) =~= es);
    }
}

/// Whether the remote store is read.
#[derive(Debug, Clone, Copy, PartialEq, Eq, Structural)]
pub enum Mode {
    GET,
    SET,
}

/// The text form in which the variables are printed.
#[derive(Debug, Clone, Copy, PartialEq, Eq, Structural)]
pub enum Format {
    EXPORT,
    ENV,
    JSON,
}

impl Default for Format {
    fn default() -> (r: Format)
        ensures
            r == Format::ENV,
    {
        Format::ENV
    }
}

/// How the variables are printed.
#[derive(Debug, Clone, Copy, PartialEq, Eq, Structural)]
pub struct FormatConfig {
    pub format: Format,
    pub raw: bool,
}

impl Default for FormatConfig {
    fn default() -> (r: FormatConfig)
        ensures
            r.format == Format::ENV,
            !r.raw,
    {
        FormatConfig { format: Format::ENV, raw: false }
    }
}

/// The command that is run with the variables as its environment.
#[derive(Clone, Debug, PartialEq, Eq, Default)]
pub struct RunConfig {
    pub cmd: String,
    pub args: Vec<String>,
}

/// The resolved options of one run.
#[derive(Debug, PartialEq, Eq, Default)]
pub struct ProcessParametersOptions {
    pub app: Option<String>,
    pub env_vars: Option<Vec<String>>,
    pub env_vars_base64: Option<Vec<String>>,
    pub format_config: FormatConfig,
    pub includes: Option<Vec<String>>,
    pub merges: Option<Vec<String>>,
    pub mode: Option<Mode>,
    pub path: Option<String>,
    pub run_config: Option<RunConfig>,
    pub target: Option<String>,
}

/// One entry listed by the remote store: its hierarchical name and its value.
#[derive(Clone, Debug, PartialEq, Eq)]
pub struct RemoteEntry {
    pub name: Option<String>,
    pub value: Option<String>,
}

/// What a finished helper program left: its exit code (none when a signal
/// ended it) and what it wrote.
#[derive(Clone, Debug, PartialEq, Eq)]
pub struct CommandOutput {
    pub code: Option<i32>,
    pub stdout: Vec<u8>,
    pub stderr: Vec<u8>,
}

/// What the outside world gave for one run: the process environment (for bare
/// keys), the entries listed under the remote path, the contents of the include
/// files and the outputs of the merge programs, each list in the order of the
/// options.
pub struct Sources {
    pub environment: VariableMap,
    pub parameters: Vec<RemoteEntry>,
    pub includes: Vec<Vec<u8>>,
    pub merges: Vec<CommandOutput>,
}

} // verus!
