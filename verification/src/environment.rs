//! The environment store: a string-to-string mapping built once at startup
//! from the ambient process environment and, outside production mode, from a
//! local definitions file. Earlier entries take precedence, so a definitions
//! file never overrides a variable that is already set.

use vstd::prelude::*;

verus! {

/// Failure returned by [`Env::get`] for a key with no entry.
#[derive(Clone, Copy, Debug, PartialEq, Eq, Structural)]
pub enum VarError {
    NotPresent,
}

/// Failure returned by [`Env::init`] for an unsupported configuration.
#[derive(Clone, Copy, Debug, PartialEq, Eq, Structural)]
pub enum InitError {
    ProductionUnsupported,
}

/// The environment mapping, held as key/value pairs with distinct keys.
pub struct Env {
    pairs: Vec<(String, String)>,
}

/// Whether the mode flag selects production mode: it holds a value equal to
/// the production marker exactly.
pub open spec fn mode_is_production(mode: Option<String>) -> bool {
    mode matches Some(m) && m@ == "production"@
}

/// The sequence has an entry for key `k`.
pub open spec fn seq_has_key(s: Seq<(String, String)>, k: Seq<char>) -> bool {
    exists|i: int| 0 <= i < s.len() && s[i].0@ == k
}

/// The keys of the sequence are pairwise distinct.
pub open spec fn distinct_keys(s: Seq<(String, String)>) -> bool {
    forall|i: int, j: int| 0 <= i < j < s.len() ==> s[i].0@ != s[j].0@
}

/// Loads the pairs of `s` into the mapping `m`, in order, keeping any entry
/// that is already present: the semantics of loading a definitions file into
/// an environment that may already hold some of its keys.
pub open spec fn load_pairs(
    m: Map<Seq<char>, Seq<char>>,
    s: Seq<(String, String)>,
) -> Map<Seq<char>, Seq<char>>
    decreases s.len(),
{
    if s.len() == 0 {
        m
    } else {
        let prev = load_pairs(m, s.drop_last());
        let p = s.last();
        if prev.contains_key(p.0@) {
            prev
        } else {
            prev.insert(p.0@, p.1@)
        }
    }
}

/// The mapping that initialization builds: the ambient environment first,
/// then the definitions file, existing entries winning throughout.
pub open spec fn merged_env(
    ambient: Seq<(String, String)>,
    file: Seq<(String, String)>,
) -> Map<Seq<char>, Seq<char>> {
    load_pairs(load_pairs(Map::empty(), ambient), file)
}

/// The pairs of an optional definitions file: none means the file was
/// missing or unreadable, and nothing is loaded from it.
pub open spec fn file_seq(file_pairs: Option<Vec<(String, String)>>) -> Seq<(String, String)> {
    match file_pairs {
        Some(v) => v@,
        None => Seq::empty(),
    }
}

/// Loading touches exactly the keys of the loaded pairs: an entry already in
/// the mapping keeps its value, and a key appears afterwards exactly when it
/// was in the mapping or among the pairs.
proof fn lemma_load_pairs_keys(m: Map<Seq<char>, Seq<char>>, s: Seq<(String, String)>, k: Seq<char>)
    ensures
        load_pairs(m, s).contains_key(k) <==> (m.contains_key(k) || seq_has_key(s, k)),
        m.contains_key(k) ==> load_pairs(m, s)[k] == m[k],
    decreases s.len(),
{
    if s.len() > 0 {
        lemma_load_pairs_keys(m, s.drop_last(), k);
        if seq_has_key(s, k) {
            let i = choose|i: int| 0 <= i < s.len() && s[i].0@ == k;
            if i < s.len() - 1 {
                assert(s.drop_last()[i].0@ == k);
                assert(seq_has_key(s.drop_last(), k));
            }
        }
        if seq_has_key(s.drop_last(), k) {
            let i = choose|i: int| 0 <= i < s.drop_last().len() && s.drop_last()[i].0@ == k;
            assert(s[i].0@ == k);
        }
    }
}

/// When the keys of `s` are pairwise distinct, loading `s` into the empty
/// mapping gives each entry of `s` its own value.
proof fn lemma_load_pairs_value(s: Seq<(String, String)>, i: int)
    requires
        distinct_keys(s),
        0 <= i < s.len(),
    ensures
        load_pairs(Map::empty(), s).contains_key(s[i].0@),
        load_pairs(Map::empty(), s)[s[i].0@] == s[i].1@,
    decreases s.len(),
{
    let k = s[i].0@;
    if i < s.len() - 1 {
        assert(distinct_keys(s.drop_last())) by {
            assert(forall|a: int, b: int|
                0 <= a < b < s.drop_last().len() ==> s.drop_last()[a].0@ != s.drop_last()[b].0@);
        }
        assert(s.drop_last()[i] == s[i]);
        lemma_load_pairs_value(s.drop_last(), i);
        assert(s.last().0@ != k);
    } else {
        assert(!seq_has_key(s.drop_last(), k)) by {
            if seq_has_key(s.drop_last(), k) {
                let j = choose|j: int| 0 <= j < s.drop_last().len() && s.drop_last()[j].0@ == k;
                assert(s[j].0@ == s[i].0@);
            }
        }
        lemma_load_pairs_keys(Map::empty(), s.drop_last(), k);
    }
}

impl View for Env {
    type V = Map<Seq<char>, Seq<char>>;

    closed spec fn view(&self) -> Map<Seq<char>, Seq<char>> {
        load_pairs(Map::empty(), self.pairs@)
    }
}

/// Law: loading a definitions file never overrides an entry of the ambient
/// environment. The merged mapping has a key exactly when the ambient
/// environment or the file has an entry for it, and on every key the ambient
/// environment already covers, the merged mapping keeps the ambient value.
pub proof fn lemma_existing_entries_win(
    ambient: Seq<(String, String)>,
    file: Seq<(String, String)>,
    k: Seq<char>,
)
    ensures
        merged_env(ambient, file).contains_key(k)
            <==> (seq_has_key(ambient, k) || seq_has_key(file, k)),
        load_pairs(Map::empty(), ambient).contains_key(k)
            ==> merged_env(ambient, file)[k] == load_pairs(Map::empty(), ambient)[k],
{
    lemma_load_pairs_keys(Map::empty(), ambient, k);
    lemma_load_pairs_keys(load_pairs(Map::empty(), ambient), file, k);
}

/// Whether `pairs` has an entry for `key`.
fn has_var(pairs: &Vec<(String, String)>, key: &String) -> (r: bool)
    ensures
        r == seq_has_key(pairs@, key@),
{
    let mut i: usize = 0;
    while i < pairs.len()
        invariant
            0 <= i <= pairs@.len(),
            forall|j: int| 0 <= j < i ==> pairs@[j].0@ != key@,
        decreases pairs@.len() - i,
    {
        if pairs[i].0 == *key {
            assert(seq_has_key(pairs@, key@));
            return true;
        }
        i += 1;
    }
    false
}

/// Appends to `pairs` every entry of `src` whose key is not yet present,
/// in order, so that existing entries always win.
fn load_into(pairs: &mut Vec<(String, String)>, src: &Vec<(String, String)>)
    requires
        distinct_keys(old(pairs)@),
    ensures
        distinct_keys(final(pairs)@),
        load_pairs(Map::empty(), final(pairs)@)
            == load_pairs(load_pairs(Map::empty(), old(pairs)@), src@),
{
    let ghost m0 = load_pairs(Map::empty(), old(pairs)@);
    let mut i: usize = 0;
    while i < src.len()
        invariant
            0 <= i <= src@.len(),
            distinct_keys(pairs@),
            load_pairs(Map::empty(), pairs@) == load_pairs(m0, src@.take(i as int)),
        decreases src@.len() - i,
    {
        let ghost prev = pairs@;
        let present = has_var(pairs, &src[i].0);
        proof {
            assert(src@.take(i + 1).drop_last() =~= src@.take(i as int));
            assert(src@.take(i + 1).last() == src@[i as int]);
            lemma_load_pairs_keys(Map::empty(), pairs@, src@[i as int].0@);
        }
        if !present {
            let key = src[i].0.clone();
            let value = src[i].1.clone();
            pairs.push((key, value));
            proof {
                assert(pairs@.drop_last() =~= prev);
                assert(forall|j: int| 0 <= j < prev.len() ==> prev[j].0@ != src@[i as int].0@);
                assert(distinct_keys(pairs@));
            }
        }
        i += 1;
    }
    proof {
        assert(src@.take(src@.len() as int) =~= src@);
    }
}

impl Env {
    /// The stored pairs have pairwise distinct keys.
    pub closed spec fn wf(self) -> bool {
        distinct_keys(self.pairs@)
    }

    /// Builds the environment mapping for a run of the service. The mode
    /// flag is inspected first: the production marker is refused outright,
    /// before anything is loaded. In every other mode the mapping holds the
    /// ambient process environment and then the pairs of the definitions
    /// file, entries already present winning; a missing file (`None`) loads
    /// nothing and is not an error.
    pub fn init(
        mode: Option<String>,
        ambient: Vec<(String, String)>,
        file_pairs: Option<Vec<(String, String)>>,
    ) -> (r: Result<Env, InitError>)
        ensures
            mode_is_production(mode) <==> (r matches Err(e) && e == InitError::ProductionUnsupported),
            !mode_is_production(mode) ==> (r matches Ok(env) && env.wf()
                && env@ == merged_env(ambient@, file_seq(file_pairs))),
    {
        let marker: String = "production".to_owned();
        if let Some(m) = &mode {
            if *m == marker {
                return Err(InitError::ProductionUnsupported);
            }
        }
        let mut pairs: Vec<(String, String)> = Vec::new();
        load_into(&mut pairs, &ambient);
        if let Some(fp) = &file_pairs {
            load_into(&mut pairs, fp);
        }
        Ok(Env { pairs })
    }

    /// Looks a key up in the mapping: the stored value for a present key,
    /// and a distinguishable failure for an absent one.
    pub fn get(&self, key: &str) -> (r: Result<String, VarError>)
        requires
            self.wf(),
        ensures
            self@.contains_key(key@) ==> (r matches Ok(v) && v@ == self@[key@]),
            !self@.contains_key(key@) ==> r == Err::<String, VarError>(VarError::NotPresent),
    {
        let k: String = key.to_owned();
        let mut i: usize = 0;
        while i < self.pairs.len()
            invariant
                0 <= i <= self.pairs@.len(),
                k@ == key@,
                self.wf(),
                forall|j: int| 0 <= j < i ==> self.pairs@[j].0@ != key@,
            decreases self.pairs@.len() - i,
        {
            if self.pairs[i].0 == k {
                proof {
                    lemma_load_pairs_value(self.pairs@, i as int);
                }
                return Ok(self.pairs[i].1.clone());
            }
            i += 1;
        }
        proof {
            lemma_load_pairs_keys(Map::empty(), self.pairs@, key@);
        }
        Err(VarError::NotPresent)
    }
}

} // verus!
