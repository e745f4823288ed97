//! The incremental build cache: a mapping from path strings to content
//! digests, persisted as one JSON object per project.

use vstd::prelude::*;

verus! {

/// The mapping described by a sequence of key/value pairs; a later pair with
/// the same key wins.
pub open spec fn spec_kv_map(s: Seq<(Seq<char>, Seq<char>)>) -> Map<Seq<char>, Seq<char>>
    decreases s.len(),
{
    if s.len() == 0 {
        Map::empty()
    } else {
        spec_kv_map(s.drop_last()).insert(s.last().0, s.last().1)
    }
}

/// The map that the persisted JSON text describes, or nothing when the text
/// is not a JSON object of strings.
pub uninterp spec fn spec_json_digest_map(s: Seq<char>) -> Option<Map<Seq<char>, Seq<char>>>;

/// Relies on `serde_json::from_str::<HashMap<String, String>>`: parsing
/// either yields the key/value pairs of the JSON object, in some order, or
/// fails; the outcome is a function of the text alone.
#[verifier::external_body]
pub(crate) fn json_decode_digests(content: &str) -> (r: Option<Vec<(String, String)>>)
    ensures
        match r {
            Some(v) => spec_json_digest_map(content@) == Some(spec_kv_map(v.deep_view())),
            None => spec_json_digest_map(content@) is None,
        },
{
    match serde_json::from_str::<std::collections::HashMap<String, String>>(content) {
        Ok(m) => Some(m.into_iter().collect()),
        Err(_) => None,
    }
}

/// Relies on `serde_json::to_string_pretty::<HashMap<String, String>>`: the
/// output is a JSON object that parses back to exactly the given mapping;
/// serialization of a map with string keys and values cannot fail.
#[verifier::external_body]
pub(crate) fn json_encode_digests(entries: &Vec<(String, String)>) -> (r: String)
    ensures
        spec_json_digest_map(r@) == Some(spec_kv_map(entries.deep_view())),
{
    let mut m = std::collections::HashMap::new();
    for (k, v) in entries.iter() {
        m.insert(k.clone(), v.clone());
    }
    serde_json::to_string_pretty(&m).unwrap()
}

/// An in-memory digest mapping, viewed as a `Map` from path characters to
/// digest characters.
#[derive(Debug)]
pub struct DigestMap {
    entries: Vec<(String, String)>,
}

impl View for DigestMap {
    type V = Map<Seq<char>, Seq<char>>;

    closed spec fn view(&self) -> Map<Seq<char>, Seq<char>> {
        spec_kv_map(self.entries.deep_view())
    }
}

proof fn lemma_kv_map_last_match(s: Seq<(Seq<char>, Seq<char>)>, i: int)
    requires
        0 <= i < s.len(),
        forall|j: int| i < j < s.len() ==> s[j].0 != s[i].0,
    ensures
        spec_kv_map(s).contains_key(s[i].0),
        spec_kv_map(s)[s[i].0] == s[i].1,
    decreases s.len(),
{
    if i < s.len() - 1 {
        lemma_kv_map_last_match(s.drop_last(), i);
    }
}

proof fn lemma_kv_map_no_match(s: Seq<(Seq<char>, Seq<char>)>, key: Seq<char>)
    requires
        forall|j: int| 0 <= j < s.len() ==> s[j].0 != key,
    ensures
        !spec_kv_map(s).contains_key(key),
    decreases s.len(),
{
    if s.len() > 0 {
        lemma_kv_map_no_match(s.drop_last(), key);
    }
}

impl DigestMap {
    /// An empty mapping.
    pub fn new() -> (r: DigestMap)
        ensures
            r@ == Map::<Seq<char>, Seq<char>>::empty(),
    {
        DigestMap { entries: Vec::new() }
    }

    pub(crate) fn from_entries(entries: Vec<(String, String)>) -> (r: DigestMap)
        ensures
            r@ == spec_kv_map(entries.deep_view()),
    {
        DigestMap { entries }
    }

    pub(crate) fn raw_entries(&self) -> (r: &Vec<(String, String)>)
        ensures
            spec_kv_map(r.deep_view()) == self@,
    {
        &self.entries
    }

    /// Records a digest for a path, replacing any earlier record.
    pub fn insert(&mut self, key: String, value: String)
        ensures
            final(self)@ == old(self)@.insert(key@, value@),
    {
        let ghost old_entries = self.entries.deep_view();
        let ghost k = key@;
        let ghost v = value@;
        self.entries.push((key, value));
        proof {
            assert(self.entries.deep_view().drop_last() =~= old_entries);
            assert(self.entries.deep_view().last() == (k, v));
        }
    }

    /// Looks a path up.
    pub fn get(&self, key: &String) -> (r: Option<String>)
        ensures
            match r {
                Some(v) => self@.contains_key(key@) && self@[key@] == v@,
                None => !self@.contains_key(key@),
            },
    {
        let n = self.entries.len();
        let mut i: usize = n;
        while i > 0
            invariant
                n == self.entries.len(),
                i <= n,
                forall|j: int| i <= j < n ==> self.entries.deep_view()[j].0 != key@,
            decreases i,
        {
            let pair = &self.entries[i - 1];
            if pair.0 == *key {
                proof {
                    lemma_kv_map_last_match(self.entries.deep_view(), i - 1);
                }
                return Some(pair.1.clone());
            }
            i = i - 1;
        }
        proof {
            lemma_kv_map_no_match(self.entries.deep_view(), key@);
        }
        None
    }

    /// Whether a path has a recorded digest.
    pub fn contains(&self, key: &String) -> (r: bool)
        ensures
            r == self@.contains_key(key@),
    {
        match self.get(key) {
            Some(_) => true,
            None => false,
        }
    }
}

} // verus!
