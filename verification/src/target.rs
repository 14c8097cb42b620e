//! The resolved request target: the raw path-and-query bytes of a request
//! line, resolved against the server's fixed base authority into a path,
//! a raw query string, and decoded query pairs.

use vstd::prelude::*;

verus! {

/// The mathematical content of a resolved target.
pub struct TargetView {
    pub path: Seq<char>,
    pub query: Option<Seq<char>>,
    pub pairs: Seq<(Seq<char>, Seq<char>)>,
}

/// A request target after resolution against the base authority: the path,
/// the raw query string if any, and the decoded query pairs in order.
pub struct Target {
    path: String,
    query: Option<String>,
    pairs: Vec<(String, String)>,
}

impl View for Target {
    type V = TargetView;

    closed spec fn view(&self) -> TargetView {
        TargetView {
            path: self.path@,
            query: match &self.query {
                Some(q) => Some(q@),
                None => None,
            },
            pairs: self.pairs@.map_values(|p: (String, String)| (p.0@, p.1@)),
        }
    }
}

/// What resolving raw target bytes against a base authority yields, when it
/// succeeds: a function of the two inputs alone.
pub uninterp spec fn resolved_target(base: Seq<char>, raw: Seq<u8>) -> Option<TargetView>;

/// Relies on the `url` crate: `Url::parse` of the base authority, `Url::join`
/// of the (lossily decoded) raw target against it, and `path`, `query` and
/// `query_pairs` of the resolved URL. Parsing, joining and query decoding are
/// deterministic, so the outcome depends on the two inputs alone.
#[verifier::external_body]
fn resolve_raw_target(base: &str, raw: &[u8]) -> (r: Option<Target>)
    ensures
        match r {
            Some(t) => resolved_target(base@, raw@) == Some(t@),
            None => resolved_target(base@, raw@) is None,
        },
{
    let raw = String::from_utf8_lossy(raw);
    let base = match url::Url::parse(base) {
        Ok(b) => b,
        Err(_) => return None,
    };
    let url = match base.join(&raw) {
        Ok(u) => u,
        Err(_) => return None,
    };
    let path = url.path().to_string();
    let query = url.query().map(|q| q.to_string());
    let pairs = url.query_pairs().map(|(k, v)| (k.into_owned(), v.into_owned())).collect();
    Some(Target { path, query, pairs })
}

impl Target {
    /// Resolves raw target bytes against the base authority; a target the
    /// base cannot absorb resolves to nothing.
    pub fn resolve(base: &str, raw: &[u8]) -> (r: Option<Target>)
        ensures
            match r {
                Some(t) => resolved_target(base@, raw@) == Some(t@),
                None => resolved_target(base@, raw@) is None,
            },
    {
        resolve_raw_target(base, raw)
    }

    /// The resolved path.
    pub fn path(&self) -> (r: &str)
        ensures
            r@ == self@.path,
    {
        self.path.as_str()
    }

    /// The raw query string, if the target carried one.
    pub fn query(&self) -> (r: Option<&str>)
        ensures
            match r {
                Some(q) => self@.query == Some(q@),
                None => self@.query is None,
            },
    {
        match &self.query {
            Some(q) => Some(q.as_str()),
            None => None,
        }
    }

    /// How many query pairs the target carries.
    pub fn pair_count(&self) -> (r: usize)
        ensures
            r == self@.pairs.len(),
    {
        self.pairs.len()
    }

    /// The decoded query pairs, in order, duplicates preserved.
    pub fn pairs(&self) -> (r: Vec<(String, String)>)
        ensures
            r@.len() == self@.pairs.len(),
            forall|i: int|
                0 <= i < r@.len() ==> (#[trigger] r@[i].0@, r@[i].1@) == self@.pairs[i],
    {
        let n = self.pairs.len();
        let mut out: Vec<(String, String)> = Vec::new();
        let mut i: usize = 0;
        while i < n
            invariant
                n == self.pairs@.len(),
                0 <= i <= n,
                out@.len() == i,
                forall|j: int| 0 <= j < i ==> (#[trigger] out@[j].0@, out@[j].1@) == self@.pairs[j],
            decreases n - i,
        {
            proof {
                assert(self@.pairs[i as int] == (self.pairs@[i as int].0@, self.pairs@[i as int].1@));
            }
            let p = &self.pairs[i];
            out.push((p.0.clone(), p.1.clone()));
            i += 1;
        }
        out
    }
}

/// Decides equality of two string slices.
pub fn str_eq(a: &str, b: &str) -> (r: bool)
    ensures
        r == (a@ == b@),
{
    proof {
        broadcast use vstd::utf8::encode_utf8_decode_utf8;

    }
    let ab = a.as_bytes();
    let bb = b.as_bytes();
    if ab.len() != bb.len() {
        return false;
    }
    let n = ab.len();
    let mut i: usize = 0;
    while i < n
        invariant
            n == ab@.len() == bb@.len(),
            ab@ == vstd::string::StringSliceAdditionalSpecFns::spec_bytes(a),
            bb@ == vstd::string::StringSliceAdditionalSpecFns::spec_bytes(b),
            0 <= i <= n,
            forall|j: int| 0 <= j < i ==> ab@[j] == bb@[j],
        decreases n - i,
    {
        if ab[i] != bb[i] {
            return false;
        }
        i += 1;
    }
    proof {
        assert(ab@ =~= bb@);
        broadcast use vstd::utf8::encode_utf8_decode_utf8;

        assert(vstd::utf8::decode_utf8(vstd::utf8::encode_utf8(a@)) == a@);
        assert(vstd::utf8::decode_utf8(vstd::utf8::encode_utf8(b@)) == b@);
    }
    true
}

/// The first value held under `key` among ordered query pairs.
pub open spec fn first_pair_value(pairs: Seq<(Seq<char>, Seq<char>)>, key: Seq<char>) -> Option<
    Seq<char>,
>
    decreases pairs.len(),
{
    if pairs.len() == 0 {
        None
    } else if pairs[0].0 == key {
        Some(pairs[0].1)
    } else {
        first_pair_value(pairs.drop_first(), key)
    }
}

proof fn lemma_first_pair_value_at(pairs: Seq<(Seq<char>, Seq<char>)>, key: Seq<char>, i: int)
    requires
        0 <= i < pairs.len(),
        pairs[i].0 == key,
        forall|j: int| 0 <= j < i ==> pairs[j].0 != key,
    ensures
        first_pair_value(pairs, key) == Some(pairs[i].1),
    decreases i,
{
    if i > 0 {
        lemma_first_pair_value_at(pairs.drop_first(), key, i - 1);
    }
}

proof fn lemma_first_pair_value_absent(pairs: Seq<(Seq<char>, Seq<char>)>, key: Seq<char>)
    requires
        forall|j: int| 0 <= j < pairs.len() ==> pairs[j].0 != key,
    ensures
        first_pair_value(pairs, key) is None,
    decreases pairs.len(),
{
    if pairs.len() > 0 {
        lemma_first_pair_value_absent(pairs.drop_first(), key);
    }
}

impl Target {
    /// The first value under `key` among the query pairs, if any.
    pub fn first_value(&self, key: &str) -> (r: Option<String>)
        ensures
            match r {
                Some(v) => first_pair_value(self@.pairs, key@) == Some(v@),
                None => first_pair_value(self@.pairs, key@) is None,
            },
    {
        let n = self.pairs.len();
        let mut i: usize = 0;
        while i < n
            invariant
                n == self.pairs@.len(),
                0 <= i <= n,
                forall|j: int| 0 <= j < i ==> self@.pairs[j].0 != key@,
            decreases n - i,
        {
            proof {
                assert(self@.pairs[i as int] == (self.pairs@[i as int].0@, self.pairs@[i as int].1@));
            }
            let p = &self.pairs[i];
            let hit = str_eq(p.0.as_str(), key);
            if hit {
                proof {
                    lemma_first_pair_value_at(self@.pairs, key@, i as int);
                }
                return Some(p.1.clone());
            }
            i += 1;
        }
        proof {
            lemma_first_pair_value_absent(self@.pairs, key@);
        }
        None
    }
}

} // verus!
