//! The message model: request methods, protocol versions, header names and
//! the header container.

use vstd::prelude::*;

verus! {

/// The protocol versions the parser recognizes in a request line.
#[derive(Debug, Clone, Copy, PartialEq, Eq, Structural)]
pub enum HttpProtocolVersion {
    H1_0,
    H1_1,
}

/// The closed set of request methods, determined from a fixed-length prefix
/// of the request line.
#[derive(Debug, Clone, Copy, PartialEq, Eq, Structural)]
pub enum Method {
    GET,
    PUT,
    DELETE,
    POST,
    OPTIONS,
}

impl Method {
    /// The canonical token for the method.
    pub open spec fn spec_str(self) -> Seq<char> {
        match self {
            Method::GET => "GET"@,
            Method::PUT => "PUT"@,
            Method::DELETE => "DELETE"@,
            Method::POST => "POST"@,
            Method::OPTIONS => "OPTIONS"@,
        }
    }

    pub fn as_str(&self) -> (r: &str)
        ensures
            r@ == self.spec_str(),
    {
        match self {
            Method::GET => "GET",
            Method::PUT => "PUT",
            Method::DELETE => "DELETE",
            Method::POST => "POST",
            Method::OPTIONS => "OPTIONS",
        }
    }
}

/// A rough media-type classification carried by `AcceptField`.
#[derive(Debug, PartialEq, Eq, Hash)]
pub enum MediaType {
    TextPlain,
    TextHtml,
    ApplicationJson,
    Other(String),
}

/// One element of an Accept header, reduced to its media type.
#[derive(Debug, PartialEq, Eq, Hash)]
pub struct AcceptField {
    media_type: MediaType,
}

/// The mathematical identity of a header name: one of the well-known names,
/// or the raw bytes of any other name.
pub enum HeaderId {
    Host,
    UserAgent,
    Accept,
    ContentType,
    ContentLength,
    Authorization,
    CacheControl,
    Other(Seq<u8>),
}

impl HeaderId {
    /// The canonical on-the-wire spelling of the header name.
    pub open spec fn name_bytes(self) -> Seq<u8> {
        match self {
            // "Host"
            HeaderId::Host => seq![72u8, 111u8, 115u8, 116u8],
            // "User-Agent"
            HeaderId::UserAgent => seq![
                85u8, 115u8, 101u8, 114u8, 45u8, 65u8, 103u8, 101u8, 110u8, 116u8,
            ],
            // "Accept"
            HeaderId::Accept => seq![65u8, 99u8, 99u8, 101u8, 112u8, 116u8],
            // "Content-Type"
            HeaderId::ContentType => seq![
                67u8, 111u8, 110u8, 116u8, 101u8, 110u8, 116u8, 45u8, 84u8, 121u8, 112u8, 101u8,
            ],
            // "Content-Length"
            HeaderId::ContentLength => seq![
                67u8, 111u8, 110u8, 116u8, 101u8, 110u8, 116u8, 45u8, 76u8, 101u8, 110u8, 103u8,
                116u8, 104u8,
            ],
            // "Authorization"
            HeaderId::Authorization => seq![
                65u8, 117u8, 116u8, 104u8, 111u8, 114u8, 105u8, 122u8, 97u8, 116u8, 105u8, 111u8,
                110u8,
            ],
            // "Cache-Control"
            HeaderId::CacheControl => seq![
                67u8, 97u8, 99u8, 104u8, 101u8, 45u8, 67u8, 111u8, 110u8, 116u8, 114u8, 111u8,
                108u8,
            ],
            HeaderId::Other(s) => s,
        }
    }
}

/// A header name: a well-known name, or any other name kept verbatim.
#[derive(Debug, PartialEq, Eq, Hash, Clone)]
pub enum Header {
    Host,
    UserAgent,
    Accept,
    ContentType,
    ContentLength,
    Authorization,
    CacheControl,
    Other(Vec<u8>),
}

impl View for Header {
    type V = HeaderId;

    open spec fn view(&self) -> HeaderId {
        match self {
            Header::Host => HeaderId::Host,
            Header::UserAgent => HeaderId::UserAgent,
            Header::Accept => HeaderId::Accept,
            Header::ContentType => HeaderId::ContentType,
            Header::ContentLength => HeaderId::ContentLength,
            Header::Authorization => HeaderId::Authorization,
            Header::CacheControl => HeaderId::CacheControl,
            Header::Other(s) => HeaderId::Other(s@),
        }
    }
}

/// Compares two byte vectors by contents.
pub fn bytes_eq(a: &Vec<u8>, b: &Vec<u8>) -> (r: bool)
    ensures
        r == (a@ == b@),
{
    if a.len() != b.len() {
        return false;
    }
    let n = a.len();
    let mut i: usize = 0;
    while i < n
        invariant
            n == a@.len() == b@.len(),
            0 <= i <= n,
            forall|j: int| 0 <= j < i ==> a@[j] == b@[j],
        decreases n - i,
    {
        if a[i] != b[i] {
            return false;
        }
        i += 1;
    }
    proof {
        assert(a@ =~= b@);
    }
    true
}

impl Header {
    /// Decides equality of two header names.
    pub fn same_name(&self, other: &Header) -> (r: bool)
        ensures
            r == (self@ == other@),
    {
        match (self, other) {
            (Header::Host, Header::Host) => true,
            (Header::UserAgent, Header::UserAgent) => true,
            (Header::Accept, Header::Accept) => true,
            (Header::ContentType, Header::ContentType) => true,
            (Header::ContentLength, Header::ContentLength) => true,
            (Header::Authorization, Header::Authorization) => true,
            (Header::CacheControl, Header::CacheControl) => true,
            (Header::Other(a), Header::Other(b)) => bytes_eq(a, b),
            _ => false,
        }
    }

    /// The canonical on-the-wire spelling of the header name, as fresh bytes.
    pub fn as_header_string(&self) -> (v: Vec<u8>)
        ensures
            v@ == self@.name_bytes(),
    {
        let mut v: Vec<u8> = Vec::new();
        match self {
            Header::Host => {
                v.push(72);
                v.push(111);
                v.push(115);
                v.push(116);
                proof {
                    assert(v@ =~= self@.name_bytes());
                }
            },
            Header::UserAgent => {
                v.push(85);
                v.push(115);
                v.push(101);
                v.push(114);
                v.push(45);
                v.push(65);
                v.push(103);
                v.push(101);
                v.push(110);
                v.push(116);
                proof {
                    assert(v@ =~= self@.name_bytes());
                }
            },
            Header::Accept => {
                v.push(65);
                v.push(99);
                v.push(99);
                v.push(101);
                v.push(112);
                v.push(116);
                proof {
                    assert(v@ =~= self@.name_bytes());
                }
            },
            Header::ContentType => {
                v.push(67);
                v.push(111);
                v.push(110);
                v.push(116);
                v.push(101);
                v.push(110);
                v.push(116);
                v.push(45);
                v.push(84);
                v.push(121);
                v.push(112);
                v.push(101);
                proof {
                    assert(v@ =~= self@.name_bytes());
                }
            },
            Header::ContentLength => {
                v.push(67);
                v.push(111);
                v.push(110);
                v.push(116);
                v.push(101);
                v.push(110);
                v.push(116);
                v.push(45);
                v.push(76);
                v.push(101);
                v.push(110);
                v.push(103);
                v.push(116);
                v.push(104);
                proof {
                    assert(v@ =~= self@.name_bytes());
                }
            },
            Header::Authorization => {
                v.push(65);
                v.push(117);
                v.push(116);
                v.push(104);
                v.push(111);
                v.push(114);
                v.push(105);
                v.push(122);
                v.push(97);
                v.push(116);
                v.push(105);
                v.push(111);
                v.push(110);
                proof {
                    assert(v@ =~= self@.name_bytes());
                }
            },
            Header::CacheControl => {
                v.push(67);
                v.push(97);
                v.push(99);
                v.push(104);
                v.push(101);
                v.push(45);
                v.push(67);
                v.push(111);
                v.push(110);
                v.push(116);
                v.push(114);
                v.push(111);
                v.push(108);
                proof {
                    assert(v@ =~= self@.name_bytes());
                }
            },
            Header::Other(s) => {
                let n = s.len();
                let mut i: usize = 0;
                while i < n
                    invariant
                        n == s@.len(),
                        0 <= i <= n,
                        v@ =~= s@.subrange(0, i as int),
                    decreases n - i,
                {
                    v.push(s[i]);
                    i += 1;
                }
                proof {
                    assert(v@ =~= self@.name_bytes());
                }
            },
        }
        v
    }
}

/// What a header container holds, after an overwrite of name `k` with value
/// `v`: the first entry with that name is replaced in place, otherwise the
/// entry is appended.
pub open spec fn put_entry(
    s: Seq<(HeaderId, Seq<u8>)>,
    k: HeaderId,
    v: Seq<u8>,
) -> Seq<(HeaderId, Seq<u8>)>
    decreases s.len(),
{
    if s.len() == 0 {
        seq![(k, v)]
    } else if s[0].0 == k {
        seq![(k, v)] + s.drop_first()
    } else {
        seq![s[0]] + put_entry(s.drop_first(), k, v)
    }
}

/// The value held for name `k`: the first entry with that name, if any.
pub open spec fn entry_value(s: Seq<(HeaderId, Seq<u8>)>, k: HeaderId) -> Option<Seq<u8>>
    decreases s.len(),
{
    if s.len() == 0 {
        None
    } else if s[0].0 == k {
        Some(s[0].1)
    } else {
        entry_value(s.drop_first(), k)
    }
}

proof fn lemma_put_entry_at(s: Seq<(HeaderId, Seq<u8>)>, k: HeaderId, v: Seq<u8>, i: int)
    requires
        0 <= i < s.len(),
        s[i].0 == k,
        forall|j: int| 0 <= j < i ==> s[j].0 != k,
    ensures
        put_entry(s, k, v) == s.update(i, (k, v)),
    decreases i,
{
    if i == 0 {
        assert(put_entry(s, k, v) =~= s.update(0, (k, v)));
    } else {
        lemma_put_entry_at(s.drop_first(), k, v, i - 1);
        assert(put_entry(s, k, v) =~= s.update(i, (k, v)));
    }
}

proof fn lemma_put_entry_absent(s: Seq<(HeaderId, Seq<u8>)>, k: HeaderId, v: Seq<u8>)
    requires
        forall|j: int| 0 <= j < s.len() ==> s[j].0 != k,
    ensures
        put_entry(s, k, v) == s.push((k, v)),
    decreases s.len(),
{
    if s.len() == 0 {
        assert(put_entry(s, k, v) =~= s.push((k, v)));
    } else {
        lemma_put_entry_absent(s.drop_first(), k, v);
        assert(put_entry(s, k, v) =~= s.push((k, v)));
    }
}

proof fn lemma_entry_value_at(s: Seq<(HeaderId, Seq<u8>)>, k: HeaderId, i: int)
    requires
        0 <= i < s.len(),
        s[i].0 == k,
        forall|j: int| 0 <= j < i ==> s[j].0 != k,
    ensures
        entry_value(s, k) == Some(s[i].1),
    decreases i,
{
    if i > 0 {
        lemma_entry_value_at(s.drop_first(), k, i - 1);
    }
}

proof fn lemma_entry_value_absent(s: Seq<(HeaderId, Seq<u8>)>, k: HeaderId)
    requires
        forall|j: int| 0 <= j < s.len() ==> s[j].0 != k,
    ensures
        entry_value(s, k) is None,
    decreases s.len(),
{
    if s.len() > 0 {
        lemma_entry_value_absent(s.drop_first(), k);
    }
}

/// How an overwrite changes each lookup: the written name reads back as the
/// new value, every other name is untouched.
pub proof fn lemma_entry_value_put(
    s: Seq<(HeaderId, Seq<u8>)>,
    k: HeaderId,
    v: Seq<u8>,
    q: HeaderId,
)
    ensures
        entry_value(put_entry(s, k, v), q) == if q == k {
            Some(v)
        } else {
            entry_value(s, q)
        },
    decreases s.len(),
{
    if s.len() == 0 {
        let t = put_entry(s, k, v);
        assert(t == seq![(k, v)]);
        assert(t[0] == (k, v));
        if q != k {
            assert(entry_value(t, q) == entry_value(t.drop_first(), q));
            assert(t.drop_first().len() == 0);
        }
    } else if s[0].0 == k {
        let t = seq![(k, v)] + s.drop_first();
        assert(put_entry(s, k, v) == t);
        assert(t[0] == (k, v));
        assert(t.drop_first() =~= s.drop_first());
        if q != k {
            assert(entry_value(s, q) == entry_value(s.drop_first(), q));
        }
    } else {
        lemma_entry_value_put(s.drop_first(), k, v, q);
        let t = seq![s[0]] + put_entry(s.drop_first(), k, v);
        assert(put_entry(s, k, v) == t);
        assert(t[0] == s[0]);
        assert(t.drop_first() =~= put_entry(s.drop_first(), k, v));
    }
}

/// The header container: a mapping from header names to one raw byte value
/// each, in insertion order.
pub struct Headers {
    entries: Vec<(Header, Vec<u8>)>,
}

impl View for Headers {
    type V = Seq<(HeaderId, Seq<u8>)>;

    closed spec fn view(&self) -> Seq<(HeaderId, Seq<u8>)> {
        self.entries@.map_values(|e: (Header, Vec<u8>)| (e.0@, e.1@))
    }
}

impl Headers {
    /// At most one entry per name.
    pub open spec fn wf(&self) -> bool {
        forall|i: int, j: int| 0 <= i < j < self@.len() ==> self@[i].0 != self@[j].0
    }

    pub fn new() -> (r: Headers)
        ensures
            r@ == Seq::<(HeaderId, Seq<u8>)>::empty(),
            r.wf(),
    {
        let r = Headers { entries: Vec::new() };
        proof {
            assert(r@ =~= Seq::<(HeaderId, Seq<u8>)>::empty());
        }
        r
    }

    /// Overwrites the value held for `key`; the last write wins.
    pub fn set(&mut self, key: Header, value: Vec<u8>)
        ensures
            final(self)@ == put_entry(old(self)@, key@, value@),
            old(self).wf() ==> final(self).wf(),
    {
        let ghost s0 = self@;
        let ghost gk = key@;
        let ghost gv = value@;
        let n = self.entries.len();
        let mut i: usize = 0;
        while i < n
            invariant
                n == self.entries@.len(),
                0 <= i <= n,
                self@ == s0,
                old(self)@ == s0,
                gk == key@,
                gv == value@,
                forall|j: int| 0 <= j < i ==> s0[j].0 != gk,
            decreases n - i,
        {
            proof {
                assert(s0[i as int] == (self.entries@[i as int].0@, self.entries@[i as int].1@));
            }
            let ent = &self.entries[i];
            let hit = ent.0.same_name(&key);
            if hit {
                proof {
                    assert(s0[i as int].0 == gk);
                }
                self.entries.set(i, (key, value));
                proof {
                    assert(self@ =~= s0.update(i as int, (gk, gv)));
                    lemma_put_entry_at(s0, gk, gv, i as int);
                }
                return ;
            }
            i += 1;
        }
        self.entries.push((key, value));
        proof {
            lemma_put_entry_absent(s0, gk, gv);
            assert(self@ =~= s0.push((gk, gv)));
        }
    }

    /// Reads the value held for `key`, if any.
    pub fn get(&self, key: Header) -> (r: Option<&Vec<u8>>)
        ensures
            match r {
                Some(v) => entry_value(self@, key@) == Some(v@),
                None => entry_value(self@, key@) is None,
            },
    {
        let n = self.entries.len();
        let mut i: usize = 0;
        while i < n
            invariant
                n == self.entries@.len(),
                0 <= i <= n,
                forall|j: int| 0 <= j < i ==> self@[j].0 != key@,
            decreases n - i,
        {
            proof {
                assert(self@[i as int] == (self.entries@[i as int].0@, self.entries@[i as int].1@));
            }
            let ent = &self.entries[i];
            let hit = ent.0.same_name(&key);
            if hit {
                proof {
                    lemma_entry_value_at(self@, key@, i as int);
                }
                return Some(&self.entries[i].1);
            }
            i += 1;
        }
        proof {
            lemma_entry_value_absent(self@, key@);
        }
        None
    }

    /// The entries, in insertion order.
    pub fn iter(&self) -> (r: &Vec<(Header, Vec<u8>)>)
        ensures
            r@.len() == self@.len(),
            forall|i: int| 0 <= i < r@.len() ==> (#[trigger] r@[i].0@, r@[i].1@) == self@[i],
    {
        &self.entries
    }

    /// How many names hold a value.
    pub fn len(&self) -> (r: usize)
        ensures
            r == self@.len(),
    {
        self.entries.len()
    }
}

impl Default for Headers {
    fn default() -> (r: Headers)
        ensures
            r@ == Seq::<(HeaderId, Seq<u8>)>::empty(),
            r.wf(),
    {
        Headers::new()
    }
}

} // verus!
