//! Request context for expression evaluation: an immutable, read-only
//! view of one request's attributes.
//!
//! Header names are stored lowercased (ASCII folding) and looked up
//! case-insensitively. Two association lists are kept, in first-seen
//! key order: name to first value, and name to all values in order of
//! appearance; well-formedness (`wf`) ties the two together.

use vstd::prelude::*;

use crate::config::TestRequest;
use crate::text::{lower_seq, lower_string, sp_clean_list, split_clean, str_eq, upper_seq, view_strings};

verus! {

/// The views of a sequence of name-value pairs.
pub open spec fn pairs_view(s: Seq<(std::string::String, std::string::String)>) -> Seq<
    (Seq<char>, Seq<char>),
> {
    s.map_values(|p: (std::string::String, std::string::String)| (p.0@, p.1@))
}

/// The views of a sequence of name-values entries.
pub open spec fn multi_view(s: Seq<(std::string::String, Vec<std::string::String>)>) -> Seq<
    (Seq<char>, Seq<Seq<char>>),
> {
    s.map_values(|p: (std::string::String, Vec<std::string::String>)| (p.0@, view_strings(p.1@)))
}

/// The index of the first entry with the given key, if any.
pub open spec fn sp_key_idx<V>(entries: Seq<(Seq<char>, V)>, key: Seq<char>) -> Option<int>
    decreases entries.len(),
{
    if entries.len() == 0 {
        None
    } else if entries[0].0 == key {
        Some(0)
    } else {
        match sp_key_idx(entries.drop_first(), key) {
            Some(j) => Some(j + 1),
            None => None,
        }
    }
}

/// What `sp_key_idx` finds: the first entry with that key.
pub proof fn lemma_key_idx<V>(entries: Seq<(Seq<char>, V)>, key: Seq<char>)
    ensures
        match sp_key_idx(entries, key) {
            Some(i) => {
                &&& 0 <= i < entries.len()
                &&& (#[trigger] entries[i]).0 == key
                &&& forall|j: int| 0 <= j < i ==> (#[trigger] entries[j]).0 != key
            },
            None => forall|j: int|
                0 <= j < entries.len() ==> (#[trigger] entries[j]).0 != key,
        },
    decreases entries.len(),
{
    if entries.len() > 0 {
        lemma_key_idx(entries.drop_first(), key);
        assert forall|j: int| 1 <= j < entries.len() implies entries.drop_first()[j - 1]
            == entries[j] by {}
    }
}

/// The value of the first entry with the given key, if any.
pub open spec fn sp_assoc<V>(entries: Seq<(Seq<char>, V)>, key: Seq<char>) -> Option<V> {
    match sp_key_idx(entries, key) {
        Some(i) => Some(entries[i].1),
        None => None,
    }
}

/// One header added to the all-values entries: appended to its key's
/// entry, or opening a new entry at the end.
pub open spec fn sp_add_header(
    acc: Seq<(Seq<char>, Seq<Seq<char>>)>,
    name: Seq<char>,
    value: Seq<char>,
) -> Seq<(Seq<char>, Seq<Seq<char>>)> {
    let k = lower_seq(name);
    match sp_key_idx(acc, k) {
        Some(i) => acc.update(i, (k, acc[i].1.push(value))),
        None => acc.push((k, seq![value])),
    }
}

/// The all-values entries built from the headers `hs[i..]`, starting
/// from `acc`.
pub open spec fn sp_build_all(
    hs: Seq<(Seq<char>, Seq<char>)>,
    i: int,
    acc: Seq<(Seq<char>, Seq<Seq<char>>)>,
) -> Seq<(Seq<char>, Seq<Seq<char>>)>
    decreases hs.len() - i,
{
    if 0 <= i < hs.len() {
        sp_build_all(hs, i + 1, sp_add_header(acc, hs[i].0, hs[i].1))
    } else {
        acc
    }
}

/// The first-value entries that correspond to all-values entries.
pub open spec fn firsts_of(a: Seq<(Seq<char>, Seq<Seq<char>>)>) -> Seq<(Seq<char>, Seq<char>)> {
    a.map_values(|p: (Seq<char>, Seq<Seq<char>>)| (p.0, p.1[0]))
}

/// Keys are lowercase and unique, and every entry has at least one value.
pub open spec fn entries_wf(a: Seq<(Seq<char>, Seq<Seq<char>>)>) -> bool {
    &&& forall|k: int| 0 <= k < a.len() ==> (#[trigger] a[k]).0 == lower_seq(a[k].0)
    &&& forall|k1: int, k2: int|
        0 <= k1 < k2 < a.len() ==> (#[trigger] a[k1]).0 != (#[trigger] a[k2]).0
    &&& forall|k: int| 0 <= k < a.len() ==> (#[trigger] a[k]).1.len() >= 1
}

/// Adding a header preserves well-formedness of the entries.
pub proof fn lemma_add_header_wf(
    acc: Seq<(Seq<char>, Seq<Seq<char>>)>,
    name: Seq<char>,
    value: Seq<char>,
)
    requires
        entries_wf(acc),
    ensures
        entries_wf(sp_add_header(acc, name, value)),
{
    let k = lower_seq(name);
    crate::text::lemma_lower_seq_idempotent(name);
    lemma_key_idx(acc, k);
    let out = sp_add_header(acc, name, value);
    match sp_key_idx(acc, k) {
        Some(i) => {
            assert forall|j: int| 0 <= j < out.len() implies (#[trigger] out[j]).0 == lower_seq(
                out[j].0,
            ) && out[j].1.len() >= 1 by {
                if j != i {
                    assert(out[j] == acc[j]);
                }
            }
            assert forall|k1: int, k2: int| 0 <= k1 < k2 < out.len() implies (
            #[trigger] out[k1]).0 != (#[trigger] out[k2]).0 by {
                assert(out[k1].0 == acc[k1].0);
                assert(out[k2].0 == acc[k2].0);
            }
        },
        None => {
            assert forall|j: int| 0 <= j < out.len() implies (#[trigger] out[j]).0 == lower_seq(
                out[j].0,
            ) && out[j].1.len() >= 1 by {
                if j < acc.len() {
                    assert(out[j] == acc[j]);
                }
            }
            assert forall|k1: int, k2: int| 0 <= k1 < k2 < out.len() implies (
            #[trigger] out[k1]).0 != (#[trigger] out[k2]).0 by {
                if k2 < acc.len() {
                } else {
                    assert(out[k2].0 == k);
                    assert(out[k1].0 == acc[k1].0);
                }
            }
        },
    }
}

/// Mathematical model of a request context: the attributes and the two
/// header maps, as plain sequences.
pub struct CtxModel {
    pub method: Seq<char>,
    pub path: Seq<char>,
    pub host: Seq<char>,
    pub first: Seq<(Seq<char>, Seq<char>)>,
    pub all: Seq<(Seq<char>, Seq<Seq<char>>)>,
}

impl CtxModel {
    /// The first value recorded for a header name, or the empty string.
    pub open spec fn header_of(&self, name: Seq<char>) -> Seq<char> {
        match sp_assoc(self.first, lower_seq(name)) {
            Some(v) => v,
            None => Seq::empty(),
        }
    }

    /// All values recorded for a header name, in order, or no values.
    pub open spec fn values_of(&self, name: Seq<char>) -> Seq<Seq<char>> {
        match sp_assoc(self.all, lower_seq(name)) {
            Some(vs) => vs,
            None => Seq::empty(),
        }
    }

    /// The first value for a header name, split on `','`, trimmed, and
    /// with empty pieces dropped.
    pub open spec fn list_of(&self, name: Seq<char>) -> Seq<Seq<char>> {
        sp_clean_list(self.header_of(name))
    }
}

/// The model of the context built from the given attributes and header
/// pairs (in order).
pub open spec fn sp_model_of(
    method: Seq<char>,
    path: Seq<char>,
    host: Seq<char>,
    hs: Seq<(Seq<char>, Seq<char>)>,
) -> CtxModel {
    let all = sp_build_all(hs, 0, Seq::empty());
    CtxModel { method, path, host, first: firsts_of(all), all }
}

/// Header lookup is case-insensitive: any spelling of a name reads the
/// same header as its lowercase or uppercase (ASCII) spelling.
pub proof fn lemma_header_case_insensitive(m: CtxModel, h: Seq<char>)
    ensures
        m.header_of(h) == m.header_of(lower_seq(h)),
        m.header_of(h) == m.header_of(upper_seq(h)),
{
    crate::text::lemma_lower_seq_idempotent(h);
    crate::text::lemma_lower_upper_seq(h);
}

/// Header list partitioning: whenever the first value of a header is
/// `v`, the header's list is exactly `v` split on `','`, trimmed, and
/// with empty pieces dropped.
pub proof fn lemma_header_list_partition(m: CtxModel, h: Seq<char>, v: Seq<char>)
    requires
        m.header_of(h) == v,
    ensures
        m.list_of(h) == sp_clean_list(v),
{
}

/// Context containing HTTP request attributes for expression evaluation.
#[derive(Debug)]
pub struct RequestContext {
    /// HTTP method (GET, POST, etc.)
    pub method: std::string::String,
    /// Request path
    pub path: std::string::String,
    /// Request host
    pub host: std::string::String,
    /// Lowercased header name to first value
    pub headers: Vec<(std::string::String, std::string::String)>,
    /// Lowercased header name to all values, in order of appearance
    pub all_headers: Vec<(std::string::String, Vec<std::string::String>)>,
}

impl RequestContext {
    /// The first-value entries, as spec values.
    pub open spec fn first_entries(&self) -> Seq<(Seq<char>, Seq<char>)> {
        pairs_view(self.headers@)
    }

    /// The all-values entries, as spec values.
    pub open spec fn all_entries(&self) -> Seq<(Seq<char>, Seq<Seq<char>>)> {
        multi_view(self.all_headers@)
    }

    /// The mathematical model of this context.
    pub open spec fn model(&self) -> CtxModel {
        CtxModel {
            method: self.method@,
            path: self.path@,
            host: self.host@,
            first: self.first_entries(),
            all: self.all_entries(),
        }
    }

    /// Internal consistency: entries well formed, and the first-value
    /// entries are exactly the heads of the all-values entries.
    pub open spec fn wf(&self) -> bool {
        &&& entries_wf(self.all_entries())
        &&& self.first_entries() == firsts_of(self.all_entries())
    }

    /// The first value recorded for a header name, or the empty string.
    pub open spec fn spec_header(&self, name: Seq<char>) -> Seq<char> {
        self.model().header_of(name)
    }

    /// All values recorded for a header name, in order, or no values.
    pub open spec fn spec_header_values(&self, name: Seq<char>) -> Seq<Seq<char>> {
        self.model().values_of(name)
    }

    /// The first value for a header name, split on `','`, trimmed, and
    /// with empty pieces dropped.
    pub open spec fn spec_header_list(&self, name: Seq<char>) -> Seq<Seq<char>> {
        sp_clean_list(self.spec_header(name))
    }

    /// Create a RequestContext from a test request. Headers are taken
    /// in the order given: the first pair with a name (case-insensitive)
    /// provides its first value.
    #[verifier::loop_isolation(false)]
    pub fn from_test(test_req: &TestRequest) -> (r: RequestContext)
        ensures
            r.wf(),
            r.method@ == test_req.method@,
            r.path@ == test_req.path@,
            r.host@ == test_req.host@,
            r.all_entries() == sp_build_all(
                pairs_view(test_req.headers@),
                0,
                Seq::empty(),
            ),
            r.model() == sp_model_of(
                test_req.method@,
                test_req.path@,
                test_req.host@,
                pairs_view(test_req.headers@),
            ),
    {
        let ghost hs = pairs_view(test_req.headers@);
        let mut headers: Vec<(std::string::String, std::string::String)> = Vec::new();
        let mut all_headers: Vec<(std::string::String, Vec<std::string::String>)> = Vec::new();
        let n = test_req.headers.len();
        let mut i: usize = 0;
        proof {
            assert(multi_view(all_headers@) =~= Seq::<(Seq<char>, Seq<Seq<char>>)>::empty());
            assert(pairs_view(headers@) =~= Seq::<(Seq<char>, Seq<char>)>::empty());
            assert(firsts_of(multi_view(all_headers@)) =~= Seq::<(Seq<char>, Seq<char>)>::empty());
        }
        while i < n
            invariant
                0 <= i <= n,
                n == hs.len(),
                entries_wf(multi_view(all_headers@)),
                pairs_view(headers@) == firsts_of(multi_view(all_headers@)),
                sp_build_all(hs, 0, Seq::empty()) == sp_build_all(
                    hs,
                    i as int,
                    multi_view(all_headers@),
                ),
            decreases n - i,
        {
            let ghost acc = multi_view(all_headers@);
            let name = test_req.headers[i].0.as_str();
            let value = test_req.headers[i].1.clone();
            let ln = lower_string(name);
            proof {
                assert(hs[i as int] == (test_req.headers@[i as int].0@, test_req.headers@[
                    i as int].1@));
                lemma_key_idx(acc, ln@);
            }
            let m = all_headers.len();
            let mut j: usize = 0;
            let mut found = false;
            while j < m
                invariant
                    0 <= j <= m,
                    m == acc.len(),
                    acc == multi_view(all_headers@),
                    !found ==> forall|t: int| 0 <= t < j ==> (#[trigger] acc[t]).0 != ln@,
                    found ==> j < m && acc[j as int].0 == ln@ && (forall|t: int|
                        0 <= t < j ==> (#[trigger] acc[t]).0 != ln@),
                decreases m - j, (if found { 0int } else { 1int }),
            {
                if str_eq(all_headers[j].0.as_str(), ln.as_str()) {
                    found = true;
                    break ;
                }
                j = j + 1;
            }
            proof {
                if found {
                    assert(sp_key_idx(acc, ln@) == Some(j as int)) by {
                        lemma_key_idx(acc, ln@);
                        match sp_key_idx(acc, ln@) {
                            Some(t) => {
                                if t < j {
                                    assert(acc[t].0 != ln@);
                                } else if t > j {
                                    assert(acc[j as int].0 != ln@);
                                }
                            },
                            None => {
                                assert(acc[j as int].0 != ln@);
                            },
                        }
                    }
                } else {
                    assert(sp_key_idx(acc, ln@) is None) by {
                        lemma_key_idx(acc, ln@);
                        match sp_key_idx(acc, ln@) {
                            Some(t) => {
                                assert(acc[t].0 != ln@);
                            },
                            None => {},
                        }
                    }
                }
                lemma_add_header_wf(acc, hs[i as int].0, hs[i as int].1);
            }
            let ghost old_headers = pairs_view(headers@);
            if found {
                let ghost old_all = all_headers@;
                let mut entry = all_headers.remove(j);
                let ghost old_vals = entry.1@;
                entry.1.push(value);
                all_headers.insert(j, entry);
                proof {
                    old_all.remove_ensures(j as int);
                    old_all.remove(j as int).insert_ensures(j as int, all_headers@[j as int]);
                    assert(all_headers@ =~= old_all.update(
                        j as int,
                        all_headers@[j as int],
                    ));
                    crate::text::lemma_view_strings_push(old_vals, all_headers@[j as int].1@[(
                    all_headers@[j as int].1@.len() - 1) as int]);
                    assert(multi_view(all_headers@) =~= sp_add_header(
                        acc,
                        hs[i as int].0,
                        hs[i as int].1,
                    ));
                    assert(pairs_view(headers@) =~= firsts_of(multi_view(all_headers@)));
                }
            } else {
                let value2 = value.clone();
                headers.push((ln.clone(), value2));
                let mut vals: Vec<std::string::String> = Vec::new();
                vals.push(value);
                all_headers.push((ln, vals));
                proof {
                    assert(view_strings(vals@) =~= seq![hs[i as int].1]);
                    assert(multi_view(all_headers@) =~= sp_add_header(
                        acc,
                        hs[i as int].0,
                        hs[i as int].1,
                    ));
                    let f2 = firsts_of(multi_view(all_headers@));
                    assert(pairs_view(headers@) =~= f2) by {
                        let ph = pairs_view(headers@);
                        assert(ph.len() == f2.len());
                        assert forall|t: int| 0 <= t < ph.len() implies ph[t] == f2[t] by {
                            if t < ph.len() - 1 {
                                assert(ph[t] == old_headers[t]);
                                assert(multi_view(all_headers@)[t] == acc[t]);
                                assert(f2[t] == firsts_of(acc)[t]);
                            } else {
                                assert(ph[t] == (headers@[t].0@, headers@[t].1@));
                                assert(multi_view(all_headers@)[t] == (
                                    all_headers@[t].0@,
                                    view_strings(all_headers@[t].1@),
                                ));
                                assert(view_strings(all_headers@[t].1@)[0] == hs[i as int].1);
                            }
                        }
                    }
                }
            }
            i = i + 1;
        }
        RequestContext {
            method: test_req.method.clone(),
            path: test_req.path.clone(),
            host: test_req.host.clone(),
            headers,
            all_headers,
        }
    }

    /// Get the first value of a header (case-insensitive).
    /// Returns the empty string if the header is absent.
    #[verifier::loop_isolation(false)]
    pub fn header(&self, name: &str) -> (r: &str)
        ensures
            r@ == self.spec_header(name@),
    {
        let ghost f = self.first_entries();
        let ln = lower_string(name);
        let n = self.headers.len();
        let mut i: usize = 0;
        proof {
            lemma_key_idx(f, ln@);
        }
        while i < n
            invariant
                0 <= i <= n,
                n == f.len(),
                forall|t: int| 0 <= t < i ==> (#[trigger] f[t]).0 != ln@,
            decreases n - i,
        {
            if str_eq(self.headers[i].0.as_str(), ln.as_str()) {
                proof {
                    match sp_key_idx(f, ln@) {
                        Some(t) => {
                            if t < i {
                                assert(f[t].0 != ln@);
                            } else if t > i {
                                assert(f[i as int].0 != ln@);
                            }
                        },
                        None => {
                            assert(f[i as int].0 != ln@);
                        },
                    }
                }
                return self.headers[i].1.as_str();
            }
            i = i + 1;
        }
        proof {
            if sp_key_idx(f, ln@) is Some {
                let t = sp_key_idx(f, ln@)->Some_0;
                assert(f[t].0 != ln@);
            }
            reveal_strlit("");
            assert(""@ =~= Seq::<char>::empty());
        }
        ""
    }

    /// Get all values of a header (case-insensitive), in order of
    /// appearance. Returns no values if the header is absent.
    #[verifier::loop_isolation(false)]
    pub fn header_values(&self, name: &str) -> (r: Vec<std::string::String>)
        ensures
            view_strings(r@) == self.spec_header_values(name@),
    {
        let ghost a = self.all_entries();
        let ln = lower_string(name);
        let n = self.all_headers.len();
        let mut i: usize = 0;
        proof {
            lemma_key_idx(a, ln@);
        }
        while i < n
            invariant
                0 <= i <= n,
                n == a.len(),
                forall|t: int| 0 <= t < i ==> (#[trigger] a[t]).0 != ln@,
            decreases n - i,
        {
            if str_eq(self.all_headers[i].0.as_str(), ln.as_str()) {
                proof {
                    match sp_key_idx(a, ln@) {
                        Some(t) => {
                            if t < i {
                                assert(a[t].0 != ln@);
                            } else if t > i {
                                assert(a[i as int].0 != ln@);
                            }
                        },
                        None => {
                            assert(a[i as int].0 != ln@);
                        },
                    }
                }
                return clone_strings(&self.all_headers[i].1);
            }
            i = i + 1;
        }
        proof {
            if sp_key_idx(a, ln@) is Some {
                let t = sp_key_idx(a, ln@)->Some_0;
                assert(a[t].0 != ln@);
            }
        }
        let r: Vec<std::string::String> = Vec::new();
        proof {
            assert(view_strings(r@) =~= Seq::<Seq<char>>::empty());
        }
        r
    }

    /// Get the first value of a header split on `','` into a list, each
    /// piece trimmed, empty pieces dropped. Returns no values if the
    /// header is absent or its first value is empty.
    pub fn header_list(&self, name: &str) -> (r: Vec<std::string::String>)
        ensures
            view_strings(r@) == self.spec_header_list(name@),
    {
        let value = self.header(name);
        split_clean(value)
    }
}

/// Clone a vector of strings.
fn clone_strings(v: &Vec<std::string::String>) -> (r: Vec<std::string::String>)
    ensures
        view_strings(r@) == view_strings(v@),
{
    let n = v.len();
    let mut r: Vec<std::string::String> = Vec::new();
    let mut i: usize = 0;
    proof {
        assert(view_strings(r@) =~= view_strings(v@).subrange(0, 0));
    }
    while i < n
        invariant
            0 <= i <= n,
            n == v@.len(),
            view_strings(r@) == view_strings(v@).subrange(0, i as int),
        decreases n - i,
    {
        let ghost old_r = r@;
        r.push(v[i].clone());
        proof {
            crate::text::lemma_view_strings_push(old_r, r@.last());
            assert(view_strings(r@) =~= view_strings(v@).subrange(0, i + 1 as int));
        }
        i = i + 1;
    }
    proof {
        assert(view_strings(v@).subrange(0, n as int) =~= view_strings(v@));
    }
    r
}

/// The path of a request URI: everything before the first `'?'`.
pub open spec fn sp_strip_query(uri: Seq<char>) -> Seq<char> {
    sp_before_query(uri, 0)
}

/// Helper for `sp_strip_query`: scan for the first `'?'` at or after `i`.
pub open spec fn sp_before_query(uri: Seq<char>, i: int) -> Seq<char>
    decreases uri.len() - i,
{
    if 0 <= i < uri.len() {
        if uri[i] == '?' {
            uri.subrange(0, i)
        } else {
            sp_before_query(uri, i + 1)
        }
    } else {
        uri
    }
}

/// The path part of a request URI: everything before the first `'?'`.
pub fn strip_query(uri: &str) -> (r: std::string::String)
    ensures
        r@ == sp_strip_query(uri@),
{
    let n = uri.unicode_len();
    let mut i: usize = 0;
    while i < n
        invariant
            0 <= i <= n,
            n == uri@.len(),
            sp_strip_query(uri@) == sp_before_query(uri@, i as int),
        decreases n - i,
    {
        if uri.get_char(i) == '?' {
            let p = uri.substring_char(0, i);
            return p.to_owned();
        }
        i = i + 1;
    }
    uri.to_owned()
}

} // verus!
