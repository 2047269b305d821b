//! Configuration of the authorization middleware: the expression, the
//! deny response, and embedded self-tests.
//!
//! The host may hand scalar fields over in text form (a status code as
//! `"403"`, a boolean as `"true"`, an empty header map as `""`); the
//! tolerant decoders here state exactly which strings are accepted.

use vstd::prelude::*;

use crate::text::{is_digit, str_eq};

verus! {

/// Main plugin configuration.
#[derive(Debug)]
pub struct Config {
    /// Authorization expression to evaluate
    pub expression: std::string::String,
    /// HTTP status code to return when authorization fails
    pub deny_status_code: u16,
    /// Response body to return when authorization fails
    pub deny_body: std::string::String,
    /// Test cases to validate at startup
    pub tests: Vec<TestCase>,
}

/// Test case validated at startup.
#[derive(Debug)]
pub struct TestCase {
    /// Descriptive name for the test
    pub name: std::string::String,
    /// Mock request to test against
    pub request: TestRequest,
    /// Expected authorization result (true = allow, false = deny)
    pub expect: bool,
}

/// Mock HTTP request for testing. Headers are name-value pairs in the
/// order they were supplied; names are matched case-insensitively.
#[derive(Debug)]
pub struct TestRequest {
    /// HTTP method (GET, POST, etc.)
    pub method: std::string::String,
    /// Request path
    pub path: std::string::String,
    /// Request host
    pub host: std::string::String,
    /// Request headers (case-insensitive names)
    pub headers: Vec<(std::string::String, std::string::String)>,
}

impl Default for TestRequest {
    /// An empty request: empty method, path, host, and headers.
    fn default() -> (r: TestRequest)
        ensures
            r.method@ == Seq::<char>::empty(),
            r.path@ == Seq::<char>::empty(),
            r.host@ == Seq::<char>::empty(),
            r.headers@ == Seq::<(std::string::String, std::string::String)>::empty(),
    {
        TestRequest {
            method: String::new(),
            path: String::new(),
            host: String::new(),
            headers: Vec::new(),
        }
    }
}

/// The status code used for denials when none is configured.
pub fn default_deny_status_code() -> (r: u16)
    ensures
        r == 403,
{
    403
}

/// The response body used for denials when none is configured.
pub fn default_deny_body() -> (r: std::string::String)
    ensures
        r@ == "Forbidden"@,
{
    "Forbidden".to_owned()
}

/// A header field that arrived either as name-value pairs or as an
/// empty string (hosts stringify empty maps).
#[derive(Debug)]
pub enum HeadersOrString {
    Pairs(Vec<(std::string::String, std::string::String)>),
    Empty,
}

impl HeadersOrString {
    /// The header pairs: the map's, or none.
    pub fn into_map(self) -> (r: Vec<(std::string::String, std::string::String)>)
        ensures
            match self {
                HeadersOrString::Pairs(m) => r == m,
                HeadersOrString::Empty => r@ == Seq::<
                    (std::string::String, std::string::String),
                >::empty(),
            },
    {
        match self {
            HeadersOrString::Pairs(m) => m,
            HeadersOrString::Empty => Vec::new(),
        }
    }

    /// The reading of a headers field that arrived as text: only the
    /// empty string is accepted, and stands for an empty map.
    pub fn from_text(s: &str) -> (r: Option<HeadersOrString>)
        ensures
            s@.len() == 0 <==> r == Some(HeadersOrString::Empty),
            s@.len() != 0 <==> r is None,
    {
        if s.unicode_len() == 0 {
            Some(HeadersOrString::Empty)
        } else {
            None
        }
    }
}

/// The string is made of decimal digits only (and is not empty).
pub open spec fn all_digits(s: Seq<char>) -> bool {
    s.len() > 0 && forall|i: int| 0 <= i < s.len() ==> is_digit(#[trigger] s[i])
}

/// The numeric value of a string of decimal digits.
pub open spec fn sp_dec_value(s: Seq<char>) -> nat
    decreases s,
{
    if s.len() == 0 {
        0
    } else {
        sp_dec_value(s.drop_last()) * 10 + (if (s.last() as int) >= 48 {
            (s.last() as int - 48) as nat
        } else {
            0
        })
    }
}

/// Prefixes of a digit string never exceed its value.
proof fn lemma_dec_value_prefix(s: Seq<char>, i: int)
    requires
        0 <= i <= s.len(),
    ensures
        sp_dec_value(s.subrange(0, i)) <= sp_dec_value(s),
    decreases s.len() - i,
{
    if i < s.len() {
        lemma_dec_value_prefix(s, i + 1);
        let a = s.subrange(0, i);
        let b = s.subrange(0, i + 1);
        assert(b.drop_last() =~= a);
        assert(sp_dec_value(b) == sp_dec_value(a) * 10 + (if (b.last() as int) >= 48 {
            (b.last() as int - 48) as nat
        } else {
            0
        }));
        assert(sp_dec_value(a) <= sp_dec_value(a) * 10) by (nonlinear_arith);
        assert(sp_dec_value(a) <= sp_dec_value(b));
    } else {
        assert(s.subrange(0, i) =~= s);
    }
}

/// Parse a status code from decimal text: accepted exactly when the
/// string is non-empty, all digits, and its value fits a `u16`.
#[verifier::loop_isolation(false)]
pub fn parse_status_code(s: &str) -> (r: Option<u16>)
    ensures
        r is Some <==> all_digits(s@) && sp_dec_value(s@) <= 65535,
        r is Some ==> r->0 == sp_dec_value(s@),
{
    let n = s.unicode_len();
    if n == 0 {
        return None;
    }
    let mut acc: u32 = 0;
    let mut i: usize = 0;
    while i < n
        invariant
            0 < n == s@.len(),
            0 <= i <= n,
            acc <= 65535,
            acc == sp_dec_value(s@.subrange(0, i as int)),
            forall|k: int| 0 <= k < i ==> is_digit(#[trigger] s@[k]),
        decreases n - i,
    {
        let c = s.get_char(i);
        let u: u32 = c as u32;
        if !(48 <= u && u <= 57) {
            return None;
        }
        let d: u32 = u - 48;
        let v: u32 = acc * 10 + d;
        proof {
            assert(s@.subrange(0, i + 1 as int).drop_last() =~= s@.subrange(0, i as int));
            assert(s@.subrange(0, i + 1 as int).last() == s@[i as int]);
        }
        if v > 65535 {
            proof {
                lemma_dec_value_prefix(s@, i + 1 as int);
            }
            return None;
        }
        acc = v;
        i = i + 1;
    }
    proof {
        assert(s@.subrange(0, n as int) =~= s@);
    }
    Some(acc as u16)
}

/// Parse a boolean from its exact text form: `"true"` or `"false"`.
pub fn parse_expect(s: &str) -> (r: Option<bool>)
    ensures
        r == Some(true) <==> s@ == "true"@,
        r == Some(false) <==> s@ == "false"@,
        r is None <==> s@ != "true"@ && s@ != "false"@,
{
    proof {
        reveal_strlit("true");
        reveal_strlit("false");
        assert("true"@.len() == 4);
        assert("false"@.len() == 5);
        assert("true"@ != "false"@);
    }
    if str_eq(s, "true") {
        Some(true)
    } else if str_eq(s, "false") {
        Some(false)
    } else {
        None
    }
}

} // verus!
