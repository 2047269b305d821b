//! Character classes and string utilities shared by the lexer and the
//! request context: ASCII case folding, trimming, and comma splitting.

use vstd::prelude::*;

verus! {

/// Whitespace characters skipped between tokens and trimmed from header
/// list entries.
pub open spec fn is_space(c: char) -> bool {
    c == ' ' || c == '\t' || c == '\n' || c == '\r'
}

/// ASCII letter.
pub open spec fn is_alpha(c: char) -> bool {
    ('a' as u32) <= (c as u32) && (c as u32) <= ('z' as u32) || ('A' as u32) <= (c as u32)
        && (c as u32) <= ('Z' as u32)
}

/// ASCII digit.
pub open spec fn is_digit(c: char) -> bool {
    ('0' as u32) <= (c as u32) && (c as u32) <= ('9' as u32)
}

/// First character of an identifier.
pub open spec fn is_ident_start(c: char) -> bool {
    is_alpha(c) || c == '_'
}

/// Continuation character of an identifier.
pub open spec fn is_ident_char(c: char) -> bool {
    is_alpha(c) || is_digit(c) || c == '_' || c == '-'
}

/// ASCII lowercase of one character.
pub open spec fn lower_char(c: char) -> char {
    if ('A' as u32) <= (c as u32) && (c as u32) <= ('Z' as u32) {
        (((c as u8) + 32) as char)
    } else {
        c
    }
}

/// ASCII lowercase of a string.
pub open spec fn lower_seq(s: Seq<char>) -> Seq<char> {
    s.map_values(|c: char| lower_char(c))
}

/// ASCII uppercase of one character.
pub open spec fn upper_char(c: char) -> char {
    if ('a' as u32) <= (c as u32) && (c as u32) <= ('z' as u32) {
        (((c as u8) - 32) as char)
    } else {
        c
    }
}

/// ASCII uppercase of a string.
pub open spec fn upper_seq(s: Seq<char>) -> Seq<char> {
    s.map_values(|c: char| upper_char(c))
}

/// Lowercasing is idempotent on characters.
pub proof fn lemma_lower_char_idempotent(c: char)
    ensures
        lower_char(lower_char(c)) == lower_char(c),
{
}

/// Lowercasing absorbs uppercasing on characters.
pub proof fn lemma_lower_upper_char(c: char)
    ensures
        lower_char(upper_char(c)) == lower_char(c),
{
}

/// Lowercasing is idempotent on strings.
pub proof fn lemma_lower_seq_idempotent(s: Seq<char>)
    ensures
        lower_seq(lower_seq(s)) == lower_seq(s),
{
    assert(lower_seq(lower_seq(s)) =~= lower_seq(s)) by {
        assert forall|i: int| 0 <= i < s.len() implies lower_seq(lower_seq(s))[i] == lower_seq(
            s,
        )[i] by {
            lemma_lower_char_idempotent(s[i]);
        }
    }
}

/// Lowercasing absorbs uppercasing on strings.
pub proof fn lemma_lower_upper_seq(s: Seq<char>)
    ensures
        lower_seq(upper_seq(s)) == lower_seq(s),
{
    assert(lower_seq(upper_seq(s)) =~= lower_seq(s)) by {
        assert forall|i: int| 0 <= i < s.len() implies lower_seq(upper_seq(s))[i] == lower_seq(
            s,
        )[i] by {
            lemma_lower_upper_char(s[i]);
        }
    }
}

/// Whitespace test, executable form.
pub fn is_space_exec(c: char) -> (r: bool)
    ensures
        r == is_space(c),
{
    c == ' ' || c == '\t' || c == '\n' || c == '\r'
}

/// ASCII letter test, executable form.
pub fn is_alpha_exec(c: char) -> (r: bool)
    ensures
        r == is_alpha(c),
{
    let u: u32 = c as u32;
    97 <= u && u <= 122 || 65 <= u && u <= 90
}

/// ASCII digit test, executable form.
pub fn is_digit_exec(c: char) -> (r: bool)
    ensures
        r == is_digit(c),
{
    let u: u32 = c as u32;
    48 <= u && u <= 57
}

/// Identifier start test, executable form.
pub fn is_ident_start_exec(c: char) -> (r: bool)
    ensures
        r == is_ident_start(c),
{
    is_alpha_exec(c) || c == '_'
}

/// Identifier continuation test, executable form.
pub fn is_ident_char_exec(c: char) -> (r: bool)
    ensures
        r == is_ident_char(c),
{
    is_alpha_exec(c) || is_digit_exec(c) || c == '_' || c == '-'
}

/// The views of a sequence of strings.
pub open spec fn view_strings(s: Seq<std::string::String>) -> Seq<Seq<char>> {
    s.map_values(|x: std::string::String| x@)
}

/// Appending one string appends its view.
pub proof fn lemma_view_strings_push(s: Seq<std::string::String>, x: std::string::String)
    ensures
        view_strings(s.push(x)) == view_strings(s).push(x@),
{
    assert(view_strings(s.push(x)) =~= view_strings(s).push(x@));
}

/// The string without its leading whitespace.
pub open spec fn sp_trim_start(s: Seq<char>) -> Seq<char>
    decreases s.len(),
{
    if s.len() > 0 && is_space(s[0]) {
        sp_trim_start(s.drop_first())
    } else {
        s
    }
}

/// The string without its trailing whitespace.
pub open spec fn sp_trim_end(s: Seq<char>) -> Seq<char>
    decreases s.len(),
{
    if s.len() > 0 && is_space(s.last()) {
        sp_trim_end(s.drop_last())
    } else {
        s
    }
}

/// The string without leading and trailing whitespace.
pub open spec fn sp_trim(s: Seq<char>) -> Seq<char> {
    sp_trim_end(sp_trim_start(s))
}

/// The pieces of `s` split on `','`, scanning from `i` with the current
/// piece starting at `start`.
pub open spec fn sp_split_from(s: Seq<char>, i: int, start: int) -> Seq<Seq<char>>
    decreases s.len() - i,
{
    if 0 <= i < s.len() {
        if s[i] == ',' {
            seq![s.subrange(start, i)] + sp_split_from(s, i + 1, i + 1)
        } else {
            sp_split_from(s, i + 1, start)
        }
    } else {
        seq![s.subrange(start, s.len() as int)]
    }
}

/// The pieces of `s` split on `','`.
pub open spec fn sp_split_commas(s: Seq<char>) -> Seq<Seq<char>> {
    sp_split_from(s, 0, 0)
}

/// Trim each piece and drop the pieces that end up empty.
pub open spec fn sp_clean_pieces(ps: Seq<Seq<char>>) -> Seq<Seq<char>>
    decreases ps.len(),
{
    if ps.len() == 0 {
        Seq::empty()
    } else {
        let t = sp_trim(ps[0]);
        let rest = sp_clean_pieces(ps.drop_first());
        if t.len() > 0 {
            seq![t] + rest
        } else {
            rest
        }
    }
}

/// Split on `','`, trim each piece, drop empty pieces; the empty string
/// yields no pieces.
pub open spec fn sp_clean_list(v: Seq<char>) -> Seq<Seq<char>> {
    if v.len() == 0 {
        Seq::empty()
    } else {
        sp_clean_pieces(sp_split_commas(v))
    }
}

/// Trim ASCII whitespace from both ends of a string.
pub fn trim_str(s: &str) -> (r: std::string::String)
    ensures
        r@ == sp_trim(s@),
{
    let n = s.unicode_len();
    let mut start: usize = 0;
    proof {
        assert(s@.subrange(0, n as int) =~= s@);
    }
    while start < n && is_space_exec(s.get_char(start))
        invariant
            0 <= start <= n,
            n == s@.len(),
            sp_trim_start(s@) == sp_trim_start(s@.subrange(start as int, n as int)),
        decreases n - start,
    {
        proof {
            assert(s@.subrange(start as int, n as int).drop_first() =~= s@.subrange(
                start + 1 as int,
                n as int,
            ));
        }
        start = start + 1;
    }
    proof {
        assert(sp_trim_start(s@) == s@.subrange(start as int, n as int));
    }
    let mut end: usize = n;
    while end > start && is_space_exec(s.get_char(end - 1))
        invariant
            start <= end <= n,
            n == s@.len(),
            sp_trim_end(s@.subrange(start as int, n as int)) == sp_trim_end(
                s@.subrange(start as int, end as int),
            ),
        decreases end,
    {
        proof {
            assert(s@.subrange(start as int, end as int).drop_last() =~= s@.subrange(
                start as int,
                end - 1 as int,
            ));
        }
        end = end - 1;
    }
    let piece = s.substring_char(start, end);
    piece.to_owned()
}

/// Split a header value on `','`, trim ASCII whitespace from each piece,
/// and drop the pieces that end up empty.
#[verifier::loop_isolation(false)]
pub fn split_clean(v: &str) -> (r: Vec<std::string::String>)
    ensures
        view_strings(r@) == sp_clean_list(v@),
{
    let n = v.unicode_len();
    let mut out: Vec<std::string::String> = Vec::new();
    if n == 0 {
        proof {
            assert(view_strings(out@) =~= sp_clean_list(v@));
        }
        return out;
    }
    let mut start: usize = 0;
    let mut i: usize = 0;
    proof {
        assert(view_strings(out@) + sp_clean_pieces(sp_split_from(v@, 0, 0)) =~= sp_clean_pieces(
            sp_split_from(v@, 0, 0),
        ));
    }
    while i < n
        invariant
            0 <= start <= i <= n,
            n == v@.len(),
            n > 0,
            view_strings(out@) + sp_clean_pieces(sp_split_from(v@, i as int, start as int))
                == sp_clean_list(v@),
        decreases n - i,
    {
        let c = v.get_char(i);
        if c == ',' {
            let ghost pieces = sp_split_from(v@, i as int, start as int);
            let piece = v.substring_char(start, i);
            let t = trim_str(piece);
            proof {
                assert(pieces == seq![v@.subrange(start as int, i as int)] + sp_split_from(
                    v@,
                    i + 1 as int,
                    i + 1 as int,
                ));
                let rest = sp_split_from(v@, i + 1 as int, i + 1 as int);
                assert(pieces.drop_first() =~= rest);
                assert(pieces[0] == v@.subrange(start as int, i as int));
                assert(sp_clean_pieces(pieces) == (if t@.len() > 0 {
                    seq![t@] + sp_clean_pieces(rest)
                } else {
                    sp_clean_pieces(rest)
                }));
            }
            if t.unicode_len() > 0 {
                let ghost old_out = out@;
                out.push(t);
                proof {
                    lemma_view_strings_push(old_out, out@.last());
                    assert(view_strings(out@) + sp_clean_pieces(
                        sp_split_from(v@, i + 1 as int, i + 1 as int),
                    ) =~= sp_clean_list(v@));
                }
            }
            start = i + 1;
        }
        i = i + 1;
    }
    let ghost pieces = sp_split_from(v@, n as int, start as int);
    let piece = v.substring_char(start, n);
    let t = trim_str(piece);
    proof {
        assert(pieces == seq![v@.subrange(start as int, n as int)]);
        assert(pieces[0] == v@.subrange(start as int, n as int));
        assert(pieces.drop_first() =~= Seq::<Seq<char>>::empty());
        assert(sp_clean_pieces(pieces.drop_first()) == Seq::<Seq<char>>::empty());
        assert(sp_clean_pieces(pieces) == (if t@.len() > 0 {
            seq![t@] + Seq::<Seq<char>>::empty()
        } else {
            Seq::<Seq<char>>::empty()
        }));
    }
    if t.unicode_len() > 0 {
        let ghost old_out = out@;
        out.push(t);
        proof {
            lemma_view_strings_push(old_out, out@.last());
            assert(view_strings(out@) =~= view_strings(old_out) + (seq![out@.last()@] + Seq::<
                Seq<char>,
            >::empty()));
        }
    } else {
        proof {
            assert(view_strings(out@) + Seq::<Seq<char>>::empty() =~= view_strings(out@));
        }
    }
    out
}

/// `r` is a prefix of `l`.
pub open spec fn sp_starts_with(l: Seq<char>, r: Seq<char>) -> bool {
    r.len() <= l.len() && l.subrange(0, r.len() as int) == r
}

/// `r` is a suffix of `l`.
pub open spec fn sp_ends_with(l: Seq<char>, r: Seq<char>) -> bool {
    r.len() <= l.len() && l.subrange(l.len() - r.len(), l.len() as int) == r
}

/// Byte-level prefix test (character-wise; both sides are UTF-8 text).
pub fn starts_with_str(l: &str, r: &str) -> (b: bool)
    ensures
        b == sp_starts_with(l@, r@),
{
    let nl = l.unicode_len();
    let nr = r.unicode_len();
    if nr > nl {
        return false;
    }
    let mut i: usize = 0;
    while i < nr
        invariant
            0 <= i <= nr,
            nr == r@.len(),
            nl == l@.len(),
            nr <= nl,
            forall|j: int| 0 <= j < i ==> l@[j] == r@[j],
        decreases nr - i,
    {
        if l.get_char(i) != r.get_char(i) {
            proof {
                assert(l@.subrange(0, nr as int)[i as int] == l@[i as int]);
            }
            return false;
        }
        i = i + 1;
    }
    proof {
        assert(l@.subrange(0, nr as int) =~= r@);
    }
    true
}

/// Byte-level suffix test (character-wise; both sides are UTF-8 text).
pub fn ends_with_str(l: &str, r: &str) -> (b: bool)
    ensures
        b == sp_ends_with(l@, r@),
{
    let nl = l.unicode_len();
    let nr = r.unicode_len();
    if nr > nl {
        return false;
    }
    let off = nl - nr;
    let mut i: usize = 0;
    while i < nr
        invariant
            0 <= i <= nr,
            nr == r@.len(),
            nl == l@.len(),
            off == nl - nr,
            forall|j: int| 0 <= j < i ==> l@[off + j] == r@[j],
        decreases nr - i,
    {
        if l.get_char(off + i) != r.get_char(i) {
            proof {
                assert(l@.subrange(off as int, nl as int)[i as int] == l@[off + i]);
            }
            return false;
        }
        i = i + 1;
    }
    proof {
        assert(l@.subrange(off as int, nl as int) =~= r@);
    }
    true
}

/// Membership of a string in a list of strings, character-exact.
pub fn contains_string(v: &Vec<std::string::String>, s: &str) -> (b: bool)
    ensures
        b == view_strings(v@).contains(s@),
{
    let n = v.len();
    let mut i: usize = 0;
    while i < n
        invariant
            0 <= i <= n,
            n == v@.len(),
            forall|j: int| 0 <= j < i ==> view_strings(v@)[j] != s@,
        decreases n - i,
    {
        if str_eq(v[i].as_str(), s) {
            proof {
                assert(view_strings(v@)[i as int] == s@);
            }
            return true;
        }
        i = i + 1;
    }
    proof {
        if view_strings(v@).contains(s@) {
            let j = choose|j: int|
                0 <= j < view_strings(v@).len() && view_strings(v@)[j] == s@;
            assert(view_strings(v@)[j] != s@);
        }
    }
    false
}

/// The decimal digit character for `d` (0 to 9).
pub open spec fn dec_digit(d: int) -> char {
    ((48 + d) as u8) as char
}

/// The decimal representation of a natural number.
pub open spec fn dec_seq(n: nat) -> Seq<char>
    decreases n,
{
    if n < 10 {
        seq![dec_digit(n as int)]
    } else {
        dec_seq(n / 10).push(dec_digit((n % 10) as int))
    }
}

/// Format a number in decimal.
pub fn usize_to_string(n: usize) -> (r: std::string::String)
    ensures
        r@ == dec_seq(n as nat),
    decreases n,
{
    if n < 10 {
        let d: u8 = 48 + (n as u8);
        let mut r = String::new();
        push_char(&mut r, d as char);
        proof {
            assert(r@ =~= seq![dec_digit(n as int)]);
        }
        r
    } else {
        let mut r = usize_to_string(n / 10);
        let d: u8 = 48 + ((n % 10) as u8);
        push_char(&mut r, d as char);
        r
    }
}

/// Relies on String::push: appends one character at the end of the string.
#[verifier::external_body]
pub fn push_char(s: &mut String, c: char)
    ensures
        final(s)@ == old(s)@.push(c),
{
    s.push(c);
}

/// The characters of a string as a vector.
pub fn str_to_chars(s: &str) -> (r: Vec<char>)
    ensures
        r@ == s@,
{
    let n = s.unicode_len();
    let mut r: Vec<char> = Vec::new();
    let mut i: usize = 0;
    while i < n
        invariant
            n == s@.len(),
            i <= n,
            r@ == s@.subrange(0, i as int),
        decreases n - i,
    {
        r.push(s.get_char(i));
        assert(r@ =~= s@.subrange(0, i + 1 as int));
        i = i + 1;
    }
    assert(r@ =~= s@);
    r
}

/// Character-wise string equality.
pub fn str_eq(a: &str, b: &str) -> (r: bool)
    ensures
        r == (a@ == b@),
{
    let na = a.unicode_len();
    let nb = b.unicode_len();
    if na != nb {
        assert(a@ != b@) by {
            assert(a@.len() != b@.len());
        }
        return false;
    }
    let mut i: usize = 0;
    while i < na
        invariant
            na == a@.len(),
            na == b@.len(),
            i <= na,
            forall|j: int| 0 <= j < i ==> a@[j] == b@[j],
        decreases na - i,
    {
        if a.get_char(i) != b.get_char(i) {
            return false;
        }
        i = i + 1;
    }
    proof {
        assert(a@ =~= b@);
    }
    true
}

/// ASCII-lowercase a character.
pub fn lower_char_exec(c: char) -> (r: char)
    ensures
        r == lower_char(c),
{
    let u: u32 = c as u32;
    if 65 <= u && u <= 90 {
        ((c as u8) + 32) as char
    } else {
        c
    }
}

/// ASCII-lowercase a string.
pub fn lower_string(s: &str) -> (r: String)
    ensures
        r@ == lower_seq(s@),
{
    let n = s.unicode_len();
    let mut r = String::new();
    let mut i: usize = 0;
    while i < n
        invariant
            n == s@.len(),
            i <= n,
            r@ == lower_seq(s@.subrange(0, i as int)),
        decreases n - i,
    {
        let c = lower_char_exec(s.get_char(i));
        push_char(&mut r, c);
        assert(r@ =~= lower_seq(s@.subrange(0, i + 1 as int))) by {
            assert(s@.subrange(0, i + 1 as int) =~= s@.subrange(0, i as int).push(s@[i as int]));
        }
        i = i + 1;
    }
    assert(s@.subrange(0, n as int) =~= s@);
    r
}

} // verus!
