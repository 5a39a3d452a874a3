//! Browser-extension connections: who may connect, how a visited page is
//! recorded, and which connections hear a cookie change.

use vstd::prelude::*;
use crate::protocol::{string_views, HistoryItem};
use vstd::string::StrSliceExecFns;
use vstd::string::StringSliceAdditionalSpecFns;
use vstd::utf8::encode_utf8;

verus! {

/// Whether a header byte is visible ASCII or a tab, the bytes that make an
/// HTTP header value readable as text.
pub open spec fn visible_header_byte(b: u8) -> bool {
    (32 <= b && b < 127) || b == 9
}

/// Whether `prefix` begins `s`.
pub open spec fn has_prefix(s: Seq<u8>, prefix: Seq<u8>) -> bool {
    prefix.len() <= s.len() && s.subrange(0, prefix.len() as int) == prefix
}

/// An `Origin` header that belongs to a browser extension: readable text
/// that starts with `chrome-extension://` or `moz-extension://`.
pub open spec fn extension_origin(origin: Seq<u8>) -> bool {
    &&& forall|i: int| 0 <= i < origin.len() ==> visible_header_byte(#[trigger] origin[i])
    &&& (has_prefix(origin, encode_utf8("chrome-extension://"@)) || has_prefix(
        origin,
        encode_utf8("moz-extension://"@),
    ))
}

/// Whether `query[start..end]` is one of the `&`-separated parameters of a
/// query string.
pub open spec fn query_parameter(query: Seq<u8>, start: int, end: int) -> bool {
    &&& 0 <= start <= end <= query.len()
    &&& (start == 0 || query[start - 1] == 38)
    &&& (end == query.len() || query[end] == 38)
    &&& forall|k: int| start <= k < end ==> #[trigger] query[k] != 38
}

/// Whether some parameter of the query is exactly `param`.
pub open spec fn query_has_parameter(query: Seq<u8>, param: Seq<u8>) -> bool {
    exists|start: int, end: int|
        #[trigger] query_parameter(query, start, end) && query.subrange(start, end) == param
}

/// The parameter that carries the daemon's token: `token=` and the token.
pub open spec fn token_parameter(token: Seq<char>) -> Seq<u8> {
    encode_utf8("token="@ + token)
}

/// Whether a byte string holds no `&`.
pub open spec fn no_ampersand(p: Seq<u8>) -> bool {
    forall|i: int| 0 <= i < p.len() ==> #[trigger] p[i] != 38
}

/// A parameter counts wherever it stands: for any `p` without `&`, the
/// query `before + p + after` carries `p` when `before` is empty or ends
/// in `&` and `after` is empty or starts with `&`; so does `p` alone.
pub proof fn lemma_parameter_found(before: Seq<u8>, p: Seq<u8>, after: Seq<u8>)
    requires
        no_ampersand(p),
        before.len() == 0 || before[before.len() - 1] == 38,
        after.len() == 0 || after[0] == 38,
    ensures
        query_has_parameter(before + p + after, p),
        query_has_parameter(p, p),
{
    lemma_parameter_found_at(p, before, after);
    lemma_parameter_found_at(p, Seq::empty(), Seq::empty());
    assert(p =~= Seq::<u8>::empty() + p + Seq::<u8>::empty());
}

/// The first and the last parameter count like any other: for any `p`
/// without `&` and any `rest`, both `p&rest` and `rest&p` carry `p`.
pub proof fn lemma_first_and_last_parameter(p: Seq<u8>, rest: Seq<u8>)
    requires
        no_ampersand(p),
    ensures
        query_has_parameter(p + seq![38u8] + rest, p),
        query_has_parameter(rest + seq![38u8] + p, p),
{
    lemma_parameter_found_at(p, Seq::empty(), seq![38u8] + rest);
    lemma_parameter_found_at(p, rest + seq![38u8], Seq::empty());
    assert(p + seq![38u8] + rest =~= Seq::<u8>::empty() + p + (seq![38u8] + rest));
    assert(rest + seq![38u8] + p =~= (rest + seq![38u8]) + p + Seq::<u8>::empty());
}

proof fn lemma_parameter_found_at(p: Seq<u8>, before: Seq<u8>, after: Seq<u8>)
    requires
        no_ampersand(p),
        before.len() == 0 || before[before.len() - 1] == 38,
        after.len() == 0 || after[0] == 38,
    ensures
        query_has_parameter(before + p + after, p),
{
    let q = before + p + after;
    let start = before.len() as int;
    let end = start + p.len();
    assert(q.subrange(start, end) =~= p);
    assert forall|k: int| start <= k < end implies #[trigger] q[k] != 38 by {
        assert(q[k] == p[k - start]);
    }
    assert(start > 0 ==> q[start - 1] == before[start - 1]);
    assert(end < q.len() ==> q[end] == after[0]);
    assert(query_parameter(q, start, end));
}

/// Conversely, a query carries `p` only as such a piece: `p` holds no `&`,
/// and the query is `before + p + after` with `before` empty or ending in
/// `&` and `after` empty or starting with `&`.
pub proof fn lemma_parameter_is_a_piece(q: Seq<u8>, p: Seq<u8>)
    requires
        query_has_parameter(q, p),
    ensures
        no_ampersand(p),
        exists|before: Seq<u8>, after: Seq<u8>|
            q == before + p + after && (before.len() == 0 || before[before.len() - 1] == 38) && (
            after.len() == 0 || after[0] == 38),
{
    let (start, end) = choose|start: int, end: int|
        #[trigger] query_parameter(q, start, end) && q.subrange(start, end) == p;
    let before = q.subrange(0, start);
    let after = q.subrange(end, q.len() as int);
    assert forall|i: int| 0 <= i < p.len() implies #[trigger] p[i] != 38 by {
        assert(p[i] == q[start + i]);
    }
    assert(q =~= before + p + after);
    assert(before.len() > 0 ==> before[before.len() - 1] == q[start - 1]);
    assert(after.len() > 0 ==> after[0] == q[end]);
}

/// Why an extension connection is refused.
#[derive(Debug, Clone, Copy, PartialEq, Eq, Structural)]
pub enum Rejection {
    /// The `Origin` header is missing, unreadable, or no extension's.
    Forbidden,
    /// The query does not carry the daemon's token.
    Unauthorized,
}

impl Rejection {
    /// The HTTP status the daemon answers with.
    pub fn status_code(&self) -> (code: u16)
        ensures
            code == (match *self {
                Rejection::Forbidden => 403u16,
                Rejection::Unauthorized => 401u16,
            }),
    {
        match self {
            Rejection::Forbidden => 403,
            Rejection::Unauthorized => 401,
        }
    }
}

/// Whether `prefix` begins `s`.
fn starts_with(s: &[u8], prefix: &[u8]) -> (r: bool)
    ensures
        r == has_prefix(s@, prefix@),
{
    if prefix.len() > s.len() {
        return false;
    }
    let mut i: usize = 0;
    while i < prefix.len()
        invariant
            prefix@.len() <= s@.len(),
            0 <= i <= prefix@.len(),
            forall|k: int| 0 <= k < i ==> s@[k] == prefix@[k],
        decreases prefix@.len() - i,
    {
        if s[i] != prefix[i] {
            assert(s@.subrange(0, prefix@.len() as int)[i as int] != prefix@[i as int]);
            return false;
        }
        i = i + 1;
    }
    assert(s@.subrange(0, prefix@.len() as int) =~= prefix@);
    true
}

/// Whether an `Origin` header value belongs to a browser extension.
pub fn origin_allowed(origin: &[u8]) -> (r: bool)
    ensures
        r == extension_origin(origin@),
{
    let mut i: usize = 0;
    while i < origin.len()
        invariant
            0 <= i <= origin@.len(),
            forall|k: int| 0 <= k < i ==> visible_header_byte(#[trigger] origin@[k]),
        decreases origin@.len() - i,
    {
        let b = origin[i];
        if !((32 <= b && b < 127) || b == 9) {
            return false;
        }
        i = i + 1;
    }
    starts_with(origin, "chrome-extension://".as_bytes()) || starts_with(
        origin,
        "moz-extension://".as_bytes(),
    )
}

/// Whether `query[start..end]` equals `param`.
fn range_equals(query: &[u8], start: usize, end: usize, param: &[u8]) -> (r: bool)
    requires
        start <= end <= query@.len(),
    ensures
        r == (query@.subrange(start as int, end as int) == param@),
{
    if end - start != param.len() {
        return false;
    }
    let mut k: usize = 0;
    while k < param.len()
        invariant
            start <= end <= query@.len(),
            end - start == param@.len(),
            0 <= k <= param@.len(),
            forall|m: int| 0 <= m < k ==> query@[start + m] == param@[m],
        decreases param@.len() - k,
    {
        if query[start + k] != param[k] {
            assert(query@.subrange(start as int, end as int)[k as int] != param@[k as int]);
            return false;
        }
        k = k + 1;
    }
    assert(query@.subrange(start as int, end as int) =~= param@);
    true
}

/// Whether some `&`-separated parameter of the query is exactly `param`.
pub fn has_parameter(query: &[u8], param: &[u8]) -> (r: bool)
    ensures
        r == query_has_parameter(query@, param@),
{
    let n = query.len();
    let mut start: usize = 0;
    let mut i: usize = 0;
    while i < n
        invariant
            n == query@.len(),
            start <= i <= n,
            start == 0 || query@[start - 1] == 38,
            forall|k: int| start <= k < i ==> #[trigger] query@[k] != 38,
            forall|a: int, b: int|
                #[trigger] query_parameter(query@, a, b) && b < i ==> query@.subrange(a, b) != param@,
        decreases n - i,
    {
        if query[i] == 38 {
            assert(query_parameter(query@, start as int, i as int));
            if range_equals(query, start, i, param) {
                return true;
            }
            proof {
                assert forall|a: int, b: int|
                    #[trigger] query_parameter(query@, a, b) && b < i + 1 implies query@.subrange(a, b)
                    != param@ by {
                    if b == i {
                        if a < start {
                            assert(query@[start - 1] == 38);
                        } else if a > start {
                            assert(query@[a - 1] == 38);
                        }
                    }
                }
            }
            start = i + 1;
        }
        i = i + 1;
    }
    assert(query_parameter(query@, start as int, n as int));
    if range_equals(query, start, n, param) {
        return true;
    }
    proof {
        assert forall|a: int, b: int|
            #[trigger] query_parameter(query@, a, b) implies query@.subrange(a, b) != param@ by {
            if b == n {
                if a < start {
                    assert(query@[start - 1] == 38);
                } else if a > start {
                    assert(query@[a - 1] == 38);
                }
            }
        }
    }
    false
}

/// Admits an extension connection when its `Origin` header belongs to an
/// extension and its query carries `token=` and the daemon's token.
pub fn authorize_extension(origin: Option<&[u8]>, query: Option<&str>, token: &str) -> (r: Result<(), Rejection>)
    ensures
        match origin {
            None => r == Err::<(), Rejection>(Rejection::Forbidden),
            Some(o) => if !extension_origin(o@) {
                r == Err::<(), Rejection>(Rejection::Forbidden)
            } else {
                match query {
                    Some(q) if query_has_parameter(q.spec_bytes(), token_parameter(token@)) => r
                        == Ok::<(), Rejection>(()),
                    _ => r == Err::<(), Rejection>(Rejection::Unauthorized),
                }
            },
        },
{
    match origin {
        None => return Err(Rejection::Forbidden),
        Some(o) => {
            if !origin_allowed(o) {
                return Err(Rejection::Forbidden);
            }
        },
    }
    match query {
        None => Err(Rejection::Unauthorized),
        Some(q) => {
            let mut param = String::from_str("token=");
            param.append(token);
            if has_parameter(q.as_bytes(), param.as_str().as_bytes()) {
                Ok(())
            } else {
                Err(Rejection::Unauthorized)
            }
        },
    }
}

/// Whether a character has the Unicode `White_Space` property, a fixed list
/// of 25 code points: U+0009 to U+000D, U+0020, U+0085, U+00A0, U+1680,
/// U+2000 to U+200A, U+2028, U+2029, U+202F, U+205F and U+3000.
pub open spec fn unicode_white_space(c: char) -> bool {
    let v = c as u32;
    ||| 0x09 <= v <= 0x0D
    ||| v == 0x20
    ||| v == 0x85
    ||| v == 0xA0
    ||| v == 0x1680
    ||| 0x2000 <= v <= 0x200A
    ||| v == 0x2028
    ||| v == 0x2029
    ||| v == 0x202F
    ||| v == 0x205F
    ||| v == 0x3000
}

/// The lowercase form of a string under Unicode's `Lowercase` mapping, as
/// `str::to_lowercase` computes it.
pub uninterp spec fn unicode_lowercase(s: Seq<char>) -> Seq<char>;

/// Whether a character is Unicode whitespace, as `char::is_whitespace`
/// decides it.
pub fn is_whitespace(c: char) -> (r: bool)
    ensures
        r == unicode_white_space(c),
{
    let v = c as u32;
    (0x09 <= v && v <= 0x0D) || v == 0x20 || v == 0x85 || v == 0xA0 || v == 0x1680 || (0x2000 <= v
        && v <= 0x200A) || v == 0x2028 || v == 0x2029 || v == 0x202F || v == 0x205F || v == 0x3000
}

/// `str::to_lowercase`: the contract names the result only.
#[verifier::external_body]
fn to_lowercase(s: &str) -> (r: String)
    ensures
        r@ == unicode_lowercase(s@),
{
    s.to_lowercase()
}

/// `s` without its leading whitespace.
pub open spec fn trim_front(s: Seq<char>) -> Seq<char>
    decreases s.len(),
{
    if s.len() > 0 && unicode_white_space(s[0]) {
        trim_front(s.subrange(1, s.len() as int))
    } else {
        s
    }
}

/// `s` without its trailing whitespace.
pub open spec fn trim_back(s: Seq<char>) -> Seq<char>
    decreases s.len(),
{
    if s.len() > 0 && unicode_white_space(s[s.len() - 1]) {
        trim_back(s.subrange(0, s.len() - 1))
    } else {
        s
    }
}

/// `s` without leading and trailing whitespace, as `str::trim` gives it.
pub open spec fn trim_spec(s: Seq<char>) -> Seq<char> {
    trim_back(trim_front(s))
}

/// Removing leading whitespace drops exactly a whitespace prefix, up to
/// the first character that is not whitespace.
pub proof fn lemma_trim_front_shape(s: Seq<char>)
    ensures
        exists|a: int|
            0 <= a <= s.len() && trim_front(s) == s.subrange(a, s.len() as int) && (forall|i: int|
                0 <= i < a ==> unicode_white_space(#[trigger] s[i])) && (a < s.len()
                ==> !unicode_white_space(s[a])),
    decreases s.len(),
{
    if s.len() > 0 && unicode_white_space(s[0]) {
        let t = s.subrange(1, s.len() as int);
        lemma_trim_front_shape(t);
        let a = choose|a: int|
            0 <= a <= t.len() && trim_front(t) == t.subrange(a, t.len() as int) && (forall|i: int|
                0 <= i < a ==> unicode_white_space(#[trigger] t[i])) && (a < t.len()
                ==> !unicode_white_space(t[a]));
        assert(t.subrange(a, t.len() as int) =~= s.subrange(a + 1, s.len() as int));
        assert forall|i: int| 0 <= i < a + 1 implies unicode_white_space(#[trigger] s[i]) by {
            if i > 0 {
                assert(s[i] == t[i - 1]);
            }
        }
        assert(a + 1 < s.len() ==> s[a + 1] == t[a]);
    } else {
        assert(s.subrange(0, s.len() as int) =~= s);
    }
}

/// Removing trailing whitespace drops exactly a whitespace suffix, back to
/// the last character that is not whitespace.
pub proof fn lemma_trim_back_shape(s: Seq<char>)
    ensures
        exists|b: int|
            0 <= b <= s.len() && trim_back(s) == s.subrange(0, b) && (forall|i: int|
                b <= i < s.len() ==> unicode_white_space(#[trigger] s[i])) && (b > 0
                ==> !unicode_white_space(s[b - 1])),
    decreases s.len(),
{
    if s.len() > 0 && unicode_white_space(s[s.len() - 1]) {
        let t = s.subrange(0, s.len() - 1);
        lemma_trim_back_shape(t);
        let b = choose|b: int|
            0 <= b <= t.len() && trim_back(t) == t.subrange(0, b) && (forall|i: int|
                b <= i < t.len() ==> unicode_white_space(#[trigger] t[i])) && (b > 0
                ==> !unicode_white_space(t[b - 1]));
        assert(t.subrange(0, b) =~= s.subrange(0, b));
        assert forall|i: int| b <= i < s.len() implies unicode_white_space(#[trigger] s[i]) by {
            if i < s.len() - 1 {
                assert(s[i] == t[i]);
            }
        }
        assert(b > 0 ==> s[b - 1] == t[b - 1]);
    } else {
        assert(s.subrange(0, s.len() as int) =~= s);
    }
}

/// Trimming keeps a contiguous part `s[a..b]` of the input and drops only
/// whitespace before and after it; what is kept neither begins nor ends
/// with whitespace, so nothing more could be dropped.
pub proof fn lemma_trim_shape(s: Seq<char>)
    ensures
        exists|a: int, b: int|
            0 <= a <= b <= s.len() && trim_spec(s) == s.subrange(a, b) && (forall|i: int|
                0 <= i < a ==> unicode_white_space(#[trigger] s[i])) && (forall|i: int|
                b <= i < s.len() ==> unicode_white_space(#[trigger] s[i])) && (a < b
                ==> !unicode_white_space(s[a]) && !unicode_white_space(s[b - 1])),
        trim_spec(s).len() > 0 ==> !unicode_white_space(trim_spec(s)[0]) && !unicode_white_space(
            trim_spec(s)[trim_spec(s).len() - 1],
        ),
{
    lemma_trim_front_shape(s);
    let a = choose|a: int|
        0 <= a <= s.len() && trim_front(s) == s.subrange(a, s.len() as int) && (forall|i: int|
            0 <= i < a ==> unicode_white_space(#[trigger] s[i])) && (a < s.len()
            ==> !unicode_white_space(s[a]));
    let f = s.subrange(a, s.len() as int);
    lemma_trim_back_shape(f);
    let c = choose|c: int|
        0 <= c <= f.len() && trim_back(f) == f.subrange(0, c) && (forall|i: int|
            c <= i < f.len() ==> unicode_white_space(#[trigger] f[i])) && (c > 0
            ==> !unicode_white_space(f[c - 1]));
    let b = a + c;
    assert(f.subrange(0, c) =~= s.subrange(a, b));
    assert forall|i: int| b <= i < s.len() implies unicode_white_space(#[trigger] s[i]) by {
        assert(s[i] == f[i - a]);
    }
    if a < b {
        assert(s[a] == f[0]);
        assert(s[b - 1] == f[c - 1]);
    }
    assert(0 <= a <= b <= s.len() && trim_spec(s) == s.subrange(a, b) && (forall|i: int|
        0 <= i < a ==> unicode_white_space(#[trigger] s[i])) && (forall|i: int|
        b <= i < s.len() ==> unicode_white_space(#[trigger] s[i])) && (a < b
        ==> !unicode_white_space(s[a]) && !unicode_white_space(s[b - 1])));
}

/// Whitespace appended or prepended does not change the trimmed text.
pub proof fn lemma_trim_ignores_surrounding_whitespace(s: Seq<char>, w: Seq<char>)
    requires
        forall|i: int| 0 <= i < w.len() ==> unicode_white_space(#[trigger] w[i]),
    ensures
        trim_spec(s + w) == trim_spec(s),
        trim_spec(w + s) == trim_spec(s),
{
    let sw = s + w;
    let ws = w + s;
    assert(sw.subrange(0, s.len() as int) =~= s);
    assert(ws.subrange(w.len() as int, (w.len() + s.len()) as int) =~= s);
    assert forall|i: int| s.len() <= i < sw.len() implies unicode_white_space(#[trigger] sw[i]) by {
        assert(sw[i] == w[i - s.len()]);
    }
    assert forall|i: int| 0 <= i < w.len() implies unicode_white_space(#[trigger] ws[i]) by {
        assert(ws[i] == w[i]);
    }
    lemma_trim_equal_by_core(s, sw, 0);
    lemma_trim_equal_by_core(s, ws, w.len() as int);
}

/// Two texts trim alike when one is the other with whitespace added around.
proof fn lemma_trim_equal_by_core(s: Seq<char>, t: Seq<char>, off: int)
    requires
        0 <= off <= t.len() - s.len(),
        t.subrange(off, off + s.len()) == s,
        forall|i: int| 0 <= i < off ==> unicode_white_space(#[trigger] t[i]),
        forall|i: int| off + s.len() <= i < t.len() ==> unicode_white_space(#[trigger] t[i]),
    ensures
        trim_spec(t) == trim_spec(s),
{
    lemma_trim_shape(s);
    lemma_trim_shape(t);
    let (a, b) = choose|a: int, b: int|
        0 <= a <= b <= s.len() && trim_spec(s) == s.subrange(a, b) && (forall|i: int|
            0 <= i < a ==> unicode_white_space(#[trigger] s[i])) && (forall|i: int|
            b <= i < s.len() ==> unicode_white_space(#[trigger] s[i])) && (a < b
            ==> !unicode_white_space(s[a]) && !unicode_white_space(s[b - 1]));
    let (c, d) = choose|c: int, d: int|
        0 <= c <= d <= t.len() && trim_spec(t) == t.subrange(c, d) && (forall|i: int|
            0 <= i < c ==> unicode_white_space(#[trigger] t[i])) && (forall|i: int|
            d <= i < t.len() ==> unicode_white_space(#[trigger] t[i])) && (c < d
            ==> !unicode_white_space(t[c]) && !unicode_white_space(t[d - 1]));
    assert forall|i: int| 0 <= i < s.len() implies t[off + i] == s[i] by {
        assert(t.subrange(off, off + s.len())[i] == t[off + i]);
    }
    if a < b {
        // s[a] is the first non-whitespace character of t, s[b - 1] the last.
        assert(t[off + a] == s[a]);
        assert(t[off + b - 1] == s[b - 1]);
        assert forall|i: int| 0 <= i < off + a implies unicode_white_space(#[trigger] t[i]) by {
            if i >= off {
                assert(t[i] == s[i - off]);
            }
        }
        assert forall|i: int| off + b <= i < t.len() implies unicode_white_space(#[trigger] t[i]) by {
            if i < off + s.len() {
                assert(t[i] == s[i - off]);
            }
        }
        if c < off + a {
            assert(unicode_white_space(t[c]));
        }
        if c > off + a {
            assert(!unicode_white_space(t[off + a]));
        }
        if d > off + b {
            assert(unicode_white_space(t[d - 1]));
        }
        if d < off + b {
            assert(!unicode_white_space(t[off + b - 1]));
        }
        assert(c == off + a && d == off + b);
        assert(t.subrange(c, d) =~= s.subrange(a, b));
    } else {
        // s is all whitespace, hence so is t.
        assert forall|i: int| 0 <= i < t.len() implies unicode_white_space(#[trigger] t[i]) by {
            if off <= i < off + s.len() {
                assert(t[i] == s[i - off]);
                if i - off < a {
                } else {
                    assert(i - off >= b);
                }
            }
        }
        if c < d {
            assert(unicode_white_space(t[c]));
        }
        assert(t.subrange(c, d) =~= s.subrange(a, b));
    }
}

/// `s` without leading and trailing whitespace.
pub fn trim(s: &str) -> (r: String)
    ensures
        r@ == trim_spec(s@),
{
    let n = s.unicode_len();
    let mut a: usize = 0;
    assert(s@.subrange(0, n as int) =~= s@);
    while a < n && is_whitespace(s.get_char(a))
        invariant
            n == s@.len(),
            0 <= a <= n,
            trim_front(s@) == trim_front(s@.subrange(a as int, n as int)),
        decreases n - a,
    {
        assert(s@.subrange(a as int, n as int).subrange(1, n - a) =~= s@.subrange(a + 1, n as int));
        a = a + 1;
    }
    assert(trim_front(s@) == s@.subrange(a as int, n as int));
    let mut b: usize = n;
    while b > a && is_whitespace(s.get_char(b - 1))
        invariant
            n == s@.len(),
            0 <= a <= b <= n,
            trim_spec(s@) == trim_back(s@.subrange(a as int, b as int)),
        decreases b - a,
    {
        assert(s@.subrange(a as int, b as int).subrange(0, b - a - 1) =~= s@.subrange(a as int, b - 1));
        b = b - 1;
    }
    String::from_str(s.substring_char(a, b))
}

/// The form of a URL under which visits are compared: trimmed, then
/// lowercased.
pub open spec fn normalized_url(url: Seq<char>) -> Seq<char> {
    unicode_lowercase(trim_spec(url))
}

/// A URL's normalized form.
pub fn normalize_url(url: &str) -> (r: String)
    ensures
        r@ == normalized_url(url@),
{
    let t = trim(url);
    to_lowercase(t.as_str())
}

/// Whether a character is a lowercase hex digit.
pub open spec fn lower_hex_digit(c: char) -> bool {
    ('0' <= c && c <= '9') || ('a' <= c && c <= 'f')
}

/// The text of a version-7 UUID in hyphenated form: 36 characters,
/// lowercase hex digits with hyphens at positions 8, 13, 18 and 23, the
/// version digit `7` at position 14 and a variant digit `8`, `9`, `a` or `b`
/// at position 19.
pub open spec fn uuid_v7_text(s: Seq<char>) -> bool {
    &&& s.len() == 36
    &&& forall|i: int|
        0 <= i < 36 && i != 8 && i != 13 && i != 18 && i != 23 ==> lower_hex_digit(#[trigger] s[i])
    &&& s[8] == '-' && s[13] == '-' && s[18] == '-' && s[23] == '-'
    &&& s[14] == '7'
    &&& (s[19] == '8' || s[19] == '9' || s[19] == 'a' || s[19] == 'b')
}

/// `uuid::Uuid::now_v7` written out: a new time-ordered identifier whose
/// text has the version-7 shape (the crate sets the version and variant
/// bits and formats in lowercase with hyphens); its digits are not claimed.
#[verifier::external_body]
fn fresh_uuid() -> (r: String)
    ensures
        uuid_v7_text(r@),
{
    uuid::Uuid::now_v7().to_string()
}

/// `chrono::Utc::now().timestamp_millis()`: the clock; nothing is claimed.
#[verifier::external_body]
fn now_millis() -> (r: i64) {
    chrono::Utc::now().timestamp_millis()
}

/// The token extensions must present: the stored token without surrounding
/// whitespace, or, where none is stored yet, a new UUID that is to be
/// stored (the flag says so).
pub fn extension_token(stored: Option<&str>) -> (r: (String, bool))
    ensures
        match stored {
            Some(s) => r.0@ == trim_spec(s@) && !r.1,
            None => uuid_v7_text(r.0@) && r.1,
        },
{
    match stored {
        Some(s) => (trim(s), false),
        None => (fresh_uuid(), true),
    }
}

/// A `visited` message from the extension: every field may be missing.
pub struct RawVisit {
    pub id: Option<String>,
    pub url: Option<String>,
    pub title: Option<String>,
    pub timestamp: Option<i64>,
}

/// An entry of the event log that records a change to the history.
pub struct EventLogEntry {
    pub uuid: String,
    pub operation: String,
    pub timestamp: i64,
    pub vector_clock: String,
    pub device: String,
}

/// The log entry for an added visit: same id, time and device, operation
/// `VisitedAdded`, an empty vector clock `{}`.
pub open spec fn visit_event_spec(item: HistoryItem, entry: EventLogEntry) -> bool {
    &&& entry.uuid@ == item.uuid@
    &&& entry.operation@ == "VisitedAdded"@
    &&& entry.timestamp == item.timestamp
    &&& entry.vector_clock@ == "{}"@
    &&& entry.device@ == item.device@
}

impl EventLogEntry {
    /// The log entry that records adding `item` to the history.
    pub fn for_visit(item: &HistoryItem) -> (entry: EventLogEntry)
        ensures
            visit_event_spec(*item, entry),
    {
        EventLogEntry {
            uuid: item.uuid.clone(),
            operation: String::from_str("VisitedAdded"),
            timestamp: item.timestamp,
            vector_clock: String::from_str("{}"),
            device: item.device.clone(),
        }
    }
}

/// The history row of a visit reported by the local extension, given the
/// id and time to use where the message carries none.
pub open spec fn local_visit_spec(raw: RawVisit, fresh_id: Seq<char>, now: i64, item: HistoryItem) -> bool {
    let url = match raw.url {
        Some(u) => u@,
        None => Seq::empty(),
    };
    &&& item.uuid@ == match raw.id {
        Some(id) => id@,
        None => fresh_id,
    }
    &&& item.url@ == url
    &&& item.normalized_url@ == normalized_url(url)
    &&& item.title@ == match raw.title {
        Some(t) => t@,
        None => Seq::empty(),
    }
    &&& item.timestamp == match raw.timestamp {
        Some(t) => t,
        None => now,
    }
    &&& item.browser@ == "extension"@
    &&& item.device@ == "local"@
    &&& item.hash@ == Seq::<char>::empty()
    &&& item.visit_type@ == "visited"@
}

fn string_or_empty(s: Option<String>) -> (r: String)
    ensures
        r@ == match s {
            Some(v) => v@,
            None => Seq::<char>::empty(),
        },
{
    match s {
        Some(v) => v,
        None => String::new(),
    }
}

/// The history row and log entry for a visit reported by the local
/// extension, with `fresh_id` and `now` standing in for a missing id and
/// time.
pub fn local_visit(raw: RawVisit, fresh_id: String, now: i64) -> (r: (HistoryItem, EventLogEntry))
    ensures
        local_visit_spec(raw, fresh_id@, now, r.0),
        visit_event_spec(r.0, r.1),
{
    let ghost raw0 = raw;
    let uuid = match raw.id {
        Some(id) => id,
        None => fresh_id,
    };
    let url = string_or_empty(raw.url);
    let normalized = normalize_url(url.as_str());
    let title = string_or_empty(raw.title);
    let timestamp = match raw.timestamp {
        Some(t) => t,
        None => now,
    };
    let item = HistoryItem {
        uuid,
        url,
        normalized_url: normalized,
        title,
        timestamp,
        browser: String::from_str("extension"),
        device: String::from_str("local"),
        hash: String::new(),
        visit_type: String::from_str("visited"),
    };
    let entry = EventLogEntry::for_visit(&item);
    (item, entry)
}

/// The history row and log entry for a visit reported by the local
/// extension; a missing id becomes a new UUID and a missing time the
/// current time.
pub fn record_visit(raw: RawVisit) -> (r: (HistoryItem, EventLogEntry))
    ensures
        exists|fresh_id: Seq<char>, now: i64| #[trigger] local_visit_spec(raw, fresh_id, now, r.0),
        raw.id is None ==> uuid_v7_text(r.0.uuid@),
        visit_event_spec(r.0, r.1),
{
    let fresh_id = match raw.id {
        Some(_) => String::new(),
        None => fresh_uuid(),
    };
    let now = match raw.timestamp {
        Some(_) => 0,
        None => now_millis(),
    };
    let ghost f = fresh_id@;
    let r = local_visit(raw, fresh_id, now);
    assert(local_visit_spec(raw, f, now, r.0));
    r
}

/// The kinds of message an extension sends.
#[derive(Debug, Clone, Copy, PartialEq, Eq, Structural)]
pub enum ExtensionEvent {
    Hello,
    Visited,
    CookieChanged,
    CookieDeleted,
    Other,
}

/// The kind that an `event` field names.
pub open spec fn event_kind(event: Seq<char>) -> ExtensionEvent {
    if event == "hello"@ {
        ExtensionEvent::Hello
    } else if event == "visited"@ {
        ExtensionEvent::Visited
    } else if event == "cookie_changed"@ {
        ExtensionEvent::CookieChanged
    } else if event == "cookie_deleted"@ {
        ExtensionEvent::CookieDeleted
    } else {
        ExtensionEvent::Other
    }
}

impl ExtensionEvent {
    /// The kind of an extension message by its `event` field.
    pub fn classify(event: &str) -> (k: ExtensionEvent)
        ensures
            k == event_kind(event@),
    {
        let e = String::from_str(event);
        if e == String::from_str("hello") {
            ExtensionEvent::Hello
        } else if e == String::from_str("visited") {
            ExtensionEvent::Visited
        } else if e == String::from_str("cookie_changed") {
            ExtensionEvent::CookieChanged
        } else if e == String::from_str("cookie_deleted") {
            ExtensionEvent::CookieDeleted
        } else {
            ExtensionEvent::Other
        }
    }
}

/// The connections that hear a change reported on `origin`: every other one,
/// in order.
pub fn broadcast_targets(connections: &Vec<String>, origin: &String) -> (r: Vec<String>)
    ensures
        string_views(r@) == other_connections(string_views(connections@), origin@),
{
    let ghost keep = |c: Seq<char>| c != origin@;
    let mut r: Vec<String> = Vec::new();
    let mut i: usize = 0;
    while i < connections.len()
        invariant
            0 <= i <= connections@.len(),
            keep == (|c: Seq<char>| c != origin@),
            string_views(r@) == string_views(connections@).take(i as int).filter(keep),
        decreases connections@.len() - i,
    {
        proof {
            reveal_with_fuel(Seq::<_>::filter, 1);
            assert(string_views(connections@).take(i + 1).drop_last() =~= string_views(connections@).take(
                i as int,
            ));
        }
        let c = &connections[i];
        if *c != *origin {
            r.push(c.clone());
            assert(string_views(r@) =~= string_views(connections@).take(i as int).filter(keep).push(c@));
        }
        i = i + 1;
    }
    assert(string_views(connections@).take(connections@.len() as int) =~= string_views(connections@));
    r
}

/// The connections other than `origin`, in order.
pub open spec fn other_connections(connections: Seq<Seq<char>>, origin: Seq<char>) -> Seq<Seq<char>> {
    connections.filter(|c: Seq<char>| c != origin)
}

/// A change reported on one connection is never sent back to it, and every
/// other connection hears it.
pub proof fn lemma_broadcast_skips_origin(connections: Seq<Seq<char>>, origin: Seq<char>)
    ensures
        !other_connections(connections, origin).contains(origin),
        forall|c: Seq<char>|
            connections.contains(c) && c != origin ==> #[trigger] other_connections(
                connections,
                origin,
            ).contains(c),
{
    let keep = |c: Seq<char>| c != origin;
    let kept = connections.filter(keep);
    assert forall|i: int| 0 <= i < kept.len() implies kept[i] != origin by {
        connections.lemma_filter_pred(keep, i);
    }
    assert forall|c: Seq<char>| connections.contains(c) && c != origin implies #[trigger] other_connections(
        connections,
        origin,
    ).contains(c) by {
        let i = choose|i: int| 0 <= i < connections.len() && connections[i] == c;
        connections.lemma_filter_contains(keep, i);
    }
}

} // verus!
