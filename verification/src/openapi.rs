use vstd::prelude::*;
use vstd::string::*;

use crate::project::{occurs_at, replace_all};
use crate::registry::{find_seq, lemma_find_seq};
use crate::text::{chars_of, push_char, push_str};

verus! {

/// Options of a generated OpenAPI document.
#[derive(Debug, Clone)]
pub struct OpenApiOptions {
    pub title: String,
    pub version: String,
    pub api_prefix: String,
}

impl Default for OpenApiOptions {
    fn default() -> (o: OpenApiOptions)
        ensures
            o.title@ == "che-rest API"@,
            o.version@ == "0.1.0"@,
            o.api_prefix@ == "/api"@,
    {
        OpenApiOptions {
            title: String::from_str("che-rest API"),
            version: String::from_str("0.1.0"),
            api_prefix: String::from_str("/api"),
        }
    }
}

/// The HTML-escaped form of one character.
pub open spec fn html_escape_char(c: char) -> Seq<char> {
    if c == '&' {
        seq!['&', 'a', 'm', 'p', ';']
    } else if c == '<' {
        seq!['&', 'l', 't', ';']
    } else if c == '>' {
        seq!['&', 'g', 't', ';']
    } else if c == '"' {
        seq!['&', 'q', 'u', 'o', 't', ';']
    } else {
        seq![c]
    }
}

/// The JavaScript single-quoted-string escape of one character.
pub open spec fn js_escape_char(c: char) -> Seq<char> {
    if c == '\\' {
        seq!['\\', '\\']
    } else if c == '\'' {
        seq!['\\', '\'']
    } else {
        seq![c]
    }
}

/// `s` with every `&`, `<`, `>` and `"` replaced by its HTML entity.
pub open spec fn html_escaped(s: Seq<char>) -> Seq<char>
    decreases s.len(),
{
    if s.len() == 0 { Seq::empty() } else { html_escaped(s.drop_last()) + html_escape_char(s.last()) }
}

/// `s` with every `\` and `'` preceded by a backslash.
pub open spec fn js_escaped(s: Seq<char>) -> Seq<char>
    decreases s.len(),
{
    if s.len() == 0 { Seq::empty() } else { js_escaped(s.drop_last()) + js_escape_char(s.last()) }
}

/// Escapes text for HTML element content and attribute values.
pub fn html_escape(value: &str) -> (r: String)
    ensures r@ == html_escaped(value@),
{
    let s = chars_of(value);
    let mut out = String::new();
    let mut i: usize = 0;
    while i < s.len()
        invariant
            s@ == value@,
            i <= s.len(),
            out@ == html_escaped(s@.take(i as int)),
        decreases s.len() - i,
    {
        let c = s[i];
        if c == '&' {
            push_str(&mut out, "&amp;");
        } else if c == '<' {
            push_str(&mut out, "&lt;");
        } else if c == '>' {
            push_str(&mut out, "&gt;");
        } else if c == '"' {
            push_str(&mut out, "&quot;");
        } else {
            push_char(&mut out, c);
        }
        proof {
            reveal_strlit("&amp;");
            reveal_strlit("&lt;");
            reveal_strlit("&gt;");
            reveal_strlit("&quot;");
            assert(s@.take(i + 1).drop_last() =~= s@.take(i as int));
            assert(out@ =~= html_escaped(s@.take(i + 1)));
        }
        i += 1;
    }
    proof { assert(s@.take(s@.len() as int) =~= s@); }
    out
}

/// Escapes text for a JavaScript single-quoted string.
pub fn js_string_escape(value: &str) -> (r: String)
    ensures r@ == js_escaped(value@),
{
    let s = chars_of(value);
    let mut out = String::new();
    let mut i: usize = 0;
    while i < s.len()
        invariant
            s@ == value@,
            i <= s.len(),
            out@ == js_escaped(s@.take(i as int)),
        decreases s.len() - i,
    {
        let c = s[i];
        if c == '\\' {
            push_char(&mut out, '\\');
            push_char(&mut out, '\\');
        } else if c == '\'' {
            push_char(&mut out, '\\');
            push_char(&mut out, '\'');
        } else {
            push_char(&mut out, c);
        }
        proof {
            assert(s@.take(i + 1).drop_last() =~= s@.take(i as int));
            assert(out@ =~= js_escaped(s@.take(i + 1)));
        }
        i += 1;
    }
    proof { assert(s@.take(s@.len() as int) =~= s@); }
    out
}

/// `s` without trailing `c` characters.
pub open spec fn trim_end_char(s: Seq<char>, c: char) -> Seq<char>
    decreases s.len(),
{
    if s.len() > 0 && s.last() == c { trim_end_char(s.drop_last(), c) } else { s }
}

/// `s` without leading `c` characters.
pub open spec fn trim_start_char(s: Seq<char>, c: char) -> Seq<char>
    decreases s.len(),
{
    if s.len() > 0 && s[0] == c { trim_start_char(s.skip(1), c) } else { s }
}

/// `s` without leading and trailing `c` characters.
pub open spec fn trim_char(s: Seq<char>, c: char) -> Seq<char> {
    trim_end_char(trim_start_char(s, c), c)
}

/// `s` with every non-overlapping `//`, left to right, replaced by `/`.
pub open spec fn collapse_slashes(s: Seq<char>) -> Seq<char>
    decreases s.len(),
{
    if s.len() >= 2 && s[0] == '/' && s[1] == '/' {
        seq!['/'] + collapse_slashes(s.skip(2))
    } else if s.len() == 0 {
        Seq::empty()
    } else {
        seq![s[0]] + collapse_slashes(s.skip(1))
    }
}

/// The bounds of `s` without trailing `c` characters.
fn trim_end_bound(s: &Vec<char>, lo: usize, hi: usize, c: char) -> (r: usize)
    requires lo <= hi <= s.len(),
    ensures
        lo <= r <= hi,
        s@.subrange(lo as int, r as int) == trim_end_char(s@.subrange(lo as int, hi as int), c),
    decreases hi - lo,
{
    if hi > lo && s[hi - 1] == c {
        proof {
            assert(s@.subrange(lo as int, hi as int).drop_last() =~= s@.subrange(lo as int, hi - 1));
        }
        trim_end_bound(s, lo, hi - 1, c)
    } else {
        r_id(hi)
    }
}

fn r_id(x: usize) -> (r: usize)
    ensures r == x,
{
    x
}

/// The bounds of `s` without leading `c` characters.
fn trim_start_bound(s: &Vec<char>, lo: usize, hi: usize, c: char) -> (r: usize)
    requires lo <= hi <= s.len(),
    ensures
        lo <= r <= hi,
        s@.subrange(r as int, hi as int) == trim_start_char(s@.subrange(lo as int, hi as int), c),
    decreases hi - lo,
{
    if hi > lo && s[lo] == c {
        proof {
            assert(s@.subrange(lo as int, hi as int).skip(1) =~= s@.subrange(lo + 1, hi as int));
        }
        trim_start_bound(s, lo + 1, hi, c)
    } else {
        lo
    }
}

/// The length of `s` without trailing `c` characters.
pub(crate) fn trim_end_bound_pub(s: &Vec<char>, c: char) -> (r: usize)
    ensures
        r <= s.len(),
        s@.subrange(0, r as int) == trim_end_char(s@, c),
{
    proof { assert(s@.subrange(0, s@.len() as int) =~= s@); }
    trim_end_bound(s, 0, s.len(), c)
}

/// The bounds of `s` without leading and trailing `c` characters.
pub(crate) fn trim_bounds_pub(s: &Vec<char>, c: char) -> (r: (usize, usize))
    ensures
        r.0 <= r.1 <= s.len(),
        s@.subrange(r.0 as int, r.1 as int) == trim_char(s@, c),
{
    proof { assert(s@.subrange(0, s@.len() as int) =~= s@); }
    let a = trim_start_bound(s, 0, s.len(), c);
    let b = trim_end_bound(s, a, s.len(), c);
    (a, b)
}

/// Replaces each non-overlapping `//` with `/`, left to right.
fn collapse(s: &Vec<char>) -> (r: String)
    ensures r@ == collapse_slashes(s@),
{
    let mut out = String::new();
    let mut i: usize = 0;
    proof { assert(s@.skip(0) =~= s@); }
    while i < s.len()
        invariant
            i <= s.len(),
            collapse_slashes(s@) == out@ + collapse_slashes(s@.skip(i as int)),
        decreases s.len() - i,
    {
        let ghost rest = s@.skip(i as int);
        if i + 1 < s.len() && s[i] == '/' && s[i + 1] == '/' {
            proof {
                assert(rest[0] == '/' && rest[1] == '/');
                assert(rest.skip(2) =~= s@.skip(i + 2));
            }
            push_char(&mut out, '/');
            proof { assert(out@ + collapse_slashes(s@.skip(i + 2)) =~= collapse_slashes(s@)); }
            i += 2;
        } else {
            proof {
                assert(rest[0] == s@[i as int]);
                assert(rest.skip(1) =~= s@.skip(i + 1));
                if i + 1 < s.len() { assert(rest[1] == s@[i + 1]); }
            }
            push_char(&mut out, s[i]);
            proof { assert(out@ + collapse_slashes(s@.skip(i + 1)) =~= collapse_slashes(s@)); }
            i += 1;
        }
    }
    proof { assert(s@.skip(i as int) =~= Seq::<char>::empty()); assert(out@ + Seq::<char>::empty() =~= out@); }
    out
}

/// The collection route of a resource under an API prefix.
pub open spec fn collection_route(api_prefix: Seq<char>, path: Seq<char>) -> Seq<char> {
    collapse_slashes(seq!['/'] + trim_end_char(api_prefix, '/') + seq!['/'] + trim_char(path, '/') + seq!['/'])
}

/// The collection route of a resource: `/{prefix}/{path}/` with doubled
/// slashes collapsed.
pub fn collection_path(api_prefix: &str, path: &str) -> (r: String)
    ensures r@ == collection_route(api_prefix@, path@),
{
    let p = chars_of(api_prefix);
    let q = chars_of(path);
    let pe = trim_end_bound(&p, 0, p.len(), '/');
    let qs = trim_start_bound(&q, 0, q.len(), '/');
    let qe = trim_end_bound(&q, qs, q.len(), '/');
    let mut joined: Vec<char> = Vec::new();
    joined.push('/');
    let mut i: usize = 0;
    while i < pe
        invariant
            i <= pe <= p.len(),
            joined@ == seq!['/'] + p@.subrange(0, i as int),
        decreases pe - i,
    {
        joined.push(p[i]);
        proof { assert(seq!['/'] + p@.subrange(0, i + 1) =~= (seq!['/'] + p@.subrange(0, i as int)).push(p@[i as int])); }
        i += 1;
    }
    joined.push('/');
    let ghost mid = joined@;
    let mut j: usize = qs;
    while j < qe
        invariant
            qs <= j <= qe <= q.len(),
            joined@ == mid + q@.subrange(qs as int, j as int),
        decreases qe - j,
    {
        joined.push(q[j]);
        proof { assert(mid + q@.subrange(qs as int, j + 1) =~= (mid + q@.subrange(qs as int, j as int)).push(q@[j as int])); }
        j += 1;
    }
    joined.push('/');
    proof {
        assert(p@.subrange(0, p@.len() as int) =~= p@);
        assert(q@.subrange(0, q@.len() as int) =~= q@);
        assert(joined@ =~= seq!['/'] + trim_end_char(api_prefix@, '/') + seq!['/'] + trim_char(path@, '/') + seq!['/']);
    }
    collapse(&joined)
}

pub open spec fn id_suffix() -> Seq<char> {
    seq!['{', 'i', 'd', '}', '/']
}

/// The detail route of a resource: its collection route followed by `{id}/`.
pub fn detail_path(api_prefix: &str, path: &str) -> (r: String)
    ensures r@ == collection_route(api_prefix@, path@) + id_suffix(),
{
    let mut r = collection_path(api_prefix, path);
    push_str(&mut r, "{id}/");
    proof { reveal_strlit("{id}/"); assert("{id}/"@ =~= id_suffix()); }
    r
}

pub const SWAGGER_UI_HEAD: &'static str = "<!doctype html>\n<html lang=\"en\">\n  <head>\n    <meta charset=\"utf-8\" />\n    <meta name=\"viewport\" content=\"width=device-width, initial-scale=1\" />\n    <title>";

pub const SWAGGER_UI_MIDDLE: &'static str = "</title>\n    <link rel=\"stylesheet\" href=\"https://unpkg.com/swagger-ui-dist@5/swagger-ui.css\" />\n    <style>\n      html { box-sizing: border-box; overflow-y: scroll; }\n      *, *::before, *::after { box-sizing: inherit; }\n      body { margin: 0; background: #fafafa; }\n    </style>\n  </head>\n  <body>\n    <div id=\"swagger-ui\"></div>\n    <script src=\"https://unpkg.com/swagger-ui-dist@5/swagger-ui-bundle.js\"></script>\n    <script>\n      window.addEventListener('load', () => {\n        window.ui = SwaggerUIBundle({\n          url: '";

pub const SWAGGER_UI_TAIL: &'static str = "',\n          dom_id: '#swagger-ui',\n          deepLinking: true,\n          presets: [SwaggerUIBundle.presets.apis],\n          layout: 'BaseLayout'\n        });\n      });\n    </script>\n  </body>\n</html>\n";

/// A standalone Swagger UI page for the OpenAPI document at `openapi_url`.
pub fn swagger_ui_html(openapi_url: &str, title: &str) -> (r: String)
    ensures
        r@ == SWAGGER_UI_HEAD@ + html_escaped(title@) + SWAGGER_UI_MIDDLE@
            + js_escaped(openapi_url@) + SWAGGER_UI_TAIL@,
{
    let mut r = String::new();
    push_str(&mut r, SWAGGER_UI_HEAD);
    let t = html_escape(title);
    push_str(&mut r, t.as_str());
    push_str(&mut r, SWAGGER_UI_MIDDLE);
    let u = js_string_escape(openapi_url);
    push_str(&mut r, u.as_str());
    push_str(&mut r, SWAGGER_UI_TAIL);
    proof {
        assert(r@ =~= SWAGGER_UI_HEAD@ + html_escaped(title@) + SWAGGER_UI_MIDDLE@ + js_escaped(openapi_url@) + SWAGGER_UI_TAIL@);
    }
    r
}


/// Escaping a concatenation escapes each part.
proof fn lemma_html_escaped_concat(a: Seq<char>, b: Seq<char>)
    ensures html_escaped(a + b) == html_escaped(a) + html_escaped(b),
    decreases b.len(),
{
    if b.len() == 0 {
        assert(a + b =~= a);
        assert(html_escaped(a) + Seq::<char>::empty() =~= html_escaped(a));
    } else {
        lemma_html_escaped_concat(a, b.drop_last());
        assert((a + b).drop_last() =~= a + b.drop_last());
        assert((a + b).last() == b.last());
        assert(html_escaped(a) + html_escaped(b.drop_last()) + html_escape_char(b.last())
            =~= html_escaped(a) + (html_escaped(b.drop_last()) + html_escape_char(b.last())));
    }
}

/// Reads escaped HTML text back: each of `&amp;`, `&lt;`, `&gt;` and
/// `&quot;` gives its character, any other character itself.
pub open spec fn html_unescaped(t: Seq<char>) -> Seq<char>
    decreases t.len(),
{
    if t.len() == 0 {
        Seq::empty()
    } else if t.len() >= 5 && t.take(5) == seq!['&', 'a', 'm', 'p', ';'] {
        seq!['&'] + html_unescaped(t.skip(5))
    } else if t.len() >= 4 && t.take(4) == seq!['&', 'l', 't', ';'] {
        seq!['<'] + html_unescaped(t.skip(4))
    } else if t.len() >= 4 && t.take(4) == seq!['&', 'g', 't', ';'] {
        seq!['>'] + html_unescaped(t.skip(4))
    } else if t.len() >= 6 && t.take(6) == seq!['&', 'q', 'u', 'o', 't', ';'] {
        seq!['"'] + html_unescaped(t.skip(6))
    } else {
        seq![t[0]] + html_unescaped(t.skip(1))
    }
}

/// Law: escaped text holds no `<`, `>` or `"`, and reads back to the
/// original text.
pub proof fn law_html_escape_round_trip(s: Seq<char>)
    ensures
        forall|i: int| 0 <= i < html_escaped(s).len() ==> {
            let c = #[trigger] html_escaped(s)[i];
            c != '<' && c != '>' && c != '"'
        },
        html_unescaped(html_escaped(s)) == s,
    decreases s.len(),
{
    if s.len() > 0 {
        let c = s[0];
        let rest = s.drop_first();
        law_html_escape_round_trip(rest);
        assert(s =~= seq![c] + rest);
        lemma_html_escaped_concat(seq![c], rest);
        assert(seq![c].drop_last() =~= Seq::<char>::empty());
        assert(seq![c].last() == c);
        assert(html_escaped(Seq::<char>::empty()) =~= Seq::<char>::empty());
        assert(html_escaped(seq![c]) =~= html_escape_char(c));
        let e = html_escape_char(c);
        let t = e + html_escaped(rest);
        assert(html_escaped(s) == t);
        assert(t.skip(e.len() as int) =~= html_escaped(rest));
        assert(t.take(e.len() as int) =~= e);
        if c == '&' {
            assert(t.take(5) =~= seq!['&', 'a', 'm', 'p', ';']);
        } else if c == '<' {
            assert(t.take(4) =~= seq!['&', 'l', 't', ';']);
            if t.len() >= 5 { assert(t.take(5)[1] == 'l'); }
        } else if c == '>' {
            assert(t.take(4) =~= seq!['&', 'g', 't', ';']);
            if t.len() >= 5 { assert(t.take(5)[1] == 'g'); }
            if t.len() >= 4 { assert(t.take(4)[1] == 'g'); }
        } else if c == '"' {
            assert(t.take(6) =~= seq!['&', 'q', 'u', 'o', 't', ';']);
            if t.len() >= 5 { assert(t.take(5)[1] == 'q'); }
            if t.len() >= 4 { assert(t.take(4)[1] == 'q'); }
        } else {
            assert(t[0] == c);
            if t.len() >= 5 { assert(t.take(5)[0] == c); }
            if t.len() >= 4 { assert(t.take(4)[0] == c); }
            if t.len() >= 6 { assert(t.take(6)[0] == c); }
        }
        assert(seq![c] + rest =~= s);
        assert forall|i: int| 0 <= i < t.len() implies {
            let x = #[trigger] t[i];
            x != '<' && x != '>' && x != '"'
        } by {
            if i >= e.len() {
                assert(t[i] == html_escaped(rest)[i - e.len()]);
            }
        }
    } else {
        assert(html_escaped(s) =~= Seq::<char>::empty());
    }
}

/// The character whose entity the `k`-th replacement of
/// `html_unescape_steps` reads back (1: `"`, 2: `>`, 3: `<`, 4: `&`).
pub open spec fn stage_char(k: int) -> char {
    if k == 1 { '"' } else if k == 2 { '>' } else if k == 3 { '<' } else { '&' }
}

/// The escaped form of `c` once the first `k` replacements are done.
pub open spec fn unescape_stage(c: char, k: int) -> Seq<char> {
    if (k >= 1 && c == '"') || (k >= 2 && c == '>') || (k >= 3 && c == '<') || (k >= 4 && c == '&') {
        seq![c]
    } else {
        html_escape_char(c)
    }
}

/// The escape of `s` once the first `k` replacements are done.
pub open spec fn staged(s: Seq<char>, k: int) -> Seq<char>
    decreases s.len(),
{
    if s.len() == 0 { Seq::empty() } else { unescape_stage(s[0], k) + staged(s.drop_first(), k) }
}

/// Escaped HTML read back the way `str::replace` does it: `&quot;`, then
/// `&gt;`, then `&lt;`, and last `&amp;`, each replaced by its character.
pub open spec fn html_unescape_steps(t: Seq<char>) -> Seq<char> {
    replace_all(
        replace_all(
            replace_all(
                replace_all(t, html_escape_char('"'), seq!['"']),
                html_escape_char('>'), seq!['>']),
            html_escape_char('<'), seq!['<']),
        html_escape_char('&'), seq!['&'])
}

proof fn lemma_occurs_start(s: Seq<char>, p: Seq<char>, i: int)
    requires occurs_at(s, p, i), p.len() >= 2,
    ensures s[i] == p[0], s[i + 1] == p[1],
{
    assert(s.subrange(i, i + p.len())[0] == s[i]);
    assert(s.subrange(i, i + p.len())[1] == s[i + 1]);
}

proof fn lemma_find_before(s: Seq<char>, p: Seq<char>, j: int, n: int)
    requires 0 <= j <= n, forall|i: int| j <= i < n ==> !occurs_at(s, p, i),
    ensures find_seq(s, p, j) == find_seq(s, p, n),
    decreases n - j,
{
    if j < n {
        if !(j + p.len() > s.len()) {
            assert(!occurs_at(s, p, j));
        }
        lemma_find_before(s, p, j + 1, n);
    }
}

proof fn lemma_find_shift(u: Seq<char>, t: Seq<char>, p: Seq<char>, j: int)
    requires 0 <= j,
    ensures
        find_seq(u + t, p, u.len() + j) == (if find_seq(t, p, j) < 0 { -1 } else { u.len() + find_seq(t, p, j) }),
    decreases t.len() + 1 - j,
{
    let s = u + t;
    if j + p.len() <= t.len() {
        assert(s.subrange(u.len() + j, u.len() + j + p.len()) =~= t.subrange(j, j + p.len()));
        lemma_find_shift(u, t, p, j + 1);
    }
}

proof fn lemma_replace_front_match(u: Seq<char>, t: Seq<char>, pat: Seq<char>, rep: Seq<char>)
    requires pat.len() > 0, u == pat,
    ensures replace_all(u + t, pat, rep) == rep + replace_all(t, pat, rep),
{
    let s = u + t;
    assert(s.subrange(0, pat.len() as int) =~= pat);
    assert(find_seq(s, pat, 0) == 0);
    assert(s.take(0) =~= Seq::<char>::empty());
    assert(s.skip(pat.len() as int) =~= t);
    assert(Seq::<char>::empty() + rep =~= rep);
}

proof fn lemma_replace_front_skip(u: Seq<char>, t: Seq<char>, pat: Seq<char>, rep: Seq<char>)
    requires pat.len() > 0, forall|i: int| 0 <= i < u.len() ==> !occurs_at(u + t, pat, i),
    ensures replace_all(u + t, pat, rep) == u + replace_all(t, pat, rep),
{
    let s = u + t;
    lemma_find_before(s, pat, 0, u.len() as int);
    lemma_find_shift(u, t, pat, 0);
    let k = find_seq(t, pat, 0);
    lemma_find_seq(t, pat, 0);
    if k < 0 {
        assert(find_seq(s, pat, 0) < 0);
    } else {
        assert(find_seq(s, pat, 0) == u.len() + k);
        assert(s.take(u.len() + k) =~= u + t.take(k));
        assert(s.skip(u.len() + k + pat.len()) =~= t.skip(k + pat.len()));
        assert(u + t.take(k) + rep + replace_all(t.skip(k + pat.len()), pat, rep)
            =~= u + (t.take(k) + rep + replace_all(t.skip(k + pat.len()), pat, rep)));
    }
}

proof fn lemma_stage(s: Seq<char>, k: int)
    requires 1 <= k <= 4,
    ensures
        replace_all(staged(s, k - 1), html_escape_char(stage_char(k)), seq![stage_char(k)]) == staged(s, k),
    decreases s.len(),
{
    let pat = html_escape_char(stage_char(k));
    let rep = seq![stage_char(k)];
    assert(pat.len() >= 4 && pat[0] == '&');
    if s.len() == 0 {
        assert(find_seq(Seq::<char>::empty(), pat, 0) == -1);
    } else {
        let c = s[0];
        let rest = s.drop_first();
        lemma_stage(rest, k);
        let u = unescape_stage(c, k - 1);
        let t = staged(rest, k - 1);
        assert(staged(s, k - 1) == u + t);
        if c == stage_char(k) {
            assert(u == pat);
            lemma_replace_front_match(u, t, pat, rep);
            assert(unescape_stage(c, k) =~= rep);
        } else {
            assert(unescape_stage(c, k) == u);
            assert forall|i: int| 0 <= i < u.len() implies !occurs_at(u + t, pat, i) by {
                if occurs_at(u + t, pat, i) {
                    lemma_occurs_start(u + t, pat, i);
                    assert((u + t)[i] == u[i]);
                    if i == 0 && u.len() > 1 {
                        assert((u + t)[1] == u[1]);
                    }
                }
            }
            lemma_replace_front_skip(u, t, pat, rep);
        }
    }
}

proof fn lemma_staged_escape(s: Seq<char>)
    ensures staged(s, 0) == html_escaped(s),
    decreases s.len(),
{
    if s.len() > 0 {
        let c = s[0];
        let rest = s.drop_first();
        lemma_staged_escape(rest);
        assert(s =~= seq![c] + rest);
        lemma_html_escaped_concat(seq![c], rest);
        assert(seq![c].drop_last() =~= Seq::<char>::empty());
        assert(seq![c].last() == c);
        assert(html_escaped(Seq::<char>::empty()) =~= Seq::<char>::empty());
        assert(html_escaped(seq![c]) =~= html_escape_char(c));
    }
}

proof fn lemma_staged_done(s: Seq<char>)
    ensures staged(s, 4) == s,
    decreases s.len(),
{
    if s.len() > 0 {
        lemma_staged_done(s.drop_first());
        assert(unescape_stage(s[0], 4) =~= seq![s[0]]);
        assert(s =~= seq![s[0]] + s.drop_first());
    }
}

/// Law: escaped HTML read back with `str::replace` (`&quot;`, `&gt;`,
/// `&lt;`, and last `&amp;`) gives the original text.
pub proof fn law_html_unescape_by_replacement(s: Seq<char>)
    ensures html_unescape_steps(html_escaped(s)) == s,
{
    lemma_staged_escape(s);
    lemma_stage(s, 1);
    lemma_stage(s, 2);
    lemma_stage(s, 3);
    lemma_stage(s, 4);
    lemma_staged_done(s);
}

/// Law: text with no `&`, `<`, `>` or `"` is left as it is.
pub proof fn law_html_escape_plain_text(s: Seq<char>)
    requires forall|i: int| 0 <= i < s.len() ==> s[i] != '&' && s[i] != '<' && s[i] != '>' && s[i] != '"',
    ensures html_escaped(s) == s,
    decreases s.len(),
{
    if s.len() > 0 {
        law_html_escape_plain_text(s.drop_last());
        assert(s =~= s.drop_last().push(s.last()));
        assert(html_escape_char(s.last()) =~= seq![s.last()]);
    }
}

} // verus!
