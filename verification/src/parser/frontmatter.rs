//! Documents with a YAML frontmatter block delimited by `---` lines.
use vstd::prelude::*;

use super::ParseError;
use crate::json::{parse_yaml_text, yaml_document, Json};
use crate::text::{
    char_pos, chars_of, find_char, is_ws, lemma_char_pos, lemma_skip_ws_bounds, skip_whitespace,
    skip_ws, slice_range, string_of,
};

verus! {

/// A parsed document: the frontmatter as a JSON model and the body text.
pub struct Document {
    /// Deserialized frontmatter metadata
    pub metadata: Json,
    /// The content after the closing `---` delimiter
    pub content: String,
}

/// A `---` line starts at `p`: `---` at the beginning of a line, followed by
/// the end of the text, a line break (`\n` or `\r\n`) or a space.
pub open spec fn delimiter_at(t: Seq<char>, p: int) -> bool {
    &&& 0 <= p
    &&& p + 3 <= t.len()
    &&& t[p] == '-' && t[p + 1] == '-' && t[p + 2] == '-'
    &&& p == 0 || t[p - 1] == '\n'
    &&& p + 3 == t.len() || t[p + 3] == '\n' || t[p + 3] == ' ' || (t[p + 3] == '\r'
        && p + 4 < t.len() && t[p + 4] == '\n')
}

/// First delimiter line at or after `p`.
pub open spec fn closing_from(t: Seq<char>, p: int) -> Option<int>
    decreases t.len() - p,
{
    if p < 0 || p + 3 > t.len() {
        None
    } else if delimiter_at(t, p) {
        Some(p)
    } else {
        closing_from(t, p + 1)
    }
}

/// Number of leading byte-order marks from `i` on.
pub open spec fn bom_end(s: Seq<char>, i: int) -> int
    decreases s.len() - i,
{
    if 0 <= i < s.len() && s[i] == '\u{FEFF}' {
        bom_end(s, i + 1)
    } else {
        i
    }
}

/// The text after leading byte-order marks and then leading whitespace.
pub open spec fn frontmatter_start(s: Seq<char>) -> int {
    skip_ws(s, bom_end(s, 0))
}

/// What follows a closing delimiter, without the line break that ends it.
pub open spec fn after_delimiter(rest: Seq<char>) -> Seq<char> {
    if rest.len() >= 1 && rest[0] == '\n' {
        rest.skip(1)
    } else if rest.len() >= 2 && rest[0] == '\r' && rest[1] == '\n' {
        rest.skip(2)
    } else {
        rest
    }
}

/// The frontmatter text and the body of a document, or the reason there is
/// no frontmatter.
pub open spec fn split_spec(s: Seq<char>) -> Result<(Seq<char>, Seq<char>), ParseError> {
    let t = s.skip(frontmatter_start(s));
    if !(t.len() >= 3 && t[0] == '-' && t[1] == '-' && t[2] == '-') {
        Err(ParseError::NoFrontmatter)
    } else {
        let open = t.skip(3);
        let nl = char_pos(open, '\n', 0);
        if nl >= open.len() {
            Err(ParseError::UnclosedFrontmatter)
        } else {
            let inner = open.skip(nl + 1);
            match closing_from(inner, 0) {
                None => Err(ParseError::UnclosedFrontmatter),
                Some(c) => Ok((inner.take(c), after_delimiter(inner.skip(c + 3)))),
            }
        }
    }
}

proof fn lemma_bom_end(s: Seq<char>, i: int)
    requires
        0 <= i <= s.len(),
    ensures
        i <= bom_end(s, i) <= s.len(),
    decreases s.len() - i,
{
    if i < s.len() && s[i] == '\u{FEFF}' {
        lemma_bom_end(s, i + 1);
    }
}

proof fn lemma_closing_from(t: Seq<char>, p: int)
    requires
        0 <= p,
    ensures
        closing_from(t, p) matches Some(c) ==> p <= c && delimiter_at(t, c),
        closing_from(t, p) is None ==> forall|q: int| p <= q ==> !delimiter_at(t, q),
    decreases t.len() - p,
{
    if p + 3 <= t.len() && !delimiter_at(t, p) {
        lemma_closing_from(t, p + 1);
    }
}

/// Position of the first delimiter line of `text`.
pub fn find_closing_delimiter(text: &[char]) -> (r: Option<usize>)
    ensures
        match r {
            Some(c) => closing_from(text@, 0) == Some(c as int),
            None => closing_from(text@, 0) is None,
        },
{
    let n = text.len();
    if n < 3 {
        return None;
    }
    let mut p: usize = 0;
    while p < n - 2
        invariant
            n == text@.len(),
            n >= 3,
            p <= n - 2,
            closing_from(text@, p as int) == closing_from(text@, 0),
        decreases n - p,
    {
        let dashes = text[p] == '-' && text[p + 1] == '-' && text[p + 2] == '-';
        let line_start = p == 0 || text[p - 1] == '\n';
        let ends = p + 3 == n || text[p + 3] == '\n' || text[p + 3] == ' ' || (text[p + 3] == '\r'
            && p + 4 < n && text[p + 4] == '\n');
        if dashes && line_start && ends {
            return Some(p);
        }
        p = p + 1;
    }
    None
}

/// Splits a document into its frontmatter text and its body. Leading
/// byte-order marks and then leading whitespace are skipped.
pub fn split_frontmatter(input: &str) -> (r: Result<(String, String), ParseError>)
    ensures
        match r {
            Ok((y, b)) => split_spec(input@) == Ok::<_, ParseError>((y@, b@)),
            Err(e) => split_spec(input@) == Err::<(Seq<char>, Seq<char>), _>(e),
        },
{
    let s = chars_of(input);
    let mut a: usize = 0;
    while a < s.len() && s[a] == '\u{FEFF}'
        invariant
            a <= s@.len(),
            bom_end(s@, a as int) == bom_end(s@, 0),
        decreases s@.len() - a,
    {
        a = a + 1;
    }
    let start = skip_whitespace(&s, a);
    proof {
        lemma_bom_end(s@, 0);
        lemma_skip_ws_bounds(s@, a as int);
    }
    let t = slice_range(&s, start, s.len());
    assert(t@ == s@.skip(frontmatter_start(s@)));
    if !(t.len() >= 3 && t[0] == '-' && t[1] == '-' && t[2] == '-') {
        return Err(ParseError::NoFrontmatter);
    }
    let open = slice_range(&t, 3, t.len());
    assert(open@ == t@.skip(3));
    let nl = find_char(&open, '\n', 0);
    proof {
        lemma_char_pos(open@, '\n', 0);
    }
    if nl >= open.len() {
        return Err(ParseError::UnclosedFrontmatter);
    }
    let inner = slice_range(&open, nl + 1, open.len());
    assert(inner@ == open@.skip(nl + 1));
    match find_closing_delimiter(&inner) {
        None => Err(ParseError::UnclosedFrontmatter),
        Some(c) => {
            proof {
                lemma_closing_from(inner@, 0);
            }
            let yaml = slice_range(&inner, 0, c);
            let rest = slice_range(&inner, c + 3, inner.len());
            let body = if rest.len() >= 1 && rest[0] == '\n' {
                slice_range(&rest, 1, rest.len())
            } else if rest.len() >= 2 && rest[0] == '\r' && rest[1] == '\n' {
                slice_range(&rest, 2, rest.len())
            } else {
                rest
            };
            proof {
                assert(yaml@ == inner@.take(c as int));
                assert(rest@ == inner@.skip(c + 3));
                assert(body@ == after_delimiter(rest@));
            }
            Ok((string_of(&yaml), string_of(&body)))
        },
    }
}

/// Parse a document with YAML frontmatter delimited by `---`.
///
/// Handles leading whitespace and UTF-8 BOM before the opening `---`.
pub fn parse_frontmatter(input: &str) -> (r: Result<Document, ParseError>)
    ensures
        match r {
            Ok(d) => split_spec(input@) matches Ok((y, b)) && yaml_document(y) == Ok::<
                Json,
                Seq<char>,
            >(d.metadata) && d.content@ == b,
            Err(ParseError::YamlError(m)) => split_spec(input@) matches Ok((y, b)) && yaml_document(
                y,
            ) == Err::<Json, Seq<char>>(m@),
            Err(e) => split_spec(input@) == Err::<(Seq<char>, Seq<char>), _>(e),
        },
{
    let (yaml, body) = split_frontmatter(input)?;
    match parse_yaml_text(yaml.as_str()) {
        Ok(metadata) => Ok(Document { metadata, content: body }),
        Err(m) => Err(ParseError::YamlError(m)),
    }
}

proof fn lemma_bom_end_shift(pre: Seq<char>, s: Seq<char>, i: int)
    requires
        0 <= i,
    ensures
        bom_end(pre + s, i + pre.len()) == bom_end(s, i) + pre.len(),
    decreases s.len() - i,
{
    let t = pre + s;
    if i < s.len() {
        assert(t[i + pre.len()] == s[i]);
        if s[i] == '\u{FEFF}' {
            lemma_bom_end_shift(pre, s, i + 1);
        }
    }
}

proof fn lemma_skip_ws_shift(pre: Seq<char>, s: Seq<char>, i: int)
    requires
        0 <= i,
    ensures
        skip_ws(pre + s, i + pre.len()) == skip_ws(s, i) + pre.len(),
    decreases s.len() - i,
{
    let t = pre + s;
    if i < s.len() {
        assert(t[i + pre.len()] == s[i]);
        if is_ws(s[i]) {
            lemma_skip_ws_shift(pre, s, i + 1);
        }
    }
}

/// Whitespace from `i` on, up to `pre.len()`, is skipped.
proof fn lemma_skip_ws_prefix(pre: Seq<char>, s: Seq<char>, i: int)
    requires
        0 <= i <= pre.len(),
        forall|k: int| 0 <= k < pre.len() ==> is_ws(#[trigger] pre[k]),
    ensures
        skip_ws(pre + s, i) == skip_ws(s, 0) + pre.len(),
    decreases pre.len() - i,
{
    let t = pre + s;
    if i < pre.len() {
        assert(t[i] == pre[i]);
        lemma_skip_ws_prefix(pre, s, i + 1);
    } else {
        lemma_skip_ws_shift(pre, s, 0);
    }
}

/// A byte-order mark in front of a document changes nothing of how it
/// splits.
pub proof fn law_bom_prefix(s: Seq<char>)
    ensures
        split_spec(seq!['\u{FEFF}'] + s) == split_spec(s),
{
    let pre = seq!['\u{FEFF}'];
    let t = pre + s;
    assert(t[0] == '\u{FEFF}');
    lemma_bom_end_shift(pre, s, 0);
    assert(bom_end(t, 0) == bom_end(t, 1));
    lemma_bom_end(s, 0);
    lemma_skip_ws_shift(pre, s, bom_end(s, 0));
    lemma_skip_ws_bounds(s, bom_end(s, 0));
    assert(frontmatter_start(t) == frontmatter_start(s) + 1);
    assert(t.skip(frontmatter_start(t)) =~= s.skip(frontmatter_start(s)));
}

/// Whitespace in front of a document changes nothing of how it splits,
/// unless the document itself starts with a byte-order mark (which is only
/// skipped before the whitespace).
pub proof fn law_whitespace_prefix(w: Seq<char>, s: Seq<char>)
    requires
        forall|k: int| 0 <= k < w.len() ==> is_ws(#[trigger] w[k]),
        w.len() == 0 || s.len() == 0 || s[0] != '\u{FEFF}',
    ensures
        split_spec(w + s) == split_spec(s),
{
    let t = w + s;
    if w.len() == 0 {
        assert(t =~= s);
    } else {
        assert(t[0] == w[0]);
        assert(is_ws(w[0]));
        assert(bom_end(t, 0) == 0);
        assert(bom_end(s, 0) == 0);
        lemma_skip_ws_prefix(w, s, 0);
        lemma_skip_ws_bounds(s, 0);
        assert(t.skip(frontmatter_start(t)) =~= s.skip(frontmatter_start(s)));
    }
}

/// What a document written as `---`, the frontmatter lines, `---` and a
/// body reads back as: the frontmatter text (with its last line break) and
/// the body, whatever the body holds, when no frontmatter line is itself a
/// `---` delimiter line.
pub proof fn law_frontmatter_roundtrip(y: Seq<char>, b: Seq<char>)
    requires
        closing_from(y.push('\n'), 0) is None,
    ensures
        split_spec(seq!['-', '-', '-', '\n'] + y + seq!['\n', '-', '-', '-', '\n'] + b) == Ok::<
            _,
            ParseError,
        >((y.push('\n'), b)),
{
    let s = seq!['-', '-', '-', '\n'] + y + seq!['\n', '-', '-', '-', '\n'] + b;
    let yn = y.push('\n');
    assert(s[0] == '-');
    assert(bom_end(s, 0) == 0);
    assert(!is_ws(s[0]));
    assert(skip_ws(s, 0) == 0);
    assert(s.skip(0) =~= s);
    let open = s.skip(3);
    assert(open[0] == '\n');
    assert(char_pos(open, '\n', 0) == 0);
    let inner = open.skip(1);
    assert(inner =~= y + seq!['\n', '-', '-', '-', '\n'] + b);
    let c: int = y.len() as int + 1;
    lemma_closing_from(yn, 0);
    assert forall|p: int| 0 <= p < c implies !delimiter_at(inner, p) by {
        assert(inner[y.len() as int] == '\n');
        if p + 3 <= y.len() {
            assert forall|k: int| 0 <= k <= p + 4 && k < yn.len() implies inner[k] == yn[k] by {
                if k < y.len() {
                    assert(inner[k] == y[k]);
                }
            }
            if delimiter_at(inner, p) {
                assert(delimiter_at(yn, p));
            }
        }
    }
    assert(delimiter_at(inner, c)) by {
        assert(inner[c - 1] == '\n');
        assert(inner[c] == '-' && inner[c + 1] == '-' && inner[c + 2] == '-');
        assert(inner[c + 3] == '\n');
    }
    lemma_closing_from_first(inner, 0, c);
    assert(inner.take(c) =~= yn);
    let rest = inner.skip(c + 3);
    assert(rest[0] == '\n');
    assert(rest.skip(1) =~= b);
}

/// The first delimiter line from `p` on is at `c` when there is one at `c`
/// and none before.
proof fn lemma_closing_from_first(t: Seq<char>, p: int, c: int)
    requires
        0 <= p <= c,
        delimiter_at(t, c),
        forall|q: int| p <= q < c ==> !delimiter_at(t, q),
    ensures
        closing_from(t, p) == Some(c),
    decreases c - p,
{
    if p < c {
        lemma_closing_from_first(t, p + 1, c);
    }
}

} // verus!
