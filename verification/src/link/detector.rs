//! URL detection (through the linkify crate) and file path detection.

use linkify::{LinkFinder, LinkKind as LinkifyKind};
use vstd::prelude::*;
use vstd::utf8::encode_utf8;
use super::{DetectedLink, LinkKind, LinkModel, link_models};
use crate::text::{is_alphanumeric, char_is_alphanumeric, is_whitespace, is_whitespace_spec, str_chars, string_from_chars};

verus! {

// ── URLs ─────────────────────────────────────────────────────────────

/// What linkify's `LinkFinder`, restricted to URL links, finds in a line:
/// for each link in order, its start and end byte offsets and its text.
pub uninterp spec fn linkify_url_links(line: Seq<char>) -> Seq<(int, int, Seq<char>)>;

/// The plain view of the spans returned for a line.
pub open spec fn span_models(spans: Seq<(usize, usize, String)>) -> Seq<(int, int, Seq<char>)> {
    spans.map_values(|t: (usize, usize, String)| (t.0 as int, t.1 as int, t.2@))
}

/// Calls linkify: `LinkFinder::new()`, `kinds(&[LinkKind::Url])`, then
/// `links(line)`, keeping each link's `start()`, `end()` and `as_str()`.
/// The result is named `linkify_url_links`; the contract adds what linkify's
/// source shows: each link's text is the byte range `start..end` of the line.
#[verifier::external_body]
fn find_url_spans(line: &str) -> (r: Vec<(usize, usize, String)>)
    ensures
        span_models(r@) == linkify_url_links(line@),
        forall|i: int| #![trigger r@[i]] 0 <= i < r@.len() ==> {
            &&& r@[i].0 <= r@[i].1 <= encode_utf8(line@).len()
            &&& encode_utf8(r@[i].2@) == encode_utf8(line@).subrange(r@[i].0 as int, r@[i].1 as int)
        },
{
    let mut finder = LinkFinder::new();
    finder.kinds(&[LinkifyKind::Url]);
    finder.links(line).map(|l| (l.start(), l.end(), l.as_str().to_string())).collect()
}

/// The URL link for one linkify span on `row`: it starts at the span's start
/// offset and ends (inclusively) one before the span's end, saturating at 0.
pub open spec fn url_link_model(row: int, span: (int, int, Seq<char>)) -> LinkModel {
    LinkModel {
        kind: LinkKind::Url,
        start_row: row,
        start_col: span.0,
        end_row: row,
        end_col: if span.1 == 0 { 0 } else { span.1 - 1 },
        text: span.2,
    }
}

/// The URL links for a row, given linkify's spans for it.
pub open spec fn url_links_for_spans(row: int, spans: Seq<(int, int, Seq<char>)>) -> Seq<LinkModel> {
    spans.map_values(|s: (int, int, Seq<char>)| url_link_model(row, s))
}

/// The URL links of lines `0..upto`, row by row.
pub open spec fn url_links_upto(lines: Seq<Seq<char>>, upto: int) -> Seq<LinkModel>
    decreases upto,
{
    if upto <= 0 {
        Seq::empty()
    } else {
        url_links_upto(lines, upto - 1) + url_links_for_spans(upto - 1, linkify_url_links(lines[upto - 1]))
    }
}

/// The URL links of all lines.
pub open spec fn url_links_in_lines(lines: Seq<Seq<char>>) -> Seq<LinkModel> {
    url_links_upto(lines, lines.len() as int)
}

/// Turn linkify's spans for line `row` into URL links.
pub fn url_links_from_spans(row: usize, spans: Vec<(usize, usize, String)>) -> (links: Vec<DetectedLink>)
    ensures
        link_models(links@) == url_links_for_spans(row as int, span_models(spans@)),
{
    let mut links: Vec<DetectedLink> = Vec::new();
    let mut i: usize = 0;
    while i < spans.len()
        invariant
            i <= spans@.len(),
            link_models(links@) == url_links_for_spans(row as int, span_models(spans@.subrange(0, i as int))),
        decreases spans.len() - i,
    {
        let s = &spans[i];
        let ghost before = links@;
        let end_col = if s.1 == 0 { 0 } else { s.1 - 1 };
        links.push(DetectedLink { kind: LinkKind::Url, start: (row, s.0), end: (row, end_col), text: s.2.clone() });
        proof {
            assert(span_models(spans@.subrange(0, i + 1)) =~= span_models(spans@.subrange(0, i as int)).push((s.0 as int, s.1 as int, s.2@)));
            assert(link_models(links@) =~= link_models(before).push(links@.last()@));
        }
        i = i + 1;
    }
    assert(spans@.subrange(0, spans@.len() as int) =~= spans@);
    links
}

/// Detect URLs in terminal content lines using the linkify crate.
pub fn detect_urls(lines: &[String]) -> (links: Vec<DetectedLink>)
    ensures
        link_models(links@) == url_links_in_lines(lines@.map_values(|s: String| s@)),
{
    let ghost views = lines@.map_values(|s: String| s@);
    let mut links: Vec<DetectedLink> = Vec::new();
    let mut row: usize = 0;
    while row < lines.len()
        invariant
            row <= lines@.len(),
            views == lines@.map_values(|s: String| s@),
            link_models(links@) == url_links_upto(views, row as int),
        decreases lines.len() - row,
    {
        let spans = find_url_spans(lines[row].as_str());
        let mut found = url_links_from_spans(row, spans);
        let ghost before = links@;
        let ghost added = found@;
        links.append(&mut found);
        proof {
            assert(views[row as int] == lines@[row as int]@);
            assert(link_models(links@) =~= link_models(before) + link_models(added));
        }
        row = row + 1;
    }
    links
}

// ── File paths ───────────────────────────────────────────────────────

/// Characters that may appear in a path.
pub open spec fn is_path_char_spec(c: char) -> bool {
    char_is_alphanumeric(c) || c == '/' || c == '.' || c == '_' || c == '-' || c == '+' || c
        == '@' || c == ':' || c == ',' || c == '=' || c == '%'
}

/// Characters after which a path may start.
pub open spec fn is_path_delimiter_spec(c: char) -> bool {
    is_whitespace_spec(c) || c == '"' || c == '\'' || c == '(' || c == '[' || c == '{' || c
        == '<' || c == '`' || c == ';' || c == '|' || c == '&'
}

/// Punctuation trimmed from the end of a path.
pub open spec fn is_trailing_punctuation_spec(c: char) -> bool {
    c == '.' || c == ',' || c == ':' || c == ';'
}

fn is_path_char(c: char) -> (b: bool)
    ensures
        b == is_path_char_spec(c),
{
    is_alphanumeric(c) || c == '/' || c == '.' || c == '_' || c == '-' || c == '+' || c == '@'
        || c == ':' || c == ',' || c == '=' || c == '%'
}

fn is_path_delimiter(c: char) -> (b: bool)
    ensures
        b == is_path_delimiter_spec(c),
{
    is_whitespace(c) || c == '"' || c == '\'' || c == '(' || c == '[' || c == '{' || c == '<'
        || c == '`' || c == ';' || c == '|' || c == '&'
}

fn is_trailing_punctuation(c: char) -> (b: bool)
    ensures
        b == is_trailing_punctuation_spec(c),
{
    c == '.' || c == ',' || c == ':' || c == ';'
}

/// Number of bytes in the UTF-8 encoding of a character.
pub open spec fn utf8_width(c: char) -> int {
    if (c as u32) < 0x80 {
        1
    } else if (c as u32) < 0x800 {
        2
    } else if (c as u32) < 0x10000 {
        3
    } else {
        4
    }
}

/// Number of bytes in the UTF-8 encoding of a character sequence.
pub open spec fn utf8_len(s: Seq<char>) -> int
    decreases s.len(),
{
    if s.len() == 0 {
        0
    } else {
        utf8_len(s.drop_last()) + utf8_width(s.last())
    }
}

/// The device and pseudo-filesystem paths that are never reported.
pub open spec fn is_false_positive_spec(path: Seq<char>) -> bool {
    ||| path == seq!['/', 'd', 'e', 'v', '/', 'n', 'u', 'l', 'l']
    ||| path == seq!['/', 'd', 'e', 'v', '/', 'z', 'e', 'r', 'o']
    ||| path == seq!['/', 'd', 'e', 'v', '/', 'r', 'a', 'n', 'd', 'o', 'm']
    ||| path == seq!['/', 'd', 'e', 'v', '/', 'u', 'r', 'a', 'n', 'd', 'o', 'm']
    ||| path == seq!['/', 'd', 'e', 'v', '/', 's', 't', 'd', 'i', 'n']
    ||| path == seq!['/', 'd', 'e', 'v', '/', 's', 't', 'd', 'o', 'u', 't']
    ||| path == seq!['/', 'd', 'e', 'v', '/', 's', 't', 'd', 'e', 'r', 'r']
    ||| path == seq!['/', 'd', 'e', 'v', '/', 't', 't', 'y']
    ||| path == seq!['/', 'd', 'e', 'v', '/', 'f', 'd']
    ||| path.take(6) == seq!['/', 'p', 'r', 'o', 'c', '/'] && path.len() >= 6
    ||| path.take(5) == seq!['/', 's', 'y', 's', '/'] && path.len() >= 5
}

fn chars_equal(a: &Vec<char>, b: &[char]) -> (r: bool)
    ensures
        r == (a@ == b@),
{
    if a.len() != b.len() {
        return false;
    }
    let mut i: usize = 0;
    while i < a.len()
        invariant
            i <= a@.len(),
            a@.len() == b@.len(),
            forall|k: int| 0 <= k < i ==> a@[k] == b@[k],
        decreases a.len() - i,
    {
        if a[i] != b[i] {
            return false;
        }
        i = i + 1;
    }
    assert(a@ =~= b@);
    true
}

fn chars_start_with(a: &Vec<char>, b: &[char]) -> (r: bool)
    ensures
        r == (a@.len() >= b@.len() && a@.take(b@.len() as int) == b@),
{
    if a.len() < b.len() {
        return false;
    }
    let mut i: usize = 0;
    while i < b.len()
        invariant
            i <= b@.len() <= a@.len(),
            forall|k: int| 0 <= k < i ==> a@[k] == b@[k],
        decreases b.len() - i,
    {
        if a[i] != b[i] {
            assert(a@.take(b@.len() as int)[i as int] != b@[i as int]);
            return false;
        }
        i = i + 1;
    }
    assert(a@.take(b@.len() as int) =~= b@);
    true
}

fn is_false_positive(path: &Vec<char>) -> (b: bool)
    ensures
        b == is_false_positive_spec(path@),
{
    let r = chars_equal(path, &['/', 'd', 'e', 'v', '/', 'n', 'u', 'l', 'l'])
        || chars_equal(path, &['/', 'd', 'e', 'v', '/', 'z', 'e', 'r', 'o'])
        || chars_equal(path, &['/', 'd', 'e', 'v', '/', 'r', 'a', 'n', 'd', 'o', 'm'])
        || chars_equal(path, &['/', 'd', 'e', 'v', '/', 'u', 'r', 'a', 'n', 'd', 'o', 'm'])
        || chars_equal(path, &['/', 'd', 'e', 'v', '/', 's', 't', 'd', 'i', 'n'])
        || chars_equal(path, &['/', 'd', 'e', 'v', '/', 's', 't', 'd', 'o', 'u', 't'])
        || chars_equal(path, &['/', 'd', 'e', 'v', '/', 's', 't', 'd', 'e', 'r', 'r'])
        || chars_equal(path, &['/', 'd', 'e', 'v', '/', 't', 't', 'y'])
        || chars_equal(path, &['/', 'd', 'e', 'v', '/', 'f', 'd'])
        || chars_start_with(path, &['/', 'p', 'r', 'o', 'c', '/'])
        || chars_start_with(path, &['/', 's', 'y', 's', '/']);
    r
}

/// The end of the run of path characters starting at `i`.
pub open spec fn path_run_end(chars: Seq<char>, i: int) -> int
    decreases chars.len() - i,
{
    if i >= chars.len() || i < 0 || !is_path_char_spec(chars[i]) {
        i
    } else {
        path_run_end(chars, i + 1)
    }
}

/// The end after trimming trailing punctuation from `start..end`, keeping at
/// least one character past `start`.
pub open spec fn trimmed_end(chars: Seq<char>, start: int, end: int) -> int
    decreases end - start,
{
    if end > start + 1 && end <= chars.len() && is_trailing_punctuation_spec(chars[end - 1]) {
        trimmed_end(chars, start, end - 1)
    } else {
        end
    }
}

/// Whether a '/' occurs among `chars[from..to]`.
pub open spec fn has_slash(chars: Seq<char>, from: int, to: int) -> bool {
    exists|k: int| from <= k < to && chars[k] == '/'
}

/// The file-path links found on line `row` when scanning from column `i`:
/// a path starts at '/' or "~/" at the start of the line or after a
/// delimiter, runs over path characters, and loses trailing punctuation.
/// "/" and "~/" alone, an absolute path of under three bytes without a
/// further '/', and the known device paths are not reported.
pub open spec fn paths_from(chars: Seq<char>, row: int, i: int) -> Seq<LinkModel>
    decreases chars.len() - i,
{
    if i >= chars.len() || i < 0 {
        Seq::empty()
    } else {
        let is_absolute = chars[i] == '/';
        let is_home = chars[i] == '~' && i + 1 < chars.len() && chars[i + 1] == '/';
        if !is_absolute && !is_home {
            paths_from(chars, row, i + 1)
        } else if i > 0 && !is_path_delimiter_spec(chars[i - 1]) {
            paths_from(chars, row, i + 1)
        } else {
            let prefix_end = if is_home { i + 2 } else { i + 1 };
            proof {
                lemma_path_run_end_bounds(chars, prefix_end);
            }
            let run_end = path_run_end(chars, prefix_end);
            let end = trimmed_end(chars, i, run_end);
            let text = chars.subrange(i, end);
            let rest = paths_from(chars, row, run_end);
            if text == seq!['/'] || text == seq!['~', '/'] {
                rest
            } else if is_absolute && !has_slash(chars, prefix_end, run_end) && utf8_len(text) < 3 {
                rest
            } else if is_false_positive_spec(text) {
                rest
            } else {
                seq![
                    LinkModel {
                        kind: LinkKind::FilePath,
                        start_row: row,
                        start_col: i,
                        end_row: row,
                        end_col: if end == 0 { 0 } else { end - 1 },
                        text,
                    },
                ] + rest
            }
        }
    }
}

/// The file-path links of lines `0..upto`, row by row.
pub open spec fn path_links_upto(lines: Seq<Seq<char>>, upto: int) -> Seq<LinkModel>
    decreases upto,
{
    if upto <= 0 {
        Seq::empty()
    } else {
        path_links_upto(lines, upto - 1) + paths_from(lines[upto - 1], upto - 1, 0)
    }
}

/// The file-path links of all lines.
pub open spec fn path_links_in_lines(lines: Seq<Seq<char>>) -> Seq<LinkModel> {
    path_links_upto(lines, lines.len() as int)
}

pub proof fn lemma_path_run_end_bounds(chars: Seq<char>, i: int)
    requires
        0 <= i <= chars.len(),
    ensures
        i <= path_run_end(chars, i) <= chars.len(),
        forall|k: int| i <= k < path_run_end(chars, i) ==> is_path_char_spec(#[trigger] chars[k]),
        path_run_end(chars, i) == chars.len() || !is_path_char_spec(chars[path_run_end(chars, i)]),
    decreases chars.len() - i,
{
    if i < chars.len() && is_path_char_spec(chars[i]) {
        lemma_path_run_end_bounds(chars, i + 1);
    }
}

proof fn lemma_trimmed_end_bounds(chars: Seq<char>, start: int, end: int)
    requires
        0 <= start < end <= chars.len(),
    ensures
        start < trimmed_end(chars, start, end) <= end,
    decreases end,
{
    if end > start + 1 && is_trailing_punctuation_spec(chars[end - 1]) {
        lemma_trimmed_end_bounds(chars, start, end - 1);
    }
}

proof fn lemma_utf8_len_at_least_len(s: Seq<char>)
    ensures
        utf8_len(s) >= s.len(),
    decreases s.len(),
{
    if s.len() > 0 {
        lemma_utf8_len_at_least_len(s.drop_last());
    }
}

fn utf8_byte_len(s: &Vec<char>) -> (n: usize)
    requires
        s@.len() < 0x1000_0000,
    ensures
        n == utf8_len(s@),
{
    let mut n: usize = 0;
    let mut i: usize = 0;
    while i < s.len()
        invariant
            i <= s@.len() < 0x1000_0000,
            n == utf8_len(s@.subrange(0, i as int)),
            n <= 4 * i,
        decreases s.len() - i,
    {
        let v = s[i] as u32;
        let w: usize = if v < 0x80 { 1 } else if v < 0x800 { 2 } else if v < 0x10000 { 3 } else { 4 };
        proof {
            assert(s@.subrange(0, i + 1).drop_last() =~= s@.subrange(0, i as int));
        }
        n = n + w;
        i = i + 1;
    }
    assert(s@.subrange(0, s@.len() as int) =~= s@);
    n
}

fn find_paths_in_line(row: usize, line: &str) -> (links: Vec<DetectedLink>)
    ensures
        link_models(links@) == paths_from(line@, row as int, 0),
{
    let chars = str_chars(line);
    let len = chars.len();
    let mut results: Vec<DetectedLink> = Vec::new();
    let mut i: usize = 0;
    while i < len
        invariant
            len == chars@.len(),
            chars@ == line@,
            i <= len,
            paths_from(line@, row as int, 0) == link_models(results@) + paths_from(line@, row as int, i as int),
        decreases len - i,
    {
        let is_absolute = chars[i] == '/';
        let is_home = chars[i] == '~' && i + 1 < len && chars[i + 1] == '/';
        if !is_absolute && !is_home {
            i = i + 1;
            continue;
        }
        if i > 0 && !is_path_delimiter(chars[i - 1]) {
            i = i + 1;
            continue;
        }
        let start_col = i;
        if is_home {
            i = i + 2;
        } else {
            i = i + 1;
        }
        let ghost prefix_end = i as int;
        proof {
            lemma_path_run_end_bounds(chars@, prefix_end);
        }
        let mut has_separator_after_prefix = false;
        while i < len && is_path_char(chars[i])
            invariant
                len == chars@.len(),
                prefix_end <= i <= len,
                path_run_end(chars@, prefix_end) == path_run_end(chars@, i as int),
                has_separator_after_prefix == has_slash(chars@, prefix_end, i as int),
            decreases len - i,
        {
            if chars[i] == '/' {
                has_separator_after_prefix = true;
            }
            proof {
                if chars@[i as int] == '/' {
                    assert(has_slash(chars@, prefix_end, i + 1));
                } else if has_slash(chars@, prefix_end, i + 1) {
                    let k = choose|k: int| prefix_end <= k < i + 1 && chars@[k] == '/';
                    assert(has_slash(chars@, prefix_end, i as int));
                }
            }
            i = i + 1;
        }
        let ghost run_end = i as int;
        assert(run_end == path_run_end(chars@, prefix_end));
        let mut end = i;
        proof {
            lemma_trimmed_end_bounds(chars@, start_col as int, run_end);
        }
        while end > start_col + 1 && is_trailing_punctuation(chars[end - 1])
            invariant
                len == chars@.len(),
                start_col < end <= i <= len,
                trimmed_end(chars@, start_col as int, run_end) == trimmed_end(chars@, start_col as int, end as int),
            decreases end,
        {
            end = end - 1;
        }
        let mut path_chars: Vec<char> = Vec::new();
        let mut k: usize = start_col;
        while k < end
            invariant
                start_col <= k <= end <= len,
                len == chars@.len(),
                path_chars@ == chars@.subrange(start_col as int, k as int),
            decreases end - k,
        {
            path_chars.push(chars[k]);
            k = k + 1;
            assert(path_chars@ =~= chars@.subrange(start_col as int, k as int));
        }
        let ghost text = chars@.subrange(start_col as int, end as int);
        let ghost rest = paths_from(line@, row as int, i as int);
        proof {
            assert(end as int == trimmed_end(chars@, start_col as int, run_end));
            assert(prefix_end == (if is_home { start_col + 2 } else { start_col + 1 }));
        }
        let is_root_only = chars_equal(&path_chars, &['/']);
        let is_home_only = chars_equal(&path_chars, &['~', '/']);
        proof {
            assert(['/']@ =~= seq!['/']);
            assert(['~', '/']@ =~= seq!['~', '/']);
        }
        if is_root_only || is_home_only {
            assert(paths_from(line@, row as int, start_col as int) == rest);
            continue;
        }
        if is_absolute && !has_separator_after_prefix {
            if path_chars.len() < 3 {
                let byte_len = utf8_byte_len(&path_chars);
                if byte_len < 3 {
                    assert(paths_from(line@, row as int, start_col as int) == rest);
                    continue;
                }
            } else {
                proof {
                    lemma_utf8_len_at_least_len(path_chars@);
                }
            }
        }
        if is_false_positive(&path_chars) {
            assert(paths_from(line@, row as int, start_col as int) == rest);
            continue;
        }
        let text = string_from_chars(path_chars.as_slice());
        let ghost before = results@;
        results.push(DetectedLink {
            kind: LinkKind::FilePath,
            start: (row, start_col),
            end: (row, if end == 0 { 0 } else { end - 1 }),
            text,
        });
        proof {
            assert(link_models(results@) =~= link_models(before).push(results@.last()@));
            assert(paths_from(line@, row as int, start_col as int) == seq![results@.last()@] + rest);
            assert(link_models(before).push(results@.last()@) + rest =~= link_models(before) + (seq![results@.last()@] + rest));
        }
    }
    assert(link_models(results@) + paths_from(line@, row as int, len as int) =~= link_models(results@));
    results
}

/// Detect absolute file paths in terminal content lines.
pub fn detect_paths(lines: &[String]) -> (links: Vec<DetectedLink>)
    ensures
        link_models(links@) == path_links_in_lines(lines@.map_values(|s: String| s@)),
{
    let ghost views = lines@.map_values(|s: String| s@);
    let mut links: Vec<DetectedLink> = Vec::new();
    let mut row: usize = 0;
    while row < lines.len()
        invariant
            row <= lines@.len(),
            views == lines@.map_values(|s: String| s@),
            link_models(links@) == path_links_upto(views, row as int),
        decreases lines.len() - row,
    {
        let mut found = find_paths_in_line(row, lines[row].as_str());
        let ghost before = links@;
        let ghost added = found@;
        links.append(&mut found);
        proof {
            assert(views[row as int] == lines@[row as int]@);
            assert(link_models(links@) =~= link_models(before) + link_models(added));
        }
        row = row + 1;
    }
    links
}


/// Trimming trailing punctuation stops at a character that is not
/// punctuation.
proof fn lemma_trimmed_end_keeps(chars: Seq<char>, start: int, end: int, m: int)
    requires
        0 <= start < m < end <= chars.len(),
        !is_trailing_punctuation_spec(chars[m]),
    ensures
        trimmed_end(chars, start, end) > m,
    decreases end - start,
{
    if end > start + 1 && end <= chars.len() && is_trailing_punctuation_spec(chars[end - 1]) {
        lemma_trimmed_end_keeps(chars, start, end - 1, m);
    }
}

/// Every file path reported for a line is what the line shows there: it
/// lies on its row within the line, its text is the line's characters from
/// its start column through its end column, it starts with '/' or "~/"
/// followed by path characters only, it is not "/" or "~/" alone, and it
/// does not end in trailing punctuation unless it is a single character.
pub proof fn lemma_path_links_match_line(chars: Seq<char>, row: int, i: int)
    requires
        0 <= i,
    ensures
        forall|k: int| #![trigger paths_from(chars, row, i)[k]] 0 <= k < paths_from(chars, row, i).len() ==> {
            let l = paths_from(chars, row, i)[k];
            &&& l.kind == LinkKind::FilePath
            &&& l.start_row == row && l.end_row == row
            &&& i <= l.start_col <= l.end_col < chars.len()
            &&& l.text == chars.subrange(l.start_col, l.end_col + 1)
            &&& (l.text[0] == '/' || (l.text.len() >= 2 && l.text[0] == '~' && l.text[1] == '/'))
            &&& forall|j: int| 1 <= j < l.text.len() ==> is_path_char_spec(#[trigger] l.text[j])
            &&& l.text != seq!['/'] && l.text != seq!['~', '/']
            &&& (l.text.len() > 1 ==> !is_trailing_punctuation_spec(l.text.last()))
        },
    decreases chars.len() - i,
{
    if i >= chars.len() {
    } else {
        let is_absolute = chars[i] == '/';
        let is_home = chars[i] == '~' && i + 1 < chars.len() && chars[i + 1] == '/';
        if !is_absolute && !is_home {
            lemma_path_links_match_line(chars, row, i + 1);
        } else if i > 0 && !is_path_delimiter_spec(chars[i - 1]) {
            lemma_path_links_match_line(chars, row, i + 1);
        } else {
            let prefix_end = if is_home { i + 2 } else { i + 1 };
            lemma_path_run_end_bounds(chars, prefix_end);
            let run_end = path_run_end(chars, prefix_end);
            lemma_trimmed_end_bounds(chars, i, run_end);
            let end = trimmed_end(chars, i, run_end);
            if is_home {
                lemma_trimmed_end_keeps(chars, i, run_end, i + 1);
            }
            lemma_path_links_match_line(chars, row, run_end);
            let text = chars.subrange(i, end);
            let rest = paths_from(chars, row, run_end);
            assert(end > i);
            assert(forall|j: int| 1 <= j < text.len() ==> is_path_char_spec(#[trigger] text[j])) by {
                assert forall|j: int| 1 <= j < text.len() implies is_path_char_spec(#[trigger] text[j]) by {
                    assert(text[j] == chars[i + j]);
                    if is_home && j == 1 {
                        assert(chars[i + 1] == '/');
                    }
                }
            }
            assert(text.len() > 1 ==> !is_trailing_punctuation_spec(text.last())) by {
                if text.len() > 1 && end <= run_end && end > i + 1 {
                    assert(text.last() == chars[end - 1]);
                    lemma_trimmed_end_stop(chars, i, run_end);
                }
            }
            assert(chars.subrange(i, (end - 1) + 1) =~= text);
        }
    }
}

/// Where trimming stops: at `start + 1`, or before a character that is not
/// trailing punctuation.
proof fn lemma_trimmed_end_stop(chars: Seq<char>, start: int, end: int)
    requires
        0 <= start < end <= chars.len(),
    ensures
        trimmed_end(chars, start, end) == start + 1
            || !is_trailing_punctuation_spec(chars[trimmed_end(chars, start, end) - 1]),
    decreases end - start,
{
    if end > start + 1 && is_trailing_punctuation_spec(chars[end - 1]) {
        lemma_trimmed_end_stop(chars, start, end - 1);
    }
}

/// The links with their rows moved down by `d`.
pub open spec fn shift_rows(links: Seq<LinkModel>, d: int) -> Seq<LinkModel> {
    links.map_values(|l: LinkModel| LinkModel { start_row: l.start_row + d, end_row: l.end_row + d, ..l })
}

proof fn lemma_shift_concat(a: Seq<LinkModel>, b: Seq<LinkModel>, d: int)
    ensures
        shift_rows(a + b, d) == shift_rows(a, d) + shift_rows(b, d),
{
    assert(shift_rows(a + b, d) =~= shift_rows(a, d) + shift_rows(b, d));
}

/// The paths found on a line do not depend on its row, but for the row
/// they carry.
proof fn lemma_paths_from_shift(chars: Seq<char>, row: int, d: int, i: int)
    ensures
        paths_from(chars, row + d, i) == shift_rows(paths_from(chars, row, i), d),
    decreases chars.len() - i,
{
    if i >= chars.len() || i < 0 {
        assert(shift_rows(Seq::<LinkModel>::empty(), d) =~= Seq::<LinkModel>::empty());
    } else {
        let is_absolute = chars[i] == '/';
        let is_home = chars[i] == '~' && i + 1 < chars.len() && chars[i + 1] == '/';
        if !is_absolute && !is_home {
            lemma_paths_from_shift(chars, row, d, i + 1);
        } else if i > 0 && !is_path_delimiter_spec(chars[i - 1]) {
            lemma_paths_from_shift(chars, row, d, i + 1);
        } else {
            let prefix_end = if is_home { i + 2 } else { i + 1 };
            lemma_path_run_end_bounds(chars, prefix_end);
            let run_end = path_run_end(chars, prefix_end);
            lemma_paths_from_shift(chars, row, d, run_end);
            let rest = paths_from(chars, row, run_end);
            let end = trimmed_end(chars, i, run_end);
            let l = LinkModel {
                kind: LinkKind::FilePath,
                start_row: row,
                start_col: i,
                end_row: row,
                end_col: if end == 0 { 0 } else { end - 1 },
                text: chars.subrange(i, end),
            };
            lemma_shift_concat(seq![l], rest, d);
            assert(shift_rows(seq![l], d) =~= seq![LinkModel { start_row: row + d, end_row: row + d, ..l }]);
        }
    }
}

/// Each line is scanned on its own: the paths of lines `a` followed by
/// lines `b` are the paths of `a`, then those of `b` with their rows moved
/// down by the number of lines in `a`.
pub proof fn lemma_path_links_concat(a: Seq<Seq<char>>, b: Seq<Seq<char>>)
    ensures
        path_links_in_lines(a + b) == path_links_in_lines(a) + shift_rows(path_links_in_lines(b), a.len() as int),
{
    lemma_path_links_prefix(a, b, a.len() as int);
    lemma_path_links_suffix(a, b, b.len() as int);
    assert(a.len() + b.len() == (a + b).len());
}

proof fn lemma_path_links_prefix(a: Seq<Seq<char>>, b: Seq<Seq<char>>, upto: int)
    requires
        upto <= a.len(),
    ensures
        path_links_upto(a + b, upto) == path_links_upto(a, upto),
    decreases upto,
{
    if upto > 0 {
        lemma_path_links_prefix(a, b, upto - 1);
        assert((a + b)[upto - 1] == a[upto - 1]);
    }
}

proof fn lemma_path_links_suffix(a: Seq<Seq<char>>, b: Seq<Seq<char>>, k: int)
    requires
        0 <= k <= b.len(),
    ensures
        path_links_upto(a + b, a.len() + k) == path_links_upto(a, a.len() as int) + shift_rows(path_links_upto(b, k), a.len() as int),
    decreases k,
{
    if k == 0 {
        lemma_path_links_prefix(a, b, a.len() as int);
        assert(shift_rows(Seq::<LinkModel>::empty(), a.len() as int) =~= Seq::<LinkModel>::empty());
        assert(path_links_upto(a, a.len() as int) + Seq::<LinkModel>::empty() =~= path_links_upto(a, a.len() as int));
    } else {
        lemma_path_links_suffix(a, b, k - 1);
        assert((a + b)[a.len() + k - 1] == b[k - 1]);
        lemma_paths_from_shift(b[k - 1], k - 1, a.len() as int, 0);
        lemma_shift_concat(path_links_upto(b, k - 1), paths_from(b[k - 1], k - 1, 0), a.len() as int);
        assert(path_links_upto(a + b, a.len() + k) == path_links_upto(a + b, a.len() + k - 1)
            + paths_from(b[k - 1], a.len() + k - 1, 0));
        assert(path_links_upto(a + b, a.len() + k) =~= path_links_upto(a, a.len() as int)
            + shift_rows(path_links_upto(b, k), a.len() as int));
    }
}

/// Two lines that agree from index `i` on.
pub open spec fn agree_from(a: Seq<char>, b: Seq<char>, i: int) -> bool {
    &&& a.len() == b.len()
    &&& forall|k: int| i <= k < a.len() ==> a[k] == b[k]
}

proof fn lemma_run_end_local(a: Seq<char>, b: Seq<char>, i: int, j: int)
    requires
        agree_from(a, b, i),
        i <= j,
    ensures
        path_run_end(a, j) == path_run_end(b, j),
    decreases a.len() - j,
{
    if j < a.len() && j >= 0 && is_path_char_spec(a[j]) {
        lemma_run_end_local(a, b, i, j + 1);
    }
}

proof fn lemma_trimmed_end_local(a: Seq<char>, b: Seq<char>, i: int, start: int, end: int)
    requires
        agree_from(a, b, i),
        i <= start,
    ensures
        trimmed_end(a, start, end) == trimmed_end(b, start, end),
    decreases end - start,
{
    if end > start + 1 && end <= a.len() && is_trailing_punctuation_spec(a[end - 1]) {
        lemma_trimmed_end_local(a, b, i, start, end - 1);
    }
}

/// The paths found from index `i` on depend only on the characters from
/// `i` on and on whether the character before `i` is a delimiter.
proof fn lemma_paths_from_local(a: Seq<char>, b: Seq<char>, row: int, i: int)
    requires
        agree_from(a, b, i),
        0 <= i,
        0 < i < a.len() ==> is_path_delimiter_spec(a[i - 1]) == is_path_delimiter_spec(b[i - 1]),
    ensures
        paths_from(a, row, i) == paths_from(b, row, i),
    decreases a.len() - i,
{
    if i >= a.len() {
    } else {
        let is_absolute = a[i] == '/';
        let is_home = a[i] == '~' && i + 1 < a.len() && a[i + 1] == '/';
        if !is_absolute && !is_home {
            lemma_paths_from_local(a, b, row, i + 1);
        } else if i > 0 && !is_path_delimiter_spec(a[i - 1]) {
            lemma_paths_from_local(a, b, row, i + 1);
        } else {
            let prefix_end = if is_home { i + 2 } else { i + 1 };
            lemma_path_run_end_bounds(a, prefix_end);
            lemma_run_end_local(a, b, i, prefix_end);
            let run_end = path_run_end(a, prefix_end);
            lemma_trimmed_end_local(a, b, i, i, run_end);
            let end = trimmed_end(a, i, run_end);
            lemma_trimmed_end_bounds(a, i, run_end);
            assert(a.subrange(i, end) =~= b.subrange(i, end));
            assert(has_slash(a, prefix_end, run_end) == has_slash(b, prefix_end, run_end)) by {
                if has_slash(a, prefix_end, run_end) {
                    let k = choose|k: int| prefix_end <= k < run_end && a[k] == '/';
                    assert(b[k] == '/');
                }
                if has_slash(b, prefix_end, run_end) {
                    let k = choose|k: int| prefix_end <= k < run_end && b[k] == '/';
                    assert(a[k] == '/');
                }
            }
            if run_end < a.len() && run_end > i {
                assert(a[run_end - 1] == b[run_end - 1]);
            }
            lemma_paths_from_local(a, b, row, run_end);
        }
    }
}

/// A path starts after any path delimiter in the same way: with a double
/// quote, a single quote, a parenthesis, a bracket, a brace, '<', a
/// backquote, ';', '|' or '&' just before index `i`, the paths found from
/// `i` on are those found when a space stands there instead.
pub proof fn lemma_path_starts_after_delimiter(chars: Seq<char>, row: int, i: int, c: char)
    requires
        0 < i < chars.len(),
        c == '"' || c == '\'' || c == '(' || c == '[' || c == '{' || c == '<' || c == '`' || c == ';'
            || c == '|' || c == '&',
    ensures
        paths_from(chars.update(i - 1, c), row, i) == paths_from(chars.update(i - 1, ' '), row, i),
{
    let a = chars.update(i - 1, c);
    let b = chars.update(i - 1, ' ');
    assert(agree_from(a, b, i));
    assert(is_whitespace_spec(' '));
    lemma_paths_from_local(a, b, row, i);
}

} // verus!
