//! Linux: parsing of `/proc` files to find a shell's foreground process.

use vstd::prelude::*;
use crate::text::{is_whitespace, is_whitespace_spec, str_chars, string_from_chars, trim_chars, trim_spec};

verus! {

/// The whitespace-separated tokens of `s` (`str::split_whitespace`).
pub open spec fn tokens(s: Seq<char>) -> Seq<Seq<char>>
    decreases s.len(),
{
    if s.len() == 0 {
        Seq::empty()
    } else {
        let t = tokens(s.drop_last());
        if is_whitespace_spec(s.last()) {
            t
        } else if s.len() >= 2 && !is_whitespace_spec(s[s.len() - 2]) {
            t.update(t.len() - 1, t.last().push(s.last()))
        } else {
            t.push(seq![s.last()])
        }
    }
}

/// Decimal value of a digit string.
pub open spec fn decimal_value(d: Seq<char>) -> nat
    decreases d.len(),
{
    if d.len() == 0 {
        0
    } else {
        decimal_value(d.drop_last()) * 10 + ((d.last() as u32) - 48) as nat
    }
}

/// All characters are ASCII digits.
pub open spec fn all_digits(d: Seq<char>) -> bool {
    forall|i: int| 0 <= i < d.len() ==> '0' <= #[trigger] d[i] <= '9'
}

/// `u32::from_str`: an optional '+' followed by one or more ASCII digits,
/// whose value fits in u32.
pub open spec fn parse_u32_spec(t: Seq<char>) -> Option<u32> {
    let d = if t.len() > 0 && t[0] == '+' { t.drop_first() } else { t };
    if d.len() > 0 && all_digits(d) && decimal_value(d) <= u32::MAX {
        Some(decimal_value(d) as u32)
    } else {
        None
    }
}

/// The tokens of `tok` (from index `n` down) that parse as u32, in order.
pub open spec fn parsed_values(toks: Seq<Seq<char>>) -> Seq<u32>
    decreases toks.len(),
{
    if toks.len() == 0 {
        Seq::empty()
    } else {
        let rest = parsed_values(toks.drop_last());
        match parse_u32_spec(toks.last()) {
            Some(v) => rest.push(v),
            None => rest,
        }
    }
}

proof fn lemma_decimal_grows(d: Seq<char>)
    requires
        d.len() > 0,
        all_digits(d),
    ensures
        decimal_value(d) >= decimal_value(d.drop_last()),
{
}

fn parse_u32_token(t: &Vec<char>) -> (r: Option<u32>)
    ensures
        r == parse_u32_spec(t@),
{
    let start: usize = if t.len() > 0 && t[0] == '+' { 1 } else { 0 };
    let ghost d = if t@.len() > 0 && t@[0] == '+' { t@.drop_first() } else { t@ };
    assert(d =~= t@.subrange(start as int, t@.len() as int));
    if start >= t.len() {
        return None;
    }
    let mut acc: u64 = 0;
    let mut too_big = false;
    let mut i: usize = start;
    while i < t.len()
        invariant
            start <= i <= t@.len(),
            d == t@.subrange(start as int, t@.len() as int),
            d == (if t@.len() > 0 && t@[0] == '+' { t@.drop_first() } else { t@ }),
            all_digits(t@.subrange(start as int, i as int)),
            !too_big ==> acc == decimal_value(t@.subrange(start as int, i as int)) && acc <= u32::MAX,
            too_big ==> decimal_value(t@.subrange(start as int, i as int)) > u32::MAX,
        decreases t.len() - i,
    {
        let c = t[i];
        if !('0' <= c && c <= '9') {
            proof {
                assert(!all_digits(d)) by {
                    assert(d[i - start] == c);
                }
            }
            return None;
        }
        let digit: u64 = ((c as u32) - 48) as u64;
        let ghost prefix = t@.subrange(start as int, i + 1);
        proof {
            assert(prefix.drop_last() =~= t@.subrange(start as int, i as int));
            assert(all_digits(prefix));
        }
        if !too_big {
            let next = acc * 10 + digit;
            if next > 0xFFFF_FFFF {
                too_big = true;
            } else {
                acc = next;
            }
        } else {
            proof {
                lemma_decimal_grows(prefix);
            }
        }
        i = i + 1;
    }
    assert(t@.subrange(start as int, t@.len() as int) == d);
    if too_big {
        None
    } else {
        Some(acc as u32)
    }
}

/// Parse child PIDs from the content of a `/proc/<pid>/task/<pid>/children`
/// file: every whitespace-separated token that parses as u32, in order.
pub fn parse_children_content(content: &str) -> (pids: Vec<u32>)
    ensures
        pids@ == parsed_values(tokens(content@)),
{
    let chars = str_chars(content);
    let mut toks: Vec<Vec<char>> = Vec::new();
    let mut i: usize = 0;
    while i < chars.len()
        invariant
            i <= chars@.len(),
            chars@ == content@,
            toks@.map_values(|t: Vec<char>| t@) == tokens(chars@.subrange(0, i as int)),
        decreases chars.len() - i,
    {
        let c = chars[i];
        let ghost before = toks@.map_values(|t: Vec<char>| t@);
        proof {
            assert(chars@.subrange(0, i + 1).drop_last() =~= chars@.subrange(0, i as int));
        }
        if is_whitespace(c) {
        } else if i >= 1 && !is_whitespace(chars[i - 1]) {
            proof {
                assert(chars@.subrange(0, i + 1)[i - 1] == chars@[i - 1]);
                assert(chars@.subrange(0, i as int).last() == chars@[i - 1]);
                lemma_tokens_nonempty(chars@.subrange(0, i as int));
            }
            let last = toks.len() - 1;
            let mut cur = toks.pop().unwrap();
            cur.push(c);
            toks.push(cur);
            proof {
                assert(toks@.map_values(|t: Vec<char>| t@) =~= before.update(last as int, before.last().push(c)));
            }
        } else {
            let mut cur: Vec<char> = Vec::new();
            cur.push(c);
            toks.push(cur);
            proof {
                assert(cur@ =~= seq![c]);
                assert(toks@.map_values(|t: Vec<char>| t@) =~= before.push(seq![c]));
            }
        }
        i = i + 1;
    }
    assert(chars@.subrange(0, chars@.len() as int) =~= chars@);
    let mut pids: Vec<u32> = Vec::new();
    let ghost views = toks@.map_values(|t: Vec<char>| t@);
    let mut k: usize = 0;
    while k < toks.len()
        invariant
            k <= toks@.len(),
            views == toks@.map_values(|t: Vec<char>| t@),
            pids@ == parsed_values(views.subrange(0, k as int)),
        decreases toks.len() - k,
    {
        let r = parse_u32_token(&toks[k]);
        proof {
            assert(views.subrange(0, k + 1).drop_last() =~= views.subrange(0, k as int));
            assert(views[k as int] == toks@[k as int]@);
        }
        match r {
            Some(v) => pids.push(v),
            None => {},
        }
        k = k + 1;
    }
    assert(views.subrange(0, toks@.len() as int) =~= views);
    pids
}

proof fn lemma_tokens_nonempty(s: Seq<char>)
    requires
        s.len() > 0,
        !is_whitespace_spec(s.last()),
    ensures
        tokens(s).len() > 0,
        tokens(s).last().len() > 0,
    decreases s.len(),
{
    if s.len() >= 2 && !is_whitespace_spec(s[s.len() - 2]) {
        assert(s.drop_last().last() == s[s.len() - 2]);
        lemma_tokens_nonempty(s.drop_last());
    }
}

/// The last child PID listed in a children file, if any: the most recently
/// forked child, whose name is the shell's foreground process.
pub fn foreground_child_pid(children_content: &str) -> (pid: Option<u32>)
    ensures
        pid == (if parsed_values(tokens(children_content@)).len() > 0 {
            Some(parsed_values(tokens(children_content@)).last())
        } else {
            None::<u32>
        }),
{
    let pids = parse_children_content(children_content);
    if pids.len() > 0 {
        Some(pids[pids.len() - 1])
    } else {
        None
    }
}

/// Parse a process name from the content of a `/proc/<pid>/comm` file:
/// the content without surrounding whitespace, or `None` if that is empty.
pub fn parse_comm_content(content: &str) -> (name: Option<String>)
    ensures
        match name {
            Some(n) => n@ == trim_spec(content@) && n@.len() > 0,
            None => trim_spec(content@).len() == 0,
        },
{
    let chars = str_chars(content);
    let trimmed = trim_chars(&chars);
    if trimmed.len() == 0 {
        None
    } else {
        Some(string_from_chars(trimmed.as_slice()))
    }
}

} // verus!
