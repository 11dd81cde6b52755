//! Depth-aware re-indentation of bracketed debug text.
//!
//! Given the single-line debug form of a sequence-like value, these routines
//! compute its maximum bracket-nesting depth (ignoring brackets inside quoted
//! substrings) and rewrite it into an indented multi-line layout.  Every
//! routine here is total: malformed bracket structure yields an imperfect
//! layout, never an error.

use vstd::prelude::*;
use crate::chars::str_chars;

verus! {

/// ASCII whitespace, as the comma lookahead of the deep rewrite sees it.
pub open spec fn is_ws(c: char) -> bool {
    c == ' ' || c == '\t' || c == '\n' || c == '\r'
}

/// State-machine scan for the maximum bracket depth of `s` from position `i`
/// onward, starting at depth `depth` with running maximum `maxd`; brackets
/// inside quoted substrings are ignored, and a backslash escapes the next
/// character inside quotes.
pub open spec fn scan_depth(s: Seq<char>, i: int, depth: int, maxd: int, inq: bool, esc: bool) -> int
    decreases s.len() - i,
{
    if i < 0 || i >= s.len() {
        maxd
    } else {
        let c = s[i];
        if esc {
            scan_depth(s, i + 1, depth, maxd, inq, false)
        } else if inq {
            if c == '\\' {
                scan_depth(s, i + 1, depth, maxd, true, true)
            } else if c == '"' {
                scan_depth(s, i + 1, depth, maxd, false, false)
            } else {
                scan_depth(s, i + 1, depth, maxd, true, false)
            }
        } else if c == '"' {
            scan_depth(s, i + 1, depth, maxd, true, false)
        } else if c == '[' {
            scan_depth(s, i + 1, depth + 1, if depth + 1 > maxd { depth + 1 } else { maxd }, false, false)
        } else if c == ']' {
            scan_depth(s, i + 1, depth - 1, maxd, false, false)
        } else {
            scan_depth(s, i + 1, depth, maxd, false, false)
        }
    }
}

/// Maximum quote-aware bracket-nesting depth of `s`.
pub open spec fn max_depth(s: Seq<char>) -> int {
    scan_depth(s, 0, 0, 0, false, false)
}

/// Compute the maximum quote-aware bracket-nesting depth of `s`.
pub fn count_nesting_depth(s: &Vec<char>) -> (r: usize)
    ensures
        r as int == max_depth(s@),
{
    let n: usize = s.len();
    let mut i: usize = 0;
    let mut depth: i128 = 0;
    let mut maxd: usize = 0;
    let mut inq: bool = false;
    let mut esc: bool = false;
    while i < n
        invariant
            n == s@.len(),
            i <= n,
            -(i as int) <= depth as int <= i as int,
            maxd as int <= i as int,
            max_depth(s@) == scan_depth(s@, i as int, depth as int, maxd as int, inq, esc),
        decreases n - i,
    {
        let c = s[i];
        if esc {
            esc = false;
        } else if inq {
            if c == '\\' {
                esc = true;
            } else if c == '"' {
                inq = false;
            }
        } else if c == '"' {
            inq = true;
        } else if c == '[' {
            depth = depth + 1;
            if depth > maxd as i128 {
                maxd = depth as usize;
            }
        } else if c == ']' {
            depth = depth - 1;
        }
        i = i + 1;
    }
    maxd
}

/// The characters of `s` with every newline removed.
pub open spec fn drop_newlines(s: Seq<char>) -> Seq<char>
    decreases s.len(),
{
    if s.len() == 0 {
        Seq::empty()
    } else if s[0] == '\n' {
        drop_newlines(s.drop_first())
    } else {
        seq![s[0]] + drop_newlines(s.drop_first())
    }
}

/// Removing newlines leaves no newline behind.
pub proof fn lemma_drop_newlines_clean(s: Seq<char>)
    ensures
        forall|k: int| 0 <= k < drop_newlines(s).len() ==> drop_newlines(s)[k] != '\n',
    decreases s.len(),
{
    if s.len() == 0 {
    } else {
        lemma_drop_newlines_clean(s.drop_first());
        if s[0] != '\n' {
            assert(forall|k: int|
                1 <= k < drop_newlines(s).len() ==> drop_newlines(s)[k] == drop_newlines(
                    s.drop_first(),
                )[k - 1]);
        }
    }
}

/// A string without newlines passes through `drop_newlines` unchanged.
pub proof fn lemma_drop_newlines_id(s: Seq<char>)
    requires
        forall|k: int| 0 <= k < s.len() ==> s[k] != '\n',
    ensures
        drop_newlines(s) == s,
    decreases s.len(),
{
    if s.len() == 0 {
        assert(drop_newlines(s) =~= s);
    } else {
        assert(forall|k: int| 0 <= k < s.drop_first().len() ==> s.drop_first()[k] != '\n');
        lemma_drop_newlines_id(s.drop_first());
        assert(drop_newlines(s) =~= s);
    }
}

/// Remove every newline character from `s`.
pub fn strip_newlines(s: &Vec<char>) -> (r: Vec<char>)
    ensures
        r@ == drop_newlines(s@),
{
    let n: usize = s.len();
    let mut out: Vec<char> = Vec::new();
    let mut i: usize = 0;
    proof {
        assert(s@.skip(0) =~= s@);
        assert(out@ + drop_newlines(s@) =~= drop_newlines(s@));
    }
    while i < n
        invariant
            n == s@.len(),
            i <= n,
            drop_newlines(s@) == out@ + drop_newlines(s@.skip(i as int)),
        decreases n - i,
    {
        let c = s[i];
        let ghost prev = out@;
        proof {
            assert(s@.skip(i as int).drop_first() =~= s@.skip(i as int + 1));
            assert(s@.skip(i as int)[0] == s@[i as int]);
        }
        if c != '\n' {
            out.push(c);
            proof {
                assert(out@ + drop_newlines(s@.skip(i as int + 1)) =~= prev + (seq![c]
                    + drop_newlines(s@.skip(i as int + 1))));
            }
        }
        i = i + 1;
    }
    proof {
        assert(s@.skip(n as int) =~= Seq::<char>::empty());
    }
    out
}

/// `s` with every non-overlapping occurrence of `pat`, found left to right,
/// replaced by `rep`.
pub open spec fn replace_seq(s: Seq<char>, pat: Seq<char>, rep: Seq<char>) -> Seq<char>
    decreases s.len(),
{
    if pat.len() == 0 || s.len() < pat.len() {
        s
    } else if s.take(pat.len() as int) == pat {
        rep + replace_seq(s.skip(pat.len() as int), pat, rep)
    } else {
        seq![s[0]] + replace_seq(s.drop_first(), pat, rep)
    }
}

/// Append every character of `src` to `out`.
pub fn push_all(out: &mut Vec<char>, src: &Vec<char>)
    ensures
        final(out)@ == old(out)@ + src@,
{
    let n: usize = src.len();
    let mut k: usize = 0;
    while k < n
        invariant
            n == src@.len(),
            k <= n,
            out@ == old(out)@ + src@.take(k as int),
        decreases n - k,
    {
        out.push(src[k]);
        proof {
            assert(src@.take(k as int + 1) =~= src@.take(k as int).push(src@[k as int]));
        }
        k = k + 1;
    }
    proof {
        assert(src@.take(n as int) =~= src@);
    }
}

/// Does `pat` occur in `v` starting at position `i`?
fn matches_at(v: &Vec<char>, i: usize, pat: &Vec<char>) -> (r: bool)
    requires
        i + pat@.len() <= v@.len(),
    ensures
        r == (v@.subrange(i as int, i as int + pat@.len() as int) == pat@),
{
    let nv: usize = v.len();
    let m: usize = pat.len();
    let mut k: usize = 0;
    while k < m
        invariant
            nv == v@.len(),
            m == pat@.len(),
            k <= m,
            i + m <= nv,
            forall|t: int| 0 <= t < k ==> v@[i + t] == pat@[t],
        decreases m - k,
    {
        if v[i + k] != pat[k] {
            proof {
                assert(v@.subrange(i as int, i as int + m as int)[k as int] == v@[i + k as int]);
            }
            return false;
        }
        k = k + 1;
    }
    proof {
        assert(v@.subrange(i as int, i as int + m as int) =~= pat@);
    }
    true
}

/// Replace every non-overlapping occurrence of `pat` in `v` by `rep`,
/// scanning left to right.
pub fn replace_all(v: &Vec<char>, pat: &Vec<char>, rep: &Vec<char>) -> (r: Vec<char>)
    requires
        pat@.len() > 0,
    ensures
        r@ == replace_seq(v@, pat@, rep@),
{
    let n: usize = v.len();
    let m: usize = pat.len();
    let mut out: Vec<char> = Vec::new();
    let mut i: usize = 0;
    proof {
        assert(v@.skip(0) =~= v@);
        assert(out@ + replace_seq(v@, pat@, rep@) =~= replace_seq(v@, pat@, rep@));
    }
    while i < n
        invariant
            n == v@.len(),
            m == pat@.len(),
            0 < m,
            i <= n,
            replace_seq(v@, pat@, rep@) == out@ + replace_seq(v@.skip(i as int), pat@, rep@),
        decreases n - i,
    {
        let ghost rest = v@.skip(i as int);
        let ghost prev = out@;
        proof {
            assert(rest.drop_first() =~= v@.skip(i as int + 1));
            assert(rest[0] == v@[i as int]);
        }
        if m <= n - i && matches_at(v, i, pat) {
            proof {
                assert(rest.take(m as int) =~= v@.subrange(i as int, i as int + m as int));
                assert(rest.skip(m as int) =~= v@.skip(i as int + m as int));
            }
            push_all(&mut out, rep);
            i = i + m;
            proof {
                assert(out@ + replace_seq(v@.skip(i as int), pat@, rep@) =~= prev + (rep@
                    + replace_seq(v@.skip(i as int), pat@, rep@)));
            }
        } else {
            proof {
                if m <= n - i {
                    assert(rest.take(m as int) =~= v@.subrange(i as int, i as int + m as int));
                }
            }
            out.push(v[i]);
            i = i + 1;
            proof {
                assert(out@ + replace_seq(v@.skip(i as int), pat@, rep@) =~= prev + (seq![
                    v@[i as int - 1],
                ] + replace_seq(v@.skip(i as int), pat@, rep@)));
                if rest.len() < m as int {
                    assert(replace_seq(rest, pat@, rep@) == rest);
                    assert(v@.skip(i as int).len() < m as int);
                    assert(replace_seq(v@.skip(i as int), pat@, rep@) == v@.skip(i as int));
                    assert(rest =~= seq![v@[i as int - 1]] + v@.skip(i as int));
                }
            }
        }
    }
    proof {
        assert(v@.skip(n as int) =~= Seq::<char>::empty());
    }
    out
}

/// The fixed rewrite for arrays of depth two.
pub open spec fn table_two(s: Seq<char>) -> Seq<char> {
    replace_seq(
        replace_seq(replace_seq(s, "[["@, "[\n    ["@), "]]"@, "]\n]"@),
        "], ["@,
        "],\n    ["@,
    )
}

/// The fixed rewrite for arrays of depth three.
pub open spec fn table_three(s: Seq<char>) -> Seq<char> {
    replace_seq(
        replace_seq(
            replace_seq(replace_seq(s, "[[["@, "[\n    [\n        ["@), "]]]"@, "]\n    ]\n]"@),
            "]], [["@,
            "]\n    ],\n    [\n        ["@,
        ),
        "], ["@,
        "],\n        ["@,
    )
}

/// The fixed rewrite for arrays of depth four.
pub open spec fn table_four(s: Seq<char>) -> Seq<char> {
    replace_seq(
        replace_seq(
            replace_seq(
                replace_seq(
                    replace_seq(s, "[[[["@, "[\n    [\n        [\n            ["@),
                    "]]]]"@,
                    "]\n        ]\n    ]\n]"@,
                ),
                "]]], [[["@,
                "]\n    ],\n    [\n        [\n            ["@,
            ),
            "]], [["@,
            "]\n        ],\n        [\n            ["@,
        ),
        "], ["@,
        "],\n            ["@,
    )
}

/// Four spaces of indentation per level; nothing for level zero or below.
pub open spec fn indent(level: int) -> Seq<char> {
    if level <= 0 {
        Seq::empty()
    } else {
        Seq::new((4 * level) as nat, |k: int| ' ')
    }
}

/// Is the first non-whitespace character of `s` at or after `i` an opening
/// bracket?
pub open spec fn next_nonws_opens(s: Seq<char>, i: int) -> bool
    decreases s.len() - i,
{
    if i < 0 || i >= s.len() {
        false
    } else if is_ws(s[i]) {
        next_nonws_opens(s, i + 1)
    } else {
        s[i] == '['
    }
}

/// The generic single-pass rewrite from position `i` onward, at bracket level
/// `level`, quote-aware with escape handling: a newline plus indentation is
/// inserted after each opening bracket beyond the outermost and before each
/// closing bracket that leaves level one or more, and after a comma exactly
/// when the next non-whitespace character opens a nested array.
pub open spec fn rewrite_deep(s: Seq<char>, i: int, level: int, inq: bool, esc: bool) -> Seq<char>
    decreases s.len() - i,
{
    if i < 0 || i >= s.len() {
        Seq::empty()
    } else {
        let c = s[i];
        if esc {
            seq![c] + rewrite_deep(s, i + 1, level, inq, false)
        } else if inq {
            if c == '\\' {
                seq![c] + rewrite_deep(s, i + 1, level, true, true)
            } else if c == '"' {
                seq![c] + rewrite_deep(s, i + 1, level, false, false)
            } else {
                seq![c] + rewrite_deep(s, i + 1, level, true, false)
            }
        } else if c == '"' {
            seq![c] + rewrite_deep(s, i + 1, level, true, false)
        } else if c == '[' {
            (if level + 1 > 1 {
                seq!['['] + seq!['\n'] + indent(level)
            } else {
                seq!['[']
            }) + rewrite_deep(s, i + 1, level + 1, false, false)
        } else if c == ']' {
            (if level - 1 >= 1 {
                seq!['\n'] + indent(level - 1) + seq![']']
            } else {
                seq![']']
            }) + rewrite_deep(s, i + 1, level - 1, false, false)
        } else if c == ',' {
            (if next_nonws_opens(s, i + 1) {
                seq![','] + seq!['\n'] + indent(level)
            } else {
                seq![',']
            }) + rewrite_deep(s, i + 1, level, false, false)
        } else {
            seq![c] + rewrite_deep(s, i + 1, level, false, false)
        }
    }
}

/// The generic rewrite applied to the whole string.
pub open spec fn deep_rewrite(s: Seq<char>) -> Seq<char> {
    rewrite_deep(s, 0, 0, false, false)
}

/// The array formatter: depth one is left unchanged, depths two to four use a
/// fixed rewrite table tuned to that depth, and anything else falls back to
/// the generic rewrite.
pub open spec fn array_fmt(s: Seq<char>, depth: int) -> Seq<char> {
    if depth == 1 {
        s
    } else if depth == 2 {
        table_two(s)
    } else if depth == 3 {
        table_three(s)
    } else if depth == 4 {
        table_four(s)
    } else {
        deep_rewrite(s)
    }
}

/// Push a newline and `level` levels of four-space indentation.
fn push_break(out: &mut Vec<char>, level: usize)
    ensures
        final(out)@ == old(out)@ + seq!['\n'] + indent(level as int),
{
    out.push('\n');
    let mut k: usize = 0;
    while k < level
        invariant
            k <= level,
            out@ == old(out)@ + seq!['\n'] + indent(k as int),
        decreases level - k,
    {
        out.push(' ');
        out.push(' ');
        out.push(' ');
        out.push(' ');
        proof {
            assert(indent(k as int + 1) =~= indent(k as int) + seq![' ', ' ', ' ', ' ']);
        }
        k = k + 1;
    }
}

/// Is the first non-whitespace character of `v` at or after `i` a `[`?
fn scan_next_nonws_opens(v: &Vec<char>, i: usize) -> (r: bool)
    ensures
        r == next_nonws_opens(v@, i as int),
{
    let n: usize = v.len();
    let mut j: usize = i;
    while j < n
        invariant
            n == v@.len(),
            i <= j,
            next_nonws_opens(v@, i as int) == next_nonws_opens(v@, j as int),
        decreases n - j,
    {
        let c = v[j];
        if c == ' ' || c == '\t' || c == '\n' || c == '\r' {
            j = j + 1;
        } else {
            return c == '[';
        }
    }
    false
}

/// The generic single-pass rewrite of deeply nested (or arbitrary) bracketed
/// text, the canonical fallback of the array formatter.
pub fn format_complex_array(s: &Vec<char>) -> (r: Vec<char>)
    ensures
        r@ == deep_rewrite(s@),
{
    let n: usize = s.len();
    let mut out: Vec<char> = Vec::new();
    let mut i: usize = 0;
    let mut level: i128 = 0;
    let mut inq: bool = false;
    let mut esc: bool = false;
    while i < n
        invariant
            n == s@.len(),
            i <= n,
            -(i as int) <= level as int <= i as int,
            deep_rewrite(s@) == out@ + rewrite_deep(s@, i as int, level as int, inq, esc),
        decreases n - i,
    {
        let c = s[i];
        if esc {
            out.push(c);
            esc = false;
        } else if inq {
            out.push(c);
            if c == '\\' {
                esc = true;
            } else if c == '"' {
                inq = false;
            }
        } else if c == '"' {
            out.push(c);
            inq = true;
        } else if c == '[' {
            out.push(c);
            level = level + 1;
            if level > 1 {
                push_break(&mut out, (level - 1) as usize);
            }
        } else if c == ']' {
            level = level - 1;
            if level >= 1 {
                push_break(&mut out, level as usize);
            }
            out.push(c);
        } else if c == ',' {
            out.push(c);
            if scan_next_nonws_opens(s, i + 1) {
                if level >= 1 {
                    push_break(&mut out, level as usize);
                } else {
                    push_break(&mut out, 0);
                }
            }
        } else {
            out.push(c);
        }
        i = i + 1;
    }
    out
}

/// Re-indent array debug text according to its nesting depth: depth one stays
/// single-line, depths two to four use the fixed rewrite tables, anything
/// else takes the generic rewrite.
pub fn format_array(s: &Vec<char>, depth: usize) -> (r: Vec<char>)
    ensures
        r@ == array_fmt(s@, depth as int),
{
    if depth == 1 {
        let mut out: Vec<char> = Vec::new();
        push_all(&mut out, s);
        out
    } else if depth == 2 {
        proof {
            reveal_strlit("[[");
            reveal_strlit("]]");
            reveal_strlit("], [");
        }
        let p1 = str_chars("[[");
        let r1 = str_chars("[\n    [");
        let p2 = str_chars("]]");
        let r2 = str_chars("]\n]");
        let p3 = str_chars("], [");
        let r3 = str_chars("],\n    [");
        let a = replace_all(s, &p1, &r1);
        let b = replace_all(&a, &p2, &r2);
        replace_all(&b, &p3, &r3)
    } else if depth == 3 {
        proof {
            reveal_strlit("[[[");
            reveal_strlit("]]]");
            reveal_strlit("]], [[");
            reveal_strlit("], [");
        }
        let p1 = str_chars("[[[");
        let r1 = str_chars("[\n    [\n        [");
        let p2 = str_chars("]]]");
        let r2 = str_chars("]\n    ]\n]");
        let p3 = str_chars("]], [[");
        let r3 = str_chars("]\n    ],\n    [\n        [");
        let p4 = str_chars("], [");
        let r4 = str_chars("],\n        [");
        let a = replace_all(s, &p1, &r1);
        let b = replace_all(&a, &p2, &r2);
        let c = replace_all(&b, &p3, &r3);
        replace_all(&c, &p4, &r4)
    } else if depth == 4 {
        proof {
            reveal_strlit("[[[[");
            reveal_strlit("]]]]");
            reveal_strlit("]]], [[[");
            reveal_strlit("]], [[");
            reveal_strlit("], [");
        }
        let p1 = str_chars("[[[[");
        let r1 = str_chars("[\n    [\n        [\n            [");
        let p2 = str_chars("]]]]");
        let r2 = str_chars("]\n        ]\n    ]\n]");
        let p3 = str_chars("]]], [[[");
        let r3 = str_chars("]\n    ],\n    [\n        [\n            [");
        let p4 = str_chars("]], [[");
        let r4 = str_chars("]\n        ],\n        [\n            [");
        let p5 = str_chars("], [");
        let r5 = str_chars("],\n            [");
        let a = replace_all(s, &p1, &r1);
        let b = replace_all(&a, &p2, &r2);
        let c = replace_all(&b, &p3, &r3);
        let d = replace_all(&c, &p4, &r4);
        replace_all(&d, &p5, &r5)
    } else {
        format_complex_array(s)
    }
}

/// An array whose maximum nesting depth is one is left exactly as it came:
/// in particular no line break is ever inserted after its commas.
pub proof fn lemma_depth_one_array_unchanged(s: Seq<char>)
    requires
        max_depth(s) == 1,
    ensures
        array_fmt(s, max_depth(s)) == s,
{
}

/// Does `s` contain a newline character?
pub open spec fn has_newline(s: Seq<char>) -> bool {
    exists|k: int| 0 <= k < s.len() && s[k] == '\n'
}

/// Check whether `v` contains a newline character.
pub fn contains_newline(v: &Vec<char>) -> (r: bool)
    ensures
        r == has_newline(v@),
{
    let n: usize = v.len();
    let mut i: usize = 0;
    while i < n
        invariant
            n == v@.len(),
            i <= n,
            forall|k: int| 0 <= k < i ==> v@[k] != '\n',
        decreases n - i,
    {
        if v[i] == '\n' {
            return true;
        }
        i = i + 1;
    }
    false
}

/// What the array-pretty directive does with a value's debug text: array text
/// is re-indented by depth, short single-line map text passes through while
/// long or multi-line map text falls back to the value's own pretty form, and
/// scalar text passes through unchanged.
pub open spec fn container_fmt(debug: Seq<char>, pretty: Seq<char>) -> Seq<char> {
    if debug.len() > 0 && debug[0] == '[' {
        array_fmt(debug, max_depth(debug))
    } else if debug.len() > 0 && debug[0] == '{' {
        if !has_newline(debug) && debug.len() < 100 {
            debug
        } else {
            pretty
        }
    } else {
        debug
    }
}

/// Format a sequence-like value from its debug text: arrays are re-indented
/// by nesting depth, map-like text under a hundred characters and without
/// newlines stays compact while anything larger takes the value's own pretty
/// form `pretty`, and scalar text passes through unchanged.
pub fn format_container(debug: &Vec<char>, pretty: &Vec<char>) -> (r: Vec<char>)
    ensures
        r@ == container_fmt(debug@, pretty@),
{
    let mut out: Vec<char> = Vec::new();
    if debug.len() > 0 && debug[0] == '[' {
        let d = count_nesting_depth(debug);
        return format_array(debug, d);
    }
    if debug.len() > 0 && debug[0] == '{' {
        if !contains_newline(debug) && debug.len() < 100 {
            push_all(&mut out, debug);
        } else {
            push_all(&mut out, pretty);
        }
        return out;
    }
    push_all(&mut out, debug);
    out
}

} // verus!
