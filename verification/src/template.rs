//! The directive parser: splitting a template into literal spans and
//! placeholders.
//!
//! A placeholder is a single `{` ... `}` pair whose body holds no brace; the
//! body is split at the first colon that is not inside parentheses, the part
//! before the colon (with surrounding ASCII whitespace removed) naming the
//! value and the part after it being the format directive.  A `{` that never
//! closes, or whose body holds another `{`, is ordinary literal text.  An
//! empty name is a template-compile error that carries the offending body.

use vstd::prelude::*;
use crate::chars::{chars_to_string, str_chars};
use crate::pretty::is_ws;

verus! {

/// One placeholder: the name before the colon and the directive after it.
pub ghost struct HoleModel {
    pub expr: Seq<char>,
    pub fmt: Option<Seq<char>>,
}

/// A parsed template: literal-span/placeholder pairs plus a trailing span.
pub ghost struct TemplateModel {
    pub pairs: Seq<(Seq<char>, HoleModel)>,
    pub tail: Seq<char>,
}

/// What parsing yields: a template, or the body of the offending placeholder.
pub ghost enum ParseOutcome {
    Parsed(TemplateModel),
    BadBody(Seq<char>),
}

/// The position of the first `}` at or after `i`, unless a `{` or the end of
/// the string comes first.
pub open spec fn find_close(s: Seq<char>, i: int) -> Option<int>
    decreases s.len() - i,
{
    if i < 0 || i >= s.len() {
        None
    } else if s[i] == '}' {
        Some(i)
    } else if s[i] == '{' {
        None
    } else {
        find_close(s, i + 1)
    }
}

/// The position of the first colon at or after `i` that is not inside
/// parentheses, `depth` counting the open parentheses so far (never going
/// below zero).
pub open spec fn find_colon(b: Seq<char>, i: int, depth: int) -> Option<int>
    decreases b.len() - i,
{
    if i < 0 || i >= b.len() {
        None
    } else if b[i] == ':' && depth == 0 {
        Some(i)
    } else if b[i] == '(' {
        find_colon(b, i + 1, depth + 1)
    } else if b[i] == ')' {
        find_colon(b, i + 1, if depth > 0 { depth - 1 } else { 0 })
    } else {
        find_colon(b, i + 1, depth)
    }
}

/// `s` without its leading ASCII whitespace.
pub open spec fn trim_start(s: Seq<char>) -> Seq<char>
    decreases s.len(),
{
    if s.len() > 0 && is_ws(s[0]) {
        trim_start(s.drop_first())
    } else {
        s
    }
}

/// `s` without its trailing ASCII whitespace.
pub open spec fn trim_end(s: Seq<char>) -> Seq<char>
    decreases s.len(),
{
    if s.len() > 0 && is_ws(s.last()) {
        trim_end(s.drop_last())
    } else {
        s
    }
}

/// `s` without leading and trailing ASCII whitespace.
pub open spec fn trimmed(s: Seq<char>) -> Seq<char> {
    trim_end(trim_start(s))
}

/// Split a placeholder body at the first top-level colon; the name before it
/// is trimmed and must not be empty.
pub open spec fn split_body(b: Seq<char>) -> Option<HoleModel> {
    match find_colon(b, 0, 0) {
        None => {
            let e = trimmed(b);
            if e.len() == 0 {
                None
            } else {
                Some(HoleModel { expr: e, fmt: None })
            }
        },
        Some(p) => {
            let e = trimmed(b.take(p));
            if e.len() == 0 {
                None
            } else {
                Some(HoleModel { expr: e, fmt: Some(b.skip(p + 1)) })
            }
        },
    }
}

/// Does a placeholder begin at position `i`?
pub open spec fn hole_starts_at(s: Seq<char>, i: int) -> bool {
    0 <= i < s.len() && s[i] == '{' && find_close(s, i + 1) is Some
}

/// The position of the first placeholder at or after `i`.
pub open spec fn next_hole(s: Seq<char>, i: int) -> Option<int>
    decreases s.len() - i,
{
    if i < 0 || i >= s.len() {
        None
    } else if hole_starts_at(s, i) {
        Some(i)
    } else {
        next_hole(s, i + 1)
    }
}

pub proof fn lemma_find_close_props(s: Seq<char>, i: int)
    requires
        0 <= i,
    ensures
        match find_close(s, i) {
            Some(j) => i <= j < s.len() && s[j] == '}',
            None => true,
        },
    decreases s.len() - i,
{
    if 0 <= i < s.len() && s[i] != '}' && s[i] != '{' {
        lemma_find_close_props(s, i + 1);
    }
}

pub proof fn lemma_next_hole_props(s: Seq<char>, i: int)
    requires
        0 <= i,
    ensures
        match next_hole(s, i) {
            Some(k) => i <= k < s.len() && hole_starts_at(s, k),
            None => true,
        },
    decreases s.len() - i,
{
    if 0 <= i < s.len() && !hole_starts_at(s, i) {
        lemma_next_hole_props(s, i + 1);
    }
}

/// The whole parse of the suffix of `s` that starts at `i`: literal text up
/// to each placeholder, the placeholder itself, and so on to the end; the
/// first body whose name is empty aborts the parse.
pub open spec fn parse_from(s: Seq<char>, i: int) -> ParseOutcome
    decreases s.len() - i,
    via parse_from_dec
{
    match next_hole(s, i) {
        None => ParseOutcome::Parsed(
            TemplateModel { pairs: Seq::empty(), tail: s.subrange(i, s.len() as int) },
        ),
        Some(k) => match find_close(s, k + 1) {
            None => ParseOutcome::BadBody(Seq::empty()),
            Some(j) => {
                let body = s.subrange(k + 1, j);
                match split_body(body) {
                    None => ParseOutcome::BadBody(body),
                    Some(h) => match parse_from(s, j + 1) {
                        ParseOutcome::BadBody(b) => ParseOutcome::BadBody(b),
                        ParseOutcome::Parsed(t) => ParseOutcome::Parsed(
                            TemplateModel {
                                pairs: seq![(s.subrange(i, k), h)] + t.pairs,
                                tail: t.tail,
                            },
                        ),
                    },
                }
            },
        },
    }
}

#[via_fn]
proof fn parse_from_dec(s: Seq<char>, i: int) {
    match next_hole(s, i) {
        Some(k) => {
            if i >= 0 {
                lemma_next_hole_props(s, i);
            } else {
                lemma_next_hole_from_neg(s, i);
            }
            lemma_find_close_props(s, k + 1);
        },
        None => {},
    }
}

proof fn lemma_next_hole_from_neg(s: Seq<char>, i: int)
    requires
        i < 0,
    ensures
        match next_hole(s, i) {
            Some(k) => 0 <= k < s.len() && hole_starts_at(s, k),
            None => true,
        },
    decreases s.len() - i,
{
    if i < 0 && i < s.len() {
        if i + 1 < 0 {
            lemma_next_hole_from_neg(s, i + 1);
        } else {
            lemma_next_hole_props(s, i + 1);
        }
    }
}

/// The outcome of parsing the whole template.
pub open spec fn parse_model(s: Seq<char>) -> ParseOutcome {
    parse_from(s, 0)
}

/// One placeholder of a parsed template: the expression text naming the
/// value, and the optional format directive that followed the colon.
pub struct Placeholder {
    pub expr: String,
    pub fmt: Option<String>,
}

impl View for Placeholder {
    type V = HoleModel;

    open spec fn view(&self) -> HoleModel {
        HoleModel {
            expr: self.expr@,
            fmt: match self.fmt {
                Some(f) => Some(f@),
                None => None,
            },
        }
    }
}

/// A literal span together with the placeholder that follows it.
pub struct TemplatePair {
    pub lit: String,
    pub hole: Placeholder,
}

impl View for TemplatePair {
    type V = (Seq<char>, HoleModel);

    open spec fn view(&self) -> (Seq<char>, HoleModel) {
        (self.lit@, self.hole@)
    }
}

/// A parsed template: literal-span/placeholder pairs in source order, plus
/// the trailing literal span.
pub struct Template {
    pub pairs: Vec<TemplatePair>,
    pub tail: String,
}

impl View for Template {
    type V = TemplateModel;

    open spec fn view(&self) -> TemplateModel {
        TemplateModel {
            pairs: self.pairs@.map_values(|p: TemplatePair| p@),
            tail: self.tail@,
        }
    }
}

/// Why a render call failed: a placeholder body whose name is empty, or an
/// argument list whose length does not match the number of placeholders.
#[derive(Debug)]
pub enum TemplateError {
    ExpressionSyntax { fragment: String },
    ArgumentCount { expected: usize, given: usize },
}

/// Copy the characters of `v` between positions `a` and `b`.
pub fn sub_chars(v: &Vec<char>, a: usize, b: usize) -> (r: Vec<char>)
    requires
        a <= b <= v@.len(),
    ensures
        r@ == v@.subrange(a as int, b as int),
{
    let mut r: Vec<char> = Vec::new();
    let mut k: usize = a;
    proof {
        assert(v@.subrange(a as int, a as int) =~= r@);
    }
    while k < b
        invariant
            a <= k <= b <= v@.len(),
            r@ == v@.subrange(a as int, k as int),
        decreases b - k,
    {
        r.push(v[k]);
        proof {
            assert(v@.subrange(a as int, k as int + 1) =~= v@.subrange(a as int, k as int).push(
                v@[k as int],
            ));
        }
        k = k + 1;
    }
    r
}

/// Scan for the `}` that closes a placeholder whose body starts at `start`.
fn scan_close(v: &Vec<char>, start: usize) -> (r: Option<usize>)
    ensures
        match r {
            Some(j) => find_close(v@, start as int) == Some(j as int) && start <= j < v@.len(),
            None => find_close(v@, start as int) is None,
        },
{
    let n: usize = v.len();
    let mut j: usize = start;
    while j < n
        invariant
            n == v@.len(),
            start <= j,
            find_close(v@, start as int) == find_close(v@, j as int),
        decreases n - j,
    {
        let c = v[j];
        if c == '}' {
            return Some(j);
        }
        if c == '{' {
            return None;
        }
        j = j + 1;
    }
    None
}

/// Scan a placeholder body for the first colon outside parentheses.
fn scan_colon(b: &Vec<char>) -> (r: Option<usize>)
    ensures
        match r {
            Some(p) => find_colon(b@, 0, 0) == Some(p as int) && p < b@.len(),
            None => find_colon(b@, 0, 0) is None,
        },
{
    let n: usize = b.len();
    let mut i: usize = 0;
    let mut depth: usize = 0;
    while i < n
        invariant
            n == b@.len(),
            i <= n,
            depth <= i,
            find_colon(b@, 0, 0) == find_colon(b@, i as int, depth as int),
        decreases n - i,
    {
        let c = b[i];
        if c == ':' && depth == 0 {
            return Some(i);
        }
        if c == '(' {
            depth = depth + 1;
        } else if c == ')' {
            if depth > 0 {
                depth = depth - 1;
            }
        }
        i = i + 1;
    }
    None
}

/// Is `c` ASCII whitespace?
fn is_space_char(c: char) -> (r: bool)
    ensures
        r == is_ws(c),
{
    c == ' ' || c == '\t' || c == '\n' || c == '\r'
}

/// Remove leading and trailing ASCII whitespace from `b`.
pub fn trim_chars(b: &Vec<char>) -> (r: Vec<char>)
    ensures
        r@ == trimmed(b@),
{
    let n: usize = b.len();
    let mut a: usize = 0;
    proof {
        assert(b@.skip(0) =~= b@);
    }
    while a < n && is_space_char(b[a])
        invariant
            n == b@.len(),
            a <= n,
            trim_start(b@) == trim_start(b@.skip(a as int)),
        decreases n - a,
    {
        proof {
            assert(b@.skip(a as int)[0] == b@[a as int]);
            assert(b@.skip(a as int).drop_first() =~= b@.skip(a as int + 1));
        }
        a = a + 1;
    }
    proof {
        if a == n {
            assert(b@.skip(n as int) =~= Seq::<char>::empty());
        }
        assert(trim_start(b@) == b@.skip(a as int));
    }
    let mut e: usize = n;
    proof {
        assert(b@.subrange(a as int, n as int) =~= b@.skip(a as int));
    }
    while e > a && is_space_char(b[e - 1])
        invariant
            a <= e <= n == b@.len(),
            trim_end(b@.skip(a as int)) == trim_end(b@.subrange(a as int, e as int)),
        decreases e,
    {
        proof {
            let cur = b@.subrange(a as int, e as int);
            assert(cur.last() == b@[e as int - 1]);
            assert(cur.drop_last() =~= b@.subrange(a as int, e as int - 1));
        }
        e = e - 1;
    }
    proof {
        assert(trim_end(b@.subrange(a as int, e as int)) == b@.subrange(a as int, e as int));
    }
    sub_chars(b, a, e)
}

/// How one character of leading literal text folds into a parse outcome.
pub open spec fn prepend_lit(c: Seq<char>, t: TemplateModel) -> TemplateModel {
    if t.pairs.len() > 0 {
        TemplateModel {
            pairs: seq![(c + t.pairs[0].0, t.pairs[0].1)] + t.pairs.drop_first(),
            tail: t.tail,
        }
    } else {
        TemplateModel { pairs: t.pairs, tail: c + t.tail }
    }
}

pub open spec fn prepend_outcome(c: Seq<char>, o: ParseOutcome) -> ParseOutcome {
    match o {
        ParseOutcome::BadBody(b) => ParseOutcome::BadBody(b),
        ParseOutcome::Parsed(t) => ParseOutcome::Parsed(prepend_lit(c, t)),
    }
}

/// A placeholder (with empty leading literal) in front of a parse outcome.
pub open spec fn attach_hole(h: HoleModel, o: ParseOutcome) -> ParseOutcome {
    match o {
        ParseOutcome::BadBody(b) => ParseOutcome::BadBody(b),
        ParseOutcome::Parsed(t) => ParseOutcome::Parsed(
            TemplateModel { pairs: seq![(Seq::empty(), h)] + t.pairs, tail: t.tail },
        ),
    }
}

/// Finished pairs, the pending literal, and the parse of the rest, glued
/// into the parse of the whole.
pub open spec fn combine(
    done: Seq<(Seq<char>, HoleModel)>,
    cur: Seq<char>,
    o: ParseOutcome,
) -> ParseOutcome {
    match o {
        ParseOutcome::BadBody(b) => ParseOutcome::BadBody(b),
        ParseOutcome::Parsed(t) => {
            let t2 = prepend_lit(cur, t);
            ParseOutcome::Parsed(TemplateModel { pairs: done + t2.pairs, tail: t2.tail })
        },
    }
}

proof fn lemma_prepend_concat(a: Seq<char>, b: Seq<char>, t: TemplateModel)
    ensures
        prepend_lit(a, prepend_lit(b, t)) == prepend_lit(a + b, t),
{
    if t.pairs.len() > 0 {
        assert(prepend_lit(b, t).pairs.len() > 0);
        assert(prepend_lit(b, t).pairs[0].0 == b + t.pairs[0].0);
        assert(a + (b + t.pairs[0].0) =~= (a + b) + t.pairs[0].0);
        assert(prepend_lit(b, t).pairs.drop_first() =~= t.pairs.drop_first());
        assert(prepend_lit(a, prepend_lit(b, t)).pairs =~= prepend_lit(a + b, t).pairs);
    } else {
        assert(a + (b + t.tail) =~= (a + b) + t.tail);
    }
}

/// A parse step over a literal character: parsing from `i` is parsing from
/// `i + 1` with `s[i]` put in front.
proof fn lemma_parse_step(s: Seq<char>, i: int)
    requires
        0 <= i < s.len(),
        !hole_starts_at(s, i),
    ensures
        parse_from(s, i) == prepend_outcome(seq![s[i]], parse_from(s, i + 1)),
{
    assert(next_hole(s, i) == next_hole(s, i + 1));
    match next_hole(s, i + 1) {
        None => {
            assert(s.subrange(i, s.len() as int) =~= seq![s[i]] + s.subrange(
                i + 1,
                s.len() as int,
            ));
        },
        Some(k) => {
            lemma_next_hole_props(s, i + 1);
            match find_close(s, k + 1) {
                None => {},
                Some(j) => {
                    let body = s.subrange(k + 1, j);
                    match split_body(body) {
                        None => {},
                        Some(h) => match parse_from(s, j + 1) {
                            ParseOutcome::BadBody(_) => {},
                            ParseOutcome::Parsed(t) => {
                                let inner = TemplateModel {
                                    pairs: seq![(s.subrange(i + 1, k), h)] + t.pairs,
                                    tail: t.tail,
                                };
                                assert(seq![s[i]] + s.subrange(i + 1, k) =~= s.subrange(i, k));
                                assert(prepend_lit(seq![s[i]], inner).pairs =~= seq![
                                    (s.subrange(i, k), h),
                                ] + t.pairs);
                            },
                        },
                    }
                },
            }
        },
    }
}

/// A parse step over a placeholder that starts at `i` and closes at `j`.
proof fn lemma_parse_at_hole(s: Seq<char>, i: int, j: int)
    requires
        0 <= i < s.len(),
        s[i] == '{',
        find_close(s, i + 1) == Some(j),
    ensures
        match split_body(s.subrange(i + 1, j)) {
            None => parse_from(s, i) == ParseOutcome::BadBody(s.subrange(i + 1, j)),
            Some(h) => parse_from(s, i) == attach_hole(h, parse_from(s, j + 1)),
        },
{
    assert(hole_starts_at(s, i));
    assert(next_hole(s, i) == Some(i));
    let body = s.subrange(i + 1, j);
    match split_body(body) {
        None => {},
        Some(h) => match parse_from(s, j + 1) {
            ParseOutcome::BadBody(_) => {},
            ParseOutcome::Parsed(t) => {
                assert(s.subrange(i, i) =~= Seq::<char>::empty());
            },
        },
    }
}

proof fn lemma_combine_push(
    done: Seq<(Seq<char>, HoleModel)>,
    cur: Seq<char>,
    c: char,
    o: ParseOutcome,
)
    ensures
        combine(done, cur, prepend_outcome(seq![c], o)) == combine(done, cur.push(c), o),
{
    match o {
        ParseOutcome::BadBody(_) => {},
        ParseOutcome::Parsed(t) => {
            lemma_prepend_concat(cur, seq![c], t);
            assert(cur + seq![c] =~= cur.push(c));
        },
    }
}

proof fn lemma_prepend_empty(t: TemplateModel)
    ensures
        prepend_lit(Seq::empty(), t) == t,
{
    if t.pairs.len() > 0 {
        assert(Seq::<char>::empty() + t.pairs[0].0 =~= t.pairs[0].0);
        assert(prepend_lit(Seq::empty(), t).pairs =~= t.pairs);
    } else {
        assert(Seq::<char>::empty() + t.tail =~= t.tail);
    }
}

proof fn lemma_combine_hole(
    done: Seq<(Seq<char>, HoleModel)>,
    cur: Seq<char>,
    h: HoleModel,
    o: ParseOutcome,
)
    ensures
        combine(done, cur, attach_hole(h, o)) == combine(done.push((cur, h)), Seq::empty(), o),
{
    match o {
        ParseOutcome::BadBody(_) => {},
        ParseOutcome::Parsed(t) => {
            lemma_prepend_empty(t);
            let attached = TemplateModel { pairs: seq![(Seq::empty(), h)] + t.pairs, tail: t.tail };
            assert(attached.pairs.len() > 0);
            assert(cur + Seq::<char>::empty() =~= cur);
            assert(attached.pairs.drop_first() =~= t.pairs);
            assert(prepend_lit(cur, attached).pairs =~= seq![(cur, h)] + t.pairs);
            assert(done + (seq![(cur, h)] + t.pairs) =~= done.push((cur, h)) + t.pairs);
        },
    }
}

/// Parse a template into its literal spans and placeholders.
///
/// Succeeds exactly when every placeholder body has a non-empty name; the
/// first offending body otherwise comes back inside the error.
pub fn parse_template(s: &str) -> (r: Result<Template, TemplateError>)
    ensures
        match r {
            Ok(t) => parse_model(s@) == ParseOutcome::Parsed(t@),
            Err(TemplateError::ExpressionSyntax { fragment }) => parse_model(s@)
                == ParseOutcome::BadBody(fragment@),
            Err(_) => false,
        },
{
    let v = str_chars(s);
    let n: usize = v.len();
    let mut pairs: Vec<TemplatePair> = Vec::new();
    let mut lit: Vec<char> = Vec::new();
    let mut i: usize = 0;
    proof {
        assert(pairs@.map_values(|p: TemplatePair| p@) =~= Seq::<(Seq<char>, HoleModel)>::empty());
        lemma_combine_start(parse_from(v@, 0));
    }
    while i < n
        invariant
            n == v@.len(),
            v@ == s@,
            i <= n,
            combine(pairs@.map_values(|p: TemplatePair| p@), lit@, parse_from(v@, i as int))
                == parse_from(v@, 0),
        decreases n - i,
    {
        let ghost done = pairs@.map_values(|p: TemplatePair| p@);
        let c = v[i];
        let mut hole_end: Option<usize> = None;
        if c == '{' {
            hole_end = scan_close(&v, i + 1);
        }
        match hole_end {
            Some(j) => {
                let body = sub_chars(&v, i + 1, j);
                let cut = scan_colon(&body);
                let (expr_raw, fmt): (Vec<char>, Option<String>) = match cut {
                    None => {
                        proof {
                            assert(body@.take(body@.len() as int) =~= body@);
                        }
                        (sub_chars(&body, 0, body.len()), None)
                    },
                    Some(p) => {
                        let f = sub_chars(&body, p + 1, body.len());
                        proof {
                            assert(body@.subrange(p as int + 1, body@.len() as int) =~= body@.skip(
                                p as int + 1,
                            ));
                            assert(body@.subrange(0, p as int) =~= body@.take(p as int));
                        }
                        (sub_chars(&body, 0, p), Some(chars_to_string(&f)))
                    },
                };
                let expr_t = trim_chars(&expr_raw);
                proof {
                    lemma_parse_at_hole(v@, i as int, j as int);
                }
                if expr_t.len() == 0 {
                    proof {
                        assert(split_body(body@) is None);
                        assert(parse_from(v@, i as int) == ParseOutcome::BadBody(body@));
                    }
                    return Err(TemplateError::ExpressionSyntax { fragment: chars_to_string(&body) });
                }
                let hole = Placeholder { expr: chars_to_string(&expr_t), fmt };
                proof {
                    assert(split_body(body@) == Some(hole@));
                    lemma_combine_hole(done, lit@, hole@, parse_from(v@, j as int + 1));
                }
                let pair = TemplatePair { lit: chars_to_string(&lit), hole };
                let ghost pairv = pair@;
                let ghost litv = lit@;
                pairs.push(pair);
                lit = Vec::new();
                proof {
                    assert(pairv == (litv, split_body(body@)->Some_0));
                    assert(pairs@.map_values(|p: TemplatePair| p@) =~= done.push(pairv));
                }
                i = j + 1;
            },
            None => {
                proof {
                    assert(!hole_starts_at(v@, i as int));
                    lemma_parse_step(v@, i as int);
                    lemma_combine_push(done, lit@, v@[i as int], parse_from(v@, i as int + 1));
                }
                lit.push(c);
                i = i + 1;
            },
        }
    }
    proof {
        assert(v@.subrange(n as int, v@.len() as int) =~= Seq::<char>::empty());
        assert(parse_from(v@, n as int) == ParseOutcome::Parsed(
            TemplateModel { pairs: Seq::empty(), tail: Seq::empty() },
        ));
        lemma_combine_end(pairs@.map_values(|p: TemplatePair| p@), lit@);
    }
    let t = Template { pairs, tail: chars_to_string(&lit) };
    Ok(t)
}

proof fn lemma_combine_start(o: ParseOutcome)
    ensures
        combine(Seq::empty(), Seq::empty(), o) == o,
{
    match o {
        ParseOutcome::BadBody(_) => {},
        ParseOutcome::Parsed(t) => {
            lemma_prepend_empty(t);
            assert(Seq::<(Seq<char>, HoleModel)>::empty() + t.pairs =~= t.pairs);
        },
    }
}

proof fn lemma_combine_end(done: Seq<(Seq<char>, HoleModel)>, cur: Seq<char>)
    ensures
        combine(
            done,
            cur,
            ParseOutcome::Parsed(TemplateModel { pairs: Seq::empty(), tail: Seq::empty() }),
        ) == ParseOutcome::Parsed(TemplateModel { pairs: done, tail: cur }),
{
    let t = TemplateModel { pairs: Seq::empty(), tail: Seq::empty() };
    assert(prepend_lit(cur, t).pairs =~= Seq::<(Seq<char>, HoleModel)>::empty());
    assert(cur + Seq::<char>::empty() =~= cur);
    assert(done + Seq::<(Seq<char>, HoleModel)>::empty() =~= done);
}

} // verus!
