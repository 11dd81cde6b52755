//! Directive resolution, per-value dispatch, and template rendering.
//!
//! Each placeholder's format directive picks a rendering strategy for the
//! corresponding argument; the renderer then reassembles literal spans and
//! rendered values in source order into one output string.

use vstd::prelude::*;
use vstd::string::*;
use crate::chars::{chars_to_string, str_chars};
use crate::numeric::{
    format_int_plain,
    format_numeric,
    int_display,
    num_render,
    parse_num_spec,
};
use crate::pretty::{
    container_fmt,
    drop_newlines,
    format_container,
    lemma_drop_newlines_clean,
    strip_newlines,
};
use crate::template::{
    parse_model,
    parse_template,
    next_hole,
    ParseOutcome,
    Template,
    TemplateError,
    TemplateModel,
};

verus! {

/// One value to substitute: a 64-bit integer the engine can format itself,
/// or a value pre-rendered by its own stringifier to a natural display form,
/// a single-line debug form, and an expanded multi-line debug form.
pub enum Arg {
    Int(i64),
    Str { display: String, debug: String, pretty: String },
}

/// The mathematical shape of an argument.
pub ghost enum ArgModel {
    Int(int),
    Str { display: Seq<char>, debug: Seq<char>, pretty: Seq<char> },
}

impl View for Arg {
    type V = ArgModel;

    open spec fn view(&self) -> ArgModel {
        match self {
            Arg::Int(n) => ArgModel::Int(*n as int),
            Arg::Str { display, debug, pretty } => ArgModel::Str {
                display: display@,
                debug: debug@,
                pretty: pretty@,
            },
        }
    }
}

/// An argument's natural display text.
pub open spec fn display_of(a: ArgModel) -> Seq<char> {
    match a {
        ArgModel::Int(n) => int_display(n),
        ArgModel::Str { display, .. } => display,
    }
}

/// An argument's single-line debug text.
pub open spec fn debug_of(a: ArgModel) -> Seq<char> {
    match a {
        ArgModel::Int(n) => int_display(n),
        ArgModel::Str { debug, .. } => debug,
    }
}

/// An argument's expanded multi-line debug text.
pub open spec fn pretty_of(a: ArgModel) -> Seq<char> {
    match a {
        ArgModel::Int(n) => int_display(n),
        ArgModel::Str { pretty, .. } => pretty,
    }
}

/// The rendering strategy a placeholder's format directive selects.
pub enum Directive {
    Plain,
    ArrayPretty,
    DebugCompact,
    JsonPretty,
    Numeric(String),
}

/// The mathematical shape of a directive.
pub ghost enum DirectiveModel {
    Plain,
    ArrayPretty,
    DebugCompact,
    JsonPretty,
    Numeric(Seq<char>),
}

impl View for Directive {
    type V = DirectiveModel;

    open spec fn view(&self) -> DirectiveModel {
        match self {
            Directive::Plain => DirectiveModel::Plain,
            Directive::ArrayPretty => DirectiveModel::ArrayPretty,
            Directive::DebugCompact => DirectiveModel::DebugCompact,
            Directive::JsonPretty => DirectiveModel::JsonPretty,
            Directive::Numeric(f) => DirectiveModel::Numeric(f@),
        }
    }
}

/// Which directive a placeholder's format text names: no text is the plain
/// rendering, `a` the array-pretty one, `c` the compact one, `j` the
/// always-multi-line one, and anything else a numeric directive.
pub open spec fn directive_of(fmt: Option<Seq<char>>) -> DirectiveModel {
    match fmt {
        None => DirectiveModel::Plain,
        Some(f) => if f == "a"@ {
            DirectiveModel::ArrayPretty
        } else if f == "c"@ {
            DirectiveModel::DebugCompact
        } else if f == "j"@ {
            DirectiveModel::JsonPretty
        } else {
            DirectiveModel::Numeric(f)
        },
    }
}

/// Does the string slice hold exactly the one character `c`?
fn is_single_char(f: &str, c: char) -> (r: bool)
    ensures
        r == (f@ =~= seq![c]),
{
    let n = f.unicode_len();
    if n != 1 {
        return false;
    }
    f.get_char(0) == c
}

/// Resolve a placeholder's optional format text to its directive.
pub fn resolve_directive(fmt: &Option<String>) -> (d: Directive)
    ensures
        d@ == directive_of(
            match fmt {
                Some(f) => Some(f@),
                None => None,
            },
        ),
{
    match fmt {
        None => Directive::Plain,
        Some(f) => {
            proof {
                reveal_strlit("a");
                reveal_strlit("c");
                reveal_strlit("j");
                assert("a"@ =~= seq!['a']);
                assert("c"@ =~= seq!['c']);
                assert("j"@ =~= seq!['j']);
            }
            if is_single_char(f.as_str(), 'a') {
                Directive::ArrayPretty
            } else if is_single_char(f.as_str(), 'c') {
                Directive::DebugCompact
            } else if is_single_char(f.as_str(), 'j') {
                Directive::JsonPretty
            } else {
                Directive::Numeric(f.clone())
            }
        },
    }
}

/// What one placeholder renders to: the directive applied to the argument.
pub open spec fn dispatch_spec(d: DirectiveModel, a: ArgModel) -> Seq<char> {
    match d {
        DirectiveModel::Plain => display_of(a),
        DirectiveModel::ArrayPretty => container_fmt(debug_of(a), pretty_of(a)),
        DirectiveModel::DebugCompact => drop_newlines(debug_of(a)),
        DirectiveModel::JsonPretty => pretty_of(a),
        DirectiveModel::Numeric(f) => match a {
            ArgModel::Int(n) => match parse_num_spec(f) {
                Some(ns) => num_render(ns, n),
                None => int_display(n),
            },
            ArgModel::Str { display, .. } => display,
        },
    }
}

/// Render one argument under one directive.
pub fn dispatch(d: &Directive, a: &Arg) -> (r: String)
    ensures
        r@ == dispatch_spec(d@, a@),
{
    match d {
        Directive::Plain => match a {
            Arg::Int(n) => chars_to_string(&format_int_plain(*n)),
            Arg::Str { display, .. } => display.clone(),
        },
        Directive::ArrayPretty => match a {
            Arg::Int(n) => {
                let dv = format_int_plain(*n);
                chars_to_string(&format_container(&dv, &dv))
            },
            Arg::Str { debug, pretty, .. } => {
                let dv = str_chars(debug.as_str());
                let pv = str_chars(pretty.as_str());
                chars_to_string(&format_container(&dv, &pv))
            },
        },
        Directive::DebugCompact => match a {
            Arg::Int(n) => {
                let dv = format_int_plain(*n);
                chars_to_string(&strip_newlines(&dv))
            },
            Arg::Str { debug, .. } => {
                let dv = str_chars(debug.as_str());
                chars_to_string(&strip_newlines(&dv))
            },
        },
        Directive::JsonPretty => match a {
            Arg::Int(n) => chars_to_string(&format_int_plain(*n)),
            Arg::Str { pretty, .. } => pretty.clone(),
        },
        Directive::Numeric(f) => match a {
            Arg::Int(n) => {
                let fv = str_chars(f.as_str());
                chars_to_string(&format_numeric(&fv, *n))
            },
            Arg::Str { display, .. } => display.clone(),
        },
    }
}

/// The models of a sequence of arguments.
pub open spec fn args_model(s: Seq<Arg>) -> Seq<ArgModel> {
    s.map_values(|a: Arg| a@)
}

/// The rendering of a parsed template from pair `k` onward: each literal
/// span, then its placeholder's value under its directive, in source order,
/// then the trailing span.
pub open spec fn render_from(t: TemplateModel, args: Seq<ArgModel>, k: int) -> Seq<char>
    decreases t.pairs.len() - k,
{
    if k < 0 || k >= t.pairs.len() {
        t.tail
    } else {
        t.pairs[k].0 + dispatch_spec(directive_of(t.pairs[k].1.fmt), args[k]) + render_from(
            t,
            args,
            k + 1,
        )
    }
}

/// The rendering of a whole parsed template.
pub open spec fn render_model(t: TemplateModel, args: Seq<ArgModel>) -> Seq<char> {
    render_from(t, args, 0)
}

/// Render a template against one argument per placeholder, in source order.
///
/// Fails exactly when the template fails to parse (a placeholder body with an
/// empty name) or when the number of arguments differs from the number of
/// placeholders; otherwise the output is every literal span and every
/// rendered value, interleaved in source order.
pub fn render(template: &str, args: &Vec<Arg>) -> (r: Result<String, TemplateError>)
    ensures
        match r {
            Ok(out) => parse_model(template@) matches ParseOutcome::Parsed(t)
                && t.pairs.len() == args@.len() && out@ == render_model(t, args_model(args@)),
            Err(TemplateError::ExpressionSyntax { fragment }) => parse_model(template@)
                == ParseOutcome::BadBody(fragment@),
            Err(TemplateError::ArgumentCount { expected, given }) => parse_model(template@)
                matches ParseOutcome::Parsed(t) && t.pairs.len() == expected && args@.len() == given
                && expected != given,
        },
{
    let t: Template = match parse_template(template) {
        Ok(t) => t,
        Err(e) => {
            return Err(e);
        },
    };
    let np: usize = t.pairs.len();
    if np != args.len() {
        return Err(TemplateError::ArgumentCount { expected: np, given: args.len() });
    }
    let ghost tm = t@;
    let ghost am = args_model(args@);
    let mut out = String::new();
    let mut i: usize = 0;
    proof {
        assert(out@ + render_from(tm, am, 0) =~= render_from(tm, am, 0));
    }
    while i < np
        invariant
            np == t.pairs@.len() == args@.len(),
            i <= np,
            tm == t@,
            am == args_model(args@),
            parse_model(template@) == ParseOutcome::Parsed(tm),
            render_model(tm, am) == out@ + render_from(tm, am, i as int),
        decreases np - i,
    {
        let ghost prev = out@;
        let pair: &crate::template::TemplatePair = &t.pairs[i];
        proof {
            assert(tm.pairs[i as int] == t.pairs@.map_values(|p: crate::template::TemplatePair| p@)[i as int]);
            assert(am[i as int] == args@[i as int]@);
        }
        out.append(pair.lit.as_str());
        let d = resolve_directive(&pair.hole.fmt);
        let val = dispatch(&d, &args[i]);
        out.append(val.as_str());
        proof {
            assert(out@ =~= prev + (tm.pairs[i as int].0 + dispatch_spec(
                directive_of(tm.pairs[i as int].1.fmt),
                am[i as int],
            )));
            assert(out@ + render_from(tm, am, i as int + 1) =~= prev + (tm.pairs[i as int].0
                + dispatch_spec(directive_of(tm.pairs[i as int].1.fmt), am[i as int]) + render_from(
                tm,
                am,
                i as int + 1,
            )));
        }
        i = i + 1;
    }
    out.append(t.tail.as_str());
    proof {
        assert(render_from(tm, am, np as int) == tm.tail);
    }
    Ok(out)
}

/// A template with no placeholders renders as itself, whatever arguments are
/// supplied.
pub proof fn lemma_literal_template_renders_itself(
    s: Seq<char>,
    t: TemplateModel,
    args: Seq<ArgModel>,
)
    requires
        parse_model(s) == ParseOutcome::Parsed(t),
        t.pairs.len() == 0,
    ensures
        render_model(t, args) == s,
{
    match next_hole(s, 0) {
        None => {
            assert(t.tail =~= s.subrange(0, s.len() as int));
            assert(s.subrange(0, s.len() as int) =~= s);
        },
        Some(k) => {
            assert(t.pairs.len() > 0 || parse_model(s) is BadBody);
        },
    }
}

/// The compact directive's output never contains a newline, for any value.
pub proof fn lemma_compact_never_newline(a: ArgModel)
    ensures
        forall|k: int|
            0 <= k < dispatch_spec(DirectiveModel::DebugCompact, a).len() ==> dispatch_spec(
                DirectiveModel::DebugCompact,
                a,
            )[k] != '\n',
{
    lemma_drop_newlines_clean(debug_of(a));
}

} // verus!
