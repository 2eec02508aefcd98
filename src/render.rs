use vstd::prelude::*;

use crate::context::{variable_value, Context, ContextView};
use crate::parser::{
    in_run, is_name_char, lemma_run_end_at, lemma_run_end_bounds, lemma_tokens_within, parse,
    parse_chars, run_end, span, span_text, token_at, token_within, tokens_from, ParseError, Run,
    Token,
};
use crate::table::Table;
use crate::text::{chars_of, string_of_range, trim, trimmed};

verus! {

/// How deeply variable values and included files may be expanded inside one
/// another before rendering gives up, unless a renderer is made with a bound of
/// its own (`Mold::with_max_depth`).
pub const MAX_DEPTH: usize = 64;

/// Why a render failed.
#[derive(Clone, Debug, PartialEq, Eq)]
pub enum RenderError {
    /// The text holds an include tag that is never closed.
    Parse(ParseError),
    /// The contents of the included file at `path` were not given.
    IncludeUnavailable { path: String },
    /// The included file at `path` could not be read.
    IncludeRead { path: String },
    /// Values and included files expand inside one another deeper than the
    /// renderer's bound, as they do without end where a variable refers to itself.
    DepthExceeded,
}

pub ghost enum RenderErrorView {
    Parse(ParseError),
    IncludeUnavailable(Seq<char>),
    IncludeRead(Seq<char>),
    DepthExceeded,
}

impl View for RenderError {
    type V = RenderErrorView;

    open spec fn view(&self) -> RenderErrorView {
        match self {
            RenderError::Parse(e) => RenderErrorView::Parse(*e),
            RenderError::IncludeUnavailable { path } => RenderErrorView::IncludeUnavailable(path@),
            RenderError::IncludeRead { path } => RenderErrorView::IncludeRead(path@),
            RenderError::DepthExceeded => RenderErrorView::DepthExceeded,
        }
    }
}

pub open spec fn result_view(r: Result<String, RenderError>) -> Result<Seq<char>, RenderErrorView> {
    match r {
        Ok(s) => Ok(s@),
        Err(e) => Err(e@),
    }
}

/// Everything a render depends on besides the text: the context, what became of
/// reading the files that may be included (their contents, or `None` where the
/// read failed), the selected namespace, and whether a tag whose variable is
/// missing is kept as it was written.
pub ghost struct Env {
    pub ctx: ContextView,
    pub files: Map<Seq<char>, Option<Seq<char>>>,
    pub namespace: Option<Seq<char>>,
    pub render_raw: bool,
}

/// `s` rendered, with `depth` levels of nested expansion left.
pub open spec fn render_text(env: Env, s: Seq<char>, depth: nat) -> Result<
    Seq<char>,
    RenderErrorView,
>
    decreases depth, 1nat, 0nat,
{
    match parse(s) {
        Err(e) => Err(RenderErrorView::Parse(e)),
        Ok(ts) => render_tokens(env, s, ts, depth),
    }
}

/// The tokens `ts` of `s` rendered one after another; the first failure ends it.
pub open spec fn render_tokens(env: Env, s: Seq<char>, ts: Seq<Token>, depth: nat) -> Result<
    Seq<char>,
    RenderErrorView,
>
    decreases depth, 0nat, ts.len(),
{
    if ts.len() == 0 {
        Ok(Seq::empty())
    } else {
        match render_token(env, s, ts[0], depth) {
            Err(e) => Err(e),
            Ok(a) => match render_tokens(env, s, ts.drop_first(), depth) {
                Ok(b) => Ok(a + b),
                Err(e) => Err(e),
            },
        }
    }
}

/// One token of `s` rendered. A variable's value is rendered in turn, and
/// stands as it is where that fails to parse or to read a file it includes; a
/// missing variable leaves its tag or nothing. An included file's contents,
/// trimmed for `{@~ ~@}`, are rendered in turn.
pub open spec fn render_token(env: Env, s: Seq<char>, t: Token, depth: nat) -> Result<
    Seq<char>,
    RenderErrorView,
>
    decreases depth, 0nat, 0nat,
{
    match t {
        Token::Text(sp) => Ok(span_text(s, sp)),
        Token::Variable { name, raw } => match variable_value(
            env.ctx,
            span_text(s, name),
            env.namespace,
        ) {
            Some(v) => if depth == 0 {
                Err(RenderErrorView::DepthExceeded)
            } else {
                match render_text(env, v, (depth - 1) as nat) {
                    Ok(r) => Ok(r),
                    Err(RenderErrorView::Parse(_)) => Ok(v),
                    Err(RenderErrorView::IncludeRead(_)) => Ok(v),
                    Err(e) => Err(e),
                }
            },
            None => if env.render_raw {
                Ok(span_text(s, raw))
            } else {
                Ok(Seq::empty())
            },
        },
        Token::FileSource { path, trim } => {
            let p = span_text(s, path);
            if depth == 0 {
                Err(RenderErrorView::DepthExceeded)
            } else if !env.files.contains_key(p) {
                Err(RenderErrorView::IncludeUnavailable(p))
            } else {
                match env.files[p] {
                    None => Err(RenderErrorView::IncludeRead(p)),
                    Some(c) => render_text(
                        env,
                        if trim {
                            trimmed(c)
                        } else {
                            c
                        },
                        (depth - 1) as nat,
                    ),
                }
            }
        },
    }
}

/// What `r` holds after `done`, or the error of `r`.
pub open spec fn after_text(done: Seq<char>, r: Result<Seq<char>, RenderErrorView>) -> Result<
    Seq<char>,
    RenderErrorView,
> {
    match r {
        Ok(rest) => Ok(done + rest),
        Err(e) => Err(e),
    }
}

/// Text without `{` holds no tag: it renders to itself, whatever the context,
/// the files, the selected namespace, the policy for missing variables and the
/// depth left.
pub proof fn lemma_plain_text_renders_unchanged(env: Env, s: Seq<char>, depth: nat)
    requires
        s.len() <= usize::MAX,
        forall|i: int| 0 <= i < s.len() ==> s[i] != '{',
    ensures
        render_text(env, s, depth) == Ok::<Seq<char>, RenderErrorView>(s),
{
    if s.len() == 0 {
        assert(s =~= Seq::<char>::empty());
    } else {
        lemma_run_end_bounds(s, 0, Run::Text);
        let e = run_end(s, 0, Run::Text);
        assert(e == s.len());
        let t = Token::Text(span(0, e));
        assert(token_at(s, 0) == Ok::<(Token, int), ParseError>((t, e)));
        assert(tokens_from(s, e) == Ok::<Seq<Token>, ParseError>(Seq::empty()));
        let ts = seq![t] + Seq::<Token>::empty();
        assert(parse(s) == Ok::<Seq<Token>, ParseError>(ts));
        assert(ts.drop_first() =~= Seq::<Token>::empty());
        assert(span_text(s, span(0, e)) =~= s);
        assert(s + Seq::<char>::empty() =~= s);
    }
}

/// The tag `{% name %}`.
pub open spec fn variable_tag(name: Seq<char>) -> Seq<char> {
    seq!['{', '%', ' '] + name + seq![' ', '%', '}']
}

/// A variable whose value is nothing but its own tag never finishes
/// expanding: rendering that tag fails with `DepthExceeded`, whatever the
/// depth, rather than giving some text.
pub proof fn lemma_self_reference_fails(env: Env, name: Seq<char>, depth: nat)
    requires
        0 < name.len(),
        name.len() + 6 <= usize::MAX,
        forall|i: int| 0 <= i < name.len() ==> is_name_char(#[trigger] name[i]),
        variable_value(env.ctx, name, env.namespace) == Some(variable_tag(name)),
    ensures
        render_text(env, variable_tag(name), depth) == Err::<Seq<char>, RenderErrorView>(
            RenderErrorView::DepthExceeded,
        ),
    decreases depth,
{
    let s = variable_tag(name);
    let n = name.len() as int;
    assert(s[0] == '{' && s[1] == '%' && s[2] == ' ' && s[n + 3] == ' ' && s[n + 4] == '%'
        && s[n + 5] == '}');
    assert forall|k: int| 3 <= k < n + 3 implies in_run(#[trigger] s[k], Run::Name) by {
        assert(s[k] == name[k - 3]);
    }
    assert(s[3] == name[0]);
    lemma_run_end_at(s, 2, 3, Run::Spaces);
    lemma_run_end_at(s, 3, n + 3, Run::Name);
    lemma_run_end_at(s, n + 3, n + 4, Run::Spaces);
    let t = Token::Variable { name: span(3, n + 3), raw: span(0, n + 6) };
    assert(token_at(s, 0) == Ok::<(Token, int), ParseError>((t, n + 6)));
    assert(tokens_from(s, n + 6) == Ok::<Seq<Token>, ParseError>(Seq::empty()));
    let ts = seq![t] + Seq::<Token>::empty();
    assert(parse(s) == Ok::<Seq<Token>, ParseError>(ts));
    assert(ts[0] == t);
    assert(span_text(s, span(3, n + 3)) =~= name);
    if depth > 0 {
        lemma_self_reference_fails(env, name, (depth - 1) as nat);
    }
}

/// What became of reading an included file.
#[derive(Clone, Debug)]
pub enum IncludeFile {
    Contents(String),
    Unreadable,
}

impl View for IncludeFile {
    type V = Option<Seq<char>>;

    open spec fn view(&self) -> Option<Seq<char>> {
        match self {
            IncludeFile::Contents(c) => Some(c@),
            IncludeFile::Unreadable => None,
        }
    }
}

/// Renders templates against a context.
#[derive(Clone, Debug)]
pub struct Mold {
    context: Context,
    includes: Table<IncludeFile>,
    max_depth: usize,
}

pub ghost struct MoldView {
    pub context: ContextView,
    pub includes: Map<Seq<char>, Option<Seq<char>>>,
    pub max_depth: nat,
}

impl View for Mold {
    type V = MoldView;

    closed spec fn view(&self) -> MoldView {
        MoldView {
            context: self.context@,
            includes: self.includes@,
            max_depth: self.max_depth as nat,
        }
    }
}

pub open spec fn opt_view(o: Option<&str>) -> Option<Seq<char>> {
    match o {
        Some(s) => Some(s@),
        None => None,
    }
}

pub open spec fn env_of(m: MoldView, namespace: Option<&str>, render_raw: bool) -> Env {
    Env { ctx: m.context, files: m.includes, namespace: opt_view(namespace), render_raw }
}

impl Mold {
    /// A renderer for `context` that knows no file contents yet, with nesting
    /// bounded by `MAX_DEPTH`.
    pub fn new(context: Context) -> (r: Self)
        ensures
            r@ == (MoldView {
                context: context@,
                includes: Map::empty(),
                max_depth: MAX_DEPTH as nat,
            }),
    {
        Mold::with_max_depth(context, MAX_DEPTH)
    }

    /// A renderer for `context` that knows no file contents yet, with nesting
    /// bounded by `max_depth`.
    pub fn with_max_depth(context: Context, max_depth: usize) -> (r: Self)
        ensures
            r@ == (MoldView {
                context: context@,
                includes: Map::empty(),
                max_depth: max_depth as nat,
            }),
    {
        Mold { context, includes: Table::new(), max_depth }
    }

    pub fn max_depth(&self) -> (r: usize)
        ensures
            r == self@.max_depth,
    {
        self.max_depth
    }

    pub fn context(&self) -> (r: &Context)
        ensures
            r@ == self@.context,
    {
        &self.context
    }

    /// Gives the contents of the file at `path`, for include tags that name it.
    pub fn add_include(&mut self, path: String, contents: String)
        ensures
            final(self)@ == (MoldView {
                includes: old(self)@.includes.insert(path@, Some(contents@)),
                ..old(self)@
            }),
    {
        self.includes.insert(path, IncludeFile::Contents(contents));
    }

    /// Records that the file at `path` could not be read: an include tag that
    /// names it then fails (see `render_token`).
    pub fn add_unreadable_include(&mut self, path: String)
        ensures
            final(self)@ == (MoldView {
                includes: old(self)@.includes.insert(path@, None),
                ..old(self)@
            }),
    {
        self.includes.insert(path, IncludeFile::Unreadable);
    }

    /// Renders `input`: text stays as it is, and each tag is replaced by what it
    /// stands for (see `render_text`), with up to `max_depth` levels of nesting.
    pub fn render(&self, input: &str, namespace: Option<&str>, render_raw: bool) -> (r: Result<
        String,
        RenderError,
    >)
        ensures
            result_view(r) == render_text(
                env_of(self@, namespace, render_raw),
                input@,
                self@.max_depth,
            ),
    {
        let chars = chars_of(input);
        self.render_chars(&chars, namespace, render_raw, self.max_depth)
    }

    /// Renders the characters `s` with `depth` levels of nesting left.
    fn render_chars(
        &self,
        s: &Vec<char>,
        namespace: Option<&str>,
        render_raw: bool,
        depth: usize,
    ) -> (r: Result<String, RenderError>)
        ensures
            result_view(r) == render_text(
                env_of(self@, namespace, render_raw),
                s@,
                depth as nat,
            ),
        decreases depth, 1usize,
    {
        let ghost env = env_of(self@, namespace, render_raw);
        let tokens = match parse_chars(s) {
            Ok(ts) => ts,
            Err(e) => {
                return Err(RenderError::Parse(e));
            },
        };
        let n = s.len();
        let ghost ts = tokens@;
        proof {
            assert(s@.len() == n);
            lemma_tokens_within(s@, 0);
            assert(ts.subrange(0, ts.len() as int) =~= ts);
            if let Ok(b) = render_tokens(env, s@, ts, depth as nat) {
                assert(Seq::<char>::empty() + b =~= b);
            }
        }
        let mut out = String::new();
        let mut k: usize = 0;
        while k < tokens.len()
            invariant
                k <= tokens.len(),
                env == env_of(self@, namespace, render_raw),
                ts == tokens@,
                parse(s@) == Ok::<Seq<Token>, ParseError>(ts),
                forall|j: int|
                    0 <= j < ts.len() ==> #[trigger] token_within(ts[j], s@.len() as int),
                render_text(env, s@, depth as nat) == after_text(
                    out@,
                    render_tokens(env, s@, ts.subrange(k as int, ts.len() as int), depth as nat),
                ),
            decreases tokens.len() - k,
        {
            let ghost sub = ts.subrange(k as int, ts.len() as int);
            let ghost later = ts.subrange(k + 1, ts.len() as int);
            proof {
                assert(sub.drop_first() =~= later);
                assert(sub[0] == ts[k as int]);
                assert(token_within(ts[k as int], s@.len() as int));
                let first = render_token(env, s@, ts[k as int], depth as nat);
                assert(render_tokens(env, s@, sub, depth as nat) == match first {
                    Err(e) => Err(e),
                    Ok(a) => match render_tokens(env, s@, later, depth as nat) {
                        Ok(b) => Ok(a + b),
                        Err(e) => Err(e),
                    },
                });
            }
            let piece = self.render_piece(s, tokens[k], namespace, render_raw, depth);
            match piece {
                Ok(p) => {
                    proof {
                        if let Ok(b) = render_tokens(env, s@, later, depth as nat) {
                            assert(out@ + p@ + b =~= out@ + (p@ + b));
                        }
                    }
                    out.append(p.as_str());
                },
                Err(e) => {
                    return Err(e);
                },
            }
            k = k + 1;
        }
        proof {
            assert(out@ + Seq::<char>::empty() =~= out@);
        }
        Ok(out)
    }

    /// Renders the token `t` of the characters `s`.
    fn render_piece(
        &self,
        s: &Vec<char>,
        t: Token,
        namespace: Option<&str>,
        render_raw: bool,
        depth: usize,
    ) -> (r: Result<String, RenderError>)
        requires
            token_within(t, s@.len() as int),
        ensures
            result_view(r) == render_token(
                env_of(self@, namespace, render_raw),
                s@,
                t,
                depth as nat,
            ),
        decreases depth, 0usize,
    {
        match t {
            Token::Text(sp) => Ok(string_of_range(s, sp.start, sp.end)),
            Token::Variable { name, raw } => {
                let key = string_of_range(s, name.start, name.end);
                let found = match namespace {
                    Some(n) => self.context.get_variable_value(key.as_str(), n),
                    None => self.context.get_global_variable(key.as_str()),
                };
                match found {
                    Some(v) => {
                        if depth == 0 {
                            return Err(RenderError::DepthExceeded);
                        }
                        let chars = chars_of(v.as_str());
                        match self.render_chars(&chars, namespace, render_raw, depth - 1) {
                            Ok(r) => Ok(r),
                            Err(RenderError::Parse(_)) => Ok(v.clone()),
                            Err(RenderError::IncludeRead { .. }) => Ok(v.clone()),
                            Err(e) => Err(e),
                        }
                    },
                    None => {
                        if render_raw {
                            Ok(string_of_range(s, raw.start, raw.end))
                        } else {
                            Ok(String::new())
                        }
                    },
                }
            },
            Token::FileSource { path, trim: trimming } => {
                if depth == 0 {
                    return Err(RenderError::DepthExceeded);
                }
                let p = string_of_range(s, path.start, path.end);
                match self.includes.get(p.as_str()) {
                    None => Err(RenderError::IncludeUnavailable { path: p }),
                    Some(IncludeFile::Unreadable) => Err(RenderError::IncludeRead { path: p }),
                    Some(IncludeFile::Contents(contents)) => {
                        let text = if trimming {
                            trim(contents.as_str())
                        } else {
                            contents.clone()
                        };
                        let chars = chars_of(text.as_str());
                        self.render_chars(&chars, namespace, render_raw, depth - 1)
                    },
                }
            },
        }
    }
}

} // verus!
