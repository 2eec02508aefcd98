use vstd::prelude::*;

use crate::text::{
    chars_of, lemma_trim_end_bounds, lemma_trim_start_bounds, trim_end, trim_end_at, trim_start,
    trim_start_at,
};

verus! {

/// Character positions `start..end` of a source text.
#[derive(Clone, Copy, Debug, PartialEq, Eq, Structural)]
pub struct Span {
    pub start: usize,
    pub end: usize,
}

pub open spec fn span(start: int, end: int) -> Span {
    Span { start: start as usize, end: end as usize }
}

/// The text that `sp` covers in `s`.
pub open spec fn span_text(s: Seq<char>, sp: Span) -> Seq<char> {
    s.subrange(sp.start as int, sp.end as int)
}

/// One piece of a template.
#[derive(Clone, Copy, Debug, PartialEq, Eq, Structural)]
pub enum Token {
    /// Text that stands for itself.
    Text(Span),
    /// `{% name %}`: `name` is the variable's name, `raw` the whole tag.
    Variable { name: Span, raw: Span },
    /// `{@ path @}`, or `{@~ path ~@}` when `trim` is set; `path` is trimmed.
    FileSource { path: Span, trim: bool },
}

/// The include tag that opens at character `position` of the parsed text is
/// never closed.
#[derive(Clone, Copy, Debug, PartialEq, Eq, Structural)]
pub struct ParseError {
    pub position: usize,
}

/// The kinds of runs of characters that the grammar skips over.
#[derive(Clone, Copy, Debug, PartialEq, Eq, Structural)]
pub enum Run {
    Spaces,
    Name,
    Text,
}

/// The characters allowed in a variable's name.
pub open spec fn is_name_char(c: char) -> bool {
    ('a' <= c && c <= 'z') || ('A' <= c && c <= 'Z') || ('0' <= c && c <= '9') || c == '.' || c
        == '-' || c == '_' || c == '!' || c == '@' || c == '$' || c == '#'
}

pub open spec fn in_run(c: char, run: Run) -> bool {
    match run {
        Run::Spaces => c == ' ',
        Run::Name => is_name_char(c),
        Run::Text => c != '{',
    }
}

pub fn is_valid_variable_char(c: char) -> (r: bool)
    ensures
        r == is_name_char(c),
{
    ('a' <= c && c <= 'z') || ('A' <= c && c <= 'Z') || ('0' <= c && c <= '9') || c == '.' || c
        == '-' || c == '_' || c == '!' || c == '@' || c == '$' || c == '#'
}

fn is_in_run(c: char, run: Run) -> (r: bool)
    ensures
        r == in_run(c, run),
{
    match run {
        Run::Spaces => c == ' ',
        Run::Name => is_valid_variable_char(c),
        Run::Text => c != '{',
    }
}

/// End of the longest run of `run` characters that starts at `i`.
pub open spec fn run_end(s: Seq<char>, i: int, run: Run) -> int
    decreases s.len() - i,
{
    if 0 <= i < s.len() && in_run(s[i], run) {
        run_end(s, i + 1, run)
    } else {
        i
    }
}

/// Whether the closing delimiter of an include tag starts at `j`:
/// `~@}` for the trimming form, `@}` for the plain one.
pub open spec fn closer_at(s: Seq<char>, j: int, trim: bool) -> bool {
    if trim {
        0 <= j && j + 3 <= s.len() && s[j] == '~' && s[j + 1] == '@' && s[j + 2] == '}'
    } else {
        0 <= j && j + 2 <= s.len() && s[j] == '@' && s[j + 1] == '}'
    }
}

/// Length of an include tag's delimiters, which is the same at both ends.
pub open spec fn delimiter_len(trim: bool) -> int {
    if trim {
        3
    } else {
        2
    }
}

/// The first position at or after `j` where an include tag's closing delimiter starts.
pub open spec fn find_closer(s: Seq<char>, j: int, trim: bool) -> Option<int>
    decreases s.len() - j,
{
    if j < 0 || j >= s.len() {
        None
    } else if closer_at(s, j, trim) {
        Some(j)
    } else {
        find_closer(s, j + 1, trim)
    }
}

pub open spec fn opens_variable(s: Seq<char>, i: int) -> bool {
    0 <= i && i + 2 <= s.len() && s[i] == '{' && s[i + 1] == '%'
}

/// Whether an include tag opens at `i`: `{@~` for the trimming form, `{@` for the plain one.
pub open spec fn opens_include(s: Seq<char>, i: int, trim: bool) -> bool {
    if trim {
        0 <= i && i + 3 <= s.len() && s[i] == '{' && s[i + 1] == '@' && s[i + 2] == '~'
    } else {
        0 <= i && i + 2 <= s.len() && s[i] == '{' && s[i + 1] == '@'
    }
}

/// Where the name of a variable tag opened at `i` starts.
pub open spec fn name_start(s: Seq<char>, i: int) -> int {
    run_end(s, i + 2, Run::Spaces)
}

/// Where `%}` must stand for a variable tag opened at `i` to be closed.
pub open spec fn variable_close(s: Seq<char>, i: int) -> int {
    run_end(s, run_end(s, name_start(s, i), Run::Name), Run::Spaces)
}

pub open spec fn variable_closed(s: Seq<char>, i: int) -> bool {
    let c = variable_close(s, i);
    c + 2 <= s.len() && s[c] == '%' && s[c + 1] == '}'
}

/// The include tag that opens at `i`, and where the text after it starts.
pub open spec fn include_at(s: Seq<char>, i: int, trim: bool) -> Result<(Token, int), ParseError> {
    let body = i + delimiter_len(trim);
    match find_closer(s, body, trim) {
        Some(j) => {
            let a = trim_start(s, body, j);
            let path = span(a, trim_end(s, a, j));
            Ok((Token::FileSource { path, trim }, j + delimiter_len(trim)))
        },
        None => Err(ParseError { position: i as usize }),
    }
}

/// The token that starts at `i`, and where the text after it starts. The
/// alternatives are tried in order: a variable tag, a trimming include, a plain
/// include, a lone `{`, then text up to the next `{`.
pub open spec fn token_at(s: Seq<char>, i: int) -> Result<(Token, int), ParseError> {
    if opens_variable(s, i) && variable_closed(s, i) {
        let a = name_start(s, i);
        let c = variable_close(s, i);
        Ok(
            (
                Token::Variable { name: span(a, run_end(s, a, Run::Name)), raw: span(i, c + 2) },
                c + 2,
            ),
        )
    } else if opens_include(s, i, true) {
        include_at(s, i, true)
    } else if opens_include(s, i, false) {
        include_at(s, i, false)
    } else if s[i] == '{' {
        Ok((Token::Text(span(i, i + 1)), i + 1))
    } else {
        Ok((Token::Text(span(i, run_end(s, i, Run::Text))), run_end(s, i, Run::Text)))
    }
}

/// Each span of `t` lies within a text of length `n`.
pub open spec fn token_within(t: Token, n: int) -> bool {
    match t {
        Token::Text(sp) => sp.start <= sp.end <= n,
        Token::Variable { name, raw } => name.start <= name.end <= n && raw.start <= raw.end <= n,
        Token::FileSource { path, .. } => path.start <= path.end <= n,
    }
}

pub proof fn lemma_run_end_bounds(s: Seq<char>, i: int, run: Run)
    requires
        0 <= i <= s.len(),
    ensures
        i <= run_end(s, i, run) <= s.len(),
        run_end(s, i, run) == s.len() || !in_run(s[run_end(s, i, run)], run),
    decreases s.len() - i,
{
    if i < s.len() && in_run(s[i], run) {
        lemma_run_end_bounds(s, i + 1, run);
    }
}

/// Where a run is known to end, `run_end` finds that end.
pub proof fn lemma_run_end_at(s: Seq<char>, i: int, j: int, run: Run)
    requires
        0 <= i <= j <= s.len(),
        forall|k: int| i <= k < j ==> in_run(#[trigger] s[k], run),
        j == s.len() || !in_run(s[j], run),
    ensures
        run_end(s, i, run) == j,
    decreases j - i,
{
    if i < j {
        lemma_run_end_at(s, i + 1, j, run);
    }
}

pub proof fn lemma_find_closer_bounds(s: Seq<char>, j: int, trim: bool)
    requires
        0 <= j,
    ensures
        find_closer(s, j, trim) matches Some(k) ==> j <= k && closer_at(s, k, trim),
    decreases s.len() - j,
{
    if 0 <= j < s.len() && !closer_at(s, j, trim) {
        lemma_find_closer_bounds(s, j + 1, trim);
    }
}

/// A token ends after it starts, within the text, and its spans lie within the text.
pub proof fn lemma_token_at(s: Seq<char>, i: int)
    requires
        0 <= i < s.len(),
        s.len() <= usize::MAX,
    ensures
        token_at(s, i) matches Ok((t, n)) ==> i < n <= s.len() && token_within(t, s.len() as int),
{
    if opens_variable(s, i) {
        let a = name_start(s, i);
        lemma_run_end_bounds(s, i + 2, Run::Spaces);
        lemma_run_end_bounds(s, a, Run::Name);
        lemma_run_end_bounds(s, run_end(s, a, Run::Name), Run::Spaces);
    }
    if opens_include(s, i, true) {
        lemma_find_closer_bounds(s, i + 3, true);
        if let Some(j) = find_closer(s, i + 3, true) {
            lemma_trim_start_bounds(s, i + 3, j);
            lemma_trim_end_bounds(s, trim_start(s, i + 3, j), j);
        }
    }
    if opens_include(s, i, false) {
        lemma_find_closer_bounds(s, i + 2, false);
        if let Some(j) = find_closer(s, i + 2, false) {
            lemma_trim_start_bounds(s, i + 2, j);
            lemma_trim_end_bounds(s, trim_start(s, i + 2, j), j);
        }
    }
    lemma_run_end_bounds(s, i, Run::Text);
}

/// The tokens of `s` from position `i` on.
pub open spec fn tokens_from(s: Seq<char>, i: int) -> Result<Seq<Token>, ParseError>
    decreases s.len() - i,
{
    if i < 0 || i >= s.len() || s.len() > usize::MAX {
        Ok(Seq::empty())
    } else {
        match token_at(s, i) {
            Err(e) => Err(e),
            Ok((t, n)) => {
                proof {
                    lemma_token_at(s, i);
                }
                match tokens_from(s, n) {
                    Ok(rest) => Ok(seq![t] + rest),
                    Err(e) => Err(e),
                }
            },
        }
    }
}

/// The tokens of a template, or the first include tag that is never closed.
pub open spec fn parse(s: Seq<char>) -> Result<Seq<Token>, ParseError> {
    tokens_from(s, 0)
}

/// `done` followed by what `r` holds, or the error of `r`.
pub open spec fn after(done: Seq<Token>, r: Result<Seq<Token>, ParseError>) -> Result<
    Seq<Token>,
    ParseError,
> {
    match r {
        Ok(rest) => Ok(done + rest),
        Err(e) => Err(e),
    }
}

pub proof fn lemma_tokens_within(s: Seq<char>, i: int)
    requires
        0 <= i,
        s.len() <= usize::MAX,
    ensures
        tokens_from(s, i) matches Ok(ts) ==> forall|k: int|
            0 <= k < ts.len() ==> #[trigger] token_within(ts[k], s.len() as int),
    decreases s.len() - i,
{
    if i < s.len() {
        lemma_token_at(s, i);
        if let Ok((t, n)) = token_at(s, i) {
            lemma_tokens_within(s, n);
            if let Ok(rest) = tokens_from(s, n) {
                let ts = seq![t] + rest;
                assert forall|k: int| 0 <= k < ts.len() implies #[trigger] token_within(
                    ts[k],
                    s.len() as int,
                ) by {
                    if k > 0 {
                        assert(ts[k] == rest[k - 1]);
                    }
                }
            }
        }
    }
}

fn run_end_at(s: &Vec<char>, i: usize, run: Run) -> (r: usize)
    requires
        i <= s.len(),
    ensures
        r == run_end(s@, i as int, run),
        i <= r <= s.len(),
{
    let mut j: usize = i;
    while j < s.len() && is_in_run(s[j], run)
        invariant
            i <= j <= s.len(),
            run_end(s@, i as int, run) == run_end(s@, j as int, run),
        decreases s.len() - j,
    {
        j = j + 1;
    }
    j
}

fn is_closer_at(s: &Vec<char>, j: usize, trim: bool) -> (r: bool)
    ensures
        r == closer_at(s@, j as int, trim),
{
    if trim {
        j < s.len() && s.len() - j >= 3 && s[j] == '~' && s[j + 1] == '@' && s[j + 2] == '}'
    } else {
        j < s.len() && s.len() - j >= 2 && s[j] == '@' && s[j + 1] == '}'
    }
}

fn find_closer_from(s: &Vec<char>, j: usize, trim: bool) -> (r: Option<usize>)
    ensures
        match r {
            Some(k) => find_closer(s@, j as int, trim) == Some(k as int),
            None => find_closer(s@, j as int, trim) is None,
        },
{
    let mut k: usize = j;
    while k < s.len()
        invariant
            j <= k,
            find_closer(s@, j as int, trim) == find_closer(s@, k as int, trim),
        decreases s.len() - k,
    {
        if is_closer_at(s, k, trim) {
            return Some(k);
        }
        k = k + 1;
    }
    None
}

fn include_from(s: &Vec<char>, i: usize, trim: bool) -> (r: Result<(Token, usize), ParseError>)
    requires
        opens_include(s@, i as int, trim),
    ensures
        match r {
            Ok((t, n)) => include_at(s@, i as int, trim) == Ok::<(Token, int), ParseError>(
                (t, n as int),
            ),
            Err(e) => include_at(s@, i as int, trim) == Err::<(Token, int), ParseError>(e),
        },
{
    let len = s.len();
    proof {
        assert(i + delimiter_len(trim) <= len);
    }
    let body: usize = if trim {
        i + 3
    } else {
        i + 2
    };
    match find_closer_from(s, body, trim) {
        Some(j) => {
            proof {
                lemma_find_closer_bounds(s@, body as int, trim);
            }
            let a = trim_start_at(s, body, j);
            let b = trim_end_at(s, a, j);
            let n: usize = if trim {
                j + 3
            } else {
                j + 2
            };
            Ok((Token::FileSource { path: Span { start: a, end: b }, trim }, n))
        },
        None => Err(ParseError { position: i }),
    }
}

fn token_from(s: &Vec<char>, i: usize) -> (r: Result<(Token, usize), ParseError>)
    requires
        i < s.len(),
    ensures
        match r {
            Ok((t, n)) => token_at(s@, i as int) == Ok::<(Token, int), ParseError>((t, n as int)),
            Err(e) => token_at(s@, i as int) == Err::<(Token, int), ParseError>(e),
        },
{
    let len = s.len();
    if len - i >= 2 && s[i] == '{' && s[i + 1] == '%' {
        let a = run_end_at(s, i + 2, Run::Spaces);
        let b = run_end_at(s, a, Run::Name);
        let c = run_end_at(s, b, Run::Spaces);
        if len - c >= 2 && s[c] == '%' && s[c + 1] == '}' {
            return Ok(
                (
                    Token::Variable {
                        name: Span { start: a, end: b },
                        raw: Span { start: i, end: c + 2 },
                    },
                    c + 2,
                ),
            );
        }
    }
    if len - i >= 3 && s[i] == '{' && s[i + 1] == '@' && s[i + 2] == '~' {
        include_from(s, i, true)
    } else if len - i >= 2 && s[i] == '{' && s[i + 1] == '@' {
        include_from(s, i, false)
    } else if s[i] == '{' {
        Ok((Token::Text(Span { start: i, end: i + 1 }), i + 1))
    } else {
        let e = run_end_at(s, i, Run::Text);
        Ok((Token::Text(Span { start: i, end: e }), e))
    }
}

/// The tokens of the characters `s`.
pub fn parse_chars(s: &Vec<char>) -> (r: Result<Vec<Token>, ParseError>)
    ensures
        match r {
            Ok(ts) => parse(s@) == Ok::<Seq<Token>, ParseError>(ts@),
            Err(e) => parse(s@) == Err::<Seq<Token>, ParseError>(e),
        },
{
    let mut out: Vec<Token> = Vec::new();
    let mut i: usize = 0;
    while i < s.len()
        invariant
            i <= s.len(),
            parse(s@) == after(out@, tokens_from(s@, i as int)),
        decreases s.len() - i,
    {
        proof {
            lemma_token_at(s@, i as int);
        }
        match token_from(s, i) {
            Ok((t, n)) => {
                proof {
                    assert(out@.push(t) + tokens_from(s@, n as int)->Ok_0 =~= out@ + (seq![t]
                        + tokens_from(s@, n as int)->Ok_0));
                }
                out.push(t);
                i = n;
            },
            Err(e) => {
                return Err(e);
            },
        }
    }
    assert(out@ + Seq::<Token>::empty() =~= out@);
    Ok(out)
}

/// The tokens of `input`: text, variable tags and include tags, in order.
/// Fails only on an include tag that is never closed.
pub fn parse_input(input: &str) -> (r: Result<Vec<Token>, ParseError>)
    ensures
        match r {
            Ok(ts) => parse(input@) == Ok::<Seq<Token>, ParseError>(ts@),
            Err(e) => parse(input@) == Err::<Seq<Token>, ParseError>(e),
        },
{
    let chars = chars_of(input);
    parse_chars(&chars)
}

} // verus!
