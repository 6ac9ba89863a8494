//! `${...}` interpolation templates.
//!
//! - `${expr}` is an expression that is resolved when the template is rendered.
//!   Braces nest, so `${js: ({a:1}).a}` is one expression.
//! - `$${` is the literal text `${`.
use crate::json::{self, Json, JsonView};
use crate::text;
use vstd::prelude::*;
use vstd::utf8::encode_utf8;

verus! {

/// Why a text is no template, or a template cannot be rendered.
#[derive(Debug)]
pub enum TemplateError {
    /// A `${` without its closing brace, at this byte.
    Unterminated(usize),
    /// A `${}` without an expression, at this byte.
    Empty(usize),
    /// An expression that did not resolve.
    Unresolved(String),
}

/// Why a text is no template, or a template cannot be rendered.
pub enum TemplateErrorView {
    Unterminated(int),
    Empty(int),
    Unresolved(Seq<char>),
}

impl View for TemplateError {
    type V = TemplateErrorView;

    open spec fn view(&self) -> TemplateErrorView {
        match self {
            TemplateError::Unterminated(at) => TemplateErrorView::Unterminated(*at as int),
            TemplateError::Empty(at) => TemplateErrorView::Empty(*at as int),
            TemplateError::Unresolved(e) => TemplateErrorView::Unresolved(e@),
        }
    }
}

impl TemplateError {
    /// The message shown for the error.
    pub fn message(&self) -> (out: String)
        ensures
            out@ == match self@ {
                TemplateErrorView::Unterminated(at) => "unterminated `${` starting at byte "@
                    + text::decimal(at as nat) + "; close it with `}` or escape it as `$${`"@,
                TemplateErrorView::Empty(at) => "empty `${}` expression at byte "@ + text::decimal(
                    at as nat,
                ),
                TemplateErrorView::Unresolved(e) => "unresolved template variable `"@ + e + "`"@,
            },
    {
        match self {
            TemplateError::Unterminated(at) => {
                let n = text::usize_text(*at);
                let mut out = "unterminated `${` starting at byte ".to_owned();
                out.append(n.as_str());
                out.append("; close it with `}` or escape it as `$${`");
                out
            },
            TemplateError::Empty(at) => {
                let n = text::usize_text(*at);
                text::join("empty `${}` expression at byte ", n.as_str())
            },
            TemplateError::Unresolved(e) => {
                let mut out = "unresolved template variable `".to_owned();
                out.append(e.as_str());
                out.append("`");
                out
            },
        }
    }
}

/// One piece of a parsed template.
#[derive(Debug)]
pub enum Part {
    Lit(String),
    Expr(String),
}

/// One piece of a parsed template, as text.
pub enum PartView {
    Lit(Seq<char>),
    Expr(Seq<char>),
}

impl View for Part {
    type V = PartView;

    open spec fn view(&self) -> PartView {
        match self {
            Part::Lit(s) => PartView::Lit(s@),
            Part::Expr(s) => PartView::Expr(s@),
        }
    }
}

impl Part {
    /// Whether this piece is an expression.
    pub fn is_expression(&self) -> (r: bool)
        ensures
            r == (self@ is Expr),
    {
        match self {
            Part::Lit(_) => false,
            Part::Expr(_) => true,
        }
    }
}

/// The pieces of a template, as text.
pub open spec fn part_views(parts: Seq<Part>) -> Seq<PartView> {
    Seq::new(parts.len(), |i: int| parts[i]@)
}

/// A parsed template.
#[derive(Debug)]
pub struct Template {
    pub parts: Vec<Part>,
    source: String,
}

/// Whether `$${` stands at position `i`.
pub open spec fn escape_at(s: Seq<char>, i: int) -> bool {
    0 <= i && i + 2 < s.len() && s[i] == '$' && s[i + 1] == '$' && s[i + 2] == '{'
}

/// Whether `${` stands at position `i`.
pub open spec fn opening_at(s: Seq<char>, i: int) -> bool {
    0 <= i && i + 1 < s.len() && s[i] == '$' && s[i + 1] == '{'
}

/// The position of the brace that closes `depth` open braces, from `j` on.
pub open spec fn closing(s: Seq<char>, j: int, depth: nat) -> Option<int>
    decreases s.len() - j,
{
    if j < 0 || j >= s.len() {
        None
    } else if s[j] == '{' {
        closing(s, j + 1, depth + 1)
    } else if s[j] == '}' {
        if depth <= 1 {
            Some(j)
        } else {
            closing(s, j + 1, (depth - 1) as nat)
        }
    } else {
        closing(s, j + 1, depth)
    }
}

/// The byte at which the character at position `i` begins.
pub open spec fn byte_at(s: Seq<char>, i: int) -> int {
    encode_utf8(s.take(i)).len() as int
}

/// A literal piece, unless it is empty.
pub open spec fn literal(lit: Seq<char>) -> Seq<PartView> {
    if lit.len() == 0 {
        Seq::empty()
    } else {
        seq![PartView::Lit(lit)]
    }
}

/// The pieces of a template from position `i` on, where `lit` is the literal text
/// that stands right before it.
pub open spec fn scanned(s: Seq<char>, i: int, lit: Seq<char>) -> Result<
    Seq<PartView>,
    TemplateErrorView,
>
    decreases s.len() - i,
{
    if i < 0 || i >= s.len() {
        Ok(literal(lit))
    } else if escape_at(s, i) {
        scanned(s, i + 3, lit + seq!['$', '{'])
    } else if opening_at(s, i) {
        match closing(s, i + 2, 1) {
            None => Err(TemplateErrorView::Unterminated(byte_at(s, i))),
            Some(j) => {
                let expr = text::trimmed(s.subrange(i + 2, j));
                if expr.len() == 0 {
                    Err(TemplateErrorView::Empty(byte_at(s, i)))
                } else {
                    proof {
                        lemma_closing(s, i + 2, 1);
                    }
                    match scanned(s, j + 1, Seq::empty()) {
                        Err(e) => Err(e),
                        Ok(rest) => Ok(literal(lit) + seq![PartView::Expr(expr)] + rest),
                    }
                }
            },
        }
    } else {
        scanned(s, i + 1, lit.push(s[i]))
    }
}

/// The pieces of a template.
pub open spec fn parts_of(s: Seq<char>) -> Result<Seq<PartView>, TemplateErrorView> {
    scanned(s, 0, Seq::empty())
}

/// Whether `g` says what the resolver answers to every expression.
pub open spec fn describes<F: Fn(&str) -> Option<String>>(
    resolve: F,
    g: spec_fn(Seq<char>) -> Option<Seq<char>>,
) -> bool {
    forall|e: &str, r: Option<String>|
        #[trigger] call_ensures(resolve, (e,), r) ==> r.deep_view() == g(e@)
}

/// Whether a resolver can give the reply to an expression.
pub open spec fn can_reply<F: Fn(&str) -> Option<String>>(
    resolve: F,
    expression: Seq<char>,
    reply: Option<Seq<char>>,
) -> bool {
    exists|e: &str, r: Option<String>| #[trigger]
        call_ensures(resolve, (e,), r) && e@ == expression && r.deep_view() == reply
}

/// Whether these are replies of a resolver to the expressions among some pieces: to one
/// after the other, each asked once, and to none behind the first that does not resolve.
pub open spec fn replied<F: Fn(&str) -> Option<String>>(
    resolve: F,
    parts: Seq<PartView>,
    replies: Seq<Option<Seq<char>>>,
) -> bool {
    let asked = expressions_of(parts, parts.len() as int);
    &&& replies.len() <= asked.len()
    &&& forall|k: int|
        0 <= k < replies.len() ==> can_reply(resolve, asked[k], #[trigger] replies[k])
    &&& forall|k: int| 0 <= k < replies.len() - 1 ==> #[trigger] replies[k] is Some
    &&& replies.len() == asked.len() || (replies.len() > 0 && replies.last() is None)
}

/// What the first `n` pieces render to with the replies to their expressions: the
/// pieces one after the other, or the first expression that does not resolve.
pub open spec fn rendered_by(parts: Seq<PartView>, replies: Seq<Option<Seq<char>>>, n: int) -> Result<
    Seq<char>,
    TemplateErrorView,
>
    decreases n,
{
    if n <= 0 {
        Ok(Seq::empty())
    } else {
        match rendered_by(parts, replies, n - 1) {
            Err(e) => Err(e),
            Ok(before) => match parts[n - 1] {
                PartView::Lit(l) => Ok(before + l),
                PartView::Expr(e) => match replies[expressions_of(parts, n - 1).len() as int] {
                    Some(v) => Ok(before + v),
                    None => Err(TemplateErrorView::Unresolved(e)),
                },
            },
        }
    }
}

/// Whether some pieces can render to a result with a resolver.
pub open spec fn can_render<F: Fn(&str) -> Option<String>>(
    resolve: F,
    parts: Seq<PartView>,
    r: Result<Seq<char>, TemplateErrorView>,
) -> bool {
    exists|replies: Seq<Option<Seq<char>>>| #[trigger]
        replied(resolve, parts, replies) && r == rendered_by(parts, replies, parts.len() as int)
}

proof fn lemma_rendered_by_prefix(
    parts: Seq<PartView>,
    replies: Seq<Option<Seq<char>>>,
    reply: Option<Seq<char>>,
    n: int,
)
    requires
        0 <= n <= parts.len(),
        expressions_of(parts, n).len() <= replies.len(),
    ensures
        rendered_by(parts, replies.push(reply), n) == rendered_by(parts, replies, n),
    decreases n,
{
    if n > 0 {
        lemma_rendered_by_prefix(parts, replies, reply, n - 1);
    }
}

proof fn lemma_rendered_by_fails(
    parts: Seq<PartView>,
    replies: Seq<Option<Seq<char>>>,
    k: int,
    n: int,
)
    requires
        0 <= k <= n,
        rendered_by(parts, replies, k) is Err,
    ensures
        rendered_by(parts, replies, n) == rendered_by(parts, replies, k),
    decreases n - k,
{
    if k < n {
        lemma_rendered_by_fails(parts, replies, k, n - 1);
    }
}

proof fn lemma_expressions_prefix(parts: Seq<PartView>, k: int, n: int)
    requires
        0 <= k <= n <= parts.len(),
    ensures
        expressions_of(parts, k).len() <= expressions_of(parts, n).len(),
        expressions_of(parts, n).take(expressions_of(parts, k).len() as int) =~= expressions_of(
            parts,
            k,
        ),
    decreases n - k,
{
    if k < n {
        lemma_expressions_prefix(parts, k, n - 1);
        assert(expressions_of(parts, n).take(expressions_of(parts, k).len() as int)
            =~= expressions_of(parts, n - 1).take(expressions_of(parts, k).len() as int));
    }
}

/// What the first `n` pieces render to when `g` resolves the expressions: the
/// pieces one after the other, or the first expression that does not resolve.
pub open spec fn rendered(
    parts: Seq<PartView>,
    g: spec_fn(Seq<char>) -> Option<Seq<char>>,
    n: int,
) -> Result<Seq<char>, TemplateErrorView>
    decreases n,
{
    if n <= 0 {
        Ok(Seq::empty())
    } else {
        match rendered(parts, g, n - 1) {
            Err(e) => Err(e),
            Ok(before) => match parts[n - 1] {
                PartView::Lit(l) => Ok(before + l),
                PartView::Expr(e) => match g(e) {
                    Some(v) => Ok(before + v),
                    None => Err(TemplateErrorView::Unresolved(e)),
                },
            },
        }
    }
}

/// The result of rendering, as text.
pub open spec fn render_outcome(r: Result<String, TemplateError>) -> Result<
    Seq<char>,
    TemplateErrorView,
> {
    match r {
        Ok(s) => Ok(s@),
        Err(e) => Err(e@),
    }
}

/// The brace found is a closing brace, at or after the start.
pub proof fn lemma_closing(s: Seq<char>, j: int, depth: nat)
    requires
        0 <= j,
    ensures
        closing(s, j, depth) matches Some(k) ==> j <= k < s.len() && s[k] == '}',
    decreases s.len() - j,
{
    if j < s.len() {
        if s[j] == '{' {
            lemma_closing(s, j + 1, depth + 1);
        } else if s[j] == '}' {
            if depth > 1 {
                lemma_closing(s, j + 1, (depth - 1) as nat);
            }
        } else {
            lemma_closing(s, j + 1, depth);
        }
    }
}

fn find_closing(v: &Vec<char>, from: usize) -> (r: Option<usize>)
    requires
        1 <= from <= v@.len(),
    ensures
        match r {
            Some(j) => from <= j < v@.len() && closing(v@, from as int, 1) == Some(j as int),
            None => closing(v@, from as int, 1) is None,
        },
{
    let mut depth: usize = 1;
    let mut j: usize = from;
    while j < v.len()
        invariant
            1 <= from <= j <= v.len(),
            1 <= depth <= j - from + 1,
            closing(v@, from as int, 1) == closing(v@, j as int, depth as nat),
        decreases v@.len() - j,
    {
        if v[j] == '{' {
            depth += 1;
        } else if v[j] == '}' {
            if depth == 1 {
                return Some(j);
            }
            depth -= 1;
        }
        j += 1;
    }
    None
}

/// How many bytes the first `n` characters take.
fn bytes_before(v: &Vec<char>, n: usize) -> (r: usize)
    requires
        n <= v@.len(),
    ensures
        r == byte_at(v@, n as int),
{
    let head = text::string_of(v, 0, n);
    proof {
        assert(v@.subrange(0, n as int) =~= v@.take(n as int));
    }
    let bytes = head.as_str().as_bytes();
    bytes.len()
}

impl Template {
    /// The text that the template was parsed from.
    pub closed spec fn text(&self) -> Seq<char> {
        self.source@
    }

    /// The pieces of the template, as text.
    pub closed spec fn pieces(&self) -> Seq<PartView> {
        part_views(self.parts@)
    }

    /// Parses a template.
    pub fn parse(s: &str) -> (r: Result<Template, TemplateError>)
        ensures
            match r {
                Ok(t) => parts_of(s@) == Ok::<Seq<PartView>, TemplateErrorView>(t.pieces())
                    && t.text() == s@,
                Err(e) => parts_of(s@) == Err::<Seq<PartView>, TemplateErrorView>(e@),
            },
    {
        let v = text::chars_of(s);
        let mut parts: Vec<Part> = Vec::new();
        let mut lit = String::new();
        let mut i: usize = 0;
        proof {
            assert(part_views(parts@) =~= Seq::<PartView>::empty());
            lemma_prefix_empty(parts_of(s@));
        }
        while i < v.len()
            invariant
                v@ == s@,
                i <= v@.len(),
                parts_of(s@) == prefixed(part_views(parts@), scanned(s@, i as int, lit@)),
            decreases v@.len() - i,
        {
            let ghost done = part_views(parts@);
            if v[i] == '$' && v.len() - i > 2 && v[i + 1] == '$' && v[i + 2] == '{' {
                let ghost before = lit@;
                lit.push('$');
                lit.push('{');
                proof {
                    assert(lit@ =~= before + seq!['$', '{']);
                }
                i += 3;
            } else if v[i] == '$' && v.len() - i > 1 && v[i + 1] == '{' {
                match find_closing(&v, i + 2) {
                    None => {
                        let at = bytes_before(&v, i);
                        return Err(TemplateError::Unterminated(at));
                    },
                    Some(j) => {
                        let inner = text::string_of(&v, i + 2, j);
                        let expr = text::trim(inner.as_str());
                        if expr.as_str().is_empty() {
                            let at = bytes_before(&v, i);
                            return Err(TemplateError::Empty(at));
                        }
                        let ghost before = lit@;
                        let ghost rest = scanned(s@, j + 1, Seq::empty());
                        proof {
                            lemma_prefix_step(
                                done,
                                literal(before) + seq![PartView::Expr(expr@)],
                                rest,
                            );
                        }
                        if !lit.as_str().is_empty() {
                            parts.push(Part::Lit(lit));
                            lit = String::new();
                        }
                        parts.push(Part::Expr(expr));
                        proof {
                            assert(part_views(parts@) =~= done + (literal(before) + seq![
                                PartView::Expr(expr@),
                            ]));
                            assert(lit@ =~= Seq::<char>::empty());
                        }
                        i = j + 1;
                    },
                }
            } else {
                lit.push(v[i]);
                i += 1;
            }
        }
        if !lit.as_str().is_empty() {
            let ghost done = part_views(parts@);
            parts.push(Part::Lit(lit));
            proof {
                assert(part_views(parts@) =~= done + seq![PartView::Lit(lit@)]);
            }
        } else {
            proof {
                assert(part_views(parts@) + Seq::<PartView>::empty() =~= part_views(parts@));
            }
        }
        Ok(Template { parts, source: s.to_owned() })
    }

    /// The text that the template was parsed from.
    pub fn source(&self) -> (r: &str)
        ensures
            r@ == self.text(),
    {
        self.source.as_str()
    }

    /// Whether the template has no expressions.
    pub fn is_literal(&self) -> (r: bool)
        ensures
            r == all_literal(self.pieces()),
    {
        let mut i: usize = 0;
        while i < self.parts.len()
            invariant
                i <= self.parts@.len(),
                forall|k: int| 0 <= k < i ==> #[trigger] part_views(self.parts@)[k] is Lit,
            decreases self.parts@.len() - i,
        {
            if let Part::Expr(_) = &self.parts[i] {
                proof {
                    assert(part_views(self.parts@)[i as int] is Expr);
                }
                return false;
            }
            i += 1;
        }
        true
    }

    /// The expressions of the template, in order.
    pub fn expressions(&self) -> (r: Vec<String>)
        ensures
            r.deep_view() == expressions_of(self.pieces(), self.pieces().len() as int),
    {
        let mut out: Vec<String> = Vec::new();
        let ghost views = part_views(self.parts@);
        let mut i: usize = 0;
        proof {
            assert(out.deep_view() =~= Seq::<Seq<char>>::empty());
        }
        while i < self.parts.len()
            invariant
                i <= self.parts@.len(),
                views == part_views(self.parts@),
                out.deep_view() == expressions_of(views, i as int),
            decreases self.parts@.len() - i,
        {
            let ghost before = out.deep_view();
            if let Part::Expr(e) = &self.parts[i] {
                out.push(e.clone());
                proof {
                    assert(out.deep_view() =~= before.push(e@));
                }
            }
            i += 1;
        }
        out
    }

    /// Renders the template: the pieces one after the other, with each expression
    /// replaced by what it resolves to. The expressions are asked for in order, each
    /// once; the first that does not resolve is an error, and none is asked for behind
    /// it.
    pub fn render<F: Fn(&str) -> Option<String>>(&self, resolve: F) -> (r: Result<
        String,
        TemplateError,
    >)
        requires
            forall|e: &str| call_requires(resolve, (e,)),
        ensures
            can_render(resolve, self.pieces(), render_outcome(r)),
            forall|g: spec_fn(Seq<char>) -> Option<Seq<char>>| #[trigger]
                describes(resolve, g) ==> render_outcome(r) == rendered(
                    self.pieces(),
                    g,
                    self.pieces().len() as int,
                ),
    {
        render_parts(&self.parts, &resolve)
    }
}

fn render_parts<F: Fn(&str) -> Option<String>>(parts: &Vec<Part>, resolve: &F) -> (r: Result<
    String,
    TemplateError,
>)
    requires
        forall|e: &str| call_requires(*resolve, (e,)),
    ensures
        can_render(*resolve, part_views(parts@), render_outcome(r)),
        forall|g: spec_fn(Seq<char>) -> Option<Seq<char>>| #[trigger]
            describes(*resolve, g) ==> render_outcome(r) == rendered(
                part_views(parts@),
                g,
                parts@.len() as int,
            ),
{
    let ghost views = part_views(parts@);
    let ghost all = expressions_of(views, views.len() as int);
    let ghost mut replies: Seq<Option<Seq<char>>> = Seq::empty();
    let mut out = String::new();
    let mut i: usize = 0;
    while i < parts.len()
        invariant
            i <= parts@.len(),
            views == part_views(parts@),
            all == expressions_of(views, views.len() as int),
            replies.len() == expressions_of(views, i as int).len(),
            forall|k: int| 0 <= k < replies.len() ==> #[trigger] replies[k] is Some,
            forall|k: int|
                0 <= k < replies.len() ==> can_reply(*resolve, all[k], #[trigger] replies[k]),
            rendered_by(views, replies, i as int) == Ok::<Seq<char>, TemplateErrorView>(out@),
            forall|e: &str| call_requires(*resolve, (e,)),
            forall|g: spec_fn(Seq<char>) -> Option<Seq<char>>| #[trigger]
                describes(*resolve, g) ==> rendered(views, g, i as int) == Ok::<
                    Seq<char>,
                    TemplateErrorView,
                >(out@),
        decreases parts@.len() - i,
    {
        match &parts[i] {
            Part::Lit(l) => out.append(l.as_str()),
            Part::Expr(e) => {
                let asked = e.as_str();
                let ghost before = replies;
                proof {
                    lemma_expressions_prefix(views, i + 1, views.len() as int);
                    lemma_expressions_prefix(views, i as int, views.len() as int);
                    assert(expressions_of(views, i + 1).last() == e@);
                    assert(all.take(expressions_of(views, i + 1).len() as int).last() == e@);
                    assert(all[before.len() as int] == e@);
                }
                match resolve(asked) {
                    Some(v) => {
                        proof {
                            replies = before.push(Some(v@));
                            assert(call_ensures(*resolve, (asked,), Some(v)));
                            assert(Some(v).deep_view() == Some(v@));
                            assert(can_reply(*resolve, all[before.len() as int], Some(v@)));
                            lemma_rendered_by_prefix(views, before, Some(v@), i as int);
                            assert forall|g: spec_fn(Seq<char>) -> Option<Seq<char>>| #[trigger]
                                describes(*resolve, g) implies g(e@) == Some(v@) by {
                                assert(g(asked@) == Some(v).deep_view());
                            }
                        }
                        out.append(v.as_str());
                    },
                    None => {
                        proof {
                            replies = before.push(None);
                            assert(call_ensures(*resolve, (asked,), None));
                            assert(None::<String>.deep_view() == None::<Seq<char>>);
                            assert(can_reply(*resolve, all[before.len() as int], None));
                            lemma_rendered_by_prefix(views, before, None, i as int);
                            assert(rendered_by(views, replies, i + 1) == Err::<
                                Seq<char>,
                                TemplateErrorView,
                            >(TemplateErrorView::Unresolved(e@)));
                            lemma_rendered_by_fails(views, replies, i + 1, views.len() as int);
                            assert(replied(*resolve, views, replies));
                            assert forall|g: spec_fn(Seq<char>) -> Option<Seq<char>>| #[trigger]
                                describes(*resolve, g) implies rendered(
                                views,
                                g,
                                views.len() as int,
                            ) == Err::<Seq<char>, TemplateErrorView>(
                                TemplateErrorView::Unresolved(e@),
                            ) by {
                                assert(g(asked@) == None::<String>.deep_view());
                                lemma_render_fails(views, g, i + 1, views.len() as int);
                            }
                        }
                        return Err(TemplateError::Unresolved(e.clone()));
                    },
                }
            },
        }
        i += 1;
    }
    proof {
        assert(replied(*resolve, views, replies));
    }
    Ok(out)
}

proof fn lemma_render_fails(
    parts: Seq<PartView>,
    g: spec_fn(Seq<char>) -> Option<Seq<char>>,
    k: int,
    n: int,
)
    requires
        0 <= k <= n,
        rendered(parts, g, k) is Err,
    ensures
        rendered(parts, g, n) == rendered(parts, g, k),
    decreases n - k,
{
    if k < n {
        lemma_render_fails(parts, g, k, n - 1);
    }
}

/// Whether no piece is an expression.
pub open spec fn all_literal(parts: Seq<PartView>) -> bool {
    forall|i: int| 0 <= i < parts.len() ==> #[trigger] parts[i] is Lit
}

/// The expressions among the first `n` pieces, in order.
pub open spec fn expressions_of(parts: Seq<PartView>, n: int) -> Seq<Seq<char>>
    decreases n,
{
    if n <= 0 {
        Seq::empty()
    } else {
        match parts[n - 1] {
            PartView::Lit(_) => expressions_of(parts, n - 1),
            PartView::Expr(e) => expressions_of(parts, n - 1).push(e),
        }
    }
}

spec fn prefixed(head: Seq<PartView>, tail: Result<Seq<PartView>, TemplateErrorView>) -> Result<
    Seq<PartView>,
    TemplateErrorView,
> {
    match tail {
        Ok(t) => Ok(head + t),
        Err(e) => Err(e),
    }
}

proof fn lemma_prefix_empty(r: Result<Seq<PartView>, TemplateErrorView>)
    ensures
        prefixed(Seq::empty(), r) == r,
{
    if let Ok(t) = r {
        assert(Seq::<PartView>::empty() + t =~= t);
    }
}

proof fn lemma_prefix_step(
    a: Seq<PartView>,
    b: Seq<PartView>,
    r: Result<Seq<PartView>, TemplateErrorView>,
)
    ensures
        prefixed(a, prefixed(b, r)) == prefixed(a + b, r),
{
    if let Ok(t) = r {
        assert(a + (b + t) =~= (a + b) + t);
    }
}

/// What a text inside a JSON value becomes once its pieces are rendered. A lone
/// expression may yield any JSON value: what it resolves to is read as JSON when it is
/// JSON, and stays a text when it is not.
pub open spec fn leaf(parts: Seq<PartView>, r: Result<Seq<char>, TemplateErrorView>) -> Result<
    JsonView,
    TemplateErrorView,
> {
    match r {
        Err(e) => Err(e),
        Ok(t) => if parts.len() == 1 && parts[0] is Expr && json::parsed(t) is Ok {
            Ok(json::parsed(t)->Ok_0)
        } else {
            Ok(JsonView::Text(t))
        },
    }
}

/// What a text inside a JSON value renders to when `g` resolves the expressions.
pub open spec fn text_rendered(s: Seq<char>, g: spec_fn(Seq<char>) -> Option<Seq<char>>) -> Result<
    JsonView,
    TemplateErrorView,
> {
    match parts_of(s) {
        Err(e) => Err(e),
        Ok(parts) => leaf(parts, rendered(parts, g, parts.len() as int)),
    }
}

/// What a JSON value renders to: every text in it rendered, everything else as it
/// is; the first error in the order of the document decides.
pub open spec fn json_rendered(v: JsonView, g: spec_fn(Seq<char>) -> Option<Seq<char>>) -> Result<
    JsonView,
    TemplateErrorView,
>
    decreases v, 0int,
{
    match v {
        JsonView::Text(s) => text_rendered(s, g),
        JsonView::Array(items) => match items_rendered(items, g, items.len() as int) {
            Ok(out) => Ok(JsonView::Array(out)),
            Err(e) => Err(e),
        },
        JsonView::Object(members) => match members_rendered(members, g, members.len() as int) {
            Ok(out) => Ok(JsonView::Object(out)),
            Err(e) => Err(e),
        },
        _ => Ok(v),
    }
}

/// What the first `n` items render to.
pub open spec fn items_rendered(
    items: Seq<JsonView>,
    g: spec_fn(Seq<char>) -> Option<Seq<char>>,
    n: int,
) -> Result<Seq<JsonView>, TemplateErrorView>
    decreases items, n,
{
    if n <= 0 || n > items.len() {
        Ok(Seq::empty())
    } else {
        match items_rendered(items, g, n - 1) {
            Err(e) => Err(e),
            Ok(before) => match json_rendered(items[n - 1], g) {
                Ok(v) => Ok(before.push(v)),
                Err(e) => Err(e),
            },
        }
    }
}

/// What the first `n` members render to, each under its own key.
pub open spec fn members_rendered(
    members: Seq<(Seq<char>, JsonView)>,
    g: spec_fn(Seq<char>) -> Option<Seq<char>>,
    n: int,
) -> Result<Seq<(Seq<char>, JsonView)>, TemplateErrorView>
    decreases members, n,
{
    if n <= 0 || n > members.len() {
        Ok(Seq::empty())
    } else {
        match members_rendered(members, g, n - 1) {
            Err(e) => Err(e),
            Ok(before) => match json_rendered(members[n - 1].1, g) {
                Ok(v) => Ok(before.push((members[n - 1].0, v))),
                Err(e) => Err(e),
            },
        }
    }
}

/// Whether there are fewer than `n` values.
pub open spec fn short_of(values: Seq<JsonView>, n: int) -> bool {
    values.len() < n
}

/// Whether a JSON value can render to a result with a resolver: every text in it is
/// rendered, everything else stays, and the first error in the order of the document
/// decides.
pub open spec fn can_render_json<F: Fn(&str) -> Option<String>>(
    resolve: F,
    v: JsonView,
    r: Result<JsonView, TemplateErrorView>,
) -> bool
    decreases v,
{
    match v {
        JsonView::Text(s) => match parts_of(s) {
            Err(e) => r == Err::<JsonView, TemplateErrorView>(e),
            Ok(parts) => exists|t: Result<Seq<char>, TemplateErrorView>| #[trigger]
                can_render(resolve, parts, t) && r == leaf(parts, t),
        },
        JsonView::Array(items) => match r {
            Ok(JsonView::Array(out)) => out.len() == items.len() && forall|i: int|
                0 <= i < items.len() ==> can_render_json(resolve, items[i], Ok(#[trigger] out[i])),
            Ok(_) => false,
            Err(e) => exists|before: Seq<JsonView>|
                #[trigger] short_of(before, items.len() as int) && can_render_json(
                    resolve,
                    items[before.len() as int],
                    Err(e),
                ) && forall|j: int|
                    0 <= j < before.len() ==> can_render_json(
                        resolve,
                        items[j],
                        Ok(#[trigger] before[j]),
                    ),
        },
        JsonView::Object(members) => match r {
            Ok(JsonView::Object(out)) => out.len() == members.len() && forall|i: int|
                0 <= i < members.len() ==> (#[trigger] out[i]).0 == members[i].0
                    && can_render_json(resolve, members[i].1, Ok(out[i].1)),
            Ok(_) => false,
            Err(e) => exists|before: Seq<JsonView>|
                #[trigger] short_of(before, members.len() as int) && can_render_json(
                    resolve,
                    members[before.len() as int].1,
                    Err(e),
                ) && forall|j: int|
                    0 <= j < before.len() ==> can_render_json(
                        resolve,
                        members[j].1,
                        Ok(#[trigger] before[j]),
                    ),
        },
        _ => r == Ok::<JsonView, TemplateErrorView>(v),
    }
}

proof fn lemma_items_fail(
    items: Seq<JsonView>,
    g: spec_fn(Seq<char>) -> Option<Seq<char>>,
    k: int,
    n: int,
)
    requires
        0 <= k <= n <= items.len(),
        items_rendered(items, g, k) is Err,
    ensures
        items_rendered(items, g, n) == items_rendered(items, g, k),
    decreases n - k,
{
    if k < n {
        lemma_items_fail(items, g, k, n - 1);
    }
}

proof fn lemma_members_fail(
    members: Seq<(Seq<char>, JsonView)>,
    g: spec_fn(Seq<char>) -> Option<Seq<char>>,
    k: int,
    n: int,
)
    requires
        0 <= k <= n <= members.len(),
        members_rendered(members, g, k) is Err,
    ensures
        members_rendered(members, g, n) == members_rendered(members, g, k),
    decreases n - k,
{
    if k < n {
        lemma_members_fail(members, g, k, n - 1);
    }
}

/// The result of rendering a JSON value.
pub open spec fn json_outcome(r: Result<Json, TemplateError>) -> Result<
    JsonView,
    TemplateErrorView,
> {
    match r {
        Ok(v) => Ok(v@),
        Err(e) => Err(e@),
    }
}

/// What a lone expression yields: the JSON value that its text denotes, or the
/// text.
fn typed(rendered: String) -> (v: Json)
    ensures
        v@ == match json::parsed(rendered@) {
            Ok(j) => j,
            Err(_) => JsonView::Text(rendered@),
        },
{
    match json::parse(rendered.as_str()) {
        Ok(j) => j,
        Err(_) => Json::Text(rendered),
    }
}

/// Renders every text in a JSON value as a template.
pub fn render_json_value<F: Fn(&str) -> Option<String>>(value: &Json, resolve: &F) -> (r: Result<
    Json,
    TemplateError,
>)
    requires
        forall|e: &str| call_requires(*resolve, (e,)),
    ensures
        can_render_json(*resolve, value@, json_outcome(r)),
        forall|g: spec_fn(Seq<char>) -> Option<Seq<char>>| #[trigger]
            describes(*resolve, g) ==> json_outcome(r) == json_rendered(value@, g),
    decreases value,
{
    broadcast use json::group_json;

    match value {
        Json::Text(s) => {
            let t = match Template::parse(s.as_str()) {
                Ok(t) => t,
                Err(e) => {
                    return Err(e);
                },
            };
            let lone = t.parts.len() == 1 && t.parts[0].is_expression();
            match render_parts(&t.parts, resolve) {
                Err(e) => Err(e),
                Ok(out) => {
                    if lone {
                        Ok(typed(out))
                    } else {
                        Ok(Json::Text(out))
                    }
                },
            }
        },
        Json::Array(items) => {
            let ghost views = json::meanings(items@);
            let mut out: Vec<Json> = Vec::new();
            let mut i: usize = 0;
            proof {
                assert(json::meanings(out@) =~= Seq::<JsonView>::empty());
            }
            while i < items.len()
                invariant
                    i <= items@.len(),
                    decreases_to!(value => items),
                    value@ == JsonView::Array(views),
                    views == json::meanings(items@),
                    out@.len() == i,
                    forall|k: int|
                        0 <= k < i ==> can_render_json(
                            *resolve,
                            views[k],
                            Ok(#[trigger] json::meanings(out@)[k]),
                        ),
                    forall|e: &str| call_requires(*resolve, (e,)),
                    forall|g: spec_fn(Seq<char>) -> Option<Seq<char>>| #[trigger]
                        describes(*resolve, g) ==> items_rendered(views, g, i as int) == Ok::<
                            Seq<JsonView>,
                            TemplateErrorView,
                        >(json::meanings(out@)),
                decreases items@.len() - i,
            {
                match render_json_value(&items[i], resolve) {
                    Ok(v) => {
                        let ghost before = json::meanings(out@);
                        out.push(v);
                        proof {
                            assert(views[i as int] == items@[i as int]@);
                            assert(json::meanings(out@) =~= before.push(v@));
                            assert forall|g: spec_fn(Seq<char>) -> Option<Seq<char>>| #[trigger]
                                describes(*resolve, g) implies items_rendered(views, g, i + 1)
                                == Ok::<Seq<JsonView>, TemplateErrorView>(before.push(v@)) by {}
                        }
                    },
                    Err(e) => {
                        proof {
                            assert forall|g: spec_fn(Seq<char>) -> Option<Seq<char>>| #[trigger]
                                describes(*resolve, g) implies json_rendered(value@, g) == Err::<
                                JsonView,
                                TemplateErrorView,
                            >(e@) by {
                                lemma_items_fail(views, g, i + 1, views.len() as int);
                            }
                            let before = json::meanings(out@);
                            assert(views[i as int] == items@[i as int]@);
                            assert(short_of(before, views.len() as int));
                        }
                        return Err(e);
                    },
                }
                i += 1;
            }
            Ok(Json::Array(out))
        },
        Json::Object(members) => {
            let ghost views = json::member_meanings(members@);
            let mut out: Vec<(String, Json)> = Vec::new();
            let mut i: usize = 0;
            proof {
                assert(json::member_meanings(out@) =~= Seq::<(Seq<char>, JsonView)>::empty());
            }
            while i < members.len()
                invariant
                    i <= members@.len(),
                    decreases_to!(value => members),
                    value@ == JsonView::Object(views),
                    views == json::member_meanings(members@),
                    out@.len() == i,
                    forall|k: int|
                        0 <= k < i ==> (#[trigger] json::member_meanings(out@)[k]).0 == views[k].0
                            && can_render_json(
                            *resolve,
                            views[k].1,
                            Ok(json::member_meanings(out@)[k].1),
                        ),
                    forall|e: &str| call_requires(*resolve, (e,)),
                    forall|g: spec_fn(Seq<char>) -> Option<Seq<char>>| #[trigger]
                        describes(*resolve, g) ==> members_rendered(views, g, i as int) == Ok::<
                            Seq<(Seq<char>, JsonView)>,
                            TemplateErrorView,
                        >(json::member_meanings(out@)),
                decreases members@.len() - i,
            {
                let m = &members[i];
                match render_json_value(&m.1, resolve) {
                    Ok(v) => {
                        let ghost before = json::member_meanings(out@);
                        out.push((m.0.clone(), v));
                        proof {
                            assert(views[i as int] == (m.0@, m.1@));
                            assert(json::member_meanings(out@) =~= before.push((m.0@, v@)));
                            assert forall|g: spec_fn(Seq<char>) -> Option<Seq<char>>| #[trigger]
                                describes(*resolve, g) implies members_rendered(views, g, i + 1)
                                == Ok::<Seq<(Seq<char>, JsonView)>, TemplateErrorView>(
                                before.push((m.0@, v@)),
                            ) by {}
                        }
                    },
                    Err(e) => {
                        proof {
                            assert forall|g: spec_fn(Seq<char>) -> Option<Seq<char>>| #[trigger]
                                describes(*resolve, g) implies json_rendered(value@, g) == Err::<
                                JsonView,
                                TemplateErrorView,
                            >(e@) by {
                                lemma_members_fail(views, g, i + 1, views.len() as int);
                            }
                            let before = Seq::new(
                                out@.len(),
                                |k: int| json::member_meanings(out@)[k].1,
                            );
                            assert(views[i as int] == (m.0@, m.1@));
                            assert forall|k: int| 0 <= k < before.len() implies can_render_json(
                                *resolve,
                                views[k].1,
                                Ok(#[trigger] before[k]),
                            ) by {
                                assert(json::member_meanings(out@)[k].0 == views[k].0);
                            }
                            assert(short_of(before, views.len() as int));
                        }
                        return Err(e);
                    },
                }
                i += 1;
            }
            Ok(Json::Object(out))
        },
        _ => Ok(json::copy(value)),
    }
}

/// A text without `${` is a template of that text alone, and renders to itself whatever
/// the resolver.
pub proof fn plain_text_renders_to_itself(
    s: Seq<char>,
    g: spec_fn(Seq<char>) -> Option<Seq<char>>,
)
    requires
        forall|i: int| 0 <= i < s.len() ==> !#[trigger] opening_at(s, i),
    ensures
        parts_of(s) == Ok::<Seq<PartView>, TemplateErrorView>(literal(s)),
        all_literal(literal(s)),
        rendered_by(literal(s), Seq::empty(), literal(s).len() as int) == Ok::<
            Seq<char>,
            TemplateErrorView,
        >(s),
        rendered(literal(s), g, literal(s).len() as int) == Ok::<Seq<char>, TemplateErrorView>(s),
{
    lemma_plain_scan(s, 0, Seq::empty());
    assert(Seq::<char>::empty() + s.skip(0) =~= s);
    lemma_literal_renders(s, g);
}

proof fn lemma_plain_scan(s: Seq<char>, i: int, lit: Seq<char>)
    requires
        0 <= i <= s.len(),
        forall|k: int| 0 <= k < s.len() ==> !#[trigger] opening_at(s, k),
    ensures
        scanned(s, i, lit) == Ok::<Seq<PartView>, TemplateErrorView>(literal(lit + s.skip(i))),
    decreases s.len() - i,
{
    if i < s.len() {
        assert(!opening_at(s, i));
        assert(i + 1 < s.len() ==> !opening_at(s, i + 1));
        lemma_plain_scan(s, i + 1, lit.push(s[i]));
        assert(lit.push(s[i]) + s.skip(i + 1) =~= lit + s.skip(i));
    } else {
        assert(lit + s.skip(i) =~= lit);
    }
}

/// A template is literal exactly when it has no expressions, and then it renders to one
/// text with every resolver, which is asked for nothing.
pub proof fn literal_templates_ask_for_nothing<F: Fn(&str) -> Option<String>>(
    parts: Seq<PartView>,
    resolve: F,
    r: Result<Seq<char>, TemplateErrorView>,
)
    requires
        can_render(resolve, parts, r),
    ensures
        all_literal(parts) <==> expressions_of(parts, parts.len() as int).len() == 0,
        all_literal(parts) ==> r == rendered_by(parts, Seq::empty(), parts.len() as int)
            && r is Ok,
{
    lemma_literal_count(parts, parts.len() as int);
    let replies = choose|replies: Seq<Option<Seq<char>>>| #[trigger]
        replied(resolve, parts, replies) && r == rendered_by(parts, replies, parts.len() as int);
    if all_literal(parts) {
        assert(replies =~= Seq::empty());
        lemma_literal_is_rendered(parts, parts.len() as int);
    }
}

proof fn lemma_literal_count(parts: Seq<PartView>, n: int)
    requires
        0 <= n <= parts.len(),
    ensures
        (forall|i: int| 0 <= i < n ==> #[trigger] parts[i] is Lit) <==> expressions_of(
            parts,
            n,
        ).len() == 0,
    decreases n,
{
    if n > 0 {
        lemma_literal_count(parts, n - 1);
        if parts[n - 1] is Lit {
            assert(expressions_of(parts, n) == expressions_of(parts, n - 1));
        }
    }
}

proof fn lemma_literal_is_rendered(parts: Seq<PartView>, n: int)
    requires
        0 <= n <= parts.len(),
        all_literal(parts),
    ensures
        rendered_by(parts, Seq::empty(), n) is Ok,
    decreases n,
{
    if n > 0 {
        lemma_literal_is_rendered(parts, n - 1);
    }
}

proof fn lemma_literal_renders(s: Seq<char>, g: spec_fn(Seq<char>) -> Option<Seq<char>>)
    ensures
        all_literal(literal(s)),
        rendered_by(literal(s), Seq::empty(), literal(s).len() as int) == Ok::<
            Seq<char>,
            TemplateErrorView,
        >(s),
        rendered(literal(s), g, literal(s).len() as int) == Ok::<Seq<char>, TemplateErrorView>(s),
{
    reveal_with_fuel(rendered, 2);
    reveal_with_fuel(rendered_by, 2);
    if s.len() == 0 {
        assert(s =~= Seq::<char>::empty());
    } else {
        assert(Seq::<char>::empty() + s =~= s);
    }
}

/// A text from position `i` on with every `${` escaped.
pub open spec fn escaped(s: Seq<char>, i: int) -> Seq<char>
    decreases s.len() - i,
{
    if i < 0 || i >= s.len() {
        Seq::empty()
    } else if opening_at(s, i) {
        seq!['$', '$', '{'] + escaped(s, i + 2)
    } else {
        seq![s[i]] + escaped(s, i + 1)
    }
}

proof fn lemma_escaped_is_replaced(s: Seq<char>, i: int)
    requires
        0 <= i <= s.len(),
    ensures
        escaped(s, i) == text::replaced_from(s, "${"@, "$${"@, i),
    decreases s.len() - i,
{
    reveal_strlit("${");
    reveal_strlit("$${");
    assert("$${"@ =~= seq!['$', '$', '{']);
    if i < s.len() {
        if opening_at(s, i) {
            assert(s.subrange(i, i + 2) =~= "${"@);
            lemma_escaped_is_replaced(s, i + 2);
        } else {
            if text::stands_at(s, "${"@, i) {
                assert(s.subrange(i, i + 2)[0] == s[i]);
                assert(s.subrange(i, i + 2)[1] == s[i + 1]);
            }
            lemma_escaped_is_replaced(s, i + 1);
        }
    }
}

/// Any text can be written as a template: with every `${` replaced by `$${` it parses to
/// that text alone, without expressions, and renders to it with every resolver, which is
/// asked for nothing.
pub proof fn escaping_is_undone(s: Seq<char>, g: spec_fn(Seq<char>) -> Option<Seq<char>>)
    ensures
        parts_of(text::replaced(s, "${"@, "$${"@)) == Ok::<Seq<PartView>, TemplateErrorView>(
            literal(s),
        ),
        all_literal(literal(s)),
        rendered_by(literal(s), Seq::empty(), literal(s).len() as int) == Ok::<
            Seq<char>,
            TemplateErrorView,
        >(s),
        rendered(literal(s), g, literal(s).len() as int) == Ok::<Seq<char>, TemplateErrorView>(s),
{
    lemma_escaped_is_replaced(s, 0);
    assert(Seq::<char>::empty() + escaped(s, 0) =~= escaped(s, 0));
    lemma_escaped_scan(s, 0, Seq::empty(), Seq::empty());
    assert(Seq::<char>::empty() + s.skip(0) =~= s);
    lemma_literal_renders(s, g);
}

/// How an escaped text begins: with the text's own first character, and with
/// `$$` only where the text begins with `$$` or with `${`.
proof fn lemma_escaped_head(s: Seq<char>, i: int)
    requires
        0 <= i < s.len(),
    ensures
        escaped(s, i).len() > 0,
        escaped(s, i)[0] == s[i],
{
}

proof fn lemma_escaped_scan(s: Seq<char>, i: int, lit: Seq<char>, head: Seq<char>)
    requires
        0 <= i <= s.len(),
    ensures
        scanned(head + escaped(s, i), head.len() as int, lit) == Ok::<
            Seq<PartView>,
            TemplateErrorView,
        >(literal(lit + s.skip(i))),
    decreases s.len() - i,
{
    let t = head + escaped(s, i);
    let at = head.len() as int;
    if i >= s.len() {
        assert(t =~= head);
        assert(lit + s.skip(i) =~= lit);
    } else if opening_at(s, i) {
        let next = head + seq!['$', '$', '{'];
        assert(t =~= next + escaped(s, i + 2));
        assert(t[at] == '$' && t[at + 1] == '$' && t[at + 2] == '{');
        lemma_escaped_scan(s, i + 2, lit + seq!['$', '{'], next);
        assert(lit + seq!['$', '{'] + s.skip(i + 2) =~= lit + s.skip(i));
    } else {
        let next = head.push(s[i]);
        let tail = escaped(s, i + 1);
        assert(t =~= next + tail);
        assert(t[at] == s[i]);
        assert(!escape_at(t, at) && !opening_at(t, at)) by {
            if s[i] == '$' && i + 1 < s.len() {
                lemma_escaped_head(s, i + 1);
                assert(t[at + 1] == s[i + 1]);
                if s[i + 1] == '$' {
                    if opening_at(s, i + 1) {
                        assert(tail =~= seq!['$', '$', '{'] + escaped(s, i + 3));
                        assert(t[at + 2] == tail[1]);
                    } else if i + 2 < s.len() {
                        lemma_escaped_head(s, i + 2);
                        assert(tail =~= seq!['$'] + escaped(s, i + 2));
                        assert(t[at + 2] == tail[1]);
                        assert(tail[1] == s[i + 2]);
                    } else {
                        assert(tail =~= seq!['$'] + escaped(s, i + 2));
                        assert(escaped(s, i + 2) =~= Seq::<char>::empty());
                    }
                }
            } else if s[i] == '$' {
                assert(tail =~= Seq::<char>::empty());
            }
        }
        lemma_escaped_scan(s, i + 1, lit.push(s[i]), next);
        assert(lit.push(s[i]) + s.skip(i + 1) =~= lit + s.skip(i));
    }
}

proof fn lemma_closing_behind(head: Seq<char>, s: Seq<char>, j: int, depth: nat)
    requires
        0 <= j,
    ensures
        closing(head + s, head.len() + j, depth) == match closing(s, j, depth) {
            Some(k) => Some(head.len() + k),
            None => None,
        },
    decreases s.len() - j,
{
    if j < s.len() {
        assert((head + s)[head.len() + j] == s[j]);
        lemma_closing_behind(head, s, j + 1, depth);
        lemma_closing_behind(head, s, j + 1, depth + 1);
        if depth > 1 {
            lemma_closing_behind(head, s, j + 1, (depth - 1) as nat);
        }
    }
}

proof fn lemma_scanned_behind(head: Seq<char>, s: Seq<char>, i: int, lit: Seq<char>)
    requires
        0 <= i,
    ensures
        scanned(s, i, lit) is Ok ==> scanned(head + s, head.len() + i, lit) == scanned(s, i, lit),
    decreases s.len() - i,
{
    let n = head.len() as int;
    let t = head + s;
    if i < s.len() {
        assert(t[n + i] == s[i]);
        assert(i + 1 < s.len() ==> t[n + i + 1] == s[i + 1]);
        assert(i + 2 < s.len() ==> t[n + i + 2] == s[i + 2]);
        assert(escape_at(t, n + i) == escape_at(s, i));
        assert(opening_at(t, n + i) == opening_at(s, i));
        if escape_at(s, i) {
            lemma_scanned_behind(head, s, i + 3, lit + seq!['$', '{']);
        } else if opening_at(s, i) {
            lemma_closing_behind(head, s, i + 2, 1);
            if let Some(j) = closing(s, i + 2, 1) {
                lemma_closing(s, i + 2, 1);
                assert(t.subrange(n + i + 2, n + j) =~= s.subrange(i + 2, j));
                lemma_scanned_behind(head, s, j + 1, Seq::empty());
            }
        } else {
            lemma_scanned_behind(head, s, i + 1, lit.push(s[i]));
        }
    }
}

proof fn lemma_scanned_over(s: Seq<char>, i: int, j: int, lit: Seq<char>)
    requires
        0 <= i <= j <= s.len(),
        forall|k: int| i <= k < j ==> #[trigger] s[k] != '$',
    ensures
        scanned(s, i, lit) == scanned(s, j, lit + s.subrange(i, j)),
    decreases j - i,
{
    if i < j {
        lemma_scanned_over(s, i + 1, j, lit.push(s[i]));
        assert(lit.push(s[i]) + s.subrange(i + 1, j) =~= lit + s.subrange(i, j));
    } else {
        assert(lit + s.subrange(i, j) =~= lit);
    }
}

proof fn lemma_closed_at_once(s: Seq<char>, j: int, end: int)
    requires
        0 <= j <= end < s.len(),
        s[end] == '}',
        forall|k: int| j <= k < end ==> #[trigger] s[k] != '{' && s[k] != '}',
    ensures
        closing(s, j, 1) == Some(end),
    decreases end - j,
{
    if j < end {
        lemma_closed_at_once(s, j + 1, end);
    }
}

/// A template is its text with every `${..}` as an expression, white space off its
/// ends, and `$${` for a plain `${`. What stands before an expression is literal, and
/// what stands behind it is a template again.
pub proof fn expressions_stand_between_brackets(
    before: Seq<char>,
    expr: Seq<char>,
    rest: Seq<char>,
)
    requires
        !before.contains('$'),
        !expr.contains('{'),
        !expr.contains('}'),
        parts_of(rest) is Ok,
    ensures
        text::trimmed(expr).len() > 0 ==> parts_of(
            before + seq!['$', '{'] + expr + seq!['}'] + rest,
        ) == Ok::<Seq<PartView>, TemplateErrorView>(
            (if before.len() > 0 {
                seq![PartView::Lit(before)]
            } else {
                Seq::empty()
            }) + seq![PartView::Expr(text::trimmed(expr))] + parts_of(rest)->Ok_0,
        ),
        text::trimmed(expr).len() == 0 ==> parts_of(
            before + seq!['$', '{'] + expr + seq!['}'] + rest,
        ) is Err,
        parts_of(before + seq!['$', '{'] + expr) is Err,
{
    let b = before.len() as int;
    let n = expr.len() as int;
    let head = before + seq!['$', '{'] + expr + seq!['}'];
    let s = head + rest;
    assert(before + seq!['$', '{'] + expr + seq!['}'] + rest =~= s);
    assert forall|k: int| 0 <= k < b implies #[trigger] s[k] != '$' by {
        assert(s[k] == before[k]);
    }
    lemma_scanned_over(s, 0, b, Seq::empty());
    assert(Seq::<char>::empty() + s.subrange(0, b) =~= before);
    assert(s[b] == '$' && s[b + 1] == '{');
    assert(opening_at(s, b) && !escape_at(s, b));
    assert forall|k: int| b + 2 <= k < b + 2 + n implies #[trigger] s[k] != '{' && s[k] != '}' by {
        assert(s[k] == expr[k - b - 2]);
    }
    assert(s[b + 2 + n] == '}');
    lemma_closed_at_once(s, b + 2, b + 2 + n);
    assert(s.subrange(b + 2, b + 2 + n) =~= expr);
    lemma_scanned_behind(head, rest, 0, Seq::empty());
    let open = before + seq!['$', '{'] + expr;
    assert forall|k: int| 0 <= k < b implies #[trigger] open[k] != '$' by {
        assert(open[k] == before[k]);
    }
    lemma_scanned_over(open, 0, b, Seq::empty());
    assert(opening_at(open, b) && !escape_at(open, b));
    assert forall|k: int| b + 2 <= k < open.len() implies #[trigger] open[k] != '}' by {
        assert(open[k] == expr[k - b - 2]);
    }
    lemma_never_closed(open, b + 2, 1);
}

proof fn lemma_never_closed(s: Seq<char>, j: int, depth: nat)
    requires
        0 <= j,
        forall|k: int| j <= k < s.len() ==> #[trigger] s[k] != '}',
    ensures
        closing(s, j, depth) is None,
    decreases s.len() - j,
{
    if j < s.len() {
        lemma_never_closed(s, j + 1, depth);
        lemma_never_closed(s, j + 1, depth + 1);
    }
}

/// Pieces are rendered one after the other: a literal as it is, an expression as what
/// it resolves to. The first expression that does not resolve is what is complained of.
pub proof fn pieces_are_rendered_in_order(
    parts: Seq<PartView>,
    g: spec_fn(Seq<char>) -> Option<Seq<char>>,
    n: int,
    l: Seq<char>,
    e: Seq<char>,
)
    requires
        0 < n <= parts.len(),
    ensures
        rendered(parts, g, 0) is Ok && rendered(parts, g, 0)->Ok_0.len() == 0,
        rendered(parts, g, n - 1) is Err ==> rendered(parts, g, n) == rendered(parts, g, n - 1),
        rendered(parts, g, n - 1) is Ok && parts[n - 1] == PartView::Lit(l) ==> rendered(parts, g, n)
            is Ok && rendered(parts, g, n)->Ok_0 == rendered(parts, g, n - 1)->Ok_0 + l,
        rendered(parts, g, n - 1) is Ok && parts[n - 1] == PartView::Expr(e) && g(e) is Some
            ==> rendered(parts, g, n) is Ok && rendered(parts, g, n)->Ok_0 == rendered(
            parts,
            g,
            n - 1,
        )->Ok_0 + g(e)->Some_0,
        rendered(parts, g, n - 1) is Ok && parts[n - 1] == PartView::Expr(e) && g(e) is None
            ==> rendered(parts, g, n) is Err && rendered(parts, g, n)->Err_0
            == TemplateErrorView::Unresolved(e),
{
}

/// The same with replies: each expression takes the next of them.
pub proof fn replies_are_used_in_order(
    parts: Seq<PartView>,
    replies: Seq<Option<Seq<char>>>,
    n: int,
    l: Seq<char>,
    e: Seq<char>,
)
    requires
        0 < n <= parts.len(),
    ensures
        rendered_by(parts, replies, 0) is Ok && rendered_by(parts, replies, 0)->Ok_0.len() == 0,
        rendered_by(parts, replies, n - 1) is Err ==> rendered_by(parts, replies, n) == rendered_by(
            parts,
            replies,
            n - 1,
        ),
        rendered_by(parts, replies, n - 1) is Ok && parts[n - 1] == PartView::Lit(l) ==> rendered_by(
            parts,
            replies,
            n,
        ) is Ok && rendered_by(parts, replies, n)->Ok_0 == rendered_by(parts, replies, n - 1)->Ok_0
            + l,
        rendered_by(parts, replies, n - 1) is Ok && parts[n - 1] == PartView::Expr(e) ==> {
            let reply = replies[expressions_of(parts, n - 1).len() as int];
            &&& reply is Some ==> rendered_by(parts, replies, n) is Ok && rendered_by(
                parts,
                replies,
                n,
            )->Ok_0 == rendered_by(parts, replies, n - 1)->Ok_0 + reply->Some_0
            &&& reply is None ==> rendered_by(parts, replies, n) is Err && rendered_by(
                parts,
                replies,
                n,
            )->Err_0 == TemplateErrorView::Unresolved(e)
        },
        expressions_of(parts, n).len() == expressions_of(parts, n - 1).len() + if parts[n - 1]
            is Expr {
            1int
        } else {
            0
        },
        parts[n - 1] == PartView::Expr(e) ==> expressions_of(parts, n) == expressions_of(
            parts,
            n - 1,
        ).push(e),
{
}

/// In a JSON value every text is rendered and everything else stays: the items of a
/// list and the members of an object keep their places and keys. A text that is one
/// expression may become any value.
pub proof fn json_keeps_its_shape(
    v: JsonView,
    g: spec_fn(Seq<char>) -> Option<Seq<char>>,
    items: Seq<JsonView>,
    members: Seq<(Seq<char>, JsonView)>,
    k: int,
)
    ensures
        !(v is Text || v is Array || v is Object) ==> json_rendered(v, g) == Ok::<
            JsonView,
            TemplateErrorView,
        >(v),
        json_rendered(JsonView::Array(items), g) is Ok ==> {
            let out = json_rendered(JsonView::Array(items), g)->Ok_0;
            &&& out is Array
            &&& out->Array_0.len() == items.len()
            &&& 0 <= k < items.len() ==> json_rendered(items[k], g) is Ok && out->Array_0[k]
                == json_rendered(items[k], g)->Ok_0
        },
        json_rendered(JsonView::Array(items), g) is Err ==> exists|i: int|
            0 <= i < items.len() && json_rendered(#[trigger] items[i], g) is Err,
        json_rendered(JsonView::Object(members), g) is Ok ==> {
            let out = json_rendered(JsonView::Object(members), g)->Ok_0;
            &&& out is Object
            &&& out->Object_0.len() == members.len()
            &&& 0 <= k < members.len() ==> json_rendered(members[k].1, g) is Ok && out->Object_0[k]
                == (members[k].0, json_rendered(members[k].1, g)->Ok_0)
        },
        json_rendered(JsonView::Object(members), g) is Err ==> exists|i: int|
            0 <= i < members.len() && json_rendered((#[trigger] members[i]).1, g) is Err,
{
    lemma_items_rendered(items, g, items.len() as int);
    lemma_members_rendered(members, g, members.len() as int);
}

proof fn lemma_items_rendered(
    items: Seq<JsonView>,
    g: spec_fn(Seq<char>) -> Option<Seq<char>>,
    n: int,
)
    requires
        0 <= n <= items.len(),
    ensures
        match items_rendered(items, g, n) {
            Ok(out) => out.len() == n && forall|k: int|
                0 <= k < n ==> json_rendered(#[trigger] items[k], g) is Ok && out[k]
                    == json_rendered(items[k], g)->Ok_0,
            Err(_) => exists|i: int| 0 <= i < n && json_rendered(#[trigger] items[i], g) is Err,
        },
    decreases n,
{
    if n > 0 {
        lemma_items_rendered(items, g, n - 1);
    }
}

proof fn lemma_members_rendered(
    members: Seq<(Seq<char>, JsonView)>,
    g: spec_fn(Seq<char>) -> Option<Seq<char>>,
    n: int,
)
    requires
        0 <= n <= members.len(),
    ensures
        match members_rendered(members, g, n) {
            Ok(out) => out.len() == n && forall|k: int|
                0 <= k < n ==> json_rendered((#[trigger] members[k]).1, g) is Ok && out[k] == (
                    members[k].0,
                    json_rendered(members[k].1, g)->Ok_0,
                ),
            Err(_) => exists|i: int|
                0 <= i < n && json_rendered((#[trigger] members[i]).1, g) is Err,
        },
    decreases n,
{
    if n > 0 {
        lemma_members_rendered(members, g, n - 1);
    }
}

/// A text in a JSON value is rendered as a text, but a lone expression whose value is
/// JSON becomes that value.
pub proof fn a_lone_expression_may_be_any_value(
    s: Seq<char>,
    g: spec_fn(Seq<char>) -> Option<Seq<char>>,
    parts: Seq<PartView>,
    t: Seq<char>,
)
    requires
        parts_of(s) == Ok::<Seq<PartView>, TemplateErrorView>(parts),
        rendered(parts, g, parts.len() as int) == Ok::<Seq<char>, TemplateErrorView>(t),
    ensures
        json_rendered(JsonView::Text(s), g) is Ok,
        parts.len() == 1 && parts[0] is Expr && json::parsed(t) is Ok ==> json_rendered(
            JsonView::Text(s),
            g,
        )->Ok_0 == json::parsed(t)->Ok_0,
        parts.len() != 1 || parts[0] is Lit || json::parsed(t) is Err ==> json_rendered(
            JsonView::Text(s),
            g,
        )->Ok_0 == JsonView::Text(t),
{
}

/// With a resolver, too, a JSON value keeps its shape: whatever it renders to has the same
/// items in the same places and the same keys, each rendered on its own, and what is no
/// text stays as it is.
pub proof fn resolved_json_keeps_its_shape<F: Fn(&str) -> Option<String>>(
    resolve: F,
    v: JsonView,
    r: JsonView,
    k: int,
)
    requires
        can_render_json(resolve, v, Ok(r)),
    ensures
        !(v is Text || v is Array || v is Object) ==> r == v,
        v is Array ==> r is Array && r->Array_0.len() == v->Array_0.len() && (0 <= k
            < v->Array_0.len() ==> can_render_json(resolve, v->Array_0[k], Ok(r->Array_0[k]))),
        v is Object ==> r is Object && r->Object_0.len() == v->Object_0.len() && (0 <= k
            < v->Object_0.len() ==> r->Object_0[k].0 == v->Object_0[k].0 && can_render_json(
            resolve,
            v->Object_0[k].1,
            Ok(r->Object_0[k].1),
        )),
        v is Text ==> parts_of(v->Text_0) is Ok,
{
}

/// What is asked of a resolver is every expression, in order, up to the first that it does
/// not know.
pub proof fn expressions_are_asked_for_in_order<F: Fn(&str) -> Option<String>>(
    resolve: F,
    parts: Seq<PartView>,
    replies: Seq<Option<Seq<char>>>,
    k: int,
)
    requires
        replied(resolve, parts, replies),
    ensures
        replies.len() <= expressions_of(parts, parts.len() as int).len(),
        (forall|i: int| 0 <= i < replies.len() ==> #[trigger] replies[i] is Some) ==> replies.len()
            == expressions_of(parts, parts.len() as int).len(),
        0 <= k < replies.len() && replies[k] is None ==> k == replies.len() - 1,
        0 <= k < replies.len() ==> exists|e: &str, r: Option<String>| #[trigger]
            call_ensures(resolve, (e,), r) && e@ == expressions_of(parts, parts.len() as int)[k]
                && r.deep_view() == replies[k],
{
    if 0 <= k < replies.len() {
        assert(can_reply(resolve, expressions_of(parts, parts.len() as int)[k], replies[k]));
    }
}

} // verus!
