//! Variable resolution: declarations `@name = value` are bound in repeated
//! passes until a pass binds nothing new, then every reference and expression
//! elsewhere in the stream gets the term that replaces it.

use vstd::prelude::*;

use crate::expr::{
    Binding, Span, Term, expression_term, find_name, find_variable, head_name, heads_valid,
    parse_expression, var_names,
};
use crate::expr::copy_range;
use crate::laws::{lemma_overrides_on_scalars, overrides_on_scalars};
use crate::materialize::{decode_utf8_lossy, text_of};
use crate::tape::{reads_as_number, scalar_reads_as_number, tape_tokens, unquoted, unquoted_text};

verus! {

/// `@[...]`: an expression to evaluate.
pub open spec fn is_expression(b: Seq<u8>) -> bool {
    b.len() >= 3 && b[0] == 64 && b[1] == 91 && b[b.len() - 1] == 93
}

/// `@name`, not `@[`: a variable, declared or referenced.
pub open spec fn is_reference(b: Seq<u8>) -> bool {
    b.len() >= 1 && b[0] == 64 && !(b.len() >= 2 && b[1] == 91)
}

/// Whether each position from `p` on holds a key: a scalar that starts a
/// statement of an object body or of the top level. `stack` tells, for each
/// container still open, whether it is an object; `after_key` says that the
/// last key still waits for its value.
pub open spec fn key_flags_from(
    toks: Seq<jomini::TextToken>,
    p: int,
    stack: Seq<bool>,
    after_key: bool,
) -> Seq<bool>
    decreases toks.len() - p,
{
    if p < 0 || p >= toks.len() {
        Seq::empty()
    } else {
        let in_object = stack.len() == 0 || stack.last();
        match toks[p] {
            jomini::TextToken::Array { .. } => seq![false].add(
                key_flags_from(toks, p + 1, stack.push(false), false),
            ),
            jomini::TextToken::Object { .. } => seq![false].add(
                key_flags_from(toks, p + 1, stack.push(true), false),
            ),
            jomini::TextToken::End(_) => seq![false].add(
                key_flags_from(
                    toks,
                    p + 1,
                    if stack.len() > 0 {
                        stack.drop_last()
                    } else {
                        stack
                    },
                    false,
                ),
            ),
            jomini::TextToken::Operator(_) => seq![false].add(
                key_flags_from(toks, p + 1, stack, after_key),
            ),
            jomini::TextToken::MixedContainer => seq![false].add(
                key_flags_from(toks, p + 1, stack, after_key),
            ),
            jomini::TextToken::Header(_) => seq![false].add(
                key_flags_from(toks, p + 1, stack, after_key),
            ),
            _ => {
                let is_key = in_object && !after_key;
                seq![is_key].add(key_flags_from(toks, p + 1, stack, is_key))
            },
        }
    }
}

/// Which positions of the stream hold a key.
pub open spec fn key_flags(toks: Seq<jomini::TextToken>) -> Seq<bool> {
    key_flags_from(toks, 0, Seq::empty(), false)
}

/// Token `i` heads a declaration: a key `@name` followed by an unquoted
/// expression, reference or number.
pub open spec fn declares(toks: Seq<jomini::TextToken>, i: int) -> bool {
    &&& 0 <= i && i + 1 < toks.len()
    &&& key_flags(toks)[i]
    &&& toks[i] is Unquoted
    &&& is_reference(unquoted(toks[i]))
    &&& toks[i + 1] is Unquoted
    &&& {
        let v = unquoted(toks[i + 1]);
        is_expression(v) || is_reference(v) || reads_as_number(v)
    }
}

/// What one position of a pass does with the variables bound so far.
pub enum Step {
    Skip,
    Bind(Binding),
    Defer,
    Fail(Span),
}

/// A declaration whose name is already bound is redundant: the first binding
/// wins. A reference to a name not bound yet is deferred.
pub open spec fn step(toks: Seq<jomini::TextToken>, vars: Seq<Binding>, i: int) -> Step {
    let names = var_names(toks, vars);
    if !declares(toks, i) || find_name(names, head_name(toks, i)) is Some {
        Step::Skip
    } else {
        let v = unquoted(toks[i + 1]);
        if is_expression(v) {
            match expression_term(v, (i + 1) as usize, names, 2, v.len() - 1) {
                Ok(t) => Step::Bind(Binding { head: i as usize, value: t }),
                Err(e) => Step::Fail(e),
            }
        } else if is_reference(v) {
            match find_name(names, v.subrange(1, v.len() as int)) {
                Some(k) => Step::Bind(Binding { head: i as usize, value: Term::Var(k as usize) }),
                None => Step::Defer,
            }
        } else {
            Step::Bind(Binding { head: i as usize, value: Term::Number((i + 1) as usize) })
        }
    }
}

/// One pass from position `i` on: the variables and the deferred heads.
pub open spec fn pass_from(
    toks: Seq<jomini::TextToken>,
    vars: Seq<Binding>,
    pending: Seq<usize>,
    i: int,
) -> Result<(Seq<Binding>, Seq<usize>), Span>
    decreases toks.len() - i,
{
    if i < 0 || i >= toks.len() {
        Ok((vars, pending))
    } else {
        match step(toks, vars, i) {
            Step::Skip => pass_from(toks, vars, pending, i + 1),
            Step::Bind(b) => pass_from(toks, vars.push(b), pending, i + 1),
            Step::Defer => pass_from(toks, vars, pending.push(i as usize), i + 1),
            Step::Fail(e) => Err(e),
        }
    }
}

/// Passes until one binds nothing new, at most `fuel` more of them. Each pass
/// that binds something binds a new head, so the length of the stream is
/// always enough fuel (`lemma_resolution_settles`).
pub open spec fn settle(toks: Seq<jomini::TextToken>, vars: Seq<Binding>, fuel: nat) -> Result<
    (Seq<Binding>, Seq<usize>),
    Span,
>
    decreases fuel,
{
    match pass_from(toks, vars, Seq::empty(), 0) {
        Err(e) => Err(e),
        Ok((next, pending)) => if next.len() == vars.len() || fuel == 0 {
            Ok((next, pending))
        } else {
            settle(toks, next, (fuel - 1) as nat)
        },
    }
}

/// A token of the stream that is replaced by the value of `value`.
#[derive(Debug)]
pub struct Override {
    pub index: usize,
    pub value: Term,
}

/// The replacement of token `i`: an expression that is not the value of a
/// declaration (a redundant declaration is not evaluated again, and every
/// declaration's value is filtered out), or a reference to a bound variable
/// that does not head a declaration.
pub open spec fn override_at(toks: Seq<jomini::TextToken>, vars: Seq<Binding>, i: int) -> Option<
    Result<Term, Span>,
> {
    let t = unquoted(toks[i]);
    let names = var_names(toks, vars);
    if !(toks[i] is Unquoted) {
        None
    } else if is_expression(t) {
        if declares(toks, i - 1) {
            None
        } else {
            Some(expression_term(t, i as usize, names, 2, t.len() - 1))
        }
    } else if is_reference(t) && !declares(toks, i) {
        match find_name(names, t.subrange(1, t.len() as int)) {
            Some(k) => Some(Ok(Term::Var(k as usize))),
            None => None,
        }
    } else {
        None
    }
}

pub open spec fn overrides_from(
    toks: Seq<jomini::TextToken>,
    vars: Seq<Binding>,
    acc: Seq<Override>,
    i: int,
) -> Result<Seq<Override>, Span>
    decreases toks.len() - i,
{
    if i < 0 || i >= toks.len() {
        Ok(acc)
    } else {
        match override_at(toks, vars, i) {
            None => overrides_from(toks, vars, acc, i + 1),
            Some(Ok(t)) => overrides_from(
                toks,
                vars,
                acc.push(Override { index: i as usize, value: t }),
                i + 1,
            ),
            Some(Err(e)) => Err(e),
        }
    }
}

/// Why interpolation failed.
pub enum Failure {
    UnknownOperand(Span),
    /// The heads of the declarations whose reference never resolved.
    Unresolved(Seq<usize>),
}

/// The variables and the replacements of a token stream, or why there are none.
pub open spec fn interpolation(toks: Seq<jomini::TextToken>) -> Result<
    (Seq<Binding>, Seq<Override>),
    Failure,
> {
    match settle(toks, Seq::empty(), toks.len() as nat) {
        Err(e) => Err(Failure::UnknownOperand(e)),
        Ok((vars, pending)) => if pending.len() > 0 {
            Err(Failure::Unresolved(pending))
        } else {
            match overrides_from(toks, vars, Seq::empty(), 0) {
                Err(e) => Err(Failure::UnknownOperand(e)),
                Ok(o) => Ok((vars, o)),
            }
        },
    }
}

#[derive(Debug)]
pub enum InterpolationError {
    /// An expression operand that is neither a bound variable nor a number.
    UnknownOperand(Span),
    /// Declaration heads `@a = @b` whose `@b` never got bound.
    Unresolved(Vec<usize>),
}

impl View for InterpolationError {
    type V = Failure;

    open spec fn view(&self) -> Failure {
        match self {
            InterpolationError::UnknownOperand(s) => Failure::UnknownOperand(*s),
            InterpolationError::Unresolved(v) => Failure::Unresolved(v@),
        }
    }
}

fn expression_text(b: &[u8]) -> (r: bool)
    ensures
        r == is_expression(b@),
{
    b.len() >= 3 && b[0] == 64 && b[1] == 91 && b[b.len() - 1] == 93
}

fn reference_text(b: &[u8]) -> (r: bool)
    ensures
        r == is_reference(b@),
{
    b.len() >= 1 && b[0] == 64 && !(b.len() >= 2 && b[1] == 91)
}

/// The key positions of the stream.
pub fn key_positions(toks: &[jomini::TextToken]) -> (r: Vec<bool>)
    ensures
        r@ == key_flags(toks@),
        r@.len() == toks@.len(),
{
    let mut flags: Vec<bool> = Vec::new();
    let mut stack: Vec<bool> = Vec::new();
    let mut after_key = false;
    let mut p: usize = 0;
    assert(flags@.add(key_flags(toks@)) =~= key_flags(toks@));
    while p < toks.len()
        invariant
            p <= toks@.len(),
            flags@.len() == p,
            key_flags(toks@) == flags@.add(key_flags_from(toks@, p as int, stack@, after_key)),
        decreases toks@.len() - p,
    {
        let ghost before = flags@;
        let ghost rest = key_flags_from(toks@, p as int, stack@, after_key);
        let in_object = stack.len() == 0 || stack[stack.len() - 1];
        match &toks[p] {
            jomini::TextToken::Array { .. } => {
                flags.push(false);
                stack.push(false);
                after_key = false;
            },
            jomini::TextToken::Object { .. } => {
                flags.push(false);
                stack.push(true);
                after_key = false;
            },
            jomini::TextToken::End(_) => {
                flags.push(false);
                if stack.len() > 0 {
                    stack.pop();
                }
                after_key = false;
            },
            jomini::TextToken::Operator(_) => {
                flags.push(false);
            },
            jomini::TextToken::MixedContainer => {
                flags.push(false);
            },
            jomini::TextToken::Header(_) => {
                flags.push(false);
            },
            _ => {
                let is_key = in_object && !after_key;
                flags.push(is_key);
                after_key = is_key;
            },
        }
        assert(rest == seq![flags@[p as int]].add(
            key_flags_from(toks@, p + 1, stack@, after_key),
        ));
        assert(flags@.add(key_flags_from(toks@, p + 1, stack@, after_key)) =~= before.add(rest));
        p += 1;
    }
    assert(flags@.add(key_flags_from(toks@, p as int, stack@, after_key)) =~= flags@);
    flags
}

/// Whether token `i` heads a declaration.
fn declaration_at(toks: &[jomini::TextToken], keys: &Vec<bool>, i: usize) -> (r: bool)
    requires
        keys@ == key_flags(toks@),
        keys@.len() == toks@.len(),
    ensures
        r == declares(toks@, i as int),
{
    if i >= toks.len() || toks.len() - i < 2 || !keys[i] {
        return false;
    }
    match (unquoted_text(&toks[i]), unquoted_text(&toks[i + 1])) {
        (Some(h), Some(v)) => reference_text(h) && (expression_text(v) || reference_text(v)
            || scalar_reads_as_number(v)),
        _ => false,
    }
}

fn run_pass(toks: &[jomini::TextToken], keys: &Vec<bool>, bound: Vec<Binding>) -> (r: Result<
    (Vec<Binding>, Vec<usize>),
    Span,
>)
    requires
        keys@ == key_flags(toks@),
        keys@.len() == toks@.len(),
        heads_valid(toks@, bound@),
    ensures
        r is Ok ==> pass_from(toks@, bound@, Seq::empty(), 0) == Ok::<
            (Seq<Binding>, Seq<usize>),
            Span,
        >((r->Ok_0.0@, r->Ok_0.1@)) && heads_valid(toks@, r->Ok_0.0@),
        r is Err ==> pass_from(toks@, bound@, Seq::empty(), 0) == Err::<
            (Seq<Binding>, Seq<usize>),
            Span,
        >(r->Err_0),
{
    let ghost start = bound@;
    let mut vars = bound;
    let mut pending: Vec<usize> = Vec::new();
    let mut i: usize = 0;
    while i < toks.len()
        invariant
            i <= toks@.len(),
            heads_valid(toks@, vars@),
            start == bound@,
            keys@ == key_flags(toks@),
            keys@.len() == toks@.len(),
            pass_from(toks@, start, Seq::empty(), 0) == pass_from(toks@, vars@, pending@, i as int),
        decreases toks@.len() - i,
    {
        if declaration_at(toks, keys, i) {
            let h = unquoted_text(&toks[i]).unwrap();
            let v = unquoted_text(&toks[i + 1]).unwrap();
            assert(h@.subrange(1, h@.len() as int) == head_name(toks@, i as int));
            if find_variable(toks, &vars, h, 1, h.len()).is_none() {
                if expression_text(v) {
                    match parse_expression(v, i + 1, toks, &vars, 2, v.len() - 1) {
                        Ok(t) => {
                            vars.push(Binding { head: i, value: t });
                        },
                        Err(e) => {
                            return Err(e);
                        },
                    }
                } else if reference_text(v) {
                    match find_variable(toks, &vars, v, 1, v.len()) {
                        Some(k) => {
                            vars.push(Binding { head: i, value: Term::Var(k) });
                        },
                        None => {
                            pending.push(i);
                        },
                    }
                } else {
                    vars.push(Binding { head: i, value: Term::Number(i + 1) });
                }
            }
        }
        i += 1;
    }
    Ok((vars, pending))
}

fn settle_variables(toks: &[jomini::TextToken], keys: &Vec<bool>) -> (r: Result<
    (Vec<Binding>, Vec<usize>),
    Span,
>)
    requires
        keys@ == key_flags(toks@),
        keys@.len() == toks@.len(),
    ensures
        match r {
            Ok((v, p)) => settle(toks@, Seq::empty(), toks@.len() as nat) == Ok::<
                (Seq<Binding>, Seq<usize>),
                Span,
            >((v@, p@)) && heads_valid(toks@, v@),
            Err(e) => settle(toks@, Seq::empty(), toks@.len() as nat) == Err::<
                (Seq<Binding>, Seq<usize>),
                Span,
            >(e),
        },
{
    let mut vars: Vec<Binding> = Vec::new();
    let mut fuel: usize = toks.len();
    loop
        invariant
            heads_valid(toks@, vars@),
            keys@ == key_flags(toks@),
            keys@.len() == toks@.len(),
            settle(toks@, Seq::empty(), toks@.len() as nat) == settle(toks@, vars@, fuel as nat),
        decreases fuel,
    {
        let before = vars.len();
        match run_pass(toks, keys, vars) {
            Err(e) => {
                return Err(e);
            },
            Ok((next, pending)) => {
                if next.len() == before || fuel == 0 {
                    return Ok((next, pending));
                }
                vars = next;
                fuel -= 1;
            },
        }
    }
}

fn find_overrides(toks: &[jomini::TextToken], keys: &Vec<bool>, vars: &Vec<Binding>) -> (r: Result<
    Vec<Override>,
    Span,
>)
    requires
        keys@ == key_flags(toks@),
        keys@.len() == toks@.len(),
        heads_valid(toks@, vars@),
    ensures
        match r {
            Ok(o) => overrides_from(toks@, vars@, Seq::empty(), 0) == Ok::<Seq<Override>, Span>(
                o@,
            ),
            Err(e) => overrides_from(toks@, vars@, Seq::empty(), 0) == Err::<Seq<Override>, Span>(
                e,
            ),
        },
{
    let mut out: Vec<Override> = Vec::new();
    let mut i: usize = 0;
    while i < toks.len()
        invariant
            i <= toks@.len(),
            heads_valid(toks@, vars@),
            keys@ == key_flags(toks@),
            keys@.len() == toks@.len(),
            overrides_from(toks@, vars@, Seq::empty(), 0) == overrides_from(
                toks@,
                vars@,
                out@,
                i as int,
            ),
        decreases toks@.len() - i,
    {
        match unquoted_text(&toks[i]) {
            Some(t) => {
                if expression_text(t) {
                    if !(i > 0 && declaration_at(toks, keys, i - 1)) {
                        match parse_expression(t, i, toks, vars, 2, t.len() - 1) {
                            Ok(term) => {
                                out.push(Override { index: i, value: term });
                            },
                            Err(e) => {
                                return Err(e);
                            },
                        }
                    }
                } else if reference_text(t) && !declaration_at(toks, keys, i) {
                    match find_variable(toks, vars, t, 1, t.len()) {
                        Some(k) => {
                            out.push(Override { index: i, value: Term::Var(k) });
                        },
                        None => {},
                    }
                }
            },
            None => {},
        }
        i += 1;
    }
    Ok(out)
}

/// A token stream with its variables resolved: which tokens are replaced, and
/// by what.
pub struct InterpolatedTape<'a> {
    pub tokens: &'a [jomini::TextToken<'a>],
    /// The bound variables, in the order in which they were bound.
    pub variables: Vec<Binding>,
    /// The replaced tokens, in stream order.
    pub overrides: Vec<Override>,
}

impl<'a> InterpolatedTape<'a> {
    /// Resolves the variables of the tape's tokens.
    pub fn from_tape_with_interpolation(tape: &'a jomini::TextTape<'a>) -> (r: Result<
        InterpolatedTape<'a>,
        InterpolationError,
    >)
        ensures
            match (r, interpolation(tape_tokens(*tape))) {
                (Ok(t), Ok((vars, overrides))) => t.tokens@ == tape_tokens(*tape)
                    && t.variables@ == vars && t.overrides@ == overrides,
                (Err(e), Err(f)) => e@ == f,
                _ => false,
            },
            r matches Ok(t) ==> overrides_on_scalars(t.tokens@, t.overrides@),
    {
        InterpolatedTape::from_tokens(tape.tokens())
    }

    /// Resolves the variables of a token stream.
    pub fn from_tokens(tokens: &'a [jomini::TextToken<'a>]) -> (r: Result<
        InterpolatedTape<'a>,
        InterpolationError,
    >)
        ensures
            match (r, interpolation(tokens@)) {
                (Ok(t), Ok((vars, overrides))) => t.tokens@ == tokens@ && t.variables@ == vars
                    && t.overrides@ == overrides,
                (Err(e), Err(f)) => e@ == f,
                _ => false,
            },
            r matches Ok(t) ==> overrides_on_scalars(tokens@, t.overrides@),
    {
        let count = tokens.len();
        proof {
            assert(count == tokens@.len());
            if let Ok((vars, _)) = settle(tokens@, Seq::empty(), tokens@.len() as nat) {
                lemma_overrides_on_scalars(tokens@, vars, Seq::empty(), 0);
            }
        }
        let keys = key_positions(tokens);
        match settle_variables(tokens, &keys) {
            Err(e) => Err(InterpolationError::UnknownOperand(e)),
            Ok((vars, pending)) => {
                if pending.len() > 0 {
                    Err(InterpolationError::Unresolved(pending))
                } else {
                    match find_overrides(tokens, &keys, &vars) {
                        Err(e) => Err(InterpolationError::UnknownOperand(e)),
                        Ok(o) => Ok(InterpolatedTape { tokens, variables: vars, overrides: o }),
                    }
                }
            },
        }
    }
}

/// The text of token `i`, when it is an unquoted scalar of the stream.
pub open spec fn token_text(toks: Seq<jomini::TextToken>, i: int) -> Seq<u8> {
    if 0 <= i < toks.len() {
        unquoted(toks[i])
    } else {
        Seq::empty()
    }
}

pub open spec fn span_text(toks: Seq<jomini::TextToken>, sp: Span) -> Seq<u8> {
    let t = token_text(toks, sp.token as int);
    if sp.start <= sp.end <= t.len() {
        t.subrange(sp.start as int, sp.end as int)
    } else {
        Seq::empty()
    }
}

/// `@a -> @b` for each unresolved head from position `k` on, comma separated.
pub open spec fn pairs_text(toks: Seq<jomini::TextToken>, heads: Seq<usize>, k: int) -> Seq<char>
    decreases heads.len() - k,
{
    if k < 0 || k >= heads.len() {
        Seq::empty()
    } else {
        let h = heads[k] as int;
        let sep = if k == 0 {
            Seq::empty()
        } else {
            ", "@
        };
        sep + text_of(token_text(toks, h)) + " -> "@ + text_of(token_text(toks, h + 1))
            + pairs_text(toks, heads, k + 1)
    }
}

pub open spec fn message_text(f: Failure, toks: Seq<jomini::TextToken>) -> Seq<char> {
    match f {
        Failure::UnknownOperand(sp) => "Unknown operand: "@ + text_of(span_text(toks, sp)),
        Failure::Unresolved(heads) => "Unresolved variable references: "@ + pairs_text(
            toks,
            heads,
            0,
        ),
    }
}

fn text_at(toks: &[jomini::TextToken], i: usize) -> (r: String)
    ensures
        r@ == text_of(token_text(toks@, i as int)),
{
    if i < toks.len() {
        match unquoted_text(&toks[i]) {
            Some(b) => decode_utf8_lossy(b),
            None => decode_utf8_lossy(Vec::<u8>::new().as_slice()),
        }
    } else {
        decode_utf8_lossy(Vec::<u8>::new().as_slice())
    }
}

impl InterpolationError {
    /// The error as text, with the token text it refers to.
    pub fn message(&self, tokens: &[jomini::TextToken]) -> (r: String)
        ensures
            r@ == message_text(self@, tokens@),
    {
        match self {
            InterpolationError::UnknownOperand(sp) => {
                let mut m = String::from_str("Unknown operand: ");
                let b: Vec<u8> = if sp.token < tokens.len() {
                    match unquoted_text(&tokens[sp.token]) {
                        Some(t) => if sp.start <= sp.end && sp.end <= t.len() {
                            copy_range(t, sp.start, sp.end)
                        } else {
                            Vec::new()
                        },
                        None => Vec::new(),
                    }
                } else {
                    Vec::new()
                };
                assert(b@ =~= span_text(tokens@, *sp));
                let text = decode_utf8_lossy(b.as_slice());
                m.append(text.as_str());
                m
            },
            InterpolationError::Unresolved(heads) => {
                let mut m = String::from_str("Unresolved variable references: ");
                let ghost prefix = m@;
                let mut k: usize = 0;
                assert(m@ =~= prefix + Seq::<char>::empty());
                while k < heads.len()
                    invariant
                        k <= heads@.len(),
                        prefix + pairs_text(tokens@, heads@, 0) == m@ + pairs_text(
                            tokens@,
                            heads@,
                            k as int,
                        ),
                    decreases heads@.len() - k,
                {
                    let ghost before = m@;
                    if k > 0 {
                        m.append(", ");
                    }
                    let h = heads[k];
                    let a = text_at(tokens, h);
                    m.append(a.as_str());
                    m.append(" -> ");
                    let b = if h < tokens.len() {
                        text_at(tokens, h + 1)
                    } else {
                        assert(token_text(tokens@, h as int) =~= token_text(tokens@, h + 1));
                        text_at(tokens, h)
                    };
                    m.append(b.as_str());
                    let ghost sep = if k == 0 {
                        Seq::<char>::empty()
                    } else {
                        ", "@
                    };
                    assert(m@ =~= before + sep + a@ + " -> "@ + b@);
                    assert(b@ == text_of(token_text(tokens@, h + 1)));
                    assert(pairs_text(tokens@, heads@, k as int) == sep + a@ + " -> "@ + b@
                        + pairs_text(tokens@, heads@, k + 1));
                    assert(before + pairs_text(tokens@, heads@, k as int) =~= m@ + pairs_text(
                        tokens@,
                        heads@,
                        k + 1,
                    ));
                    k += 1;
                }
                assert(m@ + pairs_text(tokens@, heads@, k as int) =~= m@);
                m
            },
        }
    }
}

} // verus!
