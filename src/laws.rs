//! What holds of interpolation as a whole.

use vstd::prelude::*;
use vstd::utf8::valid_utf8;

use crate::expr::{Binding, Span, Term, expression_term, find_name, find_name_from, head_name, var_names};
use crate::filter::{
    declared_from, filtered, is_declared, kept, normalized, renumber, run_end, tape_shape, value_end,
};
use crate::json::output_tape;
use crate::materialize::{
    Encoding, TapeToken, first_override, lifted, materialized, materialized_from, override_text,
};
use crate::resolve::{
    Failure, Override, Step, declares, interpolation, is_expression, is_reference, override_at,
    overrides_from, pass_from, settle, step,
};
use crate::json::{slot_in, slots_ok, tape_token_view, tape_views};
use crate::materialize::{interned, slot_from};
use crate::tape::{
    Shape, TokenView, close_ok, nested, open_ok, pair_ok, token_view, token_views, unquoted, view_shape,
    well_formed,
};

verus! {

/// No unquoted scalar of the stream starts with the sigil `@`.
pub open spec fn sigil_free(toks: Seq<jomini::TextToken>) -> bool {
    forall|i: int|
        0 <= i < toks.len() ==> {
            let t = #[trigger] unquoted(toks[i]);
            t.len() == 0 || t[0] != 64
        }
}

/// No `==` or `?=` operator in the stream: the filter would make them `=`.
pub open spec fn without_exact_or_exists(toks: Seq<jomini::TextToken>) -> bool {
    forall|i: int|
        0 <= i < toks.len() ==> !(#[trigger] toks[i] matches jomini::TextToken::Operator(op) && (
        op == jomini::text::Operator::Exact || op == jomini::text::Operator::Exists))
}

proof fn lemma_pass_binds_nothing(
    toks: Seq<jomini::TextToken>,
    vars: Seq<Binding>,
    pending: Seq<usize>,
    i: int,
)
    requires
        sigil_free(toks),
        0 <= i,
    ensures
        pass_from(toks, vars, pending, i) == Ok::<(Seq<Binding>, Seq<usize>), crate::expr::Span>(
            (vars, pending),
        ),
    decreases toks.len() - i,
{
    if i < toks.len() {
        let t = unquoted(toks[i]);
        assert(t.len() == 0 || t[0] != 64);
        lemma_pass_binds_nothing(toks, vars, pending, i + 1);
    }
}

proof fn lemma_no_overrides(
    toks: Seq<jomini::TextToken>,
    vars: Seq<Binding>,
    acc: Seq<Override>,
    i: int,
)
    requires
        sigil_free(toks),
        0 <= i,
    ensures
        overrides_from(toks, vars, acc, i) == Ok::<Seq<Override>, crate::expr::Span>(acc),
    decreases toks.len() - i,
{
    if i < toks.len() {
        let t = unquoted(toks[i]);
        assert(t.len() == 0 || t[0] != 64);
        lemma_no_overrides(toks, vars, acc, i + 1);
    }
}

/// The string position that a token holds, or 0.
pub open spec fn slot_of(t: TapeToken) -> usize {
    match t {
        TapeToken::Unquoted(k) => k,
        TapeToken::Quoted(k) => k,
        TapeToken::Parameter(k) => k,
        TapeToken::UndefinedParameter(k) => k,
        TapeToken::Header(k) => k,
        _ => 0,
    }
}

/// Without overrides, materializing keeps each token's kind and pointers.
proof fn lemma_materialized_shape(
    toks: Seq<jomini::TextToken>,
    enc: Encoding,
    rendered: Seq<Seq<char>>,
    i: int,
    table: Seq<Seq<char>>,
    out: Seq<TapeToken>,
)
    requires
        0 <= i <= toks.len(),
        out.len() == i,
    ensures
        ({
            let r = materialized_from(toks, enc, Seq::empty(), rendered, i, table, out).1;
            &&& r.len() == toks.len()
            &&& forall|j: int| 0 <= j < i ==> r[j] == out[j]
            &&& forall|j: int|
                i <= j < toks.len() ==> #[trigger] r[j] == lifted(toks[j], slot_of(r[j]))
        }),
    decreases toks.len() - i,
{
    if i < toks.len() {
        assert(first_override(Seq::<Override>::empty(), i, 0) is None);
        assert(override_text(Seq::empty(), rendered, i) is None);
        let next = materialized_from(toks, enc, Seq::empty(), rendered, i, table, out);
        let r = next.1;
        match crate::materialize::payload(toks[i]) {
            Some(b) => {
                let (tb, k) = crate::materialize::interned(table, crate::materialize::decoded(enc, b));
                let o2 = out.push(lifted(toks[i], k));
                assert(next == materialized_from(toks, enc, Seq::empty(), rendered, i + 1, tb, o2));
                lemma_materialized_shape(toks, enc, rendered, i + 1, tb, o2);
                assert(r[i] == o2[i]);
            },
            None => {
                let o2 = out.push(lifted(toks[i], 0));
                assert(next == materialized_from(toks, enc, Seq::empty(), rendered, i + 1, table, o2));
                lemma_materialized_shape(toks, enc, rendered, i + 1, table, o2);
                assert(r[i] == o2[i]);
            },
        }
    }
}

proof fn lemma_kept_all(toks: Seq<TapeToken>, i: int)
    requires
        0 <= i <= toks.len(),
        toks.len() <= usize::MAX,
    ensures
        kept(toks, Seq::empty(), i) == Seq::new((toks.len() - i) as nat, |j: int| (i + j) as usize),
    decreases toks.len() - i,
{
    if i < toks.len() {
        assert(!is_declared(Seq::empty(), toks[i]));
        lemma_kept_all(toks, i + 1);
        assert(kept(toks, Seq::empty(), i) =~= Seq::new(
            (toks.len() - i) as nat,
            |j: int| (i + j) as usize,
        ));
    } else {
        assert(kept(toks, Seq::empty(), i) =~= Seq::new(
            (toks.len() - i) as nat,
            |j: int| (i + j) as usize,
        ));
    }
}

/// A stream without sigils binds nothing and replaces nothing, and the tape
/// that comes out of interpolation is the unmodified stream's own
/// materialization: the JSON writer is handed the same tokens and strings.
/// This holds where the stream has no `==` or `?=` operator, which the filter
/// turns into `=`.
pub proof fn lemma_plain_document_unchanged(
    toks: Seq<jomini::TextToken>,
    rendered: Seq<Seq<char>>,
    enc: Encoding,
)
    requires
        sigil_free(toks),
        without_exact_or_exists(toks),
        toks.len() <= usize::MAX,
    ensures
        interpolation(toks) == Ok::<(Seq<Binding>, Seq<Override>), crate::resolve::Failure>(
            (Seq::empty(), Seq::empty()),
        ),
        output_tape(toks, Seq::empty(), Seq::empty(), rendered, enc) == materialized(
            toks,
            enc,
            Seq::empty(),
            rendered,
        ),
{
    lemma_pass_binds_nothing(toks, Seq::empty(), Seq::empty(), 0);
    assert(settle(toks, Seq::empty(), toks.len() as nat) == Ok::<
        (Seq<Binding>, Seq<usize>),
        crate::expr::Span,
    >((Seq::empty(), Seq::empty())));
    lemma_no_overrides(toks, Seq::empty(), Seq::empty(), 0);
    let (table, m) = materialized(toks, enc, Seq::empty(), rendered);
    lemma_materialized_shape(toks, enc, rendered, 0, Seq::empty(), Seq::empty());
    let decl = declared_from(Seq::<Binding>::empty(), m, 0);
    assert(decl == Seq::<usize>::empty());
    lemma_kept_all(m, 0);
    let k = kept(m, decl, 0);
    assert forall|x: usize| #[trigger] renumber(k, x) == x by {
        if k.contains(x) {
            let c = k.index_of(x);
            assert(k[c] == x);
        }
        if (x as int) < m.len() {
            assert(k[x as int] == x);
        }
    }
    assert forall|j: int| 0 <= j < m.len() implies #[trigger] normalized(m[j], k) == m[j] by {
        assert(m[j] == lifted(toks[j], slot_of(m[j])));
        assert(!(toks[j] matches jomini::TextToken::Operator(op) && (op
            == jomini::text::Operator::Exact || op == jomini::text::Operator::Exists)));
    }
    assert forall|j: int| 0 <= j < m.len() implies #[trigger] filtered(m, decl)[j] == m[j] by {
        assert(k[j] == j as usize);
    }
    assert(filtered(m, decl) =~= m);
}

/// No key of the interpolated output holds the text of a declared variable:
/// every declaration, at any depth, is filtered out with its operator and value.
pub proof fn lemma_declarations_removed(
    toks: Seq<jomini::TextToken>,
    vars: Seq<Binding>,
    ov: Seq<Override>,
    rendered: Seq<Seq<char>>,
    enc: Encoding,
)
    requires
        toks.len() <= usize::MAX,
    ensures
        ({
            let m = materialized(toks, enc, ov, rendered).1;
            let out = output_tape(toks, vars, ov, rendered, enc).1;
            forall|j: int|
                0 <= j < out.len() ==> !is_declared(declared_from(vars, m, 0), #[trigger] out[j])
        }),
{
    let m = materialized(toks, enc, ov, rendered).1;
    let decl = declared_from(vars, m, 0);
    lemma_materialized_len(toks, enc, ov, rendered, 0, Seq::empty(), Seq::empty());
    lemma_kept_undeclared(m, decl, 0);
    let k = kept(m, decl, 0);
    assert forall|j: int| 0 <= j < k.len() implies !is_declared(
        decl,
        #[trigger] normalized(m[k[j] as int], k),
    ) by {
        assert(!is_declared(decl, m[k[j] as int]));
    }
}

proof fn lemma_materialized_len(
    toks: Seq<jomini::TextToken>,
    enc: Encoding,
    ov: Seq<Override>,
    rendered: Seq<Seq<char>>,
    i: int,
    table: Seq<Seq<char>>,
    out: Seq<TapeToken>,
)
    requires
        0 <= i <= toks.len(),
        out.len() == i,
    ensures
        materialized_from(toks, enc, ov, rendered, i, table, out).1.len() == toks.len(),
    decreases toks.len() - i,
{
    if i < toks.len() {
        match override_text(ov, rendered, i) {
            Some(t) => {
                let (tb, k) = crate::materialize::interned(table, t);
                lemma_materialized_len(toks, enc, ov, rendered, i + 1, tb, out.push(TapeToken::Unquoted(k)));
            },
            None => match crate::materialize::payload(toks[i]) {
                Some(b) => {
                    let (tb, k) = crate::materialize::interned(table, crate::materialize::decoded(enc, b));
                    lemma_materialized_len(toks, enc, ov, rendered, i + 1, tb, out.push(lifted(toks[i], k)));
                },
                None => {
                    lemma_materialized_len(toks, enc, ov, rendered, i + 1, table, out.push(lifted(toks[i], 0)));
                },
            },
        }
    }
}

/// The positions kept from `i` on lie in the stream and hold no declared key.
pub proof fn lemma_kept_undeclared(toks: Seq<TapeToken>, decl: Seq<usize>, i: int)
    requires
        0 <= i,
        toks.len() <= usize::MAX,
    ensures
        forall|j: int|
            0 <= j < kept(toks, decl, i).len() ==> i <= #[trigger] kept(toks, decl, i)[j]
                < toks.len() && !is_declared(decl, toks[kept(toks, decl, i)[j] as int]),
        i <= toks.len() ==> kept(toks, decl, i).len() <= toks.len() - i,
    decreases toks.len() - i,
{
    if i < toks.len() {
        let k = kept(toks, decl, i);
        if is_declared(decl, toks[i]) {
            let e = crate::filter::run_end(toks, i);
            assert(e > i);
            lemma_kept_undeclared(toks, decl, e);
            assert(k == kept(toks, decl, e));
        } else {
            lemma_kept_undeclared(toks, decl, i + 1);
            let rest = kept(toks, decl, i + 1);
            assert(k == seq![i as usize].add(rest));
            assert forall|j: int| 0 <= j < k.len() implies i <= #[trigger] k[j] < toks.len()
                && !is_declared(decl, toks[k[j] as int]) by {
                if j == 0 {
                    assert(k[0] == i as usize);
                    assert((i as usize) as int == i);
                } else {
                    assert(k[j] == rest[j - 1]);
                }
            }
        }
    }
}

proof fn lemma_find_name(names: Seq<Seq<u8>>, x: Seq<u8>, s: int)
    requires
        0 <= s,
    ensures
        find_name_from(names, x, s) is None <==> forall|j: int| s <= j < names.len() ==> names[j]
            != x,
        find_name_from(names, x, s) is Some ==> {
            let k = find_name_from(names, x, s)->0;
            &&& s <= k < names.len()
            &&& names[k] == x
            &&& forall|j: int| s <= j < k ==> names[j] != x
        },
    decreases names.len() - s,
{
    if s < names.len() {
        lemma_find_name(names, x, s + 1);
    }
}

/// The value that the declaration at `h` gets, against the names bound before it.
pub open spec fn declared_value(toks: Seq<jomini::TextToken>, h: int, before: Seq<Seq<u8>>) -> Option<
    Term,
> {
    let v = unquoted(toks[h + 1]);
    if is_expression(v) {
        match expression_term(v, (h + 1) as usize, before, 2, v.len() - 1) {
            Ok(t) => Some(t),
            Err(_) => None,
        }
    } else if is_reference(v) {
        match find_name(before, v.subrange(1, v.len() as int)) {
            Some(j) => Some(Term::Var(j as usize)),
            None => None,
        }
    } else {
        Some(Term::Number((h + 1) as usize))
    }
}

/// Binding `k` comes from a declaration whose name no earlier binding has,
/// and holds what that declaration evaluates to against the earlier bindings.
pub open spec fn binding_ok(toks: Seq<jomini::TextToken>, vars: Seq<Binding>, k: int) -> bool {
    let h = vars[k].head as int;
    let before = var_names(toks, vars.take(k));
    &&& declares(toks, h)
    &&& find_name(before, head_name(toks, h)) is None
    &&& declared_value(toks, h, before) == Some(vars[k].value)
}

pub open spec fn bindings_ok(toks: Seq<jomini::TextToken>, vars: Seq<Binding>) -> bool {
    forall|k: int| 0 <= k < vars.len() ==> #[trigger] binding_ok(toks, vars, k)
}

proof fn lemma_names_take(toks: Seq<jomini::TextToken>, vars: Seq<Binding>, k: int)
    requires
        0 <= k <= vars.len(),
    ensures
        var_names(toks, vars.take(k)) == var_names(toks, vars).take(k),
{
    assert(var_names(toks, vars.take(k)) =~= var_names(toks, vars).take(k));
}

/// One binding pushed onto good bindings keeps them good, when it is what
/// the step at its head makes.
proof fn lemma_push_ok(toks: Seq<jomini::TextToken>, vars: Seq<Binding>, i: int, b: Binding)
    requires
        toks.len() <= usize::MAX,
        bindings_ok(toks, vars),
        step(toks, vars, i) == Step::Bind(b),
    ensures
        bindings_ok(toks, vars.push(b)),
{
    let w = vars.push(b);
    assert forall|k: int| 0 <= k < w.len() implies #[trigger] binding_ok(toks, w, k) by {
        if k < vars.len() {
            assert(w.take(k) =~= vars.take(k));
            assert(binding_ok(toks, vars, k));
        } else {
            assert(w.take(k) =~= vars);
        }
    }
}

/// A pass keeps the bindings good and only adds to them and to the deferred heads.
proof fn lemma_pass_grows(
    toks: Seq<jomini::TextToken>,
    vars: Seq<Binding>,
    pending: Seq<usize>,
    q: int,
)
    requires
        toks.len() <= usize::MAX,
        bindings_ok(toks, vars),
        0 <= q,
    ensures
        pass_from(toks, vars, pending, q) matches Ok((v2, pb)) ==> {
            &&& bindings_ok(toks, v2)
            &&& vars.len() <= v2.len()
            &&& v2.take(vars.len() as int) == vars
            &&& pending.len() <= pb.len()
            &&& pb.take(pending.len() as int) == pending
        },
    decreases toks.len() - q,
{
    if q < toks.len() {
        match step(toks, vars, q) {
            Step::Skip => lemma_pass_grows(toks, vars, pending, q + 1),
            Step::Bind(b) => {
                lemma_push_ok(toks, vars, q, b);
                lemma_pass_grows(toks, vars.push(b), pending, q + 1);
                if let Ok((v2, pb)) = pass_from(toks, vars, pending, q) {
                    assert(v2.take(vars.len() as int) =~= v2.take(vars.len() + 1int).take(
                        vars.len() as int,
                    ));
                    assert(vars.push(b).take(vars.len() as int) =~= vars);
                }
            },
            Step::Defer => {
                lemma_pass_grows(toks, vars, pending.push(q as usize), q + 1);
                if let Ok((v2, pb)) = pass_from(toks, vars, pending, q) {
                    assert(pb.take(pending.len() as int) =~= pb.take(pending.len() + 1int).take(
                        pending.len() as int,
                    ));
                    assert(pending.push(q as usize).take(pending.len() as int) =~= pending);
                }
            },
            Step::Fail(_) => {},
        }
    } else {
        assert(vars.take(vars.len() as int) =~= vars);
        assert(pending.take(pending.len() as int) =~= pending);
    }
}

/// Settling keeps the bindings good and only adds to them.
proof fn lemma_settle_grows(toks: Seq<jomini::TextToken>, vars: Seq<Binding>, fuel: nat)
    requires
        toks.len() <= usize::MAX,
        bindings_ok(toks, vars),
    ensures
        settle(toks, vars, fuel) matches Ok((v2, _)) ==> {
            &&& bindings_ok(toks, v2)
            &&& vars.len() <= v2.len()
            &&& v2.take(vars.len() as int) == vars
        },
    decreases fuel,
{
    lemma_pass_grows(toks, vars, Seq::empty(), 0);
    if let Ok((next, pending)) = pass_from(toks, vars, Seq::empty(), 0) {
        if !(next.len() == vars.len() || fuel == 0) {
            lemma_settle_grows(toks, next, (fuel - 1) as nat);
            if let Ok((v2, _)) = settle(toks, vars, fuel) {
                assert(v2.take(vars.len() as int) =~= v2.take(next.len() as int).take(
                    vars.len() as int,
                ));
            }
        }
    }
}

/// Some binding has its head at `h`.
pub open spec fn bound_at(vars: Seq<Binding>, h: int) -> bool {
    exists|k: int| 0 <= k < vars.len() && #[trigger] vars[k].head == h
}

proof fn lemma_bound_kept(vars: Seq<Binding>, w: Seq<Binding>, h: int)
    requires
        bound_at(vars, h),
        vars.len() <= w.len(),
        w.take(vars.len() as int) == vars,
    ensures
        bound_at(w, h),
{
    let k = choose|k: int| 0 <= k < vars.len() && #[trigger] vars[k].head == h;
    assert(w.take(vars.len() as int)[k] == w[k]);
}

/// `@name` is declared at `i` and nowhere else.
pub open spec fn only_declaration(toks: Seq<jomini::TextToken>, i: int) -> bool {
    &&& declares(toks, i)
    &&& forall|m: int|
        #![trigger declares(toks, m)]
        declares(toks, m) && head_name(toks, m) == head_name(toks, i) ==> m == i
}

/// Under good bindings, the only binding of the name declared at `i` alone has its head at `i`.
proof fn lemma_name_bound_at(toks: Seq<jomini::TextToken>, vars: Seq<Binding>, i: int)
    requires
        bindings_ok(toks, vars),
        only_declaration(toks, i),
    ensures
        find_name(var_names(toks, vars), head_name(toks, i)) is Some <==> bound_at(vars, i),
        find_name(var_names(toks, vars), head_name(toks, i)) is Some ==> {
            let k = find_name(var_names(toks, vars), head_name(toks, i))->0;
            0 <= k < vars.len() && vars[k].head == i
        },
{
    let names = var_names(toks, vars);
    let x = head_name(toks, i);
    lemma_find_name(names, x, 0);
    if bound_at(vars, i) {
        let k = choose|k: int| 0 <= k < vars.len() && #[trigger] vars[k].head == i;
        assert(names[k] == x);
    }
    if let Some(k) = find_name(names, x) {
        assert(binding_ok(toks, vars, k));
        assert(declares(toks, vars[k].head as int));
    }
}

/// A pass that starts without a binding at `i` binds `i` when the step
/// there binds whatever was bound before: a number, or a reference to a name
/// already bound when the pass starts.
proof fn lemma_pass_binds(
    toks: Seq<jomini::TextToken>,
    vars: Seq<Binding>,
    pending: Seq<usize>,
    q: int,
    i: int,
    other: int,
)
    requires
        toks.len() <= usize::MAX,
        bindings_ok(toks, vars),
        0 <= q <= i,
        only_declaration(toks, i),
        !bound_at(vars, i),
        !is_expression(unquoted(toks[i + 1])),
        is_reference(unquoted(toks[i + 1])) ==> only_declaration(toks, other) && bound_at(
            vars,
            other,
        ) && head_name(toks, other) == unquoted(toks[i + 1]).subrange(
            1,
            unquoted(toks[i + 1]).len() as int,
        ),
        forall|k: int| 0 <= k < vars.len() ==> #[trigger] vars[k].head < q || vars[k].head
            != i,
    ensures
        pass_from(toks, vars, pending, q) matches Ok((v2, _)) ==> bound_at(v2, i),
    decreases toks.len() - q,
{
    lemma_name_bound_at(toks, vars, i);
    if q == i {
        let names = var_names(toks, vars);
        let v = unquoted(toks[i + 1]);
        if is_reference(v) {
            lemma_name_bound_at(toks, vars, other);
        }
        match step(toks, vars, q) {
            Step::Bind(b) => {
                lemma_push_ok(toks, vars, q, b);
                lemma_pass_grows(toks, vars.push(b), pending, q + 1);
                assert(vars.push(b)[vars.len() as int].head == i);
                if let Ok((v2, _)) = pass_from(toks, vars, pending, q) {
                    lemma_bound_kept(vars.push(b), v2, i);
                }
            },
            _ => {},
        }
    } else {
        match step(toks, vars, q) {
            Step::Skip => lemma_pass_binds(toks, vars, pending, q + 1, i, other),
            Step::Defer => lemma_pass_binds(toks, vars, pending.push(q as usize), q + 1, i, other),
            Step::Bind(b) => {
                lemma_push_ok(toks, vars, q, b);
                let w = vars.push(b);
                assert(w[vars.len() as int].head == q);
                assert(!bound_at(w, i));
                if is_reference(unquoted(toks[i + 1])) {
                    let k = choose|k: int| 0 <= k < vars.len() && #[trigger] vars[k].head == other;
                    assert(w[k].head == other);
                }
                lemma_pass_binds(toks, w, pending, q + 1, i, other);
            },
            Step::Fail(_) => {},
        }
    }
}

proof fn lemma_overrides_contain(
    toks: Seq<jomini::TextToken>,
    vars: Seq<Binding>,
    acc: Seq<Override>,
    q: int,
    j: int,
    t: Term,
)
    requires
        toks.len() <= usize::MAX,
        0 <= q <= j < toks.len(),
        override_at(toks, vars, j) == Some(Ok::<Term, Span>(t)),
    ensures
        overrides_from(toks, vars, acc, q) matches Ok(o) ==> o.contains(
            Override { index: j as usize, value: t },
        ),
    decreases toks.len() - q,
{
    if q == j {
        let a2 = acc.push(Override { index: j as usize, value: t });
        lemma_overrides_keep(toks, vars, a2, q + 1);
        if let Ok(o) = overrides_from(toks, vars, acc, q) {
            assert(o.take(a2.len() as int)[acc.len() as int] == a2[acc.len() as int]);
            assert(o[acc.len() as int] == Override { index: j as usize, value: t });
        }
    } else {
        match override_at(toks, vars, q) {
            None => lemma_overrides_contain(toks, vars, acc, q + 1, j, t),
            Some(Ok(u)) => lemma_overrides_contain(
                toks,
                vars,
                acc.push(Override { index: q as usize, value: u }),
                q + 1,
                j,
                t,
            ),
            Some(Err(_)) => {},
        }
    }
}

proof fn lemma_overrides_keep(
    toks: Seq<jomini::TextToken>,
    vars: Seq<Binding>,
    acc: Seq<Override>,
    q: int,
)
    requires
        0 <= q,
    ensures
        overrides_from(toks, vars, acc, q) matches Ok(o) ==> acc.len() <= o.len() && o.take(
            acc.len() as int,
        ) == acc,
    decreases toks.len() - q,
{
    if q < toks.len() {
        match override_at(toks, vars, q) {
            None => lemma_overrides_keep(toks, vars, acc, q + 1),
            Some(Ok(u)) => {
                let a2 = acc.push(Override { index: q as usize, value: u });
                lemma_overrides_keep(toks, vars, a2, q + 1);
                if let Ok(o) = overrides_from(toks, vars, acc, q) {
                    assert(o.take(acc.len() as int) =~= o.take(a2.len() as int).take(
                        acc.len() as int,
                    ));
                    assert(a2.take(acc.len() as int) =~= acc);
                }
            },
            Some(Err(_)) => {},
        }
    } else {
        assert(acc.take(acc.len() as int) =~= acc);
    }
}

/// The variables bound by interpolation: those of its first pass and more.
proof fn lemma_first_pass_kept(toks: Seq<jomini::TextToken>)
    requires
        toks.len() <= usize::MAX,
        settle(toks, Seq::empty(), toks.len() as nat) is Ok,
    ensures
        pass_from(toks, Seq::empty(), Seq::empty(), 0) is Ok,
        ({
            let v1 = pass_from(toks, Seq::empty(), Seq::empty(), 0)->Ok_0.0;
            let fin = settle(toks, Seq::empty(), toks.len() as nat)->Ok_0.0;
            &&& bindings_ok(toks, v1)
            &&& bindings_ok(toks, fin)
            &&& v1.len() <= fin.len()
            &&& fin.take(v1.len() as int) == v1
        }),
{
    let e = Seq::<Binding>::empty();
    lemma_pass_grows(toks, e, Seq::empty(), 0);
    let v1 = pass_from(toks, e, Seq::empty(), 0)->Ok_0.0;
    if !(v1.len() == 0 || toks.len() == 0) {
        lemma_settle_grows(toks, v1, (toks.len() - 1) as nat);
    } else {
        assert(v1.take(v1.len() as int) =~= v1);
    }
}

/// The name referenced by the value of the declaration at `i`.
pub open spec fn referenced_name(toks: Seq<jomini::TextToken>, i: int) -> Seq<u8> {
    let v = unquoted(toks[i + 1]);
    v.subrange(1, v.len() as int)
}

proof fn lemma_first_in_prefix(names: Seq<Seq<u8>>, m: int, x: Seq<u8>)
    requires
        0 <= m <= names.len(),
        find_name(names.take(m), x) is Some,
    ensures
        find_name(names, x) == find_name(names.take(m), x),
{
    lemma_find_name(names.take(m), x, 0);
    lemma_find_name(names, x, 0);
    let j = find_name(names.take(m), x)->0;
    assert(names[j] == x);
    let k = find_name(names, x)->0;
    if k < j {
        assert(names.take(m)[k] == names[k]);
    }
}

/// Round trip: a variable declared only at `i`, with a number, is bound to
/// that number, and a reference `@x` to it at any `j` that declares nothing
/// is replaced by that variable.
pub proof fn lemma_number_round_trip(toks: Seq<jomini::TextToken>, i: int, j: int)
    requires
        toks.len() <= usize::MAX,
        only_declaration(toks, i),
        !is_expression(unquoted(toks[i + 1])),
        !is_reference(unquoted(toks[i + 1])),
        0 <= j < toks.len(),
        toks[j] is Unquoted,
        unquoted(toks[j]) == unquoted(toks[i]),
        !declares(toks, j),
        interpolation(toks) is Ok,
    ensures
        ({
            let (vars, ov) = interpolation(toks)->Ok_0;
            let k = find_name(var_names(toks, vars), head_name(toks, i));
            &&& k is Some
            &&& vars[k->0] == Binding { head: i as usize, value: Term::Number((i + 1) as usize) }
            &&& ov.contains(Override { index: j as usize, value: Term::Var(k->0 as usize) })
        }),
{
    lemma_first_pass_kept(toks);
    let e = Seq::<Binding>::empty();
    let v1 = pass_from(toks, e, Seq::empty(), 0)->Ok_0.0;
    lemma_pass_binds(toks, e, Seq::empty(), 0, i, i);
    let (vars, pending) = settle(toks, e, toks.len() as nat)->Ok_0;
    lemma_bound_kept(v1, vars, i);
    lemma_name_bound_at(toks, vars, i);
    let names = var_names(toks, vars);
    let k = find_name(names, head_name(toks, i))->0;
    assert(binding_ok(toks, vars, k));
    let t = unquoted(toks[j]);
    assert(t.subrange(1, t.len() as int) == head_name(toks, i));
    assert(override_at(toks, vars, j) == Some(Ok::<Term, Span>(Term::Var(k as usize))));
    lemma_overrides_contain(toks, vars, Seq::empty(), 0, j, Term::Var(k as usize));
}

/// Forward references: `@a = @b` declared only at `i` and `@b = N` declared
/// only at `q`, in either order, bind `b` to the number and `a` to `b`.
pub proof fn lemma_forward_reference(toks: Seq<jomini::TextToken>, i: int, q: int)
    requires
        toks.len() <= usize::MAX,
        only_declaration(toks, i),
        is_reference(unquoted(toks[i + 1])),
        only_declaration(toks, q),
        !is_expression(unquoted(toks[q + 1])),
        !is_reference(unquoted(toks[q + 1])),
        head_name(toks, q) == referenced_name(toks, i),
        interpolation(toks) is Ok,
    ensures
        ({
            let vars = interpolation(toks)->Ok_0.0;
            let ka = find_name(var_names(toks, vars), head_name(toks, i));
            let kb = find_name(var_names(toks, vars), head_name(toks, q));
            &&& ka is Some && kb is Some
            &&& vars[kb->0] == Binding { head: q as usize, value: Term::Number((q + 1) as usize) }
            &&& vars[ka->0] == Binding { head: i as usize, value: Term::Var(kb->0 as usize) }
        }),
{
    let n = toks.len();
    let e = Seq::<Binding>::empty();
    lemma_first_pass_kept(toks);
    let v1 = pass_from(toks, e, Seq::empty(), 0)->Ok_0.0;
    lemma_pass_binds(toks, e, Seq::empty(), 0, q, q);
    let (vars, pending) = settle(toks, e, n as nat)->Ok_0;
    if bound_at(v1, i) {
        lemma_bound_kept(v1, vars, i);
    } else {
        let kq = choose|k: int| 0 <= k < v1.len() && #[trigger] v1[k].head == q;
        assert(v1.len() > 0);
        assert(settle(toks, e, n as nat) == settle(toks, v1, (n - 1) as nat));
        lemma_pass_grows(toks, v1, Seq::empty(), 0);
        lemma_pass_binds(toks, v1, Seq::empty(), 0, i, q);
        let v2 = pass_from(toks, v1, Seq::empty(), 0)->Ok_0.0;
        if !(v2.len() == v1.len() || n - 1 == 0) {
            lemma_settle_grows(toks, v2, (n - 2) as nat);
        } else {
            assert(v2.take(v2.len() as int) =~= v2);
        }
        lemma_bound_kept(v2, vars, i);
    }
    lemma_bound_kept(v1, vars, q);
    lemma_name_bound_at(toks, vars, i);
    lemma_name_bound_at(toks, vars, q);
    let names = var_names(toks, vars);
    let ka = find_name(names, head_name(toks, i))->0;
    let kb = find_name(names, head_name(toks, q))->0;
    assert(binding_ok(toks, vars, ka));
    assert(binding_ok(toks, vars, kb));
    lemma_names_take(toks, vars, ka);
    let before = var_names(toks, vars.take(ka));
    assert(find_name(before, referenced_name(toks, i)) is Some);
    lemma_first_in_prefix(names, ka, referenced_name(toks, i));
}

/// A reference that never resolves: `@a = @b` declared only at `i`, with no
/// declaration of `b` anywhere. Interpolation fails, and unless an
/// expression fails first, the failure lists the head `i`, whose message
/// reads `@a -> @b`.
pub proof fn lemma_unresolved_reference(toks: Seq<jomini::TextToken>, i: int)
    requires
        toks.len() <= usize::MAX,
        only_declaration(toks, i),
        is_reference(unquoted(toks[i + 1])),
        forall|m: int|
            #![trigger declares(toks, m)]
            declares(toks, m) ==> head_name(toks, m) != referenced_name(toks, i),
    ensures
        interpolation(toks) is Err,
        interpolation(toks) matches Err(Failure::Unresolved(p)) ==> p.contains(i as usize),
{
    lemma_settle_defers(toks, Seq::empty(), toks.len() as nat, i);
}

proof fn lemma_never_bound(toks: Seq<jomini::TextToken>, vars: Seq<Binding>, i: int)
    requires
        bindings_ok(toks, vars),
        only_declaration(toks, i),
        is_reference(unquoted(toks[i + 1])),
        forall|m: int|
            #![trigger declares(toks, m)]
            declares(toks, m) ==> head_name(toks, m) != referenced_name(toks, i),
    ensures
        find_name(var_names(toks, vars), referenced_name(toks, i)) is None,
        !bound_at(vars, i),
{
    let names = var_names(toks, vars);
    let b = referenced_name(toks, i);
    lemma_find_name(names, b, 0);
    if let Some(j) = find_name(names, b) {
        assert(binding_ok(toks, vars, j));
        assert(declares(toks, vars[j].head as int));
    }
    if bound_at(vars, i) {
        let k = choose|k: int| 0 <= k < vars.len() && #[trigger] vars[k].head == i;
        assert(binding_ok(toks, vars, k));
        let before = var_names(toks, vars.take(k));
        lemma_find_name(before, b, 0);
        let j = find_name(before, b)->0;
        assert(binding_ok(toks, vars, j));
        assert(vars.take(k)[j] == vars[j]);
        assert(declares(toks, vars[j].head as int));
    }
}

proof fn lemma_pass_defers(
    toks: Seq<jomini::TextToken>,
    vars: Seq<Binding>,
    pending: Seq<usize>,
    q: int,
    i: int,
)
    requires
        toks.len() <= usize::MAX,
        bindings_ok(toks, vars),
        0 <= q <= i,
        only_declaration(toks, i),
        is_reference(unquoted(toks[i + 1])),
        forall|m: int|
            #![trigger declares(toks, m)]
            declares(toks, m) ==> head_name(toks, m) != referenced_name(toks, i),
    ensures
        pass_from(toks, vars, pending, q) matches Ok((_, p)) ==> p.contains(i as usize),
    decreases toks.len() - q,
{
    lemma_never_bound(toks, vars, i);
    lemma_name_bound_at(toks, vars, i);
    if q == i {
        let pb = pending.push(i as usize);
        assert(step(toks, vars, i) == Step::Defer);
        lemma_pass_grows(toks, vars, pb, i + 1);
        if let Ok((_, p)) = pass_from(toks, vars, pending, q) {
            assert(p.take(pb.len() as int)[pending.len() as int] == i as usize);
        }
    } else {
        match step(toks, vars, q) {
            Step::Skip => lemma_pass_defers(toks, vars, pending, q + 1, i),
            Step::Defer => lemma_pass_defers(toks, vars, pending.push(q as usize), q + 1, i),
            Step::Bind(b) => {
                lemma_push_ok(toks, vars, q, b);
                lemma_pass_defers(toks, vars.push(b), pending, q + 1, i);
            },
            Step::Fail(_) => {},
        }
    }
}

proof fn lemma_settle_defers(toks: Seq<jomini::TextToken>, vars: Seq<Binding>, fuel: nat, i: int)
    requires
        toks.len() <= usize::MAX,
        bindings_ok(toks, vars),
        only_declaration(toks, i),
        is_reference(unquoted(toks[i + 1])),
        forall|m: int|
            #![trigger declares(toks, m)]
            declares(toks, m) ==> head_name(toks, m) != referenced_name(toks, i),
    ensures
        settle(toks, vars, fuel) matches Ok((_, p)) ==> p.contains(i as usize),
    decreases fuel,
{
    lemma_pass_defers(toks, vars, Seq::empty(), 0, i);
    lemma_pass_grows(toks, vars, Seq::empty(), 0);
    if let Ok((next, _)) = pass_from(toks, vars, Seq::empty(), 0) {
        if !(next.len() == vars.len() || fuel == 0) {
            lemma_settle_defers(toks, next, (fuel - 1) as nat, i);
        }
    }
}

pub open spec fn shapes(toks: Seq<TapeToken>) -> Seq<Shape> {
    toks.map_values(|t: TapeToken| tape_shape(t))
}

proof fn lemma_cons_contains(a: usize, rest: Seq<usize>, y: usize)
    ensures
        seq![a].add(rest).contains(y) <==> (y == a || rest.contains(y)),
{
    let s = seq![a].add(rest);
    if rest.contains(y) {
        let j = choose|j: int| 0 <= j < rest.len() && rest[j] == y;
        assert(s[j + 1] == y);
    }
    if y == a {
        assert(s[0] == y);
    }
    if s.contains(y) {
        let j = choose|j: int| 0 <= j < s.len() && s[j] == y;
        if j > 0 {
            assert(rest[j - 1] == y);
        }
    }
}

/// The kept positions increase.
proof fn lemma_kept_increasing(toks: Seq<TapeToken>, decl: Seq<usize>, i: int)
    requires
        0 <= i,
        toks.len() <= usize::MAX,
    ensures
        forall|a: int, b: int|
            0 <= a < b < kept(toks, decl, i).len() ==> #[trigger] kept(toks, decl, i)[a]
                < #[trigger] kept(toks, decl, i)[b],
    decreases toks.len() - i,
{
    lemma_kept_undeclared(toks, decl, i);
    if i < toks.len() {
        if is_declared(decl, toks[i]) {
            let e = run_end(toks, i);
            assert(e > i);
            lemma_kept_increasing(toks, decl, e);
            assert(kept(toks, decl, i) == kept(toks, decl, e));
        } else {
            lemma_kept_increasing(toks, decl, i + 1);
            lemma_kept_undeclared(toks, decl, i + 1);
            let k = kept(toks, decl, i);
            let rest = kept(toks, decl, i + 1);
            assert(k == seq![i as usize].add(rest));
            assert forall|a: int, b: int| 0 <= a < b < k.len() implies #[trigger] k[a]
                < #[trigger] k[b] by {
                assert(k[b] == rest[b - 1]);
                assert(rest[b - 1] >= i + 1);
                if a > 0 {
                    assert(k[a] == rest[a - 1]);
                } else {
                    assert(k[0] == i as usize);
                    assert((i as usize) as int == i);
                }
            }
        }
    }
}

/// What is kept after a kept position is kept from the start too.
proof fn lemma_kept_suffix(toks: Seq<TapeToken>, decl: Seq<usize>, i: int, x: int, y: usize)
    requires
        0 <= i <= x < toks.len(),
        toks.len() <= usize::MAX,
        kept(toks, decl, i).contains(x as usize),
        kept(toks, decl, x + 1).contains(y),
    ensures
        kept(toks, decl, i).contains(y),
    decreases x - i,
{
    lemma_kept_undeclared(toks, decl, i);
    if is_declared(decl, toks[i]) {
        let e = run_end(toks, i);
        assert(e > i);
        lemma_kept_undeclared(toks, decl, e);
        let j = choose|j: int|
            0 <= j < kept(toks, decl, e).len() && kept(toks, decl, e)[j] == x as usize;
        lemma_kept_suffix(toks, decl, e, x, y);
    } else {
        let rest = kept(toks, decl, i + 1);
        lemma_cons_contains(i as usize, rest, x as usize);
        lemma_cons_contains(i as usize, rest, y);
        if x != i {
            lemma_kept_suffix(toks, decl, i + 1, x, y);
        }
    }
}

/// An `End` whose opener lies before `r` survives every run from `r` on.
proof fn lemma_close_kept(toks: Seq<TapeToken>, decl: Seq<usize>, r: int, c: int)
    requires
        nested(shapes(toks)),
        toks.len() <= usize::MAX,
        0 <= r <= c < toks.len(),
        shapes(toks)[c] is Close,
        shapes(toks)[c]->Close_0 < r,
    ensures
        kept(toks, decl, r).contains(c as usize),
    decreases c - r,
{
    let sh = shapes(toks);
    let n = toks.len() as int;
    let m = sh[c]->Close_0;
    assert(close_ok(sh, c));
    assert(open_ok(sh, m));
    if r == c {
        lemma_cons_contains(c as usize, kept(toks, decl, c + 1), c as usize);
    } else if !is_declared(decl, toks[r]) {
        lemma_close_kept(toks, decl, r + 1, c);
        lemma_cons_contains(r as usize, kept(toks, decl, r + 1), c as usize);
    } else {
        let v = if r + 1 < n && toks[r + 1] is Operator {
            r + 2
        } else {
            r + 1
        };
        assert(v <= c);
        if v < c && sh[v] is Open {
            assert(pair_ok(sh, m, v));
        }
        if v + 1 < c && sh[v + 1] is Open {
            assert(pair_ok(sh, m, v + 1));
        }
        let e = run_end(toks, r);
        assert(r < e <= c);
        lemma_close_kept(toks, decl, e, c);
    }
}

/// An opener removed from `r` on takes its `End` with it.
proof fn lemma_open_removed(toks: Seq<TapeToken>, decl: Seq<usize>, r: int, m: int)
    requires
        nested(shapes(toks)),
        toks.len() <= usize::MAX,
        0 <= r <= m < toks.len(),
        shapes(toks)[m] is Open,
        !kept(toks, decl, r).contains(m as usize),
    ensures
        !kept(toks, decl, r).contains(shapes(toks)[m]->Open_0 as usize),
    decreases m - r,
{
    let sh = shapes(toks);
    let n = toks.len() as int;
    let c = sh[m]->Open_0;
    assert(open_ok(sh, m));
    if r == m {
        lemma_cons_contains(m as usize, kept(toks, decl, m + 1), m as usize);
    } else if !is_declared(decl, toks[r]) {
        lemma_cons_contains(r as usize, kept(toks, decl, r + 1), m as usize);
        lemma_open_removed(toks, decl, r + 1, m);
        lemma_cons_contains(r as usize, kept(toks, decl, r + 1), c as usize);
    } else {
        let e = run_end(toks, r);
        assert(e > r);
        if e <= m {
            lemma_open_removed(toks, decl, e, m);
        } else {
            let v = if r + 1 < n && toks[r + 1] is Operator {
                r + 2
            } else {
                r + 1
            };
            if v < m && sh[v] is Open {
                assert(open_ok(sh, v));
                assert(pair_ok(sh, v, m));
            }
            if v + 1 < m && v + 1 < n && sh[v + 1] is Open {
                assert(open_ok(sh, v + 1));
                assert(pair_ok(sh, v + 1, m));
            }
            if v + 1 < n && sh[v + 1] is Open {
                assert(open_ok(sh, v + 1));
            }
            if v < n && sh[v] is Open {
                assert(open_ok(sh, v));
            }
            assert(c < e);
            lemma_kept_undeclared(toks, decl, e);
            if kept(toks, decl, e).contains(c as usize) {
                let j = choose|j: int|
                    0 <= j < kept(toks, decl, e).len() && kept(toks, decl, e)[j] == c as usize;
            }
        }
    }
}

proof fn lemma_renumber_at(k: Seq<usize>, j: int)
    requires
        0 <= j < k.len(),
        forall|a: int, b: int| 0 <= a < b < k.len() ==> #[trigger] k[a] < #[trigger] k[b],
    ensures
        renumber(k, k[j]) == j as usize,
{
    assert(k.contains(k[j]));
    let c = k.index_of(k[j]);
    if c < j {
        assert(k[c] < k[j]);
    } else if c > j {
        assert(k[j] < k[c]);
    }
}

/// The shape of a filtered token: that of its source, pointers renumbered.
proof fn lemma_out_shape(toks: Seq<TapeToken>, decl: Seq<usize>, j: int)
    requires
        toks.len() <= usize::MAX,
        0 <= j < kept(toks, decl, 0).len(),
        kept(toks, decl, 0)[j] < toks.len(),
    ensures
        ({
            let k = kept(toks, decl, 0);
            shapes(filtered(toks, decl))[j] == match shapes(toks)[k[j] as int] {
                Shape::Open(c) => Shape::Open(renumber(k, c as usize) as int),
                Shape::Close(m) => Shape::Close(renumber(k, m as usize) as int),
                Shape::Leaf => Shape::Leaf,
            }
        }),
{
    let k = kept(toks, decl, 0);
    let p = k[j] as int;
    let out = filtered(toks, decl);
    assert(out[j] == normalized(toks[p], k));
    assert(shapes(out)[j] == tape_shape(out[j]));
    assert(shapes(toks)[p] == tape_shape(toks[p]));
    match toks[p] {
        TapeToken::Array { end, .. } => {},
        TapeToken::Object { end, .. } => {},
        TapeToken::End(start) => {},
        TapeToken::Operator(op) => {},
        _ => {},
    }
}

/// A kept container's `End` is kept too, later, and the filtered container
/// points at it.
proof fn lemma_open_image(toks: Seq<TapeToken>, decl: Seq<usize>, j: int) -> (jc: int)
    requires
        nested(shapes(toks)),
        toks.len() <= usize::MAX,
        0 <= j < kept(toks, decl, 0).len(),
        shapes(toks)[kept(toks, decl, 0)[j] as int] is Open,
    ensures
        0 <= jc < kept(toks, decl, 0).len(),
        j < jc,
        kept(toks, decl, 0)[jc] as int == shapes(toks)[kept(toks, decl, 0)[j] as int]->Open_0,
        shapes(filtered(toks, decl))[j] == Shape::Open(jc),
{
    let sh = shapes(toks);
    let k = kept(toks, decl, 0);
    lemma_kept_undeclared(toks, decl, 0);
    lemma_kept_increasing(toks, decl, 0);
    let p = k[j] as int;
    assert(open_ok(sh, p));
    let c = sh[p]->Open_0;
    lemma_out_shape(toks, decl, j);
    lemma_cons_contains(p as usize, kept(toks, decl, p + 1), p as usize);
    lemma_close_kept(toks, decl, p + 1, c);
    lemma_kept_suffix(toks, decl, 0, p, c as usize);
    let jc = choose|jc: int| 0 <= jc < k.len() && k[jc] == c as usize;
    lemma_renumber_at(k, jc);
    if jc <= j {
        if jc < j {
            assert(k[jc] < k[j]);
        }
    }
    jc
}

/// Filtering keeps the nesting well formed: every container that survives
/// still points at its own `End`, which points back, and none cross.
pub proof fn lemma_filter_keeps_nesting(toks: Seq<TapeToken>, decl: Seq<usize>)
    requires
        nested(shapes(toks)),
        toks.len() <= usize::MAX,
    ensures
        nested(shapes(filtered(toks, decl))),
{
    let sh = shapes(toks);
    let k = kept(toks, decl, 0);
    let out = filtered(toks, decl);
    let osh = shapes(out);
    lemma_kept_undeclared(toks, decl, 0);
    lemma_kept_increasing(toks, decl, 0);
    assert forall|j: int| 0 <= j < osh.len() implies #[trigger] open_ok(osh, j) by {
        let p = k[j] as int;
        lemma_out_shape(toks, decl, j);
        if sh[p] is Open {
            let jc = lemma_open_image(toks, decl, j);
            let c = k[jc] as int;
            assert(open_ok(sh, p));
            assert(sh[c] == Shape::Close(p));
            lemma_renumber_at(k, j);
            lemma_out_shape(toks, decl, jc);
            assert(osh[jc] == Shape::Close(j));
        }
    }
    assert forall|j: int| 0 <= j < osh.len() implies #[trigger] close_ok(osh, j) by {
        let p = k[j] as int;
        assert(close_ok(sh, p));
        lemma_out_shape(toks, decl, j);
        if sh[p] is Close {
            let m = sh[p]->Close_0;
            assert(open_ok(sh, m));
            if !k.contains(m as usize) {
                lemma_open_removed(toks, decl, 0, m);
            }
            let jm = choose|jm: int| 0 <= jm < k.len() && k[jm] == m as usize;
            lemma_renumber_at(k, jm);
            let jc = lemma_open_image(toks, decl, jm);
            assert(k[jc] == k[j]);
            if jc < j {
                assert(k[jc] < k[j]);
            } else if jc > j {
                assert(k[j] < k[jc]);
            }
            if jm >= j {
                if jm > j {
                    assert(k[j] < k[jm]);
                }
            }
            assert(osh[j] == Shape::Close(jm));
        }
    }
    assert forall|j1: int, j2: int| 0 <= j1 < j2 < osh.len() implies #[trigger] pair_ok(
        osh,
        j1,
        j2,
    ) by {
        lemma_out_shape(toks, decl, j1);
        lemma_out_shape(toks, decl, j2);
        let pa = k[j1] as int;
        let pb = k[j2] as int;
        if sh[pa] is Open && sh[pb] is Open {
            let jc1 = lemma_open_image(toks, decl, j1);
            let jc2 = lemma_open_image(toks, decl, j2);
            if j2 < jc1 {
                assert(k[j2] < k[jc1]);
                assert(pa < pb);
                assert(pair_ok(sh, pa, pb));
                if jc2 >= jc1 {
                    if jc2 > jc1 {
                        assert(k[jc1] < k[jc2]);
                    }
                }
            }
        }
    }
}

proof fn lemma_slot_from(table: Seq<Seq<char>>, x: Seq<char>, k: int)
    requires
        0 <= k,
    ensures
        slot_from(table, x, k) matches Some(j) ==> k <= j < table.len() && table[j] == x,
    decreases table.len() - k,
{
    if k < table.len() {
        lemma_slot_from(table, x, k + 1);
    }
}

/// Every override of `ov` replaces an unquoted scalar.
pub open spec fn overrides_on_scalars(toks: Seq<jomini::TextToken>, ov: Seq<Override>) -> bool {
    forall|k: int|
        0 <= k < ov.len() && #[trigger] ov[k].index < toks.len() ==> toks[ov[k].index as int] is Unquoted
}

proof fn lemma_first_override(ov: Seq<Override>, i: int, k: int)
    ensures
        first_override(ov, i, k) matches Some(j) ==> 0 <= j < k && ov[j].index == i,
    decreases k,
{
    if k > 0 {
        lemma_first_override(ov, i, k - 1);
    }
}

/// Materializing keeps each token's shape, except where an override puts a
/// scalar, and every scalar points into the table.
proof fn lemma_materialized_props(
    toks: Seq<jomini::TextToken>,
    enc: Encoding,
    ov: Seq<Override>,
    rendered: Seq<Seq<char>>,
    i: int,
    table: Seq<Seq<char>>,
    out: Seq<TapeToken>,
)
    requires
        0 <= i <= toks.len(),
        out.len() == i,
        slots_ok(out, table.len()),
        overrides_on_scalars(toks, ov),
        forall|j: int| 0 <= j < i ==> #[trigger] tape_shape(out[j]) == view_shape(token_view(toks[j])),
    ensures
        ({
            let (t2, o2) = materialized_from(toks, enc, ov, rendered, i, table, out);
            &&& o2.len() == toks.len()
            &&& slots_ok(o2, t2.len())
            &&& forall|j: int|
                0 <= j < toks.len() ==> #[trigger] tape_shape(o2[j]) == view_shape(
                    token_view(toks[j]),
                )
        }),
    decreases toks.len() - i,
{
    if i < toks.len() {
        lemma_first_override(ov, i, ov.len() as int);
        match override_text(ov, rendered, i) {
            Some(t) => {
                let (tb, k) = interned(table, t);
                lemma_slot_from(table, t, 0);
                let o2 = out.push(TapeToken::Unquoted(k));
                let j = first_override(ov, i, ov.len() as int)->0;
                assert(ov[j].index == i);
                assert(toks[i] is Unquoted);
                assert forall|q: int| 0 <= q < o2.len() implies slot_in(#[trigger] o2[q], tb.len()) by {
                    if q < i {
                        assert(slot_in(out[q], table.len()));
                    }
                }
                assert forall|q: int| 0 <= q < i + 1 implies #[trigger] tape_shape(o2[q]) == view_shape(
                    token_view(toks[q]),
                ) by {
                    if q < i {
                        assert(o2[q] == out[q]);
                    }
                }
                lemma_materialized_props(toks, enc, ov, rendered, i + 1, tb, o2);
            },
            None => match crate::materialize::payload(toks[i]) {
                Some(b) => {
                    let d = crate::materialize::decoded(enc, b);
                    let (tb, k) = interned(table, d);
                    lemma_slot_from(table, d, 0);
                    let o2 = out.push(lifted(toks[i], k));
                    assert forall|q: int| 0 <= q < o2.len() implies slot_in(#[trigger] o2[q], tb.len()) by {
                        if q < i {
                            assert(slot_in(out[q], table.len()));
                        }
                    }
                    assert forall|q: int| 0 <= q < i + 1 implies #[trigger] tape_shape(o2[q])
                        == view_shape(token_view(toks[q])) by {
                        if q < i {
                            assert(o2[q] == out[q]);
                        }
                    }
                    lemma_materialized_props(toks, enc, ov, rendered, i + 1, tb, o2);
                },
                None => {
                    let o2 = out.push(lifted(toks[i], 0));
                    assert forall|q: int| 0 <= q < o2.len() implies slot_in(#[trigger] o2[q], table.len()) by {
                        if q < i {
                            assert(slot_in(out[q], table.len()));
                        }
                    }
                    assert forall|q: int| 0 <= q < i + 1 implies #[trigger] tape_shape(o2[q])
                        == view_shape(token_view(toks[q])) by {
                        if q < i {
                            assert(o2[q] == out[q]);
                        }
                    }
                    lemma_materialized_props(toks, enc, ov, rendered, i + 1, table, o2);
                },
            },
        }
    }
}

/// A well-formed stream whose overrides replace scalars comes out of
/// interpolation well formed, every scalar pointing into the string table.
pub proof fn lemma_output_well_formed(
    toks: Seq<jomini::TextToken>,
    vars: Seq<Binding>,
    ov: Seq<Override>,
    rendered: Seq<Seq<char>>,
    enc: Encoding,
)
    requires
        toks.len() <= usize::MAX,
        well_formed(token_views(toks)),
        overrides_on_scalars(toks, ov),
    ensures
        ({
            let (table, out) = output_tape(toks, vars, ov, rendered, enc);
            slots_ok(out, table.len()) && well_formed(tape_views(out, table))
        }),
{
    let (table, m) = materialized(toks, enc, ov, rendered);
    lemma_materialized_props(toks, enc, ov, rendered, 0, Seq::empty(), Seq::empty());
    assert(shapes(m) =~= token_views(toks).map_values(|t: TokenView| view_shape(t)));
    let decl = declared_from(vars, m, 0);
    lemma_filter_keeps_nesting(m, decl);
    let out = filtered(m, decl);
    let k = kept(m, decl, 0);
    lemma_kept_undeclared(m, decl, 0);
    assert forall|j: int| 0 <= j < out.len() implies slot_in(#[trigger] out[j], table.len()) by {
        assert(slot_in(m[k[j] as int], table.len()));
        assert(out[j] == normalized(m[k[j] as int], k));
    }
    assert(tape_views(out, table).map_values(|t: TokenView| view_shape(t)) =~= shapes(out));
}

/// The overrides that interpolation finds all replace unquoted scalars.
pub proof fn lemma_overrides_on_scalars(
    toks: Seq<jomini::TextToken>,
    vars: Seq<Binding>,
    acc: Seq<Override>,
    i: int,
)
    requires
        0 <= i,
        toks.len() <= usize::MAX,
        overrides_on_scalars(toks, acc),
    ensures
        overrides_from(toks, vars, acc, i) matches Ok(o) ==> overrides_on_scalars(toks, o),
    decreases toks.len() - i,
{
    if i < toks.len() {
        match override_at(toks, vars, i) {
            None => lemma_overrides_on_scalars(toks, vars, acc, i + 1),
            Some(Ok(u)) => {
                let a2 = acc.push(Override { index: i as usize, value: u });
                assert forall|k: int|
                    0 <= k < a2.len() && #[trigger] a2[k].index < toks.len() implies toks[a2[k].index as int] is Unquoted by {
                    if k < acc.len() {
                        assert(a2[k] == acc[k]);
                    }
                }
                lemma_overrides_on_scalars(toks, vars, a2, i + 1);
            },
            Some(Err(_)) => {},
        }
    }
}

/// Good bindings have distinct heads inside the stream, so there are no more
/// of them than tokens.
proof fn lemma_bindings_bounded(toks: Seq<jomini::TextToken>, vars: Seq<Binding>)
    requires
        bindings_ok(toks, vars),
    ensures
        vars.len() <= toks.len(),
{
    let hs = vars.map_values(|b: Binding| b.head as int);
    assert forall|a: int, b: int| 0 <= a < b < hs.len() implies hs[a] != hs[b] by {
        assert(binding_ok(toks, vars, a));
        assert(binding_ok(toks, vars, b));
        let before = var_names(toks, vars.take(b));
        lemma_find_name(before, head_name(toks, vars[b].head as int), 0);
        if hs[a] == hs[b] {
            assert(before[a] == head_name(toks, vars[a].head as int));
        }
    }
    assert(hs.no_duplicates());
    hs.unique_seq_to_set();
    vstd::set_lib::lemma_int_range(0, toks.len() as int);
    assert forall|h: int| hs.to_set().contains(h) implies vstd::set_lib::set_int_range(
        0,
        toks.len() as int,
    ).contains(h) by {
        let a = choose|a: int| 0 <= a < hs.len() && hs[a] == h;
        assert(binding_ok(toks, vars, a));
    }
    vstd::set_lib::lemma_len_subset(hs.to_set(), vstd::set_lib::set_int_range(0, toks.len() as int));
}

proof fn lemma_settle_fixpoint(toks: Seq<jomini::TextToken>, vars: Seq<Binding>, fuel: nat)
    requires
        toks.len() <= usize::MAX,
        bindings_ok(toks, vars),
        fuel + vars.len() >= toks.len(),
    ensures
        settle(toks, vars, fuel) matches Ok((v2, p)) ==> pass_from(toks, v2, Seq::empty(), 0)
            == Ok::<(Seq<Binding>, Seq<usize>), Span>((v2, p)),
    decreases fuel,
{
    lemma_pass_grows(toks, vars, Seq::empty(), 0);
    if let Ok((next, pending)) = pass_from(toks, vars, Seq::empty(), 0) {
        lemma_bindings_bounded(toks, next);
        if next.len() == vars.len() {
            assert(next =~= next.take(vars.len() as int));
        } else if fuel > 0 {
            lemma_settle_fixpoint(toks, next, (fuel - 1) as nat);
        }
    }
}

/// Resolution reaches its fixpoint: one more pass over the settled
/// variables binds nothing new, and defers exactly the references that
/// resolution reports as unresolved. The stream's length in passes is always
/// enough, since each pass that binds something binds a new declaration head.
pub proof fn lemma_resolution_settles(toks: Seq<jomini::TextToken>)
    requires
        toks.len() <= usize::MAX,
    ensures
        settle(toks, Seq::empty(), toks.len() as nat) matches Ok((vars, p)) ==> pass_from(
            toks,
            vars,
            Seq::empty(),
            0,
        ) == Ok::<(Seq<Binding>, Seq<usize>), Span>((vars, p)),
{
    lemma_settle_fixpoint(toks, Seq::empty(), toks.len() as nat);
}

/// Every scalar payload of the stream is valid UTF-8.
pub open spec fn payloads_valid(toks: Seq<jomini::TextToken>) -> bool {
    forall|i: int|
        0 <= i < toks.len() && #[trigger] crate::materialize::payload(toks[i]) is Some
            ==> valid_utf8(crate::materialize::payload(toks[i])->0)
}

proof fn lemma_interned(table: Seq<Seq<char>>, x: Seq<char>)
    requires
        table.len() < usize::MAX,
    ensures
        ({
            let (tb, k) = interned(table, x);
            &&& table.len() <= tb.len()
            &&& k < tb.len()
            &&& tb[k as int] == x
            &&& forall|q: int| 0 <= q < table.len() ==> #[trigger] tb[q] == table[q]
        }),
{
    lemma_slot_from(table, x, 0);
}

proof fn lemma_views_from(
    toks: Seq<jomini::TextToken>,
    rendered: Seq<Seq<char>>,
    i: int,
    table: Seq<Seq<char>>,
    out: Seq<TapeToken>,
)
    requires
        0 <= i <= toks.len(),
        toks.len() <= usize::MAX,
        table.len() <= i,
        out.len() == i,
        payloads_valid(toks),
        slots_ok(out, table.len()),
        forall|j: int| 0 <= j < i ==> #[trigger] tape_token_view(out[j], table) == token_view(toks[j]),
    ensures
        ({
            let (t2, o2) = materialized_from(toks, Encoding::Utf8, Seq::empty(), rendered, i, table, out);
            &&& o2.len() == toks.len()
            &&& forall|j: int|
                0 <= j < toks.len() ==> #[trigger] tape_token_view(o2[j], t2) == token_view(toks[j])
        }),
    decreases toks.len() - i,
{
    if i < toks.len() {
        assert(first_override(Seq::<Override>::empty(), i, 0) is None);
        assert(override_text(Seq::empty(), rendered, i) is None);
        match crate::materialize::payload(toks[i]) {
            Some(b) => {
                let d = crate::materialize::decoded(Encoding::Utf8, b);
                assert(valid_utf8(b));
                vstd::utf8::decode_utf8_encode_utf8(b);
                lemma_interned(table, d);
                let (tb, k) = interned(table, d);
                let o2 = out.push(lifted(toks[i], k));
                assert forall|q: int| 0 <= q < o2.len() implies slot_in(#[trigger] o2[q], tb.len()) by {
                    if q < i {
                        assert(slot_in(out[q], table.len()));
                    }
                }
                assert forall|j: int| 0 <= j < i + 1 implies #[trigger] tape_token_view(o2[j], tb)
                    == token_view(toks[j]) by {
                    if j < i {
                        assert(o2[j] == out[j]);
                        assert(slot_in(out[j], table.len()));
                        assert(tape_token_view(out[j], tb) == tape_token_view(out[j], table));
                    }
                }
                lemma_views_from(toks, rendered, i + 1, tb, o2);
            },
            None => {
                let o2 = out.push(lifted(toks[i], 0));
                assert forall|q: int| 0 <= q < o2.len() implies slot_in(#[trigger] o2[q], table.len()) by {
                    if q < i {
                        assert(slot_in(out[q], table.len()));
                    }
                }
                assert forall|j: int| 0 <= j < i + 1 implies #[trigger] tape_token_view(o2[j], table)
                    == token_view(toks[j]) by {
                    if j < i {
                        assert(o2[j] == out[j]);
                    }
                }
                lemma_views_from(toks, rendered, i + 1, table, o2);
            },
        }
    }
}

/// Materializing a stream of valid UTF-8 without replacements gives back its
/// tokens: same kinds, pointers, operators and payload bytes, so the tokens
/// that `create_tokens` builds are the stream's own.
pub proof fn lemma_materialized_views(toks: Seq<jomini::TextToken>, rendered: Seq<Seq<char>>)
    requires
        payloads_valid(toks),
        toks.len() <= usize::MAX,
    ensures
        ({
            let (table, m) = materialized(toks, Encoding::Utf8, Seq::empty(), rendered);
            tape_views(m, table) == token_views(toks)
        }),
{
    lemma_views_from(toks, rendered, 0, Seq::empty(), Seq::empty());
    let (table, m) = materialized(toks, Encoding::Utf8, Seq::empty(), rendered);
    assert(tape_views(m, table) =~= token_views(toks));
}

/// A plain document, valid UTF-8 with no sigil and no `==` or `?=`, renders
/// exactly as the direct JSON rendering of its tokens.
pub proof fn lemma_plain_document_renders_directly(
    toks: Seq<jomini::TextToken>,
    rendered: Seq<Seq<char>>,
    pretty: bool,
    keys: jomini::json::DuplicateKeyMode,
)
    requires
        sigil_free(toks),
        without_exact_or_exists(toks),
        payloads_valid(toks),
        toks.len() <= usize::MAX,
    ensures
        interpolation(toks) == Ok::<(Seq<Binding>, Seq<Override>), crate::resolve::Failure>(
            (Seq::empty(), Seq::empty()),
        ),
        ({
            let (table, out) = output_tape(toks, Seq::empty(), Seq::empty(), rendered, Encoding::Utf8);
            &&& tape_views(out, table) == token_views(toks)
            &&& crate::json::json_text(tape_views(out, table), pretty, keys)
                == crate::json::json_text(token_views(toks), pretty, keys)
        }),
{
    lemma_plain_document_unchanged(toks, rendered, Encoding::Utf8);
    lemma_materialized_views(toks, rendered);
}

/// Materializing copies the structure: every token keeps its kind of shape and
/// its container pointers (a replaced scalar stays a scalar), so a well-formed
/// stream gives a well-formed tape.
pub proof fn lemma_materialize_keeps_structure(
    toks: Seq<jomini::TextToken>,
    enc: Encoding,
    ov: Seq<Override>,
    rendered: Seq<Seq<char>>,
)
    requires
        overrides_on_scalars(toks, ov),
    ensures
        ({
            let (table, m) = materialized(toks, enc, ov, rendered);
            &&& m.len() == toks.len()
            &&& slots_ok(m, table.len())
            &&& forall|j: int|
                0 <= j < toks.len() ==> #[trigger] tape_shape(m[j]) == view_shape(token_view(toks[j]))
            &&& well_formed(token_views(toks)) ==> nested(shapes(m))
        }),
{
    lemma_materialized_props(toks, enc, ov, rendered, 0, Seq::empty(), Seq::empty());
    let m = materialized(toks, enc, ov, rendered).1;
    assert(shapes(m) =~= token_views(toks).map_values(|t: TokenView| view_shape(t)));
}

/// A plain document, valid UTF-8 with no sigil, resolves to nothing, and
/// materializing it gives back its own tokens: the JSON of the materialized
/// tape, as `to_json_direct` writes it, is the direct rendering of the stream.
pub proof fn lemma_plain_materialize_renders_directly(
    toks: Seq<jomini::TextToken>,
    rendered: Seq<Seq<char>>,
)
    requires
        sigil_free(toks),
        payloads_valid(toks),
        toks.len() <= usize::MAX,
    ensures
        interpolation(toks) == Ok::<(Seq<Binding>, Seq<Override>), crate::resolve::Failure>(
            (Seq::empty(), Seq::empty()),
        ),
        ({
            let (table, m) = materialized(toks, Encoding::Utf8, Seq::empty(), rendered);
            &&& tape_views(m, table) == token_views(toks)
            &&& crate::json::json_text(
                tape_views(m, table),
                false,
                jomini::json::DuplicateKeyMode::Preserve,
            ) == crate::json::json_text(
                token_views(toks),
                false,
                jomini::json::DuplicateKeyMode::Preserve,
            )
        }),
{
    lemma_pass_binds_nothing(toks, Seq::empty(), Seq::empty(), 0);
    assert(settle(toks, Seq::empty(), toks.len() as nat) == Ok::<
        (Seq<Binding>, Seq<usize>),
        crate::expr::Span,
    >((Seq::empty(), Seq::empty())));
    lemma_no_overrides(toks, Seq::empty(), Seq::empty(), 0);
    lemma_materialized_views(toks, rendered);
}

/// Comparison operators survive the filter: a kept `<`, `<=`, `>`, `>=` or
/// `!=` comes out as it went in, so the writer still wraps its value.
pub proof fn lemma_comparisons_kept(toks: Seq<TapeToken>, decl: Seq<usize>, j: int)
    requires
        0 <= j < kept(toks, decl, 0).len(),
        toks[kept(toks, decl, 0)[j] as int] matches TapeToken::Operator(op) && op
            != jomini::text::Operator::Exact && op != jomini::text::Operator::Exists,
    ensures
        filtered(toks, decl)[j] == toks[kept(toks, decl, 0)[j] as int],
{
}

} // verus!
