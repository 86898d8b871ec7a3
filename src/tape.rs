//! The token stream as produced by jomini's text parser, and what the library
//! relies on of jomini's scalar and tape types.

use vstd::prelude::*;

verus! {

#[verifier::external_type_specification]
#[verifier::external_body]
pub struct ExScalar<'a>(jomini::Scalar<'a>);

#[verifier::external_type_specification]
#[verifier::external_body]
pub struct ExTextTape<'a>(jomini::TextTape<'a>);

#[verifier::external_type_specification]
pub struct ExOperator(jomini::text::Operator);

#[verifier::external_type_specification]
pub struct ExTextToken<'a>(jomini::TextToken<'a>);

#[verifier::external_type_specification]
pub struct ExDuplicateKeyMode(jomini::json::DuplicateKeyMode);

/// The bytes that a jomini scalar wraps.
pub uninterp spec fn scalar_bytes(s: jomini::Scalar) -> Seq<u8>;

/// The tokens held by a parsed jomini tape, in order.
pub uninterp spec fn tape_tokens(t: jomini::TextTape) -> Seq<jomini::TextToken>;

/// Relies on jomini's `Scalar::new`: the scalar wraps exactly the given bytes.
pub assume_specification<'a>[ jomini::Scalar::<'a>::new ](data: &'a [u8]) -> (r: jomini::Scalar<'a>)
    ensures
        scalar_bytes(r) == data@,
;

/// Relies on jomini's `Scalar::as_bytes`: it hands back the wrapped bytes.
pub assume_specification<'a>[ jomini::Scalar::<'a>::as_bytes ](s: jomini::Scalar<'a>) -> (r: &'a [u8])
    ensures
        r@ == scalar_bytes(s),
;

/// Relies on jomini's `TextTape::tokens`: the slice of the tape's tokens.
pub assume_specification<'a, 'b>[ jomini::TextTape::<'a>::tokens ](t: &'b jomini::TextTape<'a>) -> (r: &'b [jomini::TextToken<'a>])
    ensures
        r@ == tape_tokens(*t),
;

/// A token with its scalar payload seen as bytes.
pub enum TokenView {
    Array { end: usize, mixed: bool },
    Object { end: usize, mixed: bool },
    MixedContainer,
    Unquoted(Seq<u8>),
    Quoted(Seq<u8>),
    Parameter(Seq<u8>),
    UndefinedParameter(Seq<u8>),
    Operator(jomini::text::Operator),
    End(usize),
    Header(Seq<u8>),
}

pub open spec fn token_view(t: jomini::TextToken) -> TokenView {
    match t {
        jomini::TextToken::Array { end, mixed } => TokenView::Array { end, mixed },
        jomini::TextToken::Object { end, mixed } => TokenView::Object { end, mixed },
        jomini::TextToken::MixedContainer => TokenView::MixedContainer,
        jomini::TextToken::Unquoted(s) => TokenView::Unquoted(scalar_bytes(s)),
        jomini::TextToken::Quoted(s) => TokenView::Quoted(scalar_bytes(s)),
        jomini::TextToken::Parameter(s) => TokenView::Parameter(scalar_bytes(s)),
        jomini::TextToken::UndefinedParameter(s) => TokenView::UndefinedParameter(scalar_bytes(s)),
        jomini::TextToken::Operator(op) => TokenView::Operator(op),
        jomini::TextToken::End(start) => TokenView::End(start),
        jomini::TextToken::Header(s) => TokenView::Header(scalar_bytes(s)),
    }
}

pub open spec fn token_views(ts: Seq<jomini::TextToken>) -> Seq<TokenView> {
    ts.map_values(|t: jomini::TextToken| token_view(t))
}

/// The text of an unquoted scalar token; empty for every other token.
pub open spec fn unquoted(t: jomini::TextToken) -> Seq<u8> {
    match t {
        jomini::TextToken::Unquoted(s) => scalar_bytes(s),
        _ => Seq::empty(),
    }
}

/// What the nesting of a stream looks at in a token.
pub enum Shape {
    /// Opens a container that closes at the given position.
    Open(int),
    /// Closes the container opened at the given position.
    Close(int),
    Leaf,
}

pub open spec fn view_shape(t: TokenView) -> Shape {
    match t {
        TokenView::Array { end, .. } => Shape::Open(end as int),
        TokenView::Object { end, .. } => Shape::Open(end as int),
        TokenView::End(start) => Shape::Close(start as int),
        _ => Shape::Leaf,
    }
}

/// The container opened at `p` closes at an `End` that points back at `p`.
pub open spec fn open_ok(sh: Seq<Shape>, p: int) -> bool {
    sh[p] is Open ==> p < sh[p]->Open_0 < sh.len() && sh[sh[p]->Open_0] == Shape::Close(p)
}

/// The `End` at `p` closes a container opened before it that points at `p`.
pub open spec fn close_ok(sh: Seq<Shape>, p: int) -> bool {
    sh[p] is Close ==> 0 <= sh[p]->Close_0 < p && sh[sh[p]->Close_0] == Shape::Open(p)
}

/// A container opened at `q` inside the one opened at `p` closes inside it too.
pub open spec fn pair_ok(sh: Seq<Shape>, p: int, q: int) -> bool {
    sh[p] is Open && sh[q] is Open && q < sh[p]->Open_0 ==> sh[q]->Open_0 < sh[p]->Open_0
}

/// Every container points at its own `End`, every `End` points back at its
/// opener, and containers nest without crossing.
pub open spec fn nested(sh: Seq<Shape>) -> bool {
    &&& forall|p: int| 0 <= p < sh.len() ==> #[trigger] open_ok(sh, p)
    &&& forall|p: int| 0 <= p < sh.len() ==> #[trigger] close_ok(sh, p)
    &&& forall|p: int, q: int| 0 <= p < q < sh.len() ==> #[trigger] pair_ok(sh, p, q)
}

pub open spec fn well_formed(ts: Seq<TokenView>) -> bool {
    nested(ts.map_values(|t: TokenView| view_shape(t)))
}

/// The text of the token when it is an unquoted scalar.
pub fn unquoted_text<'a>(t: &jomini::TextToken<'a>) -> (r: Option<&'a [u8]>)
    ensures
        r is Some <==> *t is Unquoted,
        r is Some ==> r->0@ == unquoted(*t),
{
    match t {
        jomini::TextToken::Unquoted(s) => Some(s.as_bytes()),
        _ => None,
    }
}

/// Whether jomini reads these bytes as a number.
pub uninterp spec fn reads_as_number(b: Seq<u8>) -> bool;

/// Relies on jomini's `Scalar::to_f64`: whether a scalar reads as a number
/// depends on its bytes alone.
#[verifier::external_body]
pub(crate) fn scalar_reads_as_number(b: &[u8]) -> (r: bool)
    ensures
        r == reads_as_number(b@),
{
    jomini::Scalar::new(b).to_f64().is_ok()
}

/// A scalar that can stand as a key of an object.
pub open spec fn is_key_token(t: TokenView) -> bool {
    t is Quoted || t is Unquoted || t is Parameter || t is UndefinedParameter
}

/// Where jomini's reader goes on after the value at `v`: past a container, an
/// operator in front of the value, or a header and the container after it.
pub open spec fn value_next(ts: Seq<TokenView>, v: int) -> Option<int>
    decreases ts.len() - v,
{
    if !(0 <= v < ts.len()) {
        None
    } else {
        match ts[v] {
            TokenView::Array { end, .. } => Some(end as int + 1),
            TokenView::Object { end, .. } => Some(end as int + 1),
            TokenView::Operator(_) => value_next(ts, v + 1),
            TokenView::Header(_) => if v + 1 < ts.len() {
                match ts[v + 1] {
                    TokenView::Array { end, .. } => Some(end as int + 1),
                    TokenView::Object { end, .. } => Some(end as int + 1),
                    _ => None,
                }
            } else {
                None
            },
            _ => Some(v + 1),
        }
    }
}

/// The fields of an object body from `p` up to `end`: each key a scalar with
/// a value (after an optional operator) before the body ends, up to a
/// mixed-container marker.
pub open spec fn fields_ok(ts: Seq<TokenView>, p: int, end: int) -> bool
    decreases end - p,
{
    if p < 0 || p >= end {
        true
    } else if p >= ts.len() {
        false
    } else if ts[p] is MixedContainer {
        true
    } else if !is_key_token(ts[p]) || p + 1 >= end || p + 1 >= ts.len() {
        false
    } else {
        let v = if ts[p + 1] is Operator {
            p + 2
        } else {
            p + 1
        };
        v < end && v < ts.len() && match value_next(ts, v) {
            Some(q) => p < q && (q >= end || fields_ok(ts, q, end)),
            None => false,
        }
    }
}

/// A header is followed by the container it names.
pub open spec fn header_ok(ts: Seq<TokenView>, v: int) -> bool {
    ts[v] is Header ==> v + 1 < ts.len() && (ts[v + 1] is Array || ts[v + 1] is Object)
}

/// Every header names a container, and every object body, the top level
/// included, is a run of complete fields.
pub open spec fn fields_complete(ts: Seq<TokenView>) -> bool {
    &&& forall|v: int| 0 <= v < ts.len() ==> #[trigger] header_ok(ts, v)
    &&& fields_ok(ts, 0, ts.len() as int)
    &&& forall|o: int|
        0 <= o < ts.len() && ts[o] is Object ==> #[trigger] fields_ok(
            ts,
            o + 1,
            ts[o]->Object_end as int,
        )
}

} // verus!
