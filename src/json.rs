//! Handing a materialized tape to jomini's JSON writer.

use vstd::prelude::*;
use vstd::utf8::encode_utf8;

use crate::filter::{declared_from, declared_slots, filtered, tape_shape};
use crate::materialize::{Encoding, MaterializedTape, TapeToken, materialized, texts};
use crate::expr::Binding;
use crate::laws::{lemma_output_well_formed, overrides_on_scalars};
use crate::resolve::{InterpolatedTape, Override};
use crate::tape::{
    Shape, TokenView, close_ok, fields_complete, fields_ok, header_ok, nested, open_ok, pair_ok, token_views,
    value_next, view_shape, well_formed,
};

verus! {

/// The JSON text that jomini writes for these tokens, read as UTF-8, with these options.
pub uninterp spec fn json_text(
    tokens: Seq<TokenView>,
    pretty: bool,
    keys: jomini::json::DuplicateKeyMode,
) -> Seq<char>;

/// Relies on jomini's `ObjectReader::from_tokens` and its JSON writer: the text
/// depends on the tokens and the options alone. The writer follows container
/// pointers, so they must be well formed, reads a value after each key of an
/// object body, so every key must have one, and reads a header together with
/// the container after it, so every header must have one.
#[verifier::external_body]
fn render_json(
    tokens: &[jomini::TextToken],
    pretty: bool,
    keys: jomini::json::DuplicateKeyMode,
) -> (r: String)
    requires
        well_formed(token_views(tokens@)),
        fields_complete(token_views(tokens@)),
    ensures
        r@ == json_text(token_views(tokens@), pretty, keys),
{
    let options = jomini::json::JsonOptions::new().with_prettyprint(pretty).with_duplicate_keys(
        keys,
    );
    let reader = jomini::text::ObjectReader::from_tokens(tokens, jomini::Utf8Encoding::new());
    reader.json().with_options(options).to_string()
}

pub open spec fn slot_in(t: TapeToken, n: nat) -> bool {
    match t {
        TapeToken::Unquoted(k) => k < n,
        TapeToken::Quoted(k) => k < n,
        TapeToken::Parameter(k) => k < n,
        TapeToken::UndefinedParameter(k) => k < n,
        TapeToken::Header(k) => k < n,
        _ => true,
    }
}

pub open spec fn slots_ok(toks: Seq<TapeToken>, n: nat) -> bool {
    forall|j: int| 0 <= j < toks.len() ==> slot_in(#[trigger] toks[j], n)
}

pub open spec fn tape_views(toks: Seq<TapeToken>, strings: Seq<Seq<char>>) -> Seq<TokenView> {
    toks.map_values(|t: TapeToken| tape_token_view(t, strings))
}

/// The token with its string position replaced by the string's UTF-8 bytes.
pub open spec fn tape_token_view(t: TapeToken, strings: Seq<Seq<char>>) -> TokenView {
    match t {
        TapeToken::Array { end, mixed } => TokenView::Array { end, mixed },
        TapeToken::Object { end, mixed } => TokenView::Object { end, mixed },
        TapeToken::MixedContainer => TokenView::MixedContainer,
        TapeToken::Unquoted(k) => TokenView::Unquoted(encode_utf8(strings[k as int])),
        TapeToken::Quoted(k) => TokenView::Quoted(encode_utf8(strings[k as int])),
        TapeToken::Parameter(k) => TokenView::Parameter(encode_utf8(strings[k as int])),
        TapeToken::UndefinedParameter(k) => TokenView::UndefinedParameter(
            encode_utf8(strings[k as int]),
        ),
        TapeToken::Operator(op) => TokenView::Operator(op),
        TapeToken::End(start) => TokenView::End(start),
        TapeToken::Header(k) => TokenView::Header(encode_utf8(strings[k as int])),
    }
}

impl MaterializedTape {
    /// Every scalar token points into the string table.
    pub open spec fn slots_valid(&self) -> bool {
        slots_ok(self.token_data@, self.owned_strings@.len())
    }

    pub open spec fn views(&self) -> Seq<TokenView> {
        tape_views(self.token_data@, texts(self.owned_strings@))
    }

    /// Whether every scalar token points into the string table.
    pub fn slots_in_range(&self) -> (r: bool)
        ensures
            r == self.slots_valid(),
    {
        let n = self.owned_strings.len();
        let mut j: usize = 0;
        while j < self.token_data.len()
            invariant
                j <= self.token_data@.len(),
                n == self.owned_strings@.len(),
                forall|q: int| 0 <= q < j ==> slot_in(#[trigger] self.token_data@[q], n as nat),
            decreases self.token_data@.len() - j,
        {
            let ok = match self.token_data[j] {
                TapeToken::Unquoted(k) => k < n,
                TapeToken::Quoted(k) => k < n,
                TapeToken::Parameter(k) => k < n,
                TapeToken::UndefinedParameter(k) => k < n,
                TapeToken::Header(k) => k < n,
                _ => true,
            };
            if !ok {
                return false;
            }
            j += 1;
        }
        true
    }

    /// jomini tokens that borrow their scalars from the string table.
    pub fn create_tokens(&self) -> (r: Vec<jomini::TextToken<'_>>)
        requires
            self.slots_valid(),
        ensures
            token_views(r@) == self.views(),
    {
        let mut r: Vec<jomini::TextToken<'_>> = Vec::new();
        let mut j: usize = 0;
        while j < self.token_data.len()
            invariant
                j <= self.token_data@.len(),
                self.slots_valid(),
                r@.len() == j,
                forall|q: int|
                    0 <= q < j ==> crate::tape::token_view(#[trigger] r@[q]) == tape_token_view(
                        self.token_data@[q],
                        texts(self.owned_strings@),
                    ),
            decreases self.token_data@.len() - j,
        {
            assert(slot_in(self.token_data@[j as int], self.owned_strings@.len()));
            let t = match self.token_data[j] {
                TapeToken::Array { end, mixed } => jomini::TextToken::Array { end, mixed },
                TapeToken::Object { end, mixed } => jomini::TextToken::Object { end, mixed },
                TapeToken::MixedContainer => jomini::TextToken::MixedContainer,
                TapeToken::Unquoted(k) => jomini::TextToken::Unquoted(
                    jomini::Scalar::new(self.owned_strings[k].as_str().as_bytes()),
                ),
                TapeToken::Quoted(k) => jomini::TextToken::Quoted(
                    jomini::Scalar::new(self.owned_strings[k].as_str().as_bytes()),
                ),
                TapeToken::Parameter(k) => jomini::TextToken::Parameter(
                    jomini::Scalar::new(self.owned_strings[k].as_str().as_bytes()),
                ),
                TapeToken::UndefinedParameter(k) => jomini::TextToken::UndefinedParameter(
                    jomini::Scalar::new(self.owned_strings[k].as_str().as_bytes()),
                ),
                TapeToken::Operator(op) => jomini::TextToken::Operator(op),
                TapeToken::End(start) => jomini::TextToken::End(start),
                TapeToken::Header(k) => jomini::TextToken::Header(
                    jomini::Scalar::new(self.owned_strings[k].as_str().as_bytes()),
                ),
            };
            r.push(t);
            j += 1;
        }
        assert(token_views(r@) =~= self.views());
        r
    }

    /// JSON of the tape, or `None` when a scalar points outside the string
    /// table, the container pointers are not well formed, or a key of an
    /// object body has no value.
    pub fn to_json_with_options(&self, pretty: bool, keys: jomini::json::DuplicateKeyMode) -> (r:
        Option<String>)
        ensures
            r is Some <==> self.slots_valid() && well_formed(self.views()) && fields_complete(
                self.views(),
            ),
            r is Some ==> r->0@ == json_text(self.views(), pretty, keys),
    {
        if !self.slots_in_range() {
            return None;
        }
        let shaped = check_nested(&self.token_data);
        assert(self.views().map_values(|t: TokenView| view_shape(t)) =~= self.token_data@.map_values(
            |t: TapeToken| tape_shape(t),
        ));
        if !shaped {
            return None;
        }
        if !self.fields_checked() {
            return None;
        }
        let tokens = self.create_tokens();
        Some(render_json(tokens.as_slice(), pretty, keys))
    }

    /// Whether every object body of the tape is a run of complete fields.
    pub fn fields_checked(&self) -> (r: bool)
        ensures
            r == fields_complete(self.views()),
    {
        let ghost ts = self.views();
        let n = self.token_data.len();
        assert forall|q: int| 0 <= q < self.token_data@.len() implies tokens_match(
            #[trigger] self.token_data@[q],
            ts[q],
        ) by {}
        let mut v: usize = 0;
        while v < n
            invariant
                v <= n,
                n == self.token_data@.len(),
                ts == self.views(),
                forall|q: int|
                    0 <= q < self.token_data@.len() ==> tokens_match(
                        #[trigger] self.token_data@[q],
                        ts[q],
                    ),
                forall|q: int| 0 <= q < v ==> #[trigger] header_ok(ts, q),
            decreases n - v,
        {
            assert(tokens_match(self.token_data@[v as int], ts[v as int]));
            match self.token_data[v] {
                TapeToken::Header(_) => {
                    let ok = v + 1 < n && match self.token_data[v + 1] {
                        TapeToken::Array { .. } => true,
                        TapeToken::Object { .. } => true,
                        _ => false,
                    };
                    if v + 1 < n {
                        assert(tokens_match(self.token_data@[v + 1], ts[v + 1]));
                    }
                    if !ok {
                        assert(!header_ok(ts, v as int));
                        return false;
                    }
                },
                _ => {},
            }
            assert(header_ok(ts, v as int));
            v += 1;
        }
        if !fields_run(&self.token_data, Ghost(ts), 0, n) {
            return false;
        }
        let mut o: usize = 0;
        while o < n
            invariant
                o <= n,
                n == self.token_data@.len(),
                ts == self.views(),
                forall|q: int|
                    0 <= q < self.token_data@.len() ==> tokens_match(
                        #[trigger] self.token_data@[q],
                        ts[q],
                    ),
                forall|q: int|
                    0 <= q < o && ts[q] is Object ==> #[trigger] fields_ok(
                        ts,
                        q + 1,
                        ts[q]->Object_end as int,
                    ),
            decreases n - o,
        {
            assert(tokens_match(self.token_data@[o as int], ts[o as int]));
            match self.token_data[o] {
                TapeToken::Object { end, .. } => {
                    if !fields_run(&self.token_data, Ghost(ts), o + 1, end) {
                        assert(ts[o as int] is Object);
                        assert(!fields_ok(ts, o + 1, ts[o as int]->Object_end as int));
                        return false;
                    }
                },
                _ => {},
            }
            o += 1;
        }
        true
    }

    /// Compact JSON of the tape, duplicate keys preserved.
    pub fn to_json_direct(&self) -> (r: Option<String>)
        ensures
            r is Some <==> self.slots_valid() && well_formed(self.views()) && fields_complete(
                self.views(),
            ),
            r is Some ==> r->0@ == json_text(
                self.views(),
                false,
                jomini::json::DuplicateKeyMode::Preserve,
            ),
    {
        self.to_json_with_options(false, jomini::json::DuplicateKeyMode::Preserve)
    }
}

/// Where the reader goes on after the value at `v`; `Err(true)` when that is
/// past every index a slice can have, `Err(false)` when the value runs off
/// the stream.
fn value_after(ts: &Vec<TapeToken>, Ghost(vs): Ghost<Seq<TokenView>>, v: usize) -> (r: Result<
    usize,
    bool,
>)
    requires
        vs.len() == ts@.len(),
        forall|q: int| 0 <= q < ts@.len() ==> tokens_match(#[trigger] ts@[q], vs[q]),
    ensures
        r matches Ok(q) ==> value_next(vs, v as int) == Some(q as int),
        r == Err::<usize, bool>(true) ==> value_next(vs, v as int) is Some && value_next(
            vs,
            v as int,
        )->0 > usize::MAX,
        r == Err::<usize, bool>(false) ==> value_next(vs, v as int) is None,
{
    let mut w = v;
    while w < ts.len() && matches!(ts[w], TapeToken::Operator(_))
        invariant
            v <= w,
            vs.len() == ts@.len(),
            forall|q: int| 0 <= q < ts@.len() ==> tokens_match(#[trigger] ts@[q], vs[q]),
            value_next(vs, v as int) == value_next(vs, w as int),
        decreases ts@.len() - w,
    {
        assert(tokens_match(ts@[w as int], vs[w as int]));
        w += 1;
    }
    if w >= ts.len() {
        return Err(false);
    }
    assert(tokens_match(ts@[w as int], vs[w as int]));
    match ts[w] {
        TapeToken::Array { end, .. } => if end < usize::MAX {
            Ok(end + 1)
        } else {
            Err(true)
        },
        TapeToken::Object { end, .. } => if end < usize::MAX {
            Ok(end + 1)
        } else {
            Err(true)
        },
        TapeToken::Header(_) => {
            if w + 1 < ts.len() {
                assert(tokens_match(ts@[w + 1], vs[w + 1]));
                match ts[w + 1] {
                    TapeToken::Array { end, .. } => if end < usize::MAX {
                        Ok(end + 1)
                    } else {
                        Err(true)
                    },
                    TapeToken::Object { end, .. } => if end < usize::MAX {
                        Ok(end + 1)
                    } else {
                        Err(true)
                    },
                    _ => Err(false),
                }
            } else {
                Err(false)
            }
        },
        _ => Ok(w + 1),
    }
}

/// Whether the fields from `p` up to `end` are complete.
fn fields_run(ts: &Vec<TapeToken>, Ghost(vs): Ghost<Seq<TokenView>>, start: usize, end: usize) -> (r:
    bool)
    requires
        vs.len() == ts@.len(),
        forall|q: int| 0 <= q < ts@.len() ==> tokens_match(#[trigger] ts@[q], vs[q]),
    ensures
        r == fields_ok(vs, start as int, end as int),
{
    let mut p = start;
    while p < end
        invariant
            vs.len() == ts@.len(),
            forall|q: int| 0 <= q < ts@.len() ==> tokens_match(#[trigger] ts@[q], vs[q]),
            fields_ok(vs, start as int, end as int) == fields_ok(vs, p as int, end as int),
        decreases end - p,
    {
        if p >= ts.len() {
            return false;
        }
        assert(tokens_match(ts@[p as int], vs[p as int]));
        let key_ok = match ts[p] {
            TapeToken::MixedContainer => {
                return true;
            },
            TapeToken::Unquoted(_) => true,
            TapeToken::Quoted(_) => true,
            TapeToken::Parameter(_) => true,
            TapeToken::UndefinedParameter(_) => true,
            _ => false,
        };
        if !key_ok || p + 1 >= end || p + 1 >= ts.len() {
            return false;
        }
        assert(tokens_match(ts@[p + 1], vs[p + 1]));
        let v = if matches!(ts[p + 1], TapeToken::Operator(_)) {
            p + 2
        } else {
            p + 1
        };
        if !(v < end && v < ts.len()) {
            return false;
        }
        match value_after(ts, Ghost(vs), v) {
            Ok(q) => {
                if !(p < q) {
                    return false;
                }
                if q >= end {
                    assert(fields_ok(vs, q as int, end as int));
                    return true;
                }
                p = q;
            },
            Err(beyond) => {
                if beyond {
                    let ghost q = value_next(vs, v as int)->0;
                    assert(fields_ok(vs, q, end as int));
                }
                return beyond;
            },
        }
    }
    true
}

/// The two tokens are of one kind, with the same pointers and operator.
pub open spec fn tokens_match(t: TapeToken, v: TokenView) -> bool {
    match t {
        TapeToken::Array { end, mixed } => v == TokenView::Array { end, mixed },
        TapeToken::Object { end, mixed } => v == TokenView::Object { end, mixed },
        TapeToken::MixedContainer => v is MixedContainer,
        TapeToken::Unquoted(_) => v is Unquoted,
        TapeToken::Quoted(_) => v is Quoted,
        TapeToken::Parameter(_) => v is Parameter,
        TapeToken::UndefinedParameter(_) => v is UndefinedParameter,
        TapeToken::Operator(op) => v == TokenView::Operator(op),
        TapeToken::End(start) => v == TokenView::End(start),
        TapeToken::Header(_) => v is Header,
    }
}

fn shape_at(ts: &Vec<TapeToken>, i: usize) -> (r: (u8, usize))
    requires
        i < ts@.len(),
    ensures
        r.0 == 0 ==> tape_shape(ts@[i as int]) == Shape::Open(r.1 as int),
        r.0 == 1 ==> tape_shape(ts@[i as int]) == Shape::Close(r.1 as int),
        r.0 == 2 ==> tape_shape(ts@[i as int]) == Shape::Leaf,
        r.0 <= 2,
{
    match ts[i] {
        TapeToken::Array { end, .. } => (0, end),
        TapeToken::Object { end, .. } => (0, end),
        TapeToken::End(start) => (1, start),
        _ => (2, 0),
    }
}

/// Whether the container pointers of `ts` are well formed.
pub fn check_nested(ts: &Vec<TapeToken>) -> (r: bool)
    ensures
        r == nested(ts@.map_values(|t: TapeToken| tape_shape(t))),
{
    let ghost sh = ts@.map_values(|t: TapeToken| tape_shape(t));
    let n = ts.len();
    let mut i: usize = 0;
    while i < n
        invariant
            i <= n,
            n == ts@.len(),
            sh == ts@.map_values(|t: TapeToken| tape_shape(t)),
            forall|p: int| 0 <= p < i ==> #[trigger] open_ok(sh, p),
            forall|p: int| 0 <= p < i ==> #[trigger] close_ok(sh, p),
        decreases n - i,
    {
        let (kind, at) = shape_at(ts, i);
        if kind == 0 {
            if !(i < at && at < n) {
                assert(!open_ok(sh, i as int));
                return false;
            }
            let (k2, back) = shape_at(ts, at);
            if !(k2 == 1 && back == i) {
                assert(!open_ok(sh, i as int));
                return false;
            }
        } else if kind == 1 {
            if !(at < i) {
                assert(!close_ok(sh, i as int));
                return false;
            }
            let (k2, fwd) = shape_at(ts, at);
            if !(k2 == 0 && fwd == i) {
                assert(!close_ok(sh, i as int));
                return false;
            }
        }
        assert(open_ok(sh, i as int) && close_ok(sh, i as int));
        i += 1;
    }
    let mut i: usize = 0;
    while i < n
        invariant
            i <= n,
            n == ts@.len(),
            sh == ts@.map_values(|t: TapeToken| tape_shape(t)),
            forall|p: int| 0 <= p < n ==> #[trigger] open_ok(sh, p),
            forall|p: int| 0 <= p < n ==> #[trigger] close_ok(sh, p),
            forall|p: int, q: int| 0 <= p < i && p < q < n ==> #[trigger] pair_ok(sh, p, q),
        decreases n - i,
    {
        let (kind, end) = shape_at(ts, i);
        if kind == 0 {
            assert(open_ok(sh, i as int));
            let mut j = i + 1;
            while j < end
                invariant
                    i < j <= end,
                    end < n,
                    n == ts@.len(),
                    sh == ts@.map_values(|t: TapeToken| tape_shape(t)),
                    sh[i as int] == Shape::Open(end as int),
                    forall|q: int| i < q < j ==> #[trigger] pair_ok(sh, i as int, q),
                decreases end - j,
            {
                let (k2, e2) = shape_at(ts, j);
                if k2 == 0 && !(e2 < end) {
                    assert(!pair_ok(sh, i as int, j as int));
                    return false;
                }
                assert(pair_ok(sh, i as int, j as int));
                j += 1;
            }
            assert forall|q: int| i < q < n implies #[trigger] pair_ok(sh, i as int, q) by {
                if q >= end {
                    assert(!(q < sh[i as int]->Open_0));
                }
            }
        } else {
            assert forall|q: int| i < q < n implies #[trigger] pair_ok(sh, i as int, q) by {}
        }
        i += 1;
    }
    true
}

/// The string table and the tokens that come out of interpolation: the
/// materialized stream with its declarations filtered out.
pub open spec fn output_tape(
    toks: Seq<jomini::TextToken>,
    vars: Seq<Binding>,
    ov: Seq<Override>,
    rendered: Seq<Seq<char>>,
    enc: Encoding,
) -> (Seq<Seq<char>>, Seq<TapeToken>) {
    let (table, m) = materialized(toks, enc, ov, rendered);
    (table, filtered(m, declared_from(vars, m, 0)))
}

impl<'a> InterpolatedTape<'a> {
    /// The materialized stream with its declarations filtered out.
    pub fn filtered_tape(&self, rendered: &Vec<String>, encoding: Encoding) -> (r: MaterializedTape)
        ensures
            (texts(r.owned_strings@), r.token_data@) == output_tape(
                self.tokens@,
                self.variables@,
                self.overrides@,
                texts(rendered@),
                encoding,
            ),
    {
        let tape = self.materialize(rendered, encoding);
        let decl = declared_slots(&self.variables, &tape.token_data);
        tape.filter(&decl)
    }

    /// JSON of the interpolated stream: `rendered[k]` is the text of
    /// `self.overrides[k]`. `None` when the filtered stream is not well formed
    /// or a key of an object body has no value; a well-formed stream always
    /// filters to a well-formed one.
    pub fn to_json_with_options(
        &self,
        rendered: &Vec<String>,
        encoding: Encoding,
        pretty: bool,
        keys: jomini::json::DuplicateKeyMode,
    ) -> (r: Option<String>)
        ensures
            ({
                let (table, out) = output_tape(
                    self.tokens@,
                    self.variables@,
                    self.overrides@,
                    texts(rendered@),
                    encoding,
                );
                &&& r is Some <==> slots_ok(out, table.len()) && well_formed(tape_views(out, table))
                    && fields_complete(tape_views(out, table))
                &&& well_formed(token_views(self.tokens@)) && overrides_on_scalars(
                    self.tokens@,
                    self.overrides@,
                ) ==> (r is Some <==> fields_complete(tape_views(out, table)))
                &&& r is Some ==> r->0@ == json_text(tape_views(out, table), pretty, keys)
            }),
    {
        let count = self.tokens.len();
        proof {
            assert(count == self.tokens@.len());
            if well_formed(token_views(self.tokens@)) && overrides_on_scalars(
                self.tokens@,
                self.overrides@,
            ) {
                lemma_output_well_formed(
                    self.tokens@,
                    self.variables@,
                    self.overrides@,
                    texts(rendered@),
                    encoding,
                );
            }
        }
        let tape = self.filtered_tape(rendered, encoding);
        tape.to_json_with_options(pretty, keys)
    }

    /// Compact JSON of the interpolated stream, duplicate keys preserved.
    pub fn to_json(&self, rendered: &Vec<String>, encoding: Encoding) -> (r: Option<String>)
        ensures
            ({
                let (table, out) = output_tape(
                    self.tokens@,
                    self.variables@,
                    self.overrides@,
                    texts(rendered@),
                    encoding,
                );
                &&& r is Some <==> slots_ok(out, table.len()) && well_formed(tape_views(out, table))
                    && fields_complete(tape_views(out, table))
                &&& well_formed(token_views(self.tokens@)) && overrides_on_scalars(
                    self.tokens@,
                    self.overrides@,
                ) ==> (r is Some <==> fields_complete(tape_views(out, table)))
                &&& r is Some ==> r->0@ == json_text(
                    tape_views(out, table),
                    false,
                    jomini::json::DuplicateKeyMode::Preserve,
                )
            }),
    {
        self.to_json_with_options(rendered, encoding, false, jomini::json::DuplicateKeyMode::Preserve)
    }
}

} // verus!
