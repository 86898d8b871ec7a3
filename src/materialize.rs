//! An owned copy of an interpolated token stream: one table of distinct
//! strings, tokens that point into it, declarations filtered out, and the
//! JSON rendering of the result.

use vstd::prelude::*;
use vstd::utf8::{decode_utf8, encode_utf8, valid_utf8};

use crate::expr::Binding;
use crate::resolve::{InterpolatedTape, Override};
use crate::tape::{Shape, TokenView, nested, scalar_bytes, token_views, well_formed};

verus! {

/// How scalar bytes are read as text.
#[derive(Clone, Copy, Debug, PartialEq, Eq)]
pub enum Encoding {
    Utf8,
    Windows1252,
}

/// The text that `String::from_utf8_lossy` makes of bytes that are not valid UTF-8.
pub uninterp spec fn utf8_lossy(b: Seq<u8>) -> Seq<char>;

/// The text of bytes read as UTF-8: valid bytes decode to their characters,
/// invalid ones are repaired by replacement.
pub open spec fn text_of(b: Seq<u8>) -> Seq<char> {
    if valid_utf8(b) {
        decode_utf8(b)
    } else {
        utf8_lossy(b)
    }
}

/// The text that jomini's Windows-1252 decoder makes of these bytes.
pub uninterp spec fn windows1252_text(b: Seq<u8>) -> Seq<char>;

/// Relies on std's `String::from_utf8_lossy`: valid UTF-8 comes back as the
/// characters it encodes; for other bytes the text depends on the bytes alone.
#[verifier::external_body]
pub(crate) fn decode_utf8_lossy(b: &[u8]) -> (r: String)
    ensures
        valid_utf8(b@) ==> r@ == decode_utf8(b@),
        !valid_utf8(b@) ==> r@ == utf8_lossy(b@),
{
    String::from_utf8_lossy(b).into_owned()
}

/// Relies on jomini's `Windows1252Encoding::decode`: the text depends on the
/// bytes alone.
#[verifier::external_body]
fn decode_windows1252(b: &[u8]) -> (r: String)
    ensures
        r@ == windows1252_text(b@),
{
    jomini::Windows1252Encoding::decode(b).into_owned()
}

pub open spec fn decoded(enc: Encoding, b: Seq<u8>) -> Seq<char> {
    match enc {
        Encoding::Utf8 => text_of(b),
        Encoding::Windows1252 => windows1252_text(b),
    }
}

fn decode(enc: Encoding, b: &[u8]) -> (r: String)
    ensures
        r@ == decoded(enc, b@),
{
    match enc {
        Encoding::Utf8 => decode_utf8_lossy(b),
        Encoding::Windows1252 => decode_windows1252(b),
    }
}

/// A token whose scalar is a position in the string table.
#[derive(Clone, Copy, Debug)]
pub enum TapeToken {
    Array { end: usize, mixed: bool },
    Object { end: usize, mixed: bool },
    MixedContainer,
    Unquoted(usize),
    Quoted(usize),
    Parameter(usize),
    UndefinedParameter(usize),
    Operator(jomini::text::Operator),
    End(usize),
    Header(usize),
}

/// A token stream that owns its text: every scalar token holds a position in
/// `owned_strings`, which holds no string twice.
pub struct MaterializedTape {
    pub owned_strings: Vec<String>,
    pub token_data: Vec<TapeToken>,
}

pub open spec fn texts(table: Seq<String>) -> Seq<Seq<char>> {
    table.map_values(|s: String| s@)
}

/// The first position at or after `k` of `table` that holds `s`.
pub open spec fn slot_from(table: Seq<Seq<char>>, s: Seq<char>, k: int) -> Option<int>
    decreases table.len() - k,
{
    if k < 0 || k >= table.len() {
        None
    } else if table[k] == s {
        Some(k)
    } else {
        slot_from(table, s, k + 1)
    }
}

/// The table with `s` in it, and the position of `s`: an equal string already
/// there is reused.
pub open spec fn interned(table: Seq<Seq<char>>, s: Seq<char>) -> (Seq<Seq<char>>, usize) {
    match slot_from(table, s, 0) {
        Some(k) => (table, k as usize),
        None => (table.push(s), table.len() as usize),
    }
}

/// The first of the first `k` overrides that replaces token `i`.
pub open spec fn first_override(ov: Seq<Override>, i: int, k: int) -> Option<int>
    decreases k,
{
    if k <= 0 {
        None
    } else {
        match first_override(ov, i, k - 1) {
            Some(j) => Some(j),
            None => if ov[k - 1].index == i {
                Some(k - 1)
            } else {
                None
            },
        }
    }
}

/// The text that replaces token `i`: that of its first override, if one was
/// rendered.
pub open spec fn override_text(ov: Seq<Override>, rendered: Seq<Seq<char>>, i: int) -> Option<
    Seq<char>,
> {
    match first_override(ov, i, ov.len() as int) {
        Some(k) => if k < rendered.len() {
            Some(rendered[k])
        } else {
            None
        },
        None => None,
    }
}

pub open spec fn payload(t: jomini::TextToken) -> Option<Seq<u8>> {
    match t {
        jomini::TextToken::Unquoted(s) => Some(scalar_bytes(s)),
        jomini::TextToken::Quoted(s) => Some(scalar_bytes(s)),
        jomini::TextToken::Parameter(s) => Some(scalar_bytes(s)),
        jomini::TextToken::UndefinedParameter(s) => Some(scalar_bytes(s)),
        jomini::TextToken::Header(s) => Some(scalar_bytes(s)),
        _ => None,
    }
}

/// The token of the same kind with its scalar at position `k`.
pub open spec fn lifted(t: jomini::TextToken, k: usize) -> TapeToken {
    match t {
        jomini::TextToken::Array { end, mixed } => TapeToken::Array { end, mixed },
        jomini::TextToken::Object { end, mixed } => TapeToken::Object { end, mixed },
        jomini::TextToken::MixedContainer => TapeToken::MixedContainer,
        jomini::TextToken::Unquoted(_) => TapeToken::Unquoted(k),
        jomini::TextToken::Quoted(_) => TapeToken::Quoted(k),
        jomini::TextToken::Parameter(_) => TapeToken::Parameter(k),
        jomini::TextToken::UndefinedParameter(_) => TapeToken::UndefinedParameter(k),
        jomini::TextToken::Operator(op) => TapeToken::Operator(op),
        jomini::TextToken::End(start) => TapeToken::End(start),
        jomini::TextToken::Header(_) => TapeToken::Header(k),
    }
}

/// Tokens `i..` materialized onto the table and tokens built so far. A
/// replaced token becomes an unquoted scalar holding its replacement; any
/// other scalar holds its decoded text.
pub open spec fn materialized_from(
    toks: Seq<jomini::TextToken>,
    enc: Encoding,
    ov: Seq<Override>,
    rendered: Seq<Seq<char>>,
    i: int,
    table: Seq<Seq<char>>,
    out: Seq<TapeToken>,
) -> (Seq<Seq<char>>, Seq<TapeToken>)
    decreases toks.len() - i,
{
    if i < 0 || i >= toks.len() {
        (table, out)
    } else {
        match override_text(ov, rendered, i) {
            Some(s) => {
                let (tb, k) = interned(table, s);
                materialized_from(toks, enc, ov, rendered, i + 1, tb, out.push(TapeToken::Unquoted(k)))
            },
            None => match payload(toks[i]) {
                Some(b) => {
                    let (tb, k) = interned(table, decoded(enc, b));
                    materialized_from(toks, enc, ov, rendered, i + 1, tb, out.push(lifted(toks[i], k)))
                },
                None => materialized_from(
                    toks,
                    enc,
                    ov,
                    rendered,
                    i + 1,
                    table,
                    out.push(lifted(toks[i], 0)),
                ),
            },
        }
    }
}

pub open spec fn materialized(
    toks: Seq<jomini::TextToken>,
    enc: Encoding,
    ov: Seq<Override>,
    rendered: Seq<Seq<char>>,
) -> (Seq<Seq<char>>, Seq<TapeToken>) {
    materialized_from(toks, enc, ov, rendered, 0, Seq::empty(), Seq::empty())
}

fn intern(table: &mut Vec<String>, s: String) -> (k: usize)
    ensures
        (texts(final(table)@), k) == interned(texts(old(table)@), s@),
{
    let ghost t0 = texts(table@);
    let mut j: usize = 0;
    while j < table.len()
        invariant
            j <= table@.len(),
            texts(table@) == t0,
            slot_from(t0, s@, 0) == slot_from(t0, s@, j as int),
        decreases table@.len() - j,
    {
        if table[j] == s {
            return j;
        }
        j += 1;
    }
    let k = table.len();
    table.push(s);
    assert(texts(table@) =~= t0.push(s@));
    k
}

fn override_positions(ov: &Vec<Override>, n: usize) -> (d: Vec<Option<usize>>)
    ensures
        d@.len() == n,
        forall|i: int|
            #![trigger d@[i]]
            0 <= i < n ==> match d@[i] {
                Some(k) => first_override(ov@, i, ov@.len() as int) == Some(k as int),
                None => first_override(ov@, i, ov@.len() as int) is None,
            },
{
    let mut d: Vec<Option<usize>> = Vec::new();
    while d.len() < n
        invariant
            d@.len() <= n,
            forall|i: int| 0 <= i < d@.len() ==> #[trigger] d@[i] is None,
        decreases n - d@.len(),
    {
        d.push(None);
    }
    let mut k: usize = 0;
    while k < ov.len()
        invariant
            k <= ov@.len(),
            d@.len() == n,
            forall|i: int|
                #![trigger d@[i]]
                0 <= i < n ==> match d@[i] {
                    Some(j) => first_override(ov@, i, k as int) == Some(j as int),
                    None => first_override(ov@, i, k as int) is None,
                },
        decreases ov@.len() - k,
    {
        let idx = ov[k].index;
        if idx < n && d[idx].is_none() {
            d[idx] = Some(k);
        }
        assert forall|i: int|
            #![trigger d@[i]]
            0 <= i < n implies match d@[i] {
                Some(j) => first_override(ov@, i, k + 1) == Some(j as int),
                None => first_override(ov@, i, k + 1) is None,
            } by {
            assert(first_override(ov@, i, k + 1) == match first_override(ov@, i, k as int) {
                Some(j) => Some(j),
                None => if ov@[k as int].index == i {
                    Some(k as int)
                } else {
                    None
                },
            });
        }
        k += 1;
    }
    d
}

fn payload_of<'b>(t: &jomini::TextToken<'b>) -> (r: Option<&'b [u8]>)
    ensures
        r is Some <==> payload(*t) is Some,
        r is Some ==> r->0@ == payload(*t)->0,
{
    match t {
        jomini::TextToken::Unquoted(s) => Some(s.as_bytes()),
        jomini::TextToken::Quoted(s) => Some(s.as_bytes()),
        jomini::TextToken::Parameter(s) => Some(s.as_bytes()),
        jomini::TextToken::UndefinedParameter(s) => Some(s.as_bytes()),
        jomini::TextToken::Header(s) => Some(s.as_bytes()),
        _ => None,
    }
}

fn lift(t: &jomini::TextToken, k: usize) -> (r: TapeToken)
    ensures
        r == lifted(*t, k),
{
    match t {
        jomini::TextToken::Array { end, mixed } => TapeToken::Array { end: *end, mixed: *mixed },
        jomini::TextToken::Object { end, mixed } => TapeToken::Object { end: *end, mixed: *mixed },
        jomini::TextToken::MixedContainer => TapeToken::MixedContainer,
        jomini::TextToken::Unquoted(_) => TapeToken::Unquoted(k),
        jomini::TextToken::Quoted(_) => TapeToken::Quoted(k),
        jomini::TextToken::Parameter(_) => TapeToken::Parameter(k),
        jomini::TextToken::UndefinedParameter(_) => TapeToken::UndefinedParameter(k),
        jomini::TextToken::Operator(op) => TapeToken::Operator(*op),
        jomini::TextToken::End(start) => TapeToken::End(*start),
        jomini::TextToken::Header(_) => TapeToken::Header(k),
    }
}

impl<'a> InterpolatedTape<'a> {
    /// Copies the stream into a tape that owns its text. `rendered[k]` is the
    /// text of `self.overrides[k]`; an override without one leaves its token
    /// as it was.
    pub fn materialize(&self, rendered: &Vec<String>, encoding: Encoding) -> (r: MaterializedTape)
        ensures
            (texts(r.owned_strings@), r.token_data@) == materialized(
                self.tokens@,
                encoding,
                self.overrides@,
                texts(rendered@),
            ),
    {
        let toks = self.tokens;
        let ghost ov = self.overrides@;
        let ghost rt = texts(rendered@);
        let positions = override_positions(&self.overrides, toks.len());
        let mut table: Vec<String> = Vec::new();
        let mut out: Vec<TapeToken> = Vec::new();
        let mut i: usize = 0;
        assert(texts(table@) =~= Seq::<Seq<char>>::empty());
        while i < toks.len()
            invariant
                i <= toks@.len(),
                positions@.len() == toks@.len(),
                ov == self.overrides@,
                rt == texts(rendered@),
                toks@ == self.tokens@,
                forall|p: int|
                    #![trigger positions@[p]]
                    0 <= p < toks@.len() ==> match positions@[p] {
                        Some(k) => first_override(ov, p, ov.len() as int) == Some(k as int),
                        None => first_override(ov, p, ov.len() as int) is None,
                    },
                materialized(toks@, encoding, ov, rt) == materialized_from(
                    toks@,
                    encoding,
                    ov,
                    rt,
                    i as int,
                    texts(table@),
                    out@,
                ),
            decreases toks@.len() - i,
        {
            let forced: Option<usize> = match positions[i] {
                Some(k) => if k < rendered.len() {
                    Some(k)
                } else {
                    None
                },
                None => None,
            };
            match forced {
                Some(k) => {
                    assert(override_text(ov, rt, i as int) == Some(rendered@[k as int]@));
                    let slot = intern(&mut table, rendered[k].clone());
                    out.push(TapeToken::Unquoted(slot));
                },
                None => {
                    assert(override_text(ov, rt, i as int) is None);
                    match payload_of(&toks[i]) {
                        Some(b) => {
                            let slot = intern(&mut table, decode(encoding, b));
                            out.push(lift(&toks[i], slot));
                        },
                        None => {
                            out.push(lift(&toks[i], 0));
                        },
                    }
                },
            }
            i += 1;
        }
        MaterializedTape { owned_strings: table, token_data: out }
    }
}

} // verus!
