//! Arithmetic expressions inside `@[...]`: parsed by splitting at the rightmost
//! operator of each precedence level, into a term over numeric literals and
//! bound variables.

use vstd::prelude::*;

use crate::tape::{unquoted, unquoted_text};

verus! {

/// A range of bytes inside the text of one token.
#[derive(Clone, Copy, Debug, PartialEq, Eq)]
pub struct Span {
    pub token: usize,
    pub start: usize,
    pub end: usize,
}

/// A numeric value, kept symbolic: the arithmetic itself is left to the caller.
#[derive(Debug)]
pub enum Term {
    /// The whole scalar of this token, read as a number the way jomini reads scalars.
    Number(usize),
    /// A decimal literal written inside an expression.
    Literal(Span),
    /// The value of the variable bound at this position of the variable table.
    Var(usize),
    Neg(Box<Term>),
    Add(Box<Term>, Box<Term>),
    Sub(Box<Term>, Box<Term>),
    Mul(Box<Term>, Box<Term>),
    Div(Box<Term>, Box<Term>),
}

pub open spec fn is_space(c: u8) -> bool {
    c == 9 || c == 10 || c == 11 || c == 12 || c == 13 || c == 32
}

/// The UTF-8 bytes of a three-byte White_Space character: U+1680,
/// U+2000 to U+200A, U+2028, U+2029, U+202F, U+205F or U+3000.
pub open spec fn is_wide_space(a: u8, b: u8, c: u8) -> bool {
    ||| a == 0xE1 && b == 0x9A && c == 0x80
    ||| a == 0xE2 && b == 0x80 && ((0x80 <= c <= 0x8A) || c == 0xA8 || c == 0xA9 || c == 0xAF)
    ||| a == 0xE2 && b == 0x81 && c == 0x9F
    ||| a == 0xE3 && b == 0x80 && c == 0x80
}

/// The length in bytes of a White_Space character that starts at `i` and ends
/// by `hi`, or 0. The two-byte ones are U+0085 and U+00A0.
pub open spec fn space_at(s: Seq<u8>, i: int, hi: int) -> int {
    if i < hi && is_space(s[i]) {
        1
    } else if i + 1 < hi && s[i] == 0xC2 && (s[i + 1] == 0x85 || s[i + 1] == 0xA0) {
        2
    } else if i + 2 < hi && is_wide_space(s[i], s[i + 1], s[i + 2]) {
        3
    } else {
        0
    }
}

/// The length in bytes of a White_Space character that ends at `h` and starts
/// at `lo` or later, or 0.
pub open spec fn space_before(s: Seq<u8>, lo: int, h: int) -> int {
    if lo < h && is_space(s[h - 1]) {
        1
    } else if lo + 1 < h && s[h - 2] == 0xC2 && (s[h - 1] == 0x85 || s[h - 1] == 0xA0) {
        2
    } else if lo + 2 < h && is_wide_space(s[h - 3], s[h - 2], s[h - 1]) {
        3
    } else {
        0
    }
}

/// First position in `lo..hi` that does not start a White_Space character, or `hi`.
pub open spec fn skip_spaces(s: Seq<u8>, lo: int, hi: int) -> int
    decreases hi - lo,
{
    if lo < hi && space_at(s, lo, hi) > 0 {
        skip_spaces(s, lo + space_at(s, lo, hi), hi)
    } else {
        lo
    }
}

/// One past the last byte in `lo..hi` that does not end a White_Space
/// character, or `lo`.
pub open spec fn drop_spaces(s: Seq<u8>, lo: int, hi: int) -> int
    decreases hi - lo,
{
    if lo < hi && space_before(s, lo, hi) > 0 {
        drop_spaces(s, lo, hi - space_before(s, lo, hi))
    } else {
        hi
    }
}

pub open spec fn is_op(c: u8, product: bool) -> bool {
    if product {
        c == 42 || c == 47
    } else {
        c == 43 || c == 45
    }
}

/// Scanning `s[lo+1..i]` from its end, with `depth` closing parentheses more
/// than opening ones seen so far: the first operator of the class met at depth
/// zero, or `lo` when there is none. Position `lo` itself is never a split
/// point, so that a leading sign is not read as an operator.
pub open spec fn rightmost_op(s: Seq<u8>, lo: int, i: int, depth: int, product: bool) -> int
    decreases i - lo,
{
    if i <= lo + 1 {
        lo
    } else {
        let c = s[i - 1];
        if c == 41 {
            rightmost_op(s, lo, i - 1, depth + 1, product)
        } else if c == 40 {
            rightmost_op(s, lo, i - 1, depth - 1, product)
        } else if depth == 0 && is_op(c, product) {
            i - 1
        } else {
            rightmost_op(s, lo, i - 1, depth, product)
        }
    }
}

pub proof fn lemma_skip_spaces(s: Seq<u8>, lo: int, hi: int)
    requires
        lo <= hi,
    ensures
        lo <= skip_spaces(s, lo, hi) <= hi,
    decreases hi - lo,
{
    if lo < hi && space_at(s, lo, hi) > 0 {
        lemma_skip_spaces(s, lo + space_at(s, lo, hi), hi);
    }
}

pub proof fn lemma_drop_spaces(s: Seq<u8>, lo: int, hi: int)
    requires
        lo <= hi,
    ensures
        lo <= drop_spaces(s, lo, hi) <= hi,
    decreases hi - lo,
{
    if lo < hi && space_before(s, lo, hi) > 0 {
        lemma_drop_spaces(s, lo, hi - space_before(s, lo, hi));
    }
}

pub proof fn lemma_rightmost_op(s: Seq<u8>, lo: int, i: int, depth: int, product: bool)
    requires
        lo < i,
    ensures
        rightmost_op(s, lo, i, depth, product) == lo || lo < rightmost_op(s, lo, i, depth, product)
            < i,
    decreases i - lo,
{
    if i > lo + 1 {
        lemma_rightmost_op(s, lo, i - 1, depth + 1, product);
        lemma_rightmost_op(s, lo, i - 1, depth - 1, product);
        lemma_rightmost_op(s, lo, i - 1, depth, product);
    }
}

/// The first position of `names` that holds `name`.
pub open spec fn find_name(names: Seq<Seq<u8>>, name: Seq<u8>) -> Option<int> {
    find_name_from(names, name, 0)
}

pub open spec fn find_name_from(names: Seq<Seq<u8>>, name: Seq<u8>, k: int) -> Option<int>
    decreases names.len() - k,
{
    if k < 0 || k >= names.len() {
        None
    } else if names[k] == name {
        Some(k)
    } else {
        find_name_from(names, name, k + 1)
    }
}

pub open spec fn is_digit(c: u8) -> bool {
    48 <= c <= 57
}

pub open spec fn is_sign(c: u8) -> bool {
    c == 43 || c == 45
}

pub open spec fn lower(c: u8) -> u8 {
    if 65 <= c <= 90 {
        (c + 32) as u8
    } else {
        c
    }
}

/// End of the run of digits that starts at `i`.
pub open spec fn digits_end(s: Seq<u8>, i: int) -> int
    decreases s.len() - i,
{
    if 0 <= i < s.len() && is_digit(s[i]) {
        digits_end(s, i + 1)
    } else {
        i
    }
}

pub open spec fn lowered(s: Seq<u8>) -> Seq<u8> {
    s.map_values(|c: u8| lower(c))
}

/// `inf`, `infinity` or `nan`, in any case.
pub open spec fn is_special_number(s: Seq<u8>) -> bool {
    let l = lowered(s);
    l == seq![105u8, 110u8, 102u8] || l == seq![105u8, 110u8, 102u8, 105u8, 110u8, 105u8, 116u8, 121u8]
        || l == seq![110u8, 97u8, 110u8]
}

/// Nothing, or `e` / `E`, an optional sign and at least one digit, up to the end.
pub open spec fn is_exponent(s: Seq<u8>, i: int) -> bool {
    i == s.len() || (0 <= i < s.len() && lower(s[i]) == 101 && {
        let j = if i + 1 < s.len() && is_sign(s[i + 1]) {
            i + 2
        } else {
            i + 1
        };
        j < s.len() && digits_end(s, j) == s.len()
    })
}

/// Digits with an optional decimal point, at least one digit in all, then an
/// optional exponent.
pub open spec fn is_plain_number(s: Seq<u8>) -> bool {
    let a = digits_end(s, 0);
    if a < s.len() && s[a] == 46 {
        let b = digits_end(s, a + 1);
        (a > 0 || b > a + 1) && is_exponent(s, b)
    } else {
        a > 0 && is_exponent(s, a)
    }
}

/// The text that Rust's `str::parse` accepts as a floating-point number: an
/// optional sign, then a special name or a plain number.
pub open spec fn is_decimal(s: Seq<u8>) -> bool {
    let body = if s.len() > 0 && is_sign(s[0]) {
        s.subrange(1, s.len() as int)
    } else {
        s
    };
    is_special_number(body) || is_plain_number(body)
}

/// `text` is the text of token `token`, `names` the names bound so far, in
/// binding order. The whole expression, with an optional pair of brackets
/// around it.
pub open spec fn expression_term(
    text: Seq<u8>,
    token: usize,
    names: Seq<Seq<u8>>,
    lo: int,
    hi: int,
) -> Result<Term, Span> {
    if !(0 <= lo <= hi <= text.len()) {
        Err(Span { token, start: lo as usize, end: hi as usize })
    } else {
        let l = skip_spaces(text, lo, hi);
        let h = drop_spaces(text, l, hi);
        if h - l >= 2 && text[l] == 91 && text[h - 1] == 93 {
            sum_term(text, token, names, l + 1, h - 1)
        } else {
            sum_term(text, token, names, l, h)
        }
    }
}

/// Lowest precedence: split at the rightmost `+` or `-` at depth zero; a
/// leading `-` with no such operator after it negates the whole product.
pub open spec fn sum_term(text: Seq<u8>, token: usize, names: Seq<Seq<u8>>, lo: int, hi: int) -> Result<
    Term,
    Span,
>
    decreases hi - lo, 2int,
{
    if !(0 <= lo <= hi <= text.len()) {
        Err(Span { token, start: lo as usize, end: hi as usize })
    } else {
        proof {
            lemma_skip_spaces(text, lo, hi);
            lemma_drop_spaces(text, skip_spaces(text, lo, hi), hi);
        }
        let l = skip_spaces(text, lo, hi);
        let h = drop_spaces(text, l, hi);
        let p = if l < h {
            rightmost_op(text, l, h, 0, false)
        } else {
            l
        };
        proof {
            if l < h {
                lemma_rightmost_op(text, l, h, 0, false);
            }
        }
        if l < h && text[l] == 45 && p == l {
            match product_term(text, token, names, l + 1, h) {
                Ok(t) => Ok(Term::Neg(Box::new(t))),
                Err(e) => Err(e),
            }
        } else if p > l {
            match sum_term(text, token, names, l, p) {
                Err(e) => Err(e),
                Ok(a) => match product_term(text, token, names, p + 1, h) {
                    Err(e) => Err(e),
                    Ok(b) => if text[p] == 43 {
                        Ok(Term::Add(Box::new(a), Box::new(b)))
                    } else {
                        Ok(Term::Sub(Box::new(a), Box::new(b)))
                    },
                },
            }
        } else {
            product_term(text, token, names, l, h)
        }
    }
}

/// Middle precedence: split at the rightmost `*` or `/` at depth zero.
pub open spec fn product_term(
    text: Seq<u8>,
    token: usize,
    names: Seq<Seq<u8>>,
    lo: int,
    hi: int,
) -> Result<Term, Span>
    decreases hi - lo, 1int,
{
    if !(0 <= lo <= hi <= text.len()) {
        Err(Span { token, start: lo as usize, end: hi as usize })
    } else {
        proof {
            lemma_skip_spaces(text, lo, hi);
            lemma_drop_spaces(text, skip_spaces(text, lo, hi), hi);
        }
        let l = skip_spaces(text, lo, hi);
        let h = drop_spaces(text, l, hi);
        let p = if l < h {
            rightmost_op(text, l, h, 0, true)
        } else {
            l
        };
        proof {
            if l < h {
                lemma_rightmost_op(text, l, h, 0, true);
            }
        }
        if p > l {
            match product_term(text, token, names, l, p) {
                Err(e) => Err(e),
                Ok(a) => match factor_term(text, token, names, p + 1, h) {
                    Err(e) => Err(e),
                    Ok(b) => if text[p] == 42 {
                        Ok(Term::Mul(Box::new(a), Box::new(b)))
                    } else {
                        Ok(Term::Div(Box::new(a), Box::new(b)))
                    },
                },
            }
        } else {
            factor_term(text, token, names, l, h)
        }
    }
}

/// Highest precedence: `( expr )`, `-( expr )`, or an operand.
pub open spec fn factor_term(
    text: Seq<u8>,
    token: usize,
    names: Seq<Seq<u8>>,
    lo: int,
    hi: int,
) -> Result<Term, Span>
    decreases hi - lo, 0int,
{
    if !(0 <= lo <= hi <= text.len()) {
        Err(Span { token, start: lo as usize, end: hi as usize })
    } else {
        proof {
            lemma_skip_spaces(text, lo, hi);
            lemma_drop_spaces(text, skip_spaces(text, lo, hi), hi);
        }
        let l = skip_spaces(text, lo, hi);
        let h = drop_spaces(text, l, hi);
        if h - l >= 2 && text[l] == 40 && text[h - 1] == 41 {
            sum_term(text, token, names, l + 1, h - 1)
        } else if h - l >= 3 && text[l] == 45 && text[l + 1] == 40 && text[h - 1] == 41 {
            match sum_term(text, token, names, l + 2, h - 1) {
                Ok(t) => Ok(Term::Neg(Box::new(t))),
                Err(e) => Err(e),
            }
        } else {
            operand_term(text, token, names, l, h)
        }
    }
}

/// A variable name, a decimal literal, or `-` and a variable name, in that
/// order of preference; anything else is an unknown operand.
pub open spec fn operand_term(
    text: Seq<u8>,
    token: usize,
    names: Seq<Seq<u8>>,
    l: int,
    h: int,
) -> Result<Term, Span> {
    let o = text.subrange(l, h);
    match find_name(names, o) {
        Some(k) => Ok(Term::Var(k as usize)),
        None => if is_decimal(o) {
            Ok(Term::Literal(Span { token, start: l as usize, end: h as usize }))
        } else if l < h && text[l] == 45 && find_name(names, text.subrange(l + 1, h)) is Some {
            Ok(Term::Neg(Box::new(Term::Var(find_name(names, text.subrange(l + 1, h))->0 as usize))))
        } else {
            Err(Span { token, start: l as usize, end: h as usize })
        },
    }
}

/// A bound variable: its declaration head is the token `head` (`@name`), and
/// its value is `value`.
#[derive(Debug)]
pub struct Binding {
    pub head: usize,
    pub value: Term,
}

/// The name declared by the head token at `h`: its text without the sigil.
pub open spec fn head_name(toks: Seq<jomini::TextToken>, h: int) -> Seq<u8> {
    let t = unquoted(toks[h]);
    t.subrange(1, t.len() as int)
}

pub open spec fn var_names(toks: Seq<jomini::TextToken>, vars: Seq<Binding>) -> Seq<Seq<u8>> {
    Seq::new(vars.len(), |k: int| head_name(toks, vars[k].head as int))
}

/// Each binding's head is an unquoted token of the stream that holds the sigil.
pub open spec fn heads_valid(toks: Seq<jomini::TextToken>, vars: Seq<Binding>) -> bool {
    forall|k: int|
        #![trigger vars[k]]
        0 <= k < vars.len() ==> {
            &&& vars[k].head < toks.len()
            &&& toks[vars[k].head as int] is Unquoted
            &&& unquoted(toks[vars[k].head as int]).len() >= 1
        }
}

pub fn same_bytes(a: &[u8], alo: usize, ahi: usize, b: &[u8], blo: usize, bhi: usize) -> (r: bool)
    requires
        alo <= ahi <= a@.len(),
        blo <= bhi <= b@.len(),
    ensures
        r == (a@.subrange(alo as int, ahi as int) == b@.subrange(blo as int, bhi as int)),
{
    if ahi - alo != bhi - blo {
        assert(a@.subrange(alo as int, ahi as int).len() != b@.subrange(blo as int, bhi as int).len());
        return false;
    }
    let mut k: usize = 0;
    while k < ahi - alo
        invariant
            alo <= ahi <= a@.len(),
            blo <= bhi <= b@.len(),
            ahi - alo == bhi - blo,
            0 <= k <= ahi - alo,
            forall|j: int| 0 <= j < k ==> #[trigger] a@[alo + j] == b@[blo + j],
        decreases ahi - alo - k,
    {
        if a[alo + k] != b[blo + k] {
            assert(a@.subrange(alo as int, ahi as int)[k as int] != b@.subrange(
                blo as int,
                bhi as int,
            )[k as int]);
            return false;
        }
        k += 1;
    }
    assert forall|j: int| 0 <= j < ahi - alo implies a@.subrange(alo as int, ahi as int)[j]
        == b@.subrange(blo as int, bhi as int)[j] by {
        assert(a@[alo + j] == b@[blo + j]);
    }
    assert(a@.subrange(alo as int, ahi as int) =~= b@.subrange(blo as int, bhi as int));
    true
}

/// The position in the variable table of the name `s[lo..hi]`.
pub fn find_variable(
    toks: &[jomini::TextToken],
    vars: &Vec<Binding>,
    s: &[u8],
    lo: usize,
    hi: usize,
) -> (r: Option<usize>)
    requires
        heads_valid(toks@, vars@),
        lo <= hi <= s@.len(),
    ensures
        match r {
            Some(k) => find_name(var_names(toks@, vars@), s@.subrange(lo as int, hi as int)) == Some(
                k as int,
            ),
            None => find_name(var_names(toks@, vars@), s@.subrange(lo as int, hi as int)) is None,
        },
{
    let ghost names = var_names(toks@, vars@);
    let ghost o = s@.subrange(lo as int, hi as int);
    let mut k: usize = 0;
    while k < vars.len()
        invariant
            0 <= k <= vars.len(),
            heads_valid(toks@, vars@),
            lo <= hi <= s@.len(),
            names == var_names(toks@, vars@),
            o == s@.subrange(lo as int, hi as int),
            find_name_from(names, o, 0) == find_name_from(names, o, k as int),
        decreases vars.len() - k,
    {
        let head = vars[k].head;
        assert(toks@[head as int] is Unquoted);
        match unquoted_text(&toks[head]) {
            Some(b) => {
                if same_bytes(b, 1, b.len(), s, lo, hi) {
                    return Some(k);
                }
            },
            None => {},
        }
        k += 1;
    }
    None
}

fn space(c: u8) -> (r: bool)
    ensures
        r == is_space(c),
{
    c == 9 || c == 10 || c == 11 || c == 12 || c == 13 || c == 32
}

fn wide_space(a: u8, b: u8, c: u8) -> (r: bool)
    ensures
        r == is_wide_space(a, b, c),
{
    (a == 0xE1 && b == 0x9A && c == 0x80) || (a == 0xE2 && b == 0x80 && ((0x80 <= c && c <= 0x8A)
        || c == 0xA8 || c == 0xA9 || c == 0xAF)) || (a == 0xE2 && b == 0x81 && c == 0x9F) || (a
        == 0xE3 && b == 0x80 && c == 0x80)
}

fn space_len_at(s: &[u8], i: usize, hi: usize) -> (r: usize)
    requires
        i <= hi <= s@.len(),
    ensures
        r as int == space_at(s@, i as int, hi as int),
{
    if i < hi && space(s[i]) {
        1
    } else if hi - i >= 2 && s[i] == 0xC2 && (s[i + 1] == 0x85 || s[i + 1] == 0xA0) {
        2
    } else if hi - i >= 3 && wide_space(s[i], s[i + 1], s[i + 2]) {
        3
    } else {
        0
    }
}

fn space_len_before(s: &[u8], lo: usize, h: usize) -> (r: usize)
    requires
        lo <= h <= s@.len(),
    ensures
        r as int == space_before(s@, lo as int, h as int),
{
    if lo < h && space(s[h - 1]) {
        1
    } else if h - lo >= 2 && s[h - 2] == 0xC2 && (s[h - 1] == 0x85 || s[h - 1] == 0xA0) {
        2
    } else if h - lo >= 3 && wide_space(s[h - 3], s[h - 2], s[h - 1]) {
        3
    } else {
        0
    }
}

/// The range `lo..hi` without its leading and trailing White_Space.
pub fn trim(s: &[u8], lo: usize, hi: usize) -> (r: (usize, usize))
    requires
        lo <= hi <= s@.len(),
    ensures
        r.0 == skip_spaces(s@, lo as int, hi as int),
        r.1 == drop_spaces(s@, r.0 as int, hi as int),
        lo <= r.0 <= r.1 <= hi,
{
    let mut l = lo;
    loop
        invariant
            lo <= l <= hi <= s@.len(),
            skip_spaces(s@, lo as int, hi as int) == skip_spaces(s@, l as int, hi as int),
        ensures
            lo <= l <= hi,
            skip_spaces(s@, lo as int, hi as int) == l as int,
        decreases hi - l,
    {
        let k = space_len_at(s, l, hi);
        if l >= hi || k == 0 {
            break;
        }
        l += k;
    }
    let mut h = hi;
    loop
        invariant
            l <= h <= hi <= s@.len(),
            drop_spaces(s@, l as int, hi as int) == drop_spaces(s@, l as int, h as int),
        ensures
            l <= h <= hi,
            drop_spaces(s@, l as int, hi as int) == h as int,
        decreases h,
    {
        let k = space_len_before(s, l, h);
        if l >= h || k == 0 {
            break;
        }
        h -= k;
    }
    (l, h)
}

fn op_of(c: u8, product: bool) -> (r: bool)
    ensures
        r == is_op(c, product),
{
    if product {
        c == 42 || c == 47
    } else {
        c == 43 || c == 45
    }
}

/// The split point of `s[l..h]` for one precedence level, or `l`.
pub fn find_split(s: &[u8], l: usize, h: usize, product: bool) -> (r: usize)
    requires
        l < h <= s@.len(),
    ensures
        r as int == rightmost_op(s@, l as int, h as int, 0, product),
{
    let mut i = h;
    let mut closes: usize = 0;
    let mut opens: usize = 0;
    while i > l + 1
        invariant
            l < i <= h <= s@.len(),
            closes <= h - i,
            opens <= h - i,
            rightmost_op(s@, l as int, h as int, 0, product) == rightmost_op(
                s@,
                l as int,
                i as int,
                closes - opens,
                product,
            ),
        decreases i,
    {
        let c = s[i - 1];
        if c == 41 {
            closes += 1;
        } else if c == 40 {
            opens += 1;
        } else if closes == opens && op_of(c, product) {
            return i - 1;
        }
        i -= 1;
    }
    l
}

pub fn copy_range(s: &[u8], lo: usize, hi: usize) -> (r: Vec<u8>)
    requires
        lo <= hi <= s@.len(),
    ensures
        r@ == s@.subrange(lo as int, hi as int),
{
    let mut r: Vec<u8> = Vec::new();
    let mut k = lo;
    while k < hi
        invariant
            lo <= k <= hi <= s@.len(),
            r@ == s@.subrange(lo as int, k as int),
        decreases hi - k,
    {
        r.push(s[k]);
        assert(r@ =~= s@.subrange(lo as int, k + 1));
        k += 1;
    }
    r
}

fn digit(c: u8) -> (r: bool)
    ensures
        r == is_digit(c),
{
    48 <= c && c <= 57
}

fn lower_byte(c: u8) -> (r: u8)
    ensures
        r == lower(c),
{
    if 65 <= c && c <= 90 {
        c + 32
    } else {
        c
    }
}

fn skip_digits(s: &Vec<u8>, i: usize) -> (r: usize)
    requires
        i <= s@.len(),
    ensures
        r as int == digits_end(s@, i as int),
        i <= r <= s@.len(),
{
    let mut j = i;
    while j < s.len() && digit(s[j])
        invariant
            i <= j <= s@.len(),
            digits_end(s@, i as int) == digits_end(s@, j as int),
        decreases s@.len() - j,
    {
        j += 1;
    }
    j
}

fn lowered_bytes(s: &Vec<u8>) -> (r: Vec<u8>)
    ensures
        r@ == lowered(s@),
{
    let mut r: Vec<u8> = Vec::new();
    let mut k: usize = 0;
    while k < s.len()
        invariant
            k <= s@.len(),
            r@ == lowered(s@.subrange(0, k as int)),
        decreases s@.len() - k,
    {
        r.push(lower_byte(s[k]));
        assert(r@ =~= lowered(s@.subrange(0, k + 1)));
        k += 1;
    }
    assert(s@.subrange(0, s@.len() as int) =~= s@);
    r
}

fn special_number(s: &Vec<u8>) -> (r: bool)
    ensures
        r == is_special_number(s@),
{
    let l = lowered_bytes(s);
    let inf: Vec<u8> = vec![105u8, 110u8, 102u8];
    let infinity: Vec<u8> = vec![105u8, 110u8, 102u8, 105u8, 110u8, 105u8, 116u8, 121u8];
    let nan: Vec<u8> = vec![110u8, 97u8, 110u8];
    proof {
        assert(inf@ =~= seq![105u8, 110u8, 102u8]);
        assert(infinity@ =~= seq![105u8, 110u8, 102u8, 105u8, 110u8, 105u8, 116u8, 121u8]);
        assert(nan@ =~= seq![110u8, 97u8, 110u8]);
        assert(l@ =~= l@.subrange(0, l@.len() as int));
        assert(inf@ =~= inf@.subrange(0, inf@.len() as int));
        assert(infinity@ =~= infinity@.subrange(0, infinity@.len() as int));
        assert(nan@ =~= nan@.subrange(0, nan@.len() as int));
    }
    same_bytes(l.as_slice(), 0, l.len(), inf.as_slice(), 0, inf.len()) || same_bytes(
        l.as_slice(),
        0,
        l.len(),
        infinity.as_slice(),
        0,
        infinity.len(),
    ) || same_bytes(l.as_slice(), 0, l.len(), nan.as_slice(), 0, nan.len())
}

fn exponent(s: &Vec<u8>, i: usize) -> (r: bool)
    requires
        i <= s@.len(),
    ensures
        r == is_exponent(s@, i as int),
{
    if i == s.len() {
        return true;
    }
    if lower_byte(s[i]) != 101 {
        return false;
    }
    let j = if i + 1 < s.len() && (s[i + 1] == 43 || s[i + 1] == 45) {
        i + 2
    } else {
        i + 1
    };
    j < s.len() && skip_digits(s, j) == s.len()
}

fn plain_number(s: &Vec<u8>) -> (r: bool)
    ensures
        r == is_plain_number(s@),
{
    let a = skip_digits(s, 0);
    if a < s.len() && s[a] == 46 {
        let b = skip_digits(s, a + 1);
        (a > 0 || b > a + 1) && exponent(s, b)
    } else {
        a > 0 && exponent(s, a)
    }
}

/// Whether `s[lo..hi]` is a decimal literal that Rust's `str::parse` reads.
pub fn decimal(s: &[u8], lo: usize, hi: usize) -> (r: bool)
    requires
        lo <= hi <= s@.len(),
    ensures
        r == is_decimal(s@.subrange(lo as int, hi as int)),
{
    let o = copy_range(s, lo, hi);
    let body = if o.len() > 0 && (o[0] == 43 || o[0] == 45) {
        copy_range(o.as_slice(), 1, o.len())
    } else {
        o
    };
    special_number(&body) || plain_number(&body)
}

/// Parses the expression `s[lo..hi]` of token `token`, against the variables
/// bound so far.
pub fn parse_expression(
    s: &[u8],
    token: usize,
    toks: &[jomini::TextToken],
    vars: &Vec<Binding>,
    lo: usize,
    hi: usize,
) -> (r: Result<Term, Span>)
    requires
        lo <= hi <= s@.len(),
        heads_valid(toks@, vars@),
    ensures
        r == expression_term(s@, token, var_names(toks@, vars@), lo as int, hi as int),
{
    let (l, h) = trim(s, lo, hi);
    if h - l >= 2 && s[l] == 91 && s[h - 1] == 93 {
        parse_sum(s, token, toks, vars, l + 1, h - 1)
    } else {
        parse_sum(s, token, toks, vars, l, h)
    }
}

fn parse_sum(
    s: &[u8],
    token: usize,
    toks: &[jomini::TextToken],
    vars: &Vec<Binding>,
    lo: usize,
    hi: usize,
) -> (r: Result<Term, Span>)
    requires
        lo <= hi <= s@.len(),
        heads_valid(toks@, vars@),
    ensures
        r == sum_term(s@, token, var_names(toks@, vars@), lo as int, hi as int),
    decreases hi - lo, 2int,
{
    let (l, h) = trim(s, lo, hi);
    let p = if l < h {
        find_split(s, l, h, false)
    } else {
        l
    };
    proof {
        if l < h {
            lemma_rightmost_op(s@, l as int, h as int, 0, false);
        }
    }
    if l < h && s[l] == 45 && p == l {
        match parse_product(s, token, toks, vars, l + 1, h) {
            Ok(t) => Ok(Term::Neg(Box::new(t))),
            Err(e) => Err(e),
        }
    } else if p > l {
        match parse_sum(s, token, toks, vars, l, p) {
            Err(e) => Err(e),
            Ok(a) => match parse_product(s, token, toks, vars, p + 1, h) {
                Err(e) => Err(e),
                Ok(b) => if s[p] == 43 {
                    Ok(Term::Add(Box::new(a), Box::new(b)))
                } else {
                    Ok(Term::Sub(Box::new(a), Box::new(b)))
                },
            },
        }
    } else {
        parse_product(s, token, toks, vars, l, h)
    }
}

fn parse_product(
    s: &[u8],
    token: usize,
    toks: &[jomini::TextToken],
    vars: &Vec<Binding>,
    lo: usize,
    hi: usize,
) -> (r: Result<Term, Span>)
    requires
        lo <= hi <= s@.len(),
        heads_valid(toks@, vars@),
    ensures
        r == product_term(s@, token, var_names(toks@, vars@), lo as int, hi as int),
    decreases hi - lo, 1int,
{
    let (l, h) = trim(s, lo, hi);
    let p = if l < h {
        find_split(s, l, h, true)
    } else {
        l
    };
    proof {
        if l < h {
            lemma_rightmost_op(s@, l as int, h as int, 0, true);
        }
    }
    if p > l {
        match parse_product(s, token, toks, vars, l, p) {
            Err(e) => Err(e),
            Ok(a) => match parse_factor(s, token, toks, vars, p + 1, h) {
                Err(e) => Err(e),
                Ok(b) => if s[p] == 42 {
                    Ok(Term::Mul(Box::new(a), Box::new(b)))
                } else {
                    Ok(Term::Div(Box::new(a), Box::new(b)))
                },
            },
        }
    } else {
        parse_factor(s, token, toks, vars, l, h)
    }
}

fn parse_factor(
    s: &[u8],
    token: usize,
    toks: &[jomini::TextToken],
    vars: &Vec<Binding>,
    lo: usize,
    hi: usize,
) -> (r: Result<Term, Span>)
    requires
        lo <= hi <= s@.len(),
        heads_valid(toks@, vars@),
    ensures
        r == factor_term(s@, token, var_names(toks@, vars@), lo as int, hi as int),
    decreases hi - lo, 0int,
{
    let (l, h) = trim(s, lo, hi);
    if h - l >= 2 && s[l] == 40 && s[h - 1] == 41 {
        parse_sum(s, token, toks, vars, l + 1, h - 1)
    } else if h - l >= 3 && s[l] == 45 && s[l + 1] == 40 && s[h - 1] == 41 {
        match parse_sum(s, token, toks, vars, l + 2, h - 1) {
            Ok(t) => Ok(Term::Neg(Box::new(t))),
            Err(e) => Err(e),
        }
    } else {
        parse_operand(s, token, toks, vars, l, h)
    }
}

fn parse_operand(
    s: &[u8],
    token: usize,
    toks: &[jomini::TextToken],
    vars: &Vec<Binding>,
    l: usize,
    h: usize,
) -> (r: Result<Term, Span>)
    requires
        l <= h <= s@.len(),
        heads_valid(toks@, vars@),
    ensures
        r == operand_term(s@, token, var_names(toks@, vars@), l as int, h as int),
{
    match find_variable(toks, vars, s, l, h) {
        Some(k) => Ok(Term::Var(k)),
        None => {
            if decimal(s, l, h) {
                Ok(Term::Literal(Span { token, start: l, end: h }))
            } else if l < h && s[l] == 45 {
                match find_variable(toks, vars, s, l + 1, h) {
                    Some(k) => Ok(Term::Neg(Box::new(Term::Var(k)))),
                    None => Err(Span { token, start: l, end: h }),
                }
            } else {
                Err(Span { token, start: l, end: h })
            }
        },
    }
}

} // verus!
