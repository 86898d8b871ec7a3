//! Removing declarations from a materialized tape: each declared key goes with
//! its operator and its value, and the container pointers that remain are
//! renumbered.

use vstd::prelude::*;

use crate::expr::Binding;
use crate::materialize::{MaterializedTape, TapeToken};
use crate::tape::Shape;

verus! {

pub open spec fn tape_shape(t: TapeToken) -> Shape {
    match t {
        TapeToken::Array { end, .. } => Shape::Open(end as int),
        TapeToken::Object { end, .. } => Shape::Open(end as int),
        TapeToken::End(start) => Shape::Close(start as int),
        _ => Shape::Leaf,
    }
}

/// The strings that the declarations' heads hold, from binding `k` on.
pub open spec fn declared_from(vars: Seq<Binding>, toks: Seq<TapeToken>, k: int) -> Seq<usize>
    decreases vars.len() - k,
{
    if k < 0 || k >= vars.len() {
        Seq::empty()
    } else {
        let h = vars[k].head as int;
        let rest = declared_from(vars, toks, k + 1);
        if h < toks.len() && toks[h] is Unquoted {
            seq![toks[h]->Unquoted_0].add(rest)
        } else {
            rest
        }
    }
}

/// The string positions of the declaration heads of `vars` in `toks`.
pub fn declared_slots(vars: &Vec<Binding>, toks: &Vec<TapeToken>) -> (d: Vec<usize>)
    ensures
        d@ == declared_from(vars@, toks@, 0),
{
    let mut d: Vec<usize> = Vec::new();
    let mut k: usize = 0;
    while k < vars.len()
        invariant
            k <= vars@.len(),
            declared_from(vars@, toks@, 0) == d@.add(declared_from(vars@, toks@, k as int)),
        decreases vars@.len() - k,
    {
        let ghost before = d@;
        let h = vars[k].head;
        if h < toks.len() {
            match toks[h] {
                TapeToken::Unquoted(s) => {
                    d.push(s);
                    assert(d@.add(declared_from(vars@, toks@, k + 1)) =~= before.add(
                        declared_from(vars@, toks@, k as int),
                    ));
                },
                _ => {},
            }
        }
        k += 1;
    }
    assert(d@.add(declared_from(vars@, toks@, k as int)) =~= d@);
    d
}

/// An unquoted key whose string is declared.
pub open spec fn is_declared(decl: Seq<usize>, t: TapeToken) -> bool {
    t matches TapeToken::Unquoted(s) && decl.contains(s)
}

/// One past the last token of the value that starts at `v`: a container runs
/// through its `End`, a header through the container after it; an `End` or a
/// mixed-container marker is no value.
pub open spec fn value_end(toks: Seq<TapeToken>, v: int) -> int {
    let n = toks.len() as int;
    match toks[v] {
        TapeToken::Array { end, .. } => if v < end < n {
            end + 1
        } else {
            v + 1
        },
        TapeToken::Object { end, .. } => if v < end < n {
            end + 1
        } else {
            v + 1
        },
        TapeToken::Header(_) => if v + 1 < n && tape_shape(toks[v + 1]) is Open && v + 1
            < tape_shape(toks[v + 1])->Open_0 < n {
            tape_shape(toks[v + 1])->Open_0 + 1
        } else {
            v + 1
        },
        TapeToken::End(_) => v,
        TapeToken::MixedContainer => v,
        _ => v + 1,
    }
}

/// One past the last token of the declaration whose key is at `i`: the key,
/// an optional operator, and the value.
pub open spec fn run_end(toks: Seq<TapeToken>, i: int) -> int {
    let v = if i + 1 < toks.len() && toks[i + 1] is Operator {
        i + 2
    } else {
        i + 1
    };
    if v >= toks.len() {
        toks.len() as int
    } else {
        value_end(toks, v)
    }
}

/// The positions from `i` on that survive the filter.
pub open spec fn kept(toks: Seq<TapeToken>, decl: Seq<usize>, i: int) -> Seq<usize>
    decreases toks.len() - i,
{
    if i < 0 || i >= toks.len() {
        Seq::empty()
    } else if is_declared(decl, toks[i]) {
        kept(toks, decl, run_end(toks, i))
    } else {
        seq![i as usize].add(kept(toks, decl, i + 1))
    }
}

/// The new position of the token at `x`, or `x` when it was removed.
pub open spec fn renumber(k: Seq<usize>, x: usize) -> usize {
    if k.contains(x) {
        k.index_of(x) as usize
    } else {
        x
    }
}

/// The surviving token with its pointers renumbered, and `==` and `?=`
/// turned into plain assignment.
pub open spec fn normalized(t: TapeToken, k: Seq<usize>) -> TapeToken {
    match t {
        TapeToken::Array { end, mixed } => TapeToken::Array { end: renumber(k, end), mixed },
        TapeToken::Object { end, mixed } => TapeToken::Object { end: renumber(k, end), mixed },
        TapeToken::End(start) => TapeToken::End(renumber(k, start)),
        TapeToken::Operator(jomini::text::Operator::Exact) => TapeToken::Operator(
            jomini::text::Operator::Equal,
        ),
        TapeToken::Operator(jomini::text::Operator::Exists) => TapeToken::Operator(
            jomini::text::Operator::Equal,
        ),
        _ => t,
    }
}

pub open spec fn filtered(toks: Seq<TapeToken>, decl: Seq<usize>) -> Seq<TapeToken> {
    let k = kept(toks, decl, 0);
    Seq::new(k.len(), |j: int| normalized(toks[k[j] as int], k))
}

fn contains_slot(decl: &Vec<usize>, s: usize) -> (r: bool)
    ensures
        r == decl@.contains(s),
{
    let mut j: usize = 0;
    while j < decl.len()
        invariant
            j <= decl@.len(),
            forall|q: int| 0 <= q < j ==> decl@[q] != s,
        decreases decl@.len() - j,
    {
        if decl[j] == s {
            return true;
        }
        j += 1;
    }
    false
}

fn declared_at(toks: &Vec<TapeToken>, decl: &Vec<usize>, i: usize) -> (r: bool)
    requires
        i < toks@.len(),
    ensures
        r == is_declared(decl@, toks@[i as int]),
{
    match toks[i] {
        TapeToken::Unquoted(s) => contains_slot(decl, s),
        _ => false,
    }
}

fn value_end_at(toks: &Vec<TapeToken>, v: usize) -> (r: usize)
    requires
        v < toks@.len(),
    ensures
        r as int == value_end(toks@, v as int),
        v <= r <= toks@.len(),
{
    let n = toks.len();
    match toks[v] {
        TapeToken::Array { end, .. } => if v < end && end < n {
            end + 1
        } else {
            v + 1
        },
        TapeToken::Object { end, .. } => if v < end && end < n {
            end + 1
        } else {
            v + 1
        },
        TapeToken::Header(_) => {
            if v + 1 < n {
                match toks[v + 1] {
                    TapeToken::Array { end, .. } => if v + 1 < end && end < n {
                        end + 1
                    } else {
                        v + 1
                    },
                    TapeToken::Object { end, .. } => if v + 1 < end && end < n {
                        end + 1
                    } else {
                        v + 1
                    },
                    _ => v + 1,
                }
            } else {
                v + 1
            }
        },
        TapeToken::End(_) => v,
        TapeToken::MixedContainer => v,
        _ => v + 1,
    }
}

fn run_end_at(toks: &Vec<TapeToken>, i: usize) -> (r: usize)
    requires
        i < toks@.len(),
    ensures
        r as int == run_end(toks@, i as int),
        i < r <= toks@.len(),
{
    let n = toks.len();
    let v = if i + 1 < n && matches!(toks[i + 1], TapeToken::Operator(_)) {
        i + 2
    } else {
        i + 1
    };
    if v >= n {
        n
    } else {
        value_end_at(toks, v)
    }
}

/// `renumber` read off the table from old positions to new ones.
pub open spec fn by_map(map: Seq<Option<usize>>, x: usize) -> usize {
    if x < map.len() && map[x as int] is Some {
        map[x as int]->0
    } else {
        x
    }
}

/// `map` sends each surviving position to its place in `k`, which increases.
pub open spec fn renumbering(map: Seq<Option<usize>>, k: Seq<usize>) -> bool {
    &&& forall|j: int|
        #![trigger k[j]]
        0 <= j < k.len() ==> k[j] < map.len() && map[k[j] as int] == Some(j as usize)
    &&& forall|j1: int, j2: int| 0 <= j1 < j2 < k.len() ==> #[trigger] k[j1] < #[trigger] k[j2]
    &&& forall|x: int|
        #![trigger map[x]]
        0 <= x < map.len() && map[x] is Some ==> map[x]->0 < k.len() && k[map[x]->0 as int]
            == x
}

proof fn lemma_by_map(map: Seq<Option<usize>>, k: Seq<usize>, x: usize)
    requires
        renumbering(map, k),
    ensures
        by_map(map, x) == renumber(k, x),
{
    if x < map.len() && map[x as int] is Some {
        let j = map[x as int]->0 as int;
        assert(k[j] == x);
        assert(k.contains(x));
        let c = k.index_of(x);
        if c < j {
            assert(k[c] < k[j]);
        } else if c > j {
            assert(k[j] < k[c]);
        }
    } else if k.contains(x) {
        let j = choose|j: int| 0 <= j < k.len() && k[j] == x;
        assert(map[k[j] as int] == Some(j as usize));
    }
}

fn renumbered(map: &Vec<Option<usize>>, x: usize) -> (r: usize)
    ensures
        r == by_map(map@, x),
{
    if x < map.len() {
        match map[x] {
            Some(j) => j,
            None => x,
        }
    } else {
        x
    }
}

fn normalize(t: TapeToken, map: &Vec<Option<usize>>, Ghost(k): Ghost<Seq<usize>>) -> (r: TapeToken)
    requires
        renumbering(map@, k),
    ensures
        r == normalized(t, k),
{
    proof {
        match t {
            TapeToken::Array { end, .. } => lemma_by_map(map@, k, end),
            TapeToken::Object { end, .. } => lemma_by_map(map@, k, end),
            TapeToken::End(start) => lemma_by_map(map@, k, start),
            _ => {},
        }
    }
    match t {
        TapeToken::Array { end, mixed } => TapeToken::Array { end: renumbered(map, end), mixed },
        TapeToken::Object { end, mixed } => TapeToken::Object { end: renumbered(map, end), mixed },
        TapeToken::End(start) => TapeToken::End(renumbered(map, start)),
        TapeToken::Operator(op) => match op {
            jomini::text::Operator::Exact => TapeToken::Operator(jomini::text::Operator::Equal),
            jomini::text::Operator::Exists => TapeToken::Operator(jomini::text::Operator::Equal),
            _ => t,
        },
        _ => t,
    }
}

impl MaterializedTape {
    /// Removes every declaration whose key holds one of the strings at the
    /// positions `decl`, and renumbers the pointers of what remains.
    pub fn filter(self, decl: &Vec<usize>) -> (r: MaterializedTape)
        ensures
            r.owned_strings@ == self.owned_strings@,
            r.token_data@ == filtered(self.token_data@, decl@),
    {
        let MaterializedTape { owned_strings, token_data: toks } = self;
        let n = toks.len();
        let mut map: Vec<Option<usize>> = Vec::new();
        while map.len() < n
            invariant
                map@.len() <= n,
                forall|x: int| 0 <= x < map@.len() ==> #[trigger] map@[x] is None,
            decreases n - map@.len(),
        {
            map.push(None);
        }
        let mut positions: Vec<usize> = Vec::new();
        let mut i: usize = 0;
        assert(positions@.add(kept(toks@, decl@, 0)) =~= kept(toks@, decl@, 0));
        while i < n
            invariant
                i <= n,
                n == toks@.len(),
                map@.len() == n,
                kept(toks@, decl@, 0) == positions@.add(kept(toks@, decl@, i as int)),
                renumbering(map@, positions@),
                forall|j: int| 0 <= j < positions@.len() ==> #[trigger] positions@[j] < i,
                forall|x: int| i <= x < n ==> #[trigger] map@[x] is None,
            decreases n - i,
        {
            if declared_at(&toks, decl, i) {
                i = run_end_at(&toks, i);
            } else {
                let ghost before = positions@;
                let j = positions.len();
                map[i] = Some(j);
                positions.push(i);
                assert(positions@.add(kept(toks@, decl@, i + 1)) =~= before.add(
                    kept(toks@, decl@, i as int),
                ));
                assert forall|x: int|
                    #![trigger map@[x]]
                    0 <= x < map@.len() && map@[x] is Some implies map@[x]->0 < positions@.len()
                    && positions@[map@[x]->0 as int] == x by {
                    if x != i {
                        assert(map@[x]->0 < before.len());
                    }
                }
                i += 1;
            }
        }
        assert(positions@ =~= kept(toks@, decl@, 0));
        let ghost k = positions@;
        let mut out: Vec<TapeToken> = Vec::new();
        let mut j: usize = 0;
        while j < positions.len()
            invariant
                j <= positions@.len(),
                k == positions@,
                k == kept(toks@, decl@, 0),
                renumbering(map@, k),
                forall|x: int| 0 <= x < positions@.len() ==> #[trigger] positions@[x] < toks@.len(),
                out@.len() == j,
                forall|q: int|
                    0 <= q < j ==> #[trigger] out@[q] == normalized(toks@[k[q] as int], k),
            decreases positions@.len() - j,
        {
            let t = toks[positions[j]];
            out.push(normalize(t, &map, Ghost(k)));
            j += 1;
        }
        assert(out@ =~= filtered(toks@, decl@));
        MaterializedTape { owned_strings, token_data: out }
    }
}

} // verus!
