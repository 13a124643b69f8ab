//! Compiled paths over concrete index/bound lists, and read-only path
//! evaluation (`collect`).

use std::rc::Rc;
use vstd::prelude::*;

use crate::bounds::{abs_bound, abs_index, skip_take};
use crate::model::{
    bres_model, lemma_node_obj_find, node_as_int, node_obj_find, res_model, results_model, spec_collect_steps,
    spec_flat_collect, spec_index_one, spec_opt_collect, spec_part_collect, spec_path_collect,
    spec_prod, spec_range_collect, spec_range_one, spec_rel_bounds, spec_slice, PartM, ResM,
};
use crate::val::{
    entry_models_of, lemma_entry_models_of, lemma_models_of,
    lemma_models_of_push, lemma_obj_find_get, models_of, obj_find, rc_dup, spec_obj_find, value_model, ErrM, Error, Kind,
    Node, Opt, Value,
};

verus! {

/// One step of a path: an index step (one or more keys/positions) or a
/// range step (optional lower/upper bound sources; both absent means
/// the whole container).  `F` is the step's representation: a raw
/// sub-expression before evaluation, a concrete value list after.
#[derive(Debug)]
pub enum Part<F> {
    Index(F),
    /// if both are `None`, return iterator over whole array/object
    Range(Option<F>, Option<F>),
}

/// A compiled path: steps applied left to right, each with its policy.
#[derive(Debug)]
pub struct Path<F>(pub Vec<(Part<F>, Opt)>);

impl View for Part<Vec<Value>> {
    type V = PartM;

    open spec fn view(&self) -> PartM {
        match self {
            Part::Index(vs) => PartM::Index(models_of(vs@)),
            Part::Range(f, u) => PartM::Range(side_model(*f), side_model(*u)),
        }
    }
}

/// The model of one side of a concrete range step.
pub open spec fn side_model(f: Option<Vec<Value>>) -> Option<Seq<Node>> {
    match f {
        Some(vs) => Some(models_of(vs@)),
        None => None,
    }
}

impl View for Path<Vec<Value>> {
    type V = Seq<(PartM, Opt)>;

    open spec fn view(&self) -> Seq<(PartM, Opt)> {
        Seq::new(self.0@.len(), |i: int| (self.0@[i].0@, self.0@[i].1))
    }
}

/// The materialized bound candidates of one range side: each present
/// value must be an integer; an absent side is the one candidate "no
/// bound".
pub fn rel_bounds(f: &Option<Vec<Value>>) -> (r: Vec<Result<Option<isize>, Error>>)
    ensures
        bres_model(r@) == spec_rel_bounds(side_model(*f)),
{
    match f {
        Some(vs) => {
            let mut out: Vec<Result<Option<isize>, Error>> = Vec::new();
            let ghost target = spec_rel_bounds(side_model(*f));
            proof {
                lemma_models_of(vs@);
            }
            let mut i: usize = 0;
            while i < vs.len()
                invariant
                    i <= vs.len(),
                    out@.len() == i,
                    target == spec_rel_bounds(side_model(Some(*vs))),
                    models_of(vs@).len() == vs@.len(),
                    forall|j: int| 0 <= j < vs@.len() ==> models_of(vs@)[j] == value_model(vs@[j]),
                    forall|j: int|
                        0 <= j < i ==> #[trigger] bres_model(out@)[j] == target[j],
                decreases vs.len() - i,
            {
                let ghost prev = out@;
                match vs[i].as_int() {
                    Ok(n) => out.push(Ok(Some(n))),
                    Err(e) => out.push(Err(e)),
                }
                i += 1;
                proof {
                    assert forall|j: int|
                        0 <= j < i implies #[trigger] bres_model(out@)[j] == target[j] by {
                        if j < i - 1 {
                            assert(out@[j] == prev[j]);
                            assert(bres_model(prev)[j] == target[j]);
                        } else {
                            assert(out@[j] == out@.last());
                        }
                    }
                }
            }
            proof {
                assert(bres_model(out@) =~= target);
            }
            out
        },
        None => {
            let out: Vec<Result<Option<isize>, Error>> = vec![Ok(None)];
            proof {
                assert(bres_model(out@) =~= spec_rel_bounds(side_model(*f)));
            }
            out
        },
    }
}

/// A bound-candidate result copied for pairing.
fn bres_dup(r: &Result<Option<isize>, Error>) -> (d: Result<Option<isize>, Error>)
    ensures
        d == *r,
{
    match r {
        Ok(b) => Ok(*b),
        Err(e) => Err(e.dup()),
    }
}

/// Cartesian product of two bound-candidate lists, left candidate
/// outermost; the right list is finite and replayed once per left
/// candidate.
pub fn prod(l: &Vec<Result<Option<isize>, Error>>, r: &Vec<Result<Option<isize>, Error>>) -> (p:
    Vec<(Result<Option<isize>, Error>, Result<Option<isize>, Error>)>)
    ensures
        p@.len() == l@.len() * r@.len(),
        forall|a: int, b: int|
            0 <= a < l@.len() && 0 <= b < r@.len() ==> #[trigger] p@[a * r@.len() + b] == (
            l@[a],
            r@[b],
            ),
{
    let mut p: Vec<(Result<Option<isize>, Error>, Result<Option<isize>, Error>)> = Vec::new();
    let mut a: usize = 0;
    while a < l.len()
        invariant
            a <= l@.len(),
            p@.len() == a * r@.len(),
            forall|x: int, b: int|
                0 <= x < a && 0 <= b < r@.len() ==> #[trigger] p@[x * r@.len() + b] == (
                l@[x],
                r@[b],
                ),
        decreases l.len() - a,
    {
        let mut b: usize = 0;
        while b < r.len()
            invariant
                a < l@.len(),
                b <= r@.len(),
                p@.len() == a * r@.len() + b,
                forall|x: int, y: int|
                    0 <= x < a && 0 <= y < r@.len() ==> #[trigger] p@[x * r@.len() + y] == (
                    l@[x],
                    r@[y],
                    ),
                forall|y: int|
                    0 <= y < b ==> #[trigger] p@[a * r@.len() + y] == (l@[a as int], r@[y]),
            decreases r.len() - b,
        {
            p.push((bres_dup(&l[a]), bres_dup(&r[b])));
            b += 1;
            proof {
                assert forall|x: int, y: int|
                    0 <= x < a && 0 <= y < r@.len() implies #[trigger] (x * r@.len() + y) < a
                    * r@.len() by {
                    assert(x * r@.len() + y < a * r@.len()) by (nonlinear_arith)
                        requires
                            0 <= x,
                            x < a as int,
                            0 <= y,
                            y < r@.len(),
                    ;
                }
            }
        }
        proof {
            assert(a * r@.len() + r@.len() == (a + 1) * r@.len()) by (nonlinear_arith);
        }
        a += 1;
    }
    p
}

/// Read one index out of one container value; missing slots and keys
/// read as `Null`.
fn index_one(current: &Value, idx: &Value) -> (r: Result<Value, Error>)
    requires
        (*current)@ is Arr || (*current)@ is Obj,
    ensures
        res_model(r) == spec_index_one((*current)@, (*idx)@),
{
    match current {
        Value::Arr(a) => {
            let av: &Vec<Value> = &**a;
            proof {
                lemma_models_of(av@);
                assert((*current)@ == Node::Arr(models_of(av@)));
            }
            match idx.as_int() {
                Ok(i) => match abs_index(i, av.len()) {
                    Some(u) => {
                        let r = av[u].dup();
                        proof {
                            assert(models_of(av@)[u as int] == value_model(av@[u as int]));
                            assert(res_model(Ok(r)) == spec_index_one((*current)@, (*idx)@));
                        }
                        Ok(r)
                    },
                    None => {
                        proof {
                            assert(res_model(Ok(Value::Null)) == spec_index_one(
                                (*current)@,
                                (*idx)@,
                            ));
                        }
                        Ok(Value::Null)
                    },
                },
                Err(e) => Err(e),
            }
        },
        Value::Obj(o) => {
            let entries: &Vec<(Rc<Vec<char>>, Value)> = &**o;
            let n = entries.len();
            proof {
                assert(entries@.len() == n);
                lemma_entry_models_of(entries@);
                let ghost k = match (*idx)@ {
                    Node::Str(s) => s,
                    _ => arbitrary(),
                };
                lemma_node_obj_find(entries@, k);
                lemma_obj_find_get(entries@, k);
            }
            match idx {
                Value::Str(s) => match obj_find(entries, &**s) {
                    Some(i) => {
                        let r = entries[i].1.dup();
                        proof {
                            assert((*idx)@ == Node::Str(s@));
                            assert(Some(i) == match spec_obj_find(entries@, s@) {
                                Some(k) => Some(k as usize),
                                None => None::<usize>,
                            });
                            match spec_obj_find(entries@, s@) {
                                Some(k) => {
                                    assert(0 <= k < entries@.len());
                                    assert(k as usize == i);
                                    assert(k == i as int);
                                },
                                None => {
                                    assert(false);
                                },
                            }
                            assert((*current)@ == Node::Obj(entry_models_of(entries@)));
                            assert(node_obj_find(entry_models_of(entries@), s@) == spec_obj_find(
                                entries@,
                                s@,
                            ));
                            assert(spec_obj_find(entries@, s@) == Some(i as int));
                            assert(entry_models_of(entries@)[i as int].1 == value_model(
                                entries@[i as int].1,
                            ));
                            assert(res_model(Ok(r)) == spec_index_one((*current)@, (*idx)@));
                        }
                        Ok(r)
                    },
                    None => {
                        proof {
                            assert(res_model(Ok(Value::Null)) == spec_index_one(
                                (*current)@,
                                (*idx)@,
                            ));
                        }
                        Ok(Value::Null)
                    },
                },
                _ => Err(Error::Index(current.dup(), idx.dup())),
            }
        },
        _ => {
            proof {
                assert(false);
            }
            Ok(Value::Null)
        },
    }
}

/// Apply an index step's indices to one candidate container, one
/// branch per index, in index order.
fn index_collect(indices: &Vec<Value>, current: &Value) -> (r: Vec<Result<Value, Error>>)
    requires
        (*current)@ is Arr || (*current)@ is Obj,
    ensures
        results_model(r@) == Seq::new(
            indices@.len() as nat,
            |i: int| spec_index_one((*current)@, indices@[i]@),
        ),
{
    let mut out: Vec<Result<Value, Error>> = Vec::new();
    let mut i: usize = 0;
    while i < indices.len()
        invariant
            i <= indices@.len(),
            out@.len() == i,
            (*current)@ is Arr || (*current)@ is Obj,
            forall|j: int|
                0 <= j < i ==> #[trigger] res_model(out@[j]) == spec_index_one(
                    (*current)@,
                    indices@[j]@,
                ),
        decreases indices.len() - i,
    {
        let r = index_one(current, &indices[i]);
        out.push(r);
        i += 1;
    }
    proof {
        assert(results_model(out@) =~= Seq::new(
            indices@.len() as nat,
            |i: int| spec_index_one((*current)@, indices@[i]@),
        ));
    }
    out
}

/// A whole-container step on one candidate: every element of a
/// sequence, every value of a mapping in entry order; anything else
/// cannot be iterated.
fn iter_collect(current: Value) -> (r: Vec<Result<Value, Error>>)
    ensures
        results_model(r@) == spec_part_collect(PartM::Range(None, None), current@),
{
    let ghost cm = current@;
    match current {
        Value::Arr(a) => {
            let av: &Vec<Value> = &*a;
            proof {
                lemma_models_of(av@);
            }
            let mut out: Vec<Result<Value, Error>> = Vec::new();
            let mut i: usize = 0;
            while i < av.len()
                invariant
                    i <= av@.len(),
                    out@.len() == i,
                    cm == Node::Arr(models_of(av@)),
                    models_of(av@).len() == av@.len(),
                    forall|j: int| 0 <= j < av@.len() ==> models_of(av@)[j] == value_model(av@[j]),
                    forall|j: int|
                        0 <= j < i ==> #[trigger] res_model(out@[j]) == Ok::<Node, ErrM>(
                            models_of(av@)[j],
                        ),
                decreases av.len() - i,
            {
                out.push(Ok(av[i].dup()));
                i += 1;
            }
            proof {
                assert(results_model(out@) =~= spec_part_collect(PartM::Range(None, None), cm));
            }
            out
        },
        Value::Obj(o) => {
            let entries: &Vec<(Rc<Vec<char>>, Value)> = &*o;
            proof {
                lemma_entry_models_of(entries@);
            }
            let mut out: Vec<Result<Value, Error>> = Vec::new();
            let mut i: usize = 0;
            while i < entries.len()
                invariant
                    i <= entries@.len(),
                    out@.len() == i,
                    cm == Node::Obj(entry_models_of(entries@)),
                    entry_models_of(entries@).len() == entries@.len(),
                    forall|j: int|
                        0 <= j < entries@.len() ==> entry_models_of(entries@)[j] == (
                            entries@[j].0@,
                            value_model(entries@[j].1),
                        ),
                    forall|j: int|
                        0 <= j < i ==> #[trigger] res_model(out@[j]) == Ok::<Node, ErrM>(
                            entry_models_of(entries@)[j].1,
                        ),
                decreases entries.len() - i,
            {
                out.push(Ok(entries[i].1.dup()));
                i += 1;
            }
            proof {
                assert(results_model(out@) =~= spec_part_collect(PartM::Range(None, None), cm));
            }
            out
        },
        v => {
            let out: Vec<Result<Value, Error>> = vec![Err(Error::Type(v, Kind::Iter))];
            proof {
                assert(results_model(out@) =~= spec_part_collect(PartM::Range(None, None), cm));
            }
            out
        },
    }
}

/// A two-sided range step on one candidate: one slice per bound
/// combination on a sequence or string target, lower bound outermost;
/// anything else cannot be sliced.
fn range_collect(from: &Option<Vec<Value>>, until: &Option<Vec<Value>>, current: Value) -> (r: Vec<
    Result<Value, Error>,
>)
    requires
        !(*from is None && *until is None),
    ensures
        results_model(r@) == spec_part_collect(
            PartM::Range(side_model(*from), side_model(*until)),
            current@,
        ),
{
    let ghost cm = current@;
    let ghost pm = PartM::Range(side_model(*from), side_model(*until));
    match current {
        Value::Arr(a) => {
            let av: &Vec<Value> = &*a;
            proof {
                lemma_models_of(av@);
            }
            let out = range_slices(from, until, RangeTarget::Arr(rc_dup(&a)));
            proof {
                assert(results_model(out@) == spec_range_collect(pm, cm));
            }
            out
        },
        Value::Str(s) => {
            let out = range_slices(from, until, RangeTarget::Str(rc_dup(&s)));
            proof {
                assert(results_model(out@) == spec_range_collect(pm, cm));
            }
            out
        },
        v => {
            let out: Vec<Result<Value, Error>> = vec![Err(Error::Type(v, Kind::Range))];
            proof {
                assert(results_model(out@) =~= spec_part_collect(pm, cm));
            }
            out
        },
    }
}

/// A sliceable range target.
enum RangeTarget {
    Arr(Rc<Vec<Value>>),
    Str(Rc<Vec<char>>),
}

impl RangeTarget {
    /// The value this target stands for.
    spec fn target_model(&self) -> Node {
        match self {
            RangeTarget::Arr(a) => Node::Arr(models_of(a@)),
            RangeTarget::Str(s) => Node::Str(s@),
        }
    }
}

/// All slices a range step takes out of one sliceable target, one per
/// bound combination.
fn range_slices(from: &Option<Vec<Value>>, until: &Option<Vec<Value>>, target: RangeTarget) -> (r:
    Vec<Result<Value, Error>>)
    ensures
        results_model(r@) == spec_range_collect(
            PartM::Range(side_model(*from), side_model(*until)),
            target.target_model(),
        ),
{
    let ghost cm = target.target_model();
    let ghost pm = PartM::Range(side_model(*from), side_model(*until));
    let froms = rel_bounds(from);
    let untils = rel_bounds(until);
    let pairs = prod(&froms, &untils);
    let ghost target_seq = spec_range_collect(pm, cm);
    proof {
        assert(spec_prod(spec_rel_bounds(side_model(*from)), spec_rel_bounds(side_model(*until))).len()
            == bres_model(froms@).len() * bres_model(untils@).len());
        assert(target_seq.len() == pairs@.len());
    }
    let mut out: Vec<Result<Value, Error>> = Vec::new();
    let mut k: usize = 0;
    while k < pairs.len()
        invariant
            k <= pairs@.len(),
            out@.len() == k,
            pairs@.len() == froms@.len() * untils@.len(),
            forall|a: int, b: int|
                0 <= a < froms@.len() && 0 <= b < untils@.len() ==> #[trigger] pairs@[a
                    * untils@.len() + b] == (froms@[a], untils@[b]),
            bres_model(froms@) == spec_rel_bounds(side_model(*from)),
            bres_model(untils@) == spec_rel_bounds(side_model(*until)),
            cm == target.target_model(),
            pm == PartM::Range(side_model(*from), side_model(*until)),
            target_seq == spec_range_collect(pm, cm),
            target_seq.len() == pairs@.len(),
            cm is Arr || cm is Str,
            forall|j: int| 0 <= j < k ==> #[trigger] res_model(out@[j]) == target_seq[j],
        decreases pairs.len() - k,
    {
        let ghost rlen = untils@.len() as int;
        let ghost ka = k as int / rlen;
        let ghost kb = k as int % rlen;
        proof {
            assert(rlen * (k as int / rlen) + k as int % rlen == k as int && 0 <= k as int % rlen
                < rlen && 0 <= k as int / rlen < froms@.len()) by (nonlinear_arith)
                requires
                    0 <= k as int,
                    (k as int) < froms@.len() * rlen,
                    0 < rlen,
            ;
            assert(pairs@[ka * rlen + kb] == (froms@[ka], untils@[kb]));
            assert(spec_prod(bres_model(froms@), bres_model(untils@))[k as int] == (
                bres_model(froms@)[ka],
                bres_model(untils@)[kb],
            ));
            assert(target_seq[k as int] == spec_range_one(
                cm,
                bres_model(froms@)[ka],
                bres_model(untils@)[kb],
            ));
        }
        let pair = &pairs[k];
        match pair {
            (Err(e), _) => out.push(Err(e.dup())),
            (Ok(_), Err(e)) => out.push(Err(e.dup())),
            (Ok(f), Ok(u)) => {
                let v = slice_of(&target, *f, *u);
                out.push(Ok(v));
            },
        }
        k += 1;
    }
    proof {
        assert(results_model(out@) =~= target_seq);
    }
    out
}

/// The one slice a resolved bound pair takes out of a sliceable target.
fn slice_of(target: &RangeTarget, f: Option<isize>, u: Option<isize>) -> (v: Value)
    ensures
        match target.target_model() {
            Node::Arr(a) => v@ == Node::Arr(crate::model::spec_slice(a, f, u)),
            Node::Str(s) => v@ == Node::Str(crate::model::spec_slice(s, f, u)),
            _ => false,
        },
{
    match target {
        RangeTarget::Arr(a) => {
            let av: &Vec<Value> = &**a;
            proof {
                lemma_models_of(av@);
            }
            let fb = abs_bound(f, av.len(), 0);
            let ub = abs_bound(u, av.len(), av.len());
            let st = skip_take(fb, ub);
            proof {
                assert(st.0 + st.1 <= av@.len());
            }
            let mut slice: Vec<Value> = Vec::new();
            let mut t: usize = 0;
            while t < st.1
                invariant
                    t <= st.1,
                    slice@.len() == t,
                    st.0 + st.1 <= av@.len(),
                    av@.len() <= usize::MAX,
                    forall|j: int| 0 <= j < t ==> slice@[j] == av@[st.0 + j],
                decreases st.1 - t,
            {
                slice.push(av[st.0 + t].dup());
                t += 1;
            }
            proof {
                lemma_models_of(slice@);
                assert(models_of(slice@) =~= crate::model::spec_slice(models_of(av@), f, u));
            }
            Value::Arr(Rc::new(slice))
        },
        RangeTarget::Str(s) => {
            let sv: &Vec<char> = &**s;
            let fb = abs_bound(f, sv.len(), 0);
            let ub = abs_bound(u, sv.len(), sv.len());
            let st = skip_take(fb, ub);
            proof {
                assert(st.0 + st.1 <= sv@.len());
            }
            let mut slice: Vec<char> = Vec::new();
            let mut t: usize = 0;
            while t < st.1
                invariant
                    t <= st.1,
                    slice@.len() == t,
                    st.0 + st.1 <= sv@.len(),
                    sv@.len() <= usize::MAX,
                    forall|j: int| 0 <= j < t ==> slice@[j] == sv@[st.0 + j],
                decreases st.1 - t,
            {
                slice.push(sv[st.0 + t]);
                t += 1;
            }
            proof {
                assert(slice@ =~= crate::model::spec_slice(sv@, f, u));
            }
            Value::Str(Rc::new(slice))
        },
    }
}

impl Part<Vec<Value>> {
    /// What this step designates inside one candidate value, one
    /// result per produced branch, in branch order.
    pub fn collect(&self, current: Value) -> (r: Vec<Result<Value, Error>>)
        ensures
            results_model(r@) == spec_part_collect(self@, current@),
    {
        let ghost cm = current@;
        match self {
            Part::Index(indices) => match &current {
                Value::Arr(_) => {
                    let out = index_collect(indices, &current);
                    proof {
                        lemma_models_of(indices@);
                        assert(results_model(out@) =~= spec_part_collect(self@, cm));
                    }
                    out
                },
                Value::Obj(_) => {
                    let out = index_collect(indices, &current);
                    proof {
                        lemma_models_of(indices@);
                        assert(results_model(out@) =~= spec_part_collect(self@, cm));
                    }
                    out
                },
                _ => {
                    proof {
                        lemma_models_of(indices@);
                    }
                    let out: Vec<Result<Value, Error>> = vec![
                        Err(Error::Type(current, Kind::Iter)),
                    ];
                    proof {
                        assert(results_model(out@) =~= spec_part_collect(self@, cm));
                    }
                    out
                },
            },
            Part::Range(None, None) => iter_collect(current),
            Part::Range(f, u) => range_collect(f, u, current),
        }
    }
}

impl Opt {
    /// Apply this policy to a step's branch results: `Essential`
    /// propagates the first error, `Optional` keeps the successes.
    pub fn collect(self, rs: Vec<Result<Value, Error>>) -> (r: Result<Vec<Value>, Error>)
        ensures
            (match r {
                Ok(vs) => Ok(models_of(vs@)),
                Err(e) => Err(e@),
            }) == spec_opt_collect(self, results_model(rs@)),
    {
        let ghost full = results_model(rs@);
        let mut out: Vec<Value> = Vec::new();
        let mut i: usize = 0;
        proof {
            assert(full.skip(0) =~= full);
        }
        while i < rs.len()
            invariant
                i <= rs@.len(),
                full == results_model(rs@),
                spec_opt_collect(self, full) == (match spec_opt_collect(self, full.skip(i as int)) {
                    Ok(vs) => Ok::<Seq<Node>, ErrM>(models_of(out@) + vs),
                    Err(e) => Err::<Seq<Node>, ErrM>(e),
                }),
            decreases rs.len() - i,
        {
            let ghost rest = full.skip(i as int);
            proof {
                assert(rest[0] == full[i as int]);
                assert(rest.skip(1) =~= full.skip(i as int + 1));
            }
            match &rs[i] {
                Ok(v) => {
                    let ghost prev = out@;
                    out.push(v.dup());
                    proof {
                        lemma_models_of_push(prev, rs@[i as int]->Ok_0);
                        assert forall|vs: Seq<Node>|
                            true implies models_of(prev) + (seq![rs@[i as int]->Ok_0@] + vs)
                            == models_of(out@) + vs by {
                            assert(models_of(prev) + (seq![rs@[i as int]->Ok_0@] + vs) =~= models_of(
                                out@,
                            ) + vs);
                        }
                    }
                },
                Err(e) => match self {
                    Opt::Essential => {
                        return Err(e.dup());
                    },
                    Opt::Optional => {
                        proof {
                            assert(spec_opt_collect(self, rest) == spec_opt_collect(
                                self,
                                rest.skip(1),
                            ));
                        }
                    },
                },
            }
            i += 1;
        }
        proof {
            assert(full.skip(rs@.len() as int).len() == 0);
            assert(models_of(out@) + Seq::<Node>::empty() =~= models_of(out@));
        }
        Ok(out)
    }
}

impl Path<Vec<Value>> {
    /// Every sub-value this path designates inside `v`, in branch
    /// order: steps apply left to right, each step to every candidate
    /// the previous steps produced.
    pub fn collect(&self, v: Value) -> (r: Result<Vec<Value>, Error>)
        ensures
            (match r {
                Ok(vs) => Ok(models_of(vs@)),
                Err(e) => Err(e@),
            }) == spec_path_collect(self@, v@),
    {
        let ghost pathm = self@;
        let ghost vm = v@;
        let mut acc: Vec<Value> = vec![v];
        proof {
            lemma_models_of(acc@);
            assert(models_of(acc@) =~= seq![vm]);
            assert(pathm.skip(0) =~= pathm);
        }
        let mut s: usize = 0;
        while s < self.0.len()
            invariant
                s <= self.0@.len(),
                pathm == self@,
                vm == v@,
                pathm.len() == self.0@.len(),
                spec_path_collect(pathm, vm) == spec_collect_steps(
                    pathm.skip(s as int),
                    models_of(acc@),
                ),
            decreases self.0.len() - s,
        {
            let ghost rest = pathm.skip(s as int);
            proof {
                assert(rest[0] == pathm[s as int]);
                assert(pathm[s as int] == (self.0@[s as int].0@, self.0@[s as int].1));
                assert(rest.skip(1) =~= pathm.skip(s as int + 1));
            }
            let pair = &self.0[s];
            let part = &pair.0;
            let opt = pair.1;
            let mut all: Vec<Result<Value, Error>> = Vec::new();
            let ghost accm = models_of(acc@);
            proof {
                lemma_models_of(acc@);
                assert(accm.skip(0) =~= accm);
                assert(results_model(all@) + spec_flat_collect(part@, accm) =~= spec_flat_collect(
                    part@,
                    accm,
                ));
            }
            let mut x: usize = 0;
            while x < acc.len()
                invariant
                    x <= acc@.len(),
                    accm == models_of(acc@),
                    accm.len() == acc@.len(),
                    forall|j: int| 0 <= j < acc@.len() ==> accm[j] == value_model(acc@[j]),
                    spec_flat_collect(part@, accm) == results_model(all@) + spec_flat_collect(
                        part@,
                        accm.skip(x as int),
                    ),
                decreases acc.len() - x,
            {
                let ghost arest = accm.skip(x as int);
                proof {
                    assert(arest[0] == accm[x as int]);
                    assert(arest.skip(1) =~= accm.skip(x as int + 1));
                }
                let ghost prev_all = all@;
                let mut res = part.collect(acc[x].dup());
                let ghost resm = results_model(res@);
                all.append(&mut res);
                proof {
                    assert(results_model(all@) =~= results_model(prev_all) + resm);
                    assert(results_model(prev_all) + (resm + spec_flat_collect(
                        part@,
                        accm.skip(x as int + 1),
                    )) =~= (results_model(prev_all) + resm) + spec_flat_collect(
                        part@,
                        accm.skip(x as int + 1),
                    ));
                }
                x += 1;
            }
            proof {
                assert(accm.skip(acc@.len() as int).len() == 0);
                assert(results_model(all@) + Seq::<ResM>::empty() =~= results_model(all@));
                assert(results_model(all@) == spec_flat_collect(part@, accm));
            }
            match opt.collect(all) {
                Ok(vs) => {
                    acc = vs;
                },
                Err(e) => {
                    return Err(e);
                },
            }
            s += 1;
        }
        proof {
            assert(pathm.skip(self.0@.len() as int).len() == 0);
        }
        Ok(acc)
    }
}

} // verus!
