//! The mathematical semantics of path evaluation: what `collect` and
//! `update` return, stated over `Node` trees.  The executable engine's
//! contracts equate its results with these functions.

use vstd::prelude::*;

use std::rc::Rc;

use crate::bounds::{spec_abs_bound, spec_abs_index, spec_skip_take};
use crate::val::{
    entry_models_of, lemma_entry_models_of, models_of, spec_obj_find, value_model, ErrM, Error,
    Kind, Node, Opt, Value,
};

verus! {

/// The model of one concrete path step: an index step carries the
/// materialized index values, a range step the materialized bound
/// candidates (absent bound: whole side open).
#[verifier::ext_equal]
pub enum PartM {
    Index(Seq<Node>),
    Range(Option<Seq<Node>>, Option<Seq<Node>>),
}

/// The model of one produced branch result.
pub type ResM = Result<Node, ErrM>;

/// What `Value::as_int` means on models.
pub open spec fn node_as_int(n: Node) -> Result<isize, ErrM> {
    match n {
        Node::Int(i) => Ok(i),
        _ => Err(ErrM::Type(n, Kind::Int)),
    }
}

/// Position of the first entry under `key`, if any.
pub open spec fn node_obj_find(entries: Seq<(Seq<char>, Node)>, key: Seq<char>) -> Option<int>
    decreases entries.len(),
{
    if entries.len() == 0 {
        None
    } else if entries[0].0 == key {
        Some(0)
    } else {
        match node_obj_find(entries.skip(1), key) {
            Some(i) => Some(i + 1),
            None => None,
        }
    }
}

/// The value stored under `key`, if any.
pub open spec fn node_obj_get(entries: Seq<(Seq<char>, Node)>, key: Seq<char>) -> Option<Node> {
    match node_obj_find(entries, key) {
        Some(i) => Some(entries[i].1),
        None => None,
    }
}

/// Reading one index out of one container value: a missing sequence
/// slot or mapping key reads as `Null`; a non-integer sequence index or
/// non-string mapping key is an error.  Only meaningful for `Arr` and
/// `Obj` targets (the step itself rejects the rest).
pub open spec fn spec_index_one(current: Node, idx: Node) -> ResM {
    match current {
        Node::Arr(a) => match node_as_int(idx) {
            Ok(i) => match spec_abs_index(i as int, a.len() as int) {
                Some(u) => Ok(a[u]),
                None => Ok(Node::Null),
            },
            Err(e) => Err(e),
        },
        Node::Obj(o) => match idx {
            Node::Str(s) => match node_obj_get(o, s) {
                Some(v) => Ok(v),
                None => Ok(Node::Null),
            },
            _ => Err(ErrM::Index(current, idx)),
        },
        _ => arbitrary(),
    }
}

/// The materialized bound candidates of one side of a range step: each
/// value must be an integer; an absent side contributes the single
/// candidate "no bound".
pub open spec fn spec_rel_bounds(f: Option<Seq<Node>>) -> Seq<Result<Option<isize>, ErrM>> {
    match f {
        Some(vs) => Seq::new(
            vs.len(),
            |i: int|
                match node_as_int(vs[i]) {
                    Ok(n) => Ok(Some(n)),
                    Err(e) => Err(e),
                },
        ),
        None => seq![Ok(None)],
    }
}

/// Cartesian product of two candidate lists, left index outermost.
pub open spec fn spec_prod<A>(l: Seq<A>, r: Seq<A>) -> Seq<(A, A)> {
    Seq::new(l.len() * r.len(), |k: int| (l[k / r.len() as int], r[k % r.len() as int]))
}

/// An `Option<isize>` bound as a mathematical bound.
pub open spec fn bound_int(b: Option<isize>) -> Option<int> {
    match b {
        Some(i) => Some(i as int),
        None => None,
    }
}

/// The slice of `elems` that one resolved `(from, until)` bound pair
/// designates.
pub open spec fn spec_slice<A>(elems: Seq<A>, f: Option<isize>, u: Option<isize>) -> Seq<A> {
    let from = spec_abs_bound(bound_int(f), elems.len() as int, 0);
    let until = spec_abs_bound(bound_int(u), elems.len() as int, elems.len() as int);
    let st = spec_skip_take(from, until);
    elems.subrange(st.0, st.0 + st.1)
}

/// One range branch on a sliceable target: a failed bound candidate
/// fails the branch (`from` first), else the branch yields the slice.
pub open spec fn spec_range_one(
    current: Node,
    rf: Result<Option<isize>, ErrM>,
    ru: Result<Option<isize>, ErrM>,
) -> ResM {
    match rf {
        Err(e) => Err(e),
        Ok(f) => match ru {
            Err(e) => Err(e),
            Ok(u) => match current {
                Node::Arr(a) => Ok(Node::Arr(spec_slice(a, f, u))),
                Node::Str(s) => Ok(Node::Str(spec_slice(s, f, u))),
                _ => arbitrary(),
            },
        },
    }
}

/// What one step produces on one candidate value, in branch order.
pub open spec fn spec_part_collect(part: PartM, current: Node) -> Seq<ResM> {
    match part {
        PartM::Index(indices) => match current {
            Node::Arr(_) => Seq::new(indices.len(), |i: int| spec_index_one(current, indices[i])),
            Node::Obj(_) => Seq::new(indices.len(), |i: int| spec_index_one(current, indices[i])),
            _ => seq![Err(ErrM::Type(current, Kind::Iter))],
        },
        PartM::Range(None, None) => match current {
            Node::Arr(a) => Seq::new(a.len(), |i: int| Ok(a[i])),
            Node::Obj(o) => Seq::new(o.len(), |i: int| Ok(o[i].1)),
            _ => seq![Err(ErrM::Type(current, Kind::Iter))],
        },
        PartM::Range(from, until) => match current {
            Node::Arr(_) => spec_range_collect(part, current),
            Node::Str(_) => spec_range_collect(part, current),
            _ => seq![Err(ErrM::Type(current, Kind::Range))],
        },
    }
}

/// The branches of a two-sided range step: one slice per bound
/// combination, lower bound outermost.
pub open spec fn spec_range_collect(part: PartM, current: Node) -> Seq<ResM> {
    match part {
        PartM::Range(from, until) => {
            let pairs = spec_prod(spec_rel_bounds(from), spec_rel_bounds(until));
            Seq::new(pairs.len(), |k: int| spec_range_one(current, pairs[k].0, pairs[k].1))
        },
        _ => arbitrary(),
    }
}

/// One step applied to every candidate independently, results
/// concatenated in candidate order.
pub open spec fn spec_flat_collect(part: PartM, vs: Seq<Node>) -> Seq<ResM>
    decreases vs.len(),
{
    if vs.len() == 0 {
        Seq::empty()
    } else {
        spec_part_collect(part, vs[0]) + spec_flat_collect(part, vs.skip(1))
    }
}

/// A step's policy applied to its branch results: `Essential`
/// propagates the first error, `Optional` keeps the successes.
pub open spec fn spec_opt_collect(opt: Opt, rs: Seq<ResM>) -> Result<Seq<Node>, ErrM>
    decreases rs.len(),
{
    if rs.len() == 0 {
        Ok(Seq::empty())
    } else {
        match rs[0] {
            Ok(v) => match spec_opt_collect(opt, rs.skip(1)) {
                Ok(vs) => Ok(seq![v] + vs),
                Err(e) => Err(e),
            },
            Err(e) => match opt {
                Opt::Essential => Err(e),
                Opt::Optional => spec_opt_collect(opt, rs.skip(1)),
            },
        }
    }
}

/// The whole collection: steps applied left to right over the growing
/// candidate set, starting from the single root.
pub open spec fn spec_collect_steps(path: Seq<(PartM, Opt)>, vs: Seq<Node>) -> Result<
    Seq<Node>,
    ErrM,
>
    decreases path.len(),
{
    if path.len() == 0 {
        Ok(vs)
    } else {
        match spec_opt_collect(path[0].1, spec_flat_collect(path[0].0, vs)) {
            Ok(vs2) => spec_collect_steps(path.skip(1), vs2),
            Err(e) => Err(e),
        }
    }
}

/// What `Path::collect` returns on a root value.
pub open spec fn spec_path_collect(path: Seq<(PartM, Opt)>, v: Node) -> Result<Seq<Node>, ErrM> {
    spec_collect_steps(path, seq![v])
}

/// Looking a key up among modelled entries is looking it up among the
/// entries themselves.
pub proof fn lemma_node_obj_find(entries: Seq<(Rc<Vec<char>>, Value)>, key: Seq<char>)
    ensures
        node_obj_find(entry_models_of(entries), key) == spec_obj_find(entries, key),
    decreases entries.len(),
{
    lemma_entry_models_of(entries);
    if entries.len() > 0 {
        lemma_node_obj_find(entries.skip(1), key);
        lemma_entry_models_of(entries.skip(1));
        assert(entry_models_of(entries).skip(1) =~= entry_models_of(entries.skip(1)));
        assert(entry_models_of(entries)[0] == (entries[0].0@, value_model(entries[0].1)));
    }
}

/// The model of a produced result.
pub open spec fn res_model(r: Result<Value, Error>) -> ResM {
    match r {
        Ok(v) => Ok(v@),
        Err(e) => Err(e@),
    }
}

/// The models of a produced result list, element by element.
pub open spec fn results_model(rs: Seq<Result<Value, Error>>) -> Seq<ResM> {
    Seq::new(rs.len(), |i: int| res_model(rs[i]))
}

/// The models of a bound-candidate list, element by element.
pub open spec fn bres_model(rs: Seq<Result<Option<isize>, Error>>) -> Seq<
    Result<Option<isize>, ErrM>,
> {
    Seq::new(
        rs.len(),
        |i: int|
            match rs[i] {
                Ok(b) => Ok(b),
                Err(e) => Err(e@),
            },
    )
}

} // verus!
