//! Structural rewrite (`update`): apply a caller-supplied transformer
//! to every location a path designates, rebuilding the tree around the
//! rewritten locations while sharing untouched substructure.

use std::rc::Rc;
use vstd::pervasive::VecAdditionalExecFns;
use vstd::prelude::*;

use crate::bounds::{abs_bound, abs_index, skip_take, spec_abs_bound, spec_abs_index,
    spec_skip_take};
use crate::model::{bound_int, lemma_node_obj_find, node_as_int, node_obj_find, res_model,
    results_model, spec_prod, spec_rel_bounds, PartM, ResM};
use crate::path::{prod, rel_bounds, side_model, Part, Path};
use crate::val::{entry_models_of, lemma_entry_models_of, lemma_models_of, lemma_obj_find_get,
    models_of, obj_find, rc_dup, rc_unwrap_or_keep, spec_obj_find, value_model, ErrM, Error, Kind,
    Node, Opt, Value};

verus! {

/// The caller-supplied leaf transformer: maps one located value to
/// zero, one or many replacement values (zero deletes the location,
/// many fan the result out).  `apply_spec` is the transformer's
/// mathematical meaning, which its `apply` must realize.
pub trait Transformer {
    /// What the transformer yields on a value, as a model.
    spec fn apply_spec(&self, v: Node) -> Seq<ResM>;

    /// Yield the replacement values for one located value.
    fn apply(&self, v: Value) -> (r: Vec<Result<Value, Error>>)
        ensures
            results_model(r@) == self.apply_spec(v@),
    ;
}

/// The model of a concrete path's step list.
pub open spec fn path_model(p: Seq<(Part<Vec<Value>>, Opt)>) -> Seq<(PartM, Opt)> {
    Seq::new(p.len(), |i: int| (p[i].0@, p[i].1))
}

/// The first result of an update branch: no result deletes the
/// location, an error aborts.
pub open spec fn first_res(rs: Seq<ResM>) -> Result<Option<Node>, ErrM> {
    if rs.len() == 0 {
        Ok(None)
    } else {
        match rs[0] {
            Ok(v) => Ok(Some(v)),
            Err(e) => Err(e),
        }
    }
}

/// A step failure under a policy: `Essential` surfaces the error,
/// `Optional` leaves the value untouched.
pub open spec fn spec_fail(opt: Opt, v: Node, k: Kind) -> ResM {
    match opt {
        Opt::Essential => Err(ErrM::Type(v, k)),
        Opt::Optional => Ok(v),
    }
}

/// What `update` returns: past the last step the transformer itself
/// runs; otherwise the next step rewrites the located sub-values,
/// yielding exactly one root per branch of the step chain.
pub open spec fn spec_update<T: Transformer>(
    path: Seq<(PartM, Opt)>,
    i: int,
    v: Node,
    t: &T,
) -> Seq<ResM>
    decreases path.len() - i, 3int, 0int,
    when 0 <= i <= path.len()
{
    if i == path.len() {
        t.apply_spec(v)
    } else {
        seq![spec_step(path[i].0, path[i].1, path, i + 1, v, t)]
    }
}

/// The first root an update of the rest of the path produces on a
/// located sub-value: the effective per-location transformer of a
/// step.
pub open spec fn spec_first_update<T: Transformer>(
    path: Seq<(PartM, Opt)>,
    i: int,
    v: Node,
    t: &T,
) -> Result<Option<Node>, ErrM>
    decreases path.len() - i, 4int, 0int,
    when 0 <= i <= path.len()
{
    first_res(spec_update(path, i, v, t))
}

/// One step's rewrite of one value, the rest of the path acting as the
/// per-location transformer.
pub open spec fn spec_step<T: Transformer>(
    part: PartM,
    opt: Opt,
    path: Seq<(PartM, Opt)>,
    j: int,
    v: Node,
    t: &T,
) -> ResM
    decreases path.len() - j + 1, 1int, 0int,
    when 0 <= j <= path.len()
{
    match part {
        PartM::Index(idxs) => match v {
            Node::Obj(entries) => match spec_obj_update(entries, idxs, 0, opt, path, j, t) {
                Ok(es) => Ok(Node::Obj(es)),
                Err(e) => Err(e),
            },
            Node::Arr(elems) => match spec_arr_update(elems, idxs, 0, opt, path, j, t) {
                Ok(es) => Ok(Node::Arr(es)),
                Err(e) => Err(e),
            },
            _ => spec_fail(opt, v, Kind::Iter),
        },
        PartM::Range(None, None) => match v {
            Node::Arr(elems) => match spec_map_elems(elems, 0, path, j, t) {
                Ok(es) => Ok(Node::Arr(es)),
                Err(e) => Err(e),
            },
            Node::Obj(entries) => match spec_map_entries(entries, 0, path, j, t) {
                Ok(es) => Ok(Node::Obj(es)),
                Err(e) => Err(e),
            },
            _ => spec_fail(opt, v, Kind::Iter),
        },
        PartM::Range(f, u) => match v {
            Node::Arr(elems) => match spec_range_update(
                elems,
                spec_prod(spec_rel_bounds(f), spec_rel_bounds(u)),
                0,
                opt,
                path,
                j,
                t,
            ) {
                Ok(es) => Ok(Node::Arr(es)),
                Err(e) => Err(e),
            },
            _ => spec_fail(opt, v, Kind::Arr),
        },
    }
}

/// Index update on a mapping: keys apply left to right; a present key
/// is rewritten or removed, a missing key inserts the transformer's
/// result (if any), a non-string key fails the step under `Essential`
/// and is skipped under `Optional`.
pub open spec fn spec_obj_update<T: Transformer>(
    entries: Seq<(Seq<char>, Node)>,
    keys: Seq<Node>,
    k: int,
    opt: Opt,
    path: Seq<(PartM, Opt)>,
    j: int,
    t: &T,
) -> Result<Seq<(Seq<char>, Node)>, ErrM>
    decreases path.len() - j + 1, 0int, keys.len() - k,
    when 0 <= j <= path.len() && 0 <= k <= keys.len()
{
    if k == keys.len() {
        Ok(entries)
    } else {
        match keys[k] {
            Node::Str(s) => match node_obj_find(entries, s) {
                Some(at) => match spec_first_update(path, j, entries[at].1, t) {
                    Ok(Some(y)) => spec_obj_update(
                        entries.update(at, (s, y)),
                        keys,
                        k + 1,
                        opt,
                        path,
                        j,
                        t,
                    ),
                    Ok(None) => spec_obj_update(entries.remove(at), keys, k + 1, opt, path, j, t),
                    Err(e) => Err(e),
                },
                None => match spec_first_update(path, j, Node::Null, t) {
                    Ok(Some(y)) => spec_obj_update(
                        entries.push((s, y)),
                        keys,
                        k + 1,
                        opt,
                        path,
                        j,
                        t,
                    ),
                    Ok(None) => spec_obj_update(entries, keys, k + 1, opt, path, j, t),
                    Err(e) => Err(e),
                },
            },
            key => match opt {
                Opt::Essential => Err(ErrM::Index(Node::Obj(entries), key)),
                Opt::Optional => spec_obj_update(entries, keys, k + 1, opt, path, j, t),
            },
        }
    }
}

/// Index update on a sequence: indices apply left to right and must
/// resolve inside the sequence; a located slot is rewritten or removed
/// (later elements shifting left).  A bad or out-of-range index fails
/// the step under `Essential` and is skipped under `Optional`.
pub open spec fn spec_arr_update<T: Transformer>(
    elems: Seq<Node>,
    idxs: Seq<Node>,
    k: int,
    opt: Opt,
    path: Seq<(PartM, Opt)>,
    j: int,
    t: &T,
) -> Result<Seq<Node>, ErrM>
    decreases path.len() - j + 1, 0int, idxs.len() - k,
    when 0 <= j <= path.len() && 0 <= k <= idxs.len()
{
    if k == idxs.len() {
        Ok(elems)
    } else {
        match node_as_int(idxs[k]) {
            Ok(i) => match spec_abs_index(i as int, elems.len() as int) {
                Some(u) => match spec_first_update(path, j, elems[u], t) {
                    Ok(Some(y)) => spec_arr_update(
                        elems.update(u, y),
                        idxs,
                        k + 1,
                        opt,
                        path,
                        j,
                        t,
                    ),
                    Ok(None) => spec_arr_update(elems.remove(u), idxs, k + 1, opt, path, j, t),
                    Err(e) => Err(e),
                },
                None => match opt {
                    Opt::Essential => Err(ErrM::IndexOutOfBounds(i)),
                    Opt::Optional => spec_arr_update(elems, idxs, k + 1, opt, path, j, t),
                },
            },
            Err(e) => match opt {
                Opt::Essential => Err(e),
                Opt::Optional => spec_arr_update(elems, idxs, k + 1, opt, path, j, t),
            },
        }
    }
}

/// Whole-container update of a sequence: every element runs through
/// the per-location transformer; an element whose transform yields
/// nothing is dropped, and any transform error aborts the step.
pub open spec fn spec_map_elems<T: Transformer>(
    elems: Seq<Node>,
    k: int,
    path: Seq<(PartM, Opt)>,
    j: int,
    t: &T,
) -> Result<Seq<Node>, ErrM>
    decreases path.len() - j + 1, 0int, elems.len() - k,
    when 0 <= j <= path.len() && 0 <= k <= elems.len()
{
    if k == elems.len() {
        Ok(Seq::empty())
    } else {
        match spec_first_update(path, j, elems[k], t) {
            Ok(Some(y)) => match spec_map_elems(elems, k + 1, path, j, t) {
                Ok(rest) => Ok(seq![y] + rest),
                Err(e) => Err(e),
            },
            Ok(None) => spec_map_elems(elems, k + 1, path, j, t),
            Err(e) => Err(e),
        }
    }
}

/// Whole-container update of a mapping: keys keep their place and
/// order, values run through the per-location transformer, entries
/// whose transform yields nothing are dropped.
pub open spec fn spec_map_entries<T: Transformer>(
    entries: Seq<(Seq<char>, Node)>,
    k: int,
    path: Seq<(PartM, Opt)>,
    j: int,
    t: &T,
) -> Result<Seq<(Seq<char>, Node)>, ErrM>
    decreases path.len() - j + 1, 0int, entries.len() - k,
    when 0 <= j <= path.len() && 0 <= k <= entries.len()
{
    if k == entries.len() {
        Ok(Seq::empty())
    } else {
        match spec_first_update(path, j, entries[k].1, t) {
            Ok(Some(y)) => match spec_map_entries(entries, k + 1, path, j, t) {
                Ok(rest) => Ok(seq![(entries[k].0, y)] + rest),
                Err(e) => Err(e),
            },
            Ok(None) => spec_map_entries(entries, k + 1, path, j, t),
            Err(e) => Err(e),
        }
    }
}

/// Range update on a sequence: bound combinations apply left to right,
/// each slicing the sequence as it then stands, passing the slice as
/// one value through the per-location transformer, and splicing the
/// resulting sequence (empty when the transform yields nothing) in its
/// place.  A non-sequence transform result is a type error; a failed
/// bound fails the combination under `Essential` and skips it under
/// `Optional`.
pub open spec fn spec_range_update<T: Transformer>(
    elems: Seq<Node>,
    pairs: Seq<(Result<Option<isize>, ErrM>, Result<Option<isize>, ErrM>)>,
    k: int,
    opt: Opt,
    path: Seq<(PartM, Opt)>,
    j: int,
    t: &T,
) -> Result<Seq<Node>, ErrM>
    decreases path.len() - j + 1, 0int, pairs.len() - k,
    when 0 <= j <= path.len() && 0 <= k <= pairs.len()
{
    if k == pairs.len() {
        Ok(elems)
    } else {
        match pairs[k].0 {
            Err(e) => match opt {
                Opt::Essential => Err(e),
                Opt::Optional => spec_range_update(elems, pairs, k + 1, opt, path, j, t),
            },
            Ok(f) => match pairs[k].1 {
                Err(e) => match opt {
                    Opt::Essential => Err(e),
                    Opt::Optional => spec_range_update(elems, pairs, k + 1, opt, path, j, t),
                },
                Ok(u) => {
                    let from = spec_abs_bound(bound_int(f), elems.len() as int, 0);
                    let until = spec_abs_bound(
                        bound_int(u),
                        elems.len() as int,
                        elems.len() as int,
                    );
                    let st = spec_skip_take(from, until);
                    match spec_first_update(
                        path,
                        j,
                        Node::Arr(elems.subrange(st.0, st.0 + st.1)),
                        t,
                    ) {
                        Ok(Some(y)) => match y {
                            Node::Arr(ys) => spec_range_update(
                                elems.take(st.0) + ys + elems.skip(st.0 + st.1),
                                pairs,
                                k + 1,
                                opt,
                                path,
                                j,
                                t,
                            ),
                            _ => Err(ErrM::Type(y, Kind::Arr)),
                        },
                        Ok(None) => spec_range_update(
                            elems.take(st.0) + elems.skip(st.0 + st.1),
                            pairs,
                            k + 1,
                            opt,
                            path,
                            j,
                            t,
                        ),
                        Err(e) => Err(e),
                    }
                },
            },
        }
    }
}

/// Hand back a sequence's element list for mutation: a uniquely owned
/// handle gives it up in place, an aliased one is copied element by
/// element (the copy-on-write step).
fn unshare_arr(rc: Rc<Vec<Value>>) -> (r: Vec<Value>)
    ensures
        r@ == rc@,
{
    match rc_unwrap_or_keep(rc) {
        Ok(v) => v,
        Err(shared) => {
            let sv: &Vec<Value> = &*shared;
            let mut out: Vec<Value> = Vec::new();
            let mut i: usize = 0;
            while i < sv.len()
                invariant
                    i <= sv@.len(),
                    out@.len() == i,
                    forall|j: int| 0 <= j < i ==> out@[j] == sv@[j],
                decreases sv.len() - i,
            {
                out.push(sv[i].dup());
                i += 1;
            }
            proof {
                assert(out@ =~= shared@);
            }
            out
        },
    }
}

/// Hand back a mapping's entry list for mutation, as `unshare_arr`.
fn unshare_entries(rc: Rc<Vec<(Rc<Vec<char>>, Value)>>) -> (r: Vec<(Rc<Vec<char>>, Value)>)
    ensures
        r@ == rc@,
{
    match rc_unwrap_or_keep(rc) {
        Ok(v) => v,
        Err(shared) => {
            let sv: &Vec<(Rc<Vec<char>>, Value)> = &*shared;
            let mut out: Vec<(Rc<Vec<char>>, Value)> = Vec::new();
            let mut i: usize = 0;
            while i < sv.len()
                invariant
                    i <= sv@.len(),
                    out@.len() == i,
                    forall|j: int| 0 <= j < i ==> out@[j] == sv@[j],
                decreases sv.len() - i,
            {
                let e = &sv[i];
                out.push((rc_dup(&e.0), e.1.dup()));
                i += 1;
            }
            proof {
                assert(out@ =~= shared@);
            }
            out
        },
    }
}

/// The first result of an update branch, consuming the branch list.
fn take_first(mut rs: Vec<Result<Value, Error>>) -> (r: Result<Option<Value>, Error>)
    ensures
        (match r {
            Ok(Some(v)) => Ok(Some(v@)),
            Ok(None) => Ok(None),
            Err(e) => Err::<Option<Node>, ErrM>(e@),
        }) == first_res(results_model(rs@)),
{
    if rs.len() == 0 {
        Ok(None)
    } else {
        match rs.remove(0) {
            Ok(v) => Ok(Some(v)),
            Err(e) => Err(e),
        }
    }
}

impl Path<Vec<Value>> {
    /// Rewrite every location this path designates inside `v` through
    /// the transformer `f`, producing one new root per branch.
    pub fn update<T: Transformer>(&self, v: Value, f: &T) -> (r: Vec<Result<Value, Error>>)
        ensures
            results_model(r@) == spec_update(self@, 0, v@, f),
    {
        proof {
            assert(path_model(self.0@) =~= self@);
        }
        Part::update(&self.0, 0, v, f)
    }
}

impl Part<Vec<Value>> {
    /// Update `v` through the path's steps from position `from` on:
    /// past the end the transformer runs, else the next step rewrites
    /// the located sub-values through the rest of the path.
    pub fn update<T: Transformer>(
        path: &Vec<(Part<Vec<Value>>, Opt)>,
        from: usize,
        v: Value,
        f: &T,
    ) -> (r: Vec<Result<Value, Error>>)
        requires
            from <= path@.len(),
        ensures
            results_model(r@) == spec_update(path_model(path@), from as int, v@, f),
        decreases path@.len() - from, 2int, 0int,
    {
        if from < path.len() {
            let pair = &path[from];
            let stepped = pair.0.map(v, pair.1, path, from + 1, f);
            let ghost sm = res_model(stepped);
            let out: Vec<Result<Value, Error>> = vec![stepped];
            proof {
                assert(path_model(path@)[from as int] == (path@[from as int].0@, path@[
                    from as int].1));
                assert(results_model(out@) =~= seq![sm]);
            }
            out
        } else {
            f.apply(v)
        }
    }

    /// Apply this one step to `v` under `opt`, the path from `from` on
    /// acting as the per-location transformer.
    pub fn map<T: Transformer>(
        &self,
        v: Value,
        opt: Opt,
        path: &Vec<(Part<Vec<Value>>, Opt)>,
        from: usize,
        f: &T,
    ) -> (r: Result<Value, Error>)
        requires
            from <= path@.len(),
        ensures
            (match r {
                Ok(w) => Ok(w@),
                Err(e) => Err::<Node, ErrM>(e@),
            }) == spec_step(self@, opt, path_model(path@), from as int, v@, f),
        decreases path@.len() - from + 1, 1int, 0int,
    {
        let ghost pm = path_model(path@);
        let ghost vm = v@;
        match self {
            Part::Index(idxs) => match v {
                Value::Obj(o) => obj_step(idxs, o, opt, path, from, f),
                Value::Arr(a) => arr_step(idxs, a, opt, path, from, f),
                v2 => {
                    proof {
                        lemma_models_of(idxs@);
                    }
                    match opt {
                        Opt::Essential => Err(Error::Type(v2, Kind::Iter)),
                        Opt::Optional => Ok(v2),
                    }
                },
            },
            Part::Range(None, None) => match v {
                Value::Arr(a) => map_elems_step(a, path, from, f),
                Value::Obj(o) => map_entries_step(o, path, from, f),
                v2 => match opt {
                    Opt::Essential => Err(Error::Type(v2, Kind::Iter)),
                    Opt::Optional => Ok(v2),
                },
            },
            Part::Range(fo, uo) => match v {
                Value::Arr(a) => range_step(fo, uo, a, opt, path, from, f),
                v2 => {
                    proof {
                        assert(self@ == PartM::Range(side_model(*fo), side_model(*uo)));
                    }
                    match opt {
                        Opt::Essential => Err(Error::Type(v2, Kind::Arr)),
                        Opt::Optional => Ok(v2),
                    }
                },
            },
        }
    }
}

/// Index update on a mapping's entries; see `spec_obj_update`.
#[verifier::rlimit(100)]
fn obj_step<T: Transformer>(
    idxs: &Vec<Value>,
    o: Rc<Vec<(Rc<Vec<char>>, Value)>>,
    opt: Opt,
    path: &Vec<(Part<Vec<Value>>, Opt)>,
    from: usize,
    f: &T,
) -> (r: Result<Value, Error>)
    requires
        from <= path@.len(),
    ensures
        (match r {
            Ok(w) => Ok(w@),
            Err(e) => Err::<Node, ErrM>(e@),
        }) == (match spec_obj_update(
            entry_models_of(o@),
            models_of(idxs@),
            0,
            opt,
            path_model(path@),
            from as int,
            f,
        ) {
            Ok(es) => Ok::<Node, ErrM>(Node::Obj(es)),
            Err(e) => Err::<Node, ErrM>(e),
        }),
    decreases path@.len() - from + 1, 0int, 0int,
{
    let ghost pm = path_model(path@);
    let ghost keysm = models_of(idxs@);
    let ghost target = spec_obj_update(entry_models_of(o@), keysm, 0, opt, pm, from as int, f);
    let mut entries = unshare_entries(o);
    let mut k: usize = 0;
    proof {
        lemma_models_of(idxs@);
    }
    while k < idxs.len()
        invariant
            k <= idxs@.len(),
            from <= path@.len(),
            pm == path_model(path@),
            keysm == models_of(idxs@),
            keysm.len() == idxs@.len(),
            forall|j: int| 0 <= j < idxs@.len() ==> keysm[j] == value_model(idxs@[j]),
            target == spec_obj_update(
                entry_models_of(o@),
                keysm,
                0,
                opt,
                pm,
                from as int,
                f,
            ),
            target == spec_obj_update(
                entry_models_of(entries@),
                keysm,
                k as int,
                opt,
                pm,
                from as int,
                f,
            ),
        decreases idxs.len() - k,
    {
        let ghost em = entry_models_of(entries@);
        proof {
            lemma_entry_models_of(entries@);
        }
        let elen = entries.len();
        match &idxs[k] {
            Value::Str(s) => {
                proof {
                    lemma_node_obj_find(entries@, s@);
                    lemma_obj_find_get(entries@, s@);
                }
                proof {
                    assert(keysm[k as int] == Node::Str(s@));
                }
                match obj_find(&entries, &**s) {
                    Some(at) => {
                        let cur = entries[at].1.dup();
                        proof {
                            assert(em[at as int].1 == value_model(entries@[at as int].1));
                            assert(node_obj_find(em, s@) == Some(at as int));
                            assert(cur@ == em[at as int].1);
                        }
                        match take_first(Part::update(path, from, cur, f)) {
                            Ok(Some(y)) => {
                                let key = rc_dup(&entries[at].0);
                                let ghost prev = entries@;
                                entries.set(at, (key, y));
                                proof {
                                    lemma_entry_models_of(entries@);
                                    lemma_entry_models_of(prev);
                                    assert(spec_first_update(pm, from as int, em[at as int].1, f)
                                        == Ok::<Option<Node>, ErrM>(Some(y@)));
                                    assert(entry_models_of(entries@) =~= em.update(
                                        at as int,
                                        (s@, y@),
                                    ));
                                    assert(spec_obj_update(em, keysm, k as int, opt, pm,
                                        from as int, f) == spec_obj_update(
                                        entry_models_of(entries@), keysm, k as int + 1, opt, pm,
                                        from as int, f));
                                }
                            },
                            Ok(None) => {
                                let ghost prev = entries@;
                                entries.remove(at);
                                proof {
                                    lemma_entry_models_of(entries@);
                                    lemma_entry_models_of(prev);
                                    assert(spec_first_update(pm, from as int, em[at as int].1, f)
                                        == Ok::<Option<Node>, ErrM>(None));
                                    assert(entry_models_of(entries@) =~= em.remove(at as int));
                                    assert(spec_obj_update(em, keysm, k as int, opt, pm,
                                        from as int, f) == spec_obj_update(
                                        entry_models_of(entries@), keysm, k as int + 1, opt, pm,
                                        from as int, f));
                                }
                            },
                            Err(e) => {
                                proof {
                                    assert(spec_first_update(pm, from as int, em[at as int].1, f)
                                        == Err::<Option<Node>, ErrM>(e@));
                                    assert(spec_obj_update(em, keysm, k as int, opt, pm,
                                        from as int, f) == Err::<Seq<(Seq<char>, Node)>, ErrM>(
                                        e@));
                                }
                                return Err(e);
                            },
                        }
                    },
                    None => {
                        proof {
                            assert(node_obj_find(em, s@) is None);
                        }
                        match take_first(Part::update(path, from, Value::Null, f)) {
                            Ok(Some(y)) => {
                                let ghost prev = entries@;
                                entries.push((rc_dup(s), y));
                                proof {
                                    lemma_entry_models_of(entries@);
                                    lemma_entry_models_of(prev);
                                    assert(spec_first_update(pm, from as int, Node::Null, f)
                                        == Ok::<Option<Node>, ErrM>(Some(y@)));
                                    assert(entry_models_of(entries@) =~= em.push((s@, y@)));
                                    assert(spec_obj_update(em, keysm, k as int, opt, pm,
                                        from as int, f) == spec_obj_update(
                                        entry_models_of(entries@), keysm, k as int + 1, opt, pm,
                                        from as int, f));
                                }
                            },
                            Ok(None) => {
                                proof {
                                    assert(spec_first_update(pm, from as int, Node::Null, f)
                                        == Ok::<Option<Node>, ErrM>(None));
                                    assert(spec_obj_update(em, keysm, k as int, opt, pm,
                                        from as int, f) == spec_obj_update(em, keysm,
                                        k as int + 1, opt, pm, from as int, f));
                                }
                            },
                            Err(e) => {
                                proof {
                                    assert(spec_first_update(pm, from as int, Node::Null, f)
                                        == Err::<Option<Node>, ErrM>(e@));
                                    assert(spec_obj_update(em, keysm, k as int, opt, pm,
                                        from as int, f) == Err::<Seq<(Seq<char>, Node)>, ErrM>(
                                        e@));
                                }
                                return Err(e);
                            },
                        }
                    },
                }
            },
            _ => match opt {
                Opt::Essential => {
                    let bad = idxs[k].dup();
                    proof {
                        assert(spec_obj_update(em, keysm, k as int, opt, pm, from as int, f)
                            == Err::<Seq<(Seq<char>, Node)>, ErrM>(ErrM::Index(
                            Node::Obj(em),
                            keysm[k as int],
                        )));
                    }
                    return Err(Error::Index(Value::Obj(Rc::new(entries)), bad));
                },
                Opt::Optional => {
                    proof {
                        assert(spec_obj_update(em, keysm, k as int, opt, pm, from as int, f)
                            == spec_obj_update(em, keysm, k as int + 1, opt, pm, from as int,
                            f));
                    }
                },
            },
        }
        k += 1;
    }
    Ok(Value::Obj(Rc::new(entries)))
}

/// Index update on a sequence's elements; see `spec_arr_update`.
#[verifier::rlimit(100)]
fn arr_step<T: Transformer>(
    idxs: &Vec<Value>,
    a: Rc<Vec<Value>>,
    opt: Opt,
    path: &Vec<(Part<Vec<Value>>, Opt)>,
    from: usize,
    f: &T,
) -> (r: Result<Value, Error>)
    requires
        from <= path@.len(),
    ensures
        (match r {
            Ok(w) => Ok(w@),
            Err(e) => Err::<Node, ErrM>(e@),
        }) == (match spec_arr_update(
            models_of(a@),
            models_of(idxs@),
            0,
            opt,
            path_model(path@),
            from as int,
            f,
        ) {
            Ok(es) => Ok::<Node, ErrM>(Node::Arr(es)),
            Err(e) => Err::<Node, ErrM>(e),
        }),
    decreases path@.len() - from + 1, 0int, 0int,
{
    let ghost pm = path_model(path@);
    let ghost keysm = models_of(idxs@);
    let ghost target = spec_arr_update(models_of(a@), keysm, 0, opt, pm, from as int, f);
    let mut elems = unshare_arr(a);
    let mut k: usize = 0;
    proof {
        lemma_models_of(idxs@);
    }
    while k < idxs.len()
        invariant
            k <= idxs@.len(),
            from <= path@.len(),
            pm == path_model(path@),
            keysm == models_of(idxs@),
            keysm.len() == idxs@.len(),
            forall|j: int| 0 <= j < idxs@.len() ==> keysm[j] == value_model(idxs@[j]),
            target == spec_arr_update(
                models_of(a@),
                keysm,
                0,
                opt,
                pm,
                from as int,
                f,
            ),
            target == spec_arr_update(
                models_of(elems@),
                keysm,
                k as int,
                opt,
                pm,
                from as int,
                f,
            ),
        decreases idxs.len() - k,
    {
        let ghost em = models_of(elems@);
        proof {
            lemma_models_of(elems@);
        }
        match idxs[k].as_int() {
            Ok(i) => match abs_index(i, elems.len()) {
                Some(u) => {
                    let cur = elems[u].dup();
                    proof {
                        assert(cur@ == em[u as int]);
                    }
                    match take_first(Part::update(path, from, cur, f)) {
                        Ok(Some(y)) => {
                            let ghost prev = elems@;
                            elems.set(u, y);
                            proof {
                                lemma_models_of(elems@);
                                lemma_models_of(prev);
                                assert(models_of(elems@) =~= em.update(u as int, y@));
                                assert(node_as_int(keysm[k as int]) == Ok::<isize, ErrM>(i));
                                assert(spec_abs_index(i as int, em.len() as int) == Some(
                                    u as int,
                                ));
                                assert(spec_first_update(pm, from as int, em[u as int], f)
                                    == Ok::<Option<Node>, ErrM>(Some(y@)));
                                assert(spec_arr_update(em, keysm, k as int, opt, pm, from as int,
                                    f) == spec_arr_update(models_of(elems@), keysm, k as int + 1,
                                    opt, pm, from as int, f));
                            }
                        },
                        Ok(None) => {
                            let ghost prev = elems@;
                            elems.remove(u);
                            proof {
                                lemma_models_of(elems@);
                                lemma_models_of(prev);
                                assert(models_of(elems@) =~= em.remove(u as int));
                                assert(spec_arr_update(em, keysm, k as int, opt, pm, from as int,
                                    f) == spec_arr_update(models_of(elems@), keysm, k as int + 1,
                                    opt, pm, from as int, f));
                            }
                        },
                        Err(e) => {
                            proof {
                                assert(spec_arr_update(em, keysm, k as int, opt, pm, from as int,
                                    f) == Err::<Seq<Node>, ErrM>(e@));
                            }
                            return Err(e);
                        },
                    }
                },
                None => match opt {
                    Opt::Essential => {
                        proof {
                            assert(spec_arr_update(em, keysm, k as int, opt, pm, from as int, f)
                                == Err::<Seq<Node>, ErrM>(ErrM::IndexOutOfBounds(i)));
                        }
                        return Err(Error::IndexOutOfBounds(i));
                    },
                    Opt::Optional => {
                        proof {
                            assert(spec_arr_update(em, keysm, k as int, opt, pm, from as int, f)
                                == spec_arr_update(em, keysm, k as int + 1, opt, pm, from as int,
                                f));
                        }
                    },
                },
            },
            Err(e) => match opt {
                Opt::Essential => {
                    proof {
                        assert(spec_arr_update(em, keysm, k as int, opt, pm, from as int, f)
                            == Err::<Seq<Node>, ErrM>(e@));
                    }
                    return Err(e);
                },
                Opt::Optional => {
                    proof {
                        assert(spec_arr_update(em, keysm, k as int, opt, pm, from as int, f)
                            == spec_arr_update(em, keysm, k as int + 1, opt, pm, from as int, f));
                    }
                },
            },
        }
        k += 1;
    }
    Ok(Value::Arr(Rc::new(elems)))
}

/// Whole-container update of a sequence; see `spec_map_elems`.
#[verifier::rlimit(100)]
fn map_elems_step<T: Transformer>(
    a: Rc<Vec<Value>>,
    path: &Vec<(Part<Vec<Value>>, Opt)>,
    from: usize,
    f: &T,
) -> (r: Result<Value, Error>)
    requires
        from <= path@.len(),
    ensures
        (match r {
            Ok(w) => Ok(w@),
            Err(e) => Err::<Node, ErrM>(e@),
        }) == (match spec_map_elems(models_of(a@), 0, path_model(path@), from as int, f) {
            Ok(es) => Ok::<Node, ErrM>(Node::Arr(es)),
            Err(e) => Err::<Node, ErrM>(e),
        }),
    decreases path@.len() - from + 1, 0int, 0int,
{
    let ghost pm = path_model(path@);
    let ghost em = models_of(a@);
    let av: &Vec<Value> = &*a;
    let mut out: Vec<Value> = Vec::new();
    let mut k: usize = 0;
    proof {
        lemma_models_of(av@);
    }
    while k < av.len()
        invariant
            k <= av@.len(),
            from <= path@.len(),
            pm == path_model(path@),
            av@ == a@,
            em == models_of(av@),
            em.len() == av@.len(),
            forall|j: int| 0 <= j < av@.len() ==> em[j] == value_model(av@[j]),
            spec_map_elems(em, 0, pm, from as int, f) == (match spec_map_elems(
                em,
                k as int,
                pm,
                from as int,
                f,
            ) {
                Ok(rest) => Ok::<Seq<Node>, ErrM>(models_of(out@) + rest),
                Err(e) => Err::<Seq<Node>, ErrM>(e),
            }),
        decreases av.len() - k,
    {
        let cur = av[k].dup();
        proof {
            assert(cur@ == em[k as int]);
        }
        match take_first(Part::update(path, from, cur, f)) {
            Ok(Some(y)) => {
                let ghost prev = out@;
                out.push(y);
                proof {
                    assert(spec_first_update(pm, from as int, em[k as int], f) == Ok::<
                        Option<Node>,
                        ErrM,
                    >(Some(out@.last()@)));
                    assert(spec_map_elems(em, k as int, pm, from as int, f) == (
                    match spec_map_elems(em, k as int + 1, pm, from as int, f) {
                        Ok(rest) => Ok::<Seq<Node>, ErrM>(seq![out@.last()@] + rest),
                        Err(e) => Err::<Seq<Node>, ErrM>(e),
                    }));
                    crate::val::lemma_models_of_push(prev, out@.last());
                    assert forall|rest: Seq<Node>|
                        true implies models_of(prev) + (seq![out@.last()@] + rest) == models_of(
                        out@,
                    ) + rest by {
                        assert(models_of(prev) + (seq![out@.last()@] + rest) =~= models_of(out@)
                            + rest);
                    }
                }
            },
            Ok(None) => {},
            Err(e) => {
                return Err(e);
            },
        }
        k += 1;
    }
    proof {
        assert(models_of(out@) + Seq::<Node>::empty() =~= models_of(out@));
    }
    Ok(Value::Arr(Rc::new(out)))
}

/// Whole-container update of a mapping; see `spec_map_entries`.
#[verifier::rlimit(100)]
fn map_entries_step<T: Transformer>(
    o: Rc<Vec<(Rc<Vec<char>>, Value)>>,
    path: &Vec<(Part<Vec<Value>>, Opt)>,
    from: usize,
    f: &T,
) -> (r: Result<Value, Error>)
    requires
        from <= path@.len(),
    ensures
        (match r {
            Ok(w) => Ok(w@),
            Err(e) => Err::<Node, ErrM>(e@),
        }) == (match spec_map_entries(entry_models_of(o@), 0, path_model(path@), from as int, f) {
            Ok(es) => Ok::<Node, ErrM>(Node::Obj(es)),
            Err(e) => Err::<Node, ErrM>(e),
        }),
    decreases path@.len() - from + 1, 0int, 0int,
{
    let ghost pm = path_model(path@);
    let ghost em = entry_models_of(o@);
    let ov: &Vec<(Rc<Vec<char>>, Value)> = &*o;
    let mut out: Vec<(Rc<Vec<char>>, Value)> = Vec::new();
    let mut k: usize = 0;
    proof {
        lemma_entry_models_of(ov@);
    }
    while k < ov.len()
        invariant
            k <= ov@.len(),
            from <= path@.len(),
            pm == path_model(path@),
            ov@ == o@,
            em == entry_models_of(ov@),
            em.len() == ov@.len(),
            forall|j: int|
                0 <= j < ov@.len() ==> em[j] == (ov@[j].0@, value_model(ov@[j].1)),
            spec_map_entries(em, 0, pm, from as int, f) == (match spec_map_entries(
                em,
                k as int,
                pm,
                from as int,
                f,
            ) {
                Ok(rest) => Ok::<Seq<(Seq<char>, Node)>, ErrM>(entry_models_of(out@) + rest),
                Err(e) => Err::<Seq<(Seq<char>, Node)>, ErrM>(e),
            }),
        decreases ov.len() - k,
    {
        let e = &ov[k];
        let cur = e.1.dup();
        proof {
            assert(cur@ == em[k as int].1);
        }
        match take_first(Part::update(path, from, cur, f)) {
            Ok(Some(y)) => {
                let ghost prev = out@;
                out.push((rc_dup(&e.0), y));
                proof {
                    assert(spec_first_update(pm, from as int, em[k as int].1, f) == Ok::<
                        Option<Node>,
                        ErrM,
                    >(Some(out@.last().1@)));
                    assert(spec_map_entries(em, k as int, pm, from as int, f) == (
                    match spec_map_entries(em, k as int + 1, pm, from as int, f) {
                        Ok(rest) => Ok::<Seq<(Seq<char>, Node)>, ErrM>(
                            seq![(em[k as int].0, out@.last().1@)] + rest,
                        ),
                        Err(e2) => Err::<Seq<(Seq<char>, Node)>, ErrM>(e2),
                    }));
                    assert(em[k as int].0 == ov@[k as int].0@);
                    lemma_entry_models_of(prev);
                    lemma_entry_models_of(out@);
                    assert forall|rest: Seq<(Seq<char>, Node)>|
                        true implies entry_models_of(prev) + (seq![(ov@[k as int].0@, out@.last().1@)]
                        + rest) == entry_models_of(out@) + rest by {
                        assert(entry_models_of(prev) + (seq![(ov@[k as int].0@, out@.last().1@)]
                            + rest) =~= entry_models_of(out@) + rest);
                    }
                }
            },
            Ok(None) => {},
            Err(e2) => {
                return Err(e2);
            },
        }
        k += 1;
    }
    proof {
        assert(entry_models_of(out@) + Seq::<(Seq<char>, Node)>::empty() =~= entry_models_of(
            out@,
        ));
    }
    Ok(Value::Obj(Rc::new(out)))
}

/// Range update on a sequence; see `spec_range_update`.
#[verifier::rlimit(100)]
fn range_step<T: Transformer>(
    fo: &Option<Vec<Value>>,
    uo: &Option<Vec<Value>>,
    a: Rc<Vec<Value>>,
    opt: Opt,
    path: &Vec<(Part<Vec<Value>>, Opt)>,
    from: usize,
    f: &T,
) -> (r: Result<Value, Error>)
    requires
        from <= path@.len(),
    ensures
        (match r {
            Ok(w) => Ok(w@),
            Err(e) => Err::<Node, ErrM>(e@),
        }) == (match spec_range_update(
            models_of(a@),
            spec_prod(
                spec_rel_bounds(side_model(*fo)),
                spec_rel_bounds(side_model(*uo)),
            ),
            0,
            opt,
            path_model(path@),
            from as int,
            f,
        ) {
            Ok(es) => Ok::<Node, ErrM>(Node::Arr(es)),
            Err(e) => Err::<Node, ErrM>(e),
        }),
    decreases path@.len() - from + 1, 0int, 0int,
{
    let ghost pm = path_model(path@);
    let froms = rel_bounds(fo);
    let untils = rel_bounds(uo);
    let pairs = prod(&froms, &untils);
    let ghost pairsm = spec_prod(
        spec_rel_bounds(side_model(*fo)),
        spec_rel_bounds(side_model(*uo)),
    );
    let ghost target = spec_range_update(models_of(a@), pairsm, 0, opt, pm, from as int, f);
    let mut elems = unshare_arr(a);
    proof {
        assert(pairsm.len() == pairs@.len());
    }
    let mut k: usize = 0;
    while k < pairs.len()
        invariant
            k <= pairs@.len(),
            from <= path@.len(),
            pm == path_model(path@),
            pairs@.len() == froms@.len() * untils@.len(),
            forall|x: int, y: int|
                0 <= x < froms@.len() && 0 <= y < untils@.len() ==> #[trigger] pairs@[x
                    * untils@.len() + y] == (froms@[x], untils@[y]),
            crate::model::bres_model(froms@) == spec_rel_bounds(side_model(*fo)),
            crate::model::bres_model(untils@) == spec_rel_bounds(side_model(*uo)),
            pairsm == spec_prod(
                spec_rel_bounds(side_model(*fo)),
                spec_rel_bounds(side_model(*uo)),
            ),
            pairsm.len() == pairs@.len(),
            target == spec_range_update(
                models_of(a@),
                pairsm,
                0,
                opt,
                pm,
                from as int,
                f,
            ),
            target == spec_range_update(
                models_of(elems@),
                pairsm,
                k as int,
                opt,
                pm,
                from as int,
                f,
            ),
        decreases pairs.len() - k,
    {
        let ghost em = models_of(elems@);
        let ghost rlen = untils@.len() as int;
        let ghost ka = k as int / rlen;
        let ghost kb = k as int % rlen;
        proof {
            lemma_models_of(elems@);
            assert(rlen * (k as int / rlen) + k as int % rlen == k as int && 0 <= k as int % rlen
                < rlen && 0 <= k as int / rlen < froms@.len()) by (nonlinear_arith)
                requires
                    0 <= k as int,
                    (k as int) < froms@.len() * rlen,
                    0 < rlen,
            ;
            assert(pairs@[ka * rlen + kb] == (froms@[ka], untils@[kb]));
            assert(pairsm[k as int] == (
                crate::model::bres_model(froms@)[ka],
                crate::model::bres_model(untils@)[kb],
            ));
        }
        let pair = &pairs[k];
        match pair {
            (Err(e), _) => match opt {
                Opt::Essential => {
                    proof {
                        assert(spec_range_update(em, pairsm, k as int, opt, pm, from as int, f)
                            == Err::<Seq<Node>, ErrM>(e@));
                    }
                    return Err(e.dup());
                },
                Opt::Optional => {
                    proof {
                        assert(spec_range_update(em, pairsm, k as int, opt, pm, from as int, f)
                            == spec_range_update(em, pairsm, k as int + 1, opt, pm, from as int,
                            f));
                    }
                },
            },
            (Ok(_), Err(e)) => match opt {
                Opt::Essential => {
                    proof {
                        assert(spec_range_update(em, pairsm, k as int, opt, pm, from as int, f)
                            == Err::<Seq<Node>, ErrM>(e@));
                    }
                    return Err(e.dup());
                },
                Opt::Optional => {
                    proof {
                        assert(spec_range_update(em, pairsm, k as int, opt, pm, from as int, f)
                            == spec_range_update(em, pairsm, k as int + 1, opt, pm, from as int,
                            f));
                    }
                },
            },
            (Ok(fb), Ok(ub)) => {
                let start = abs_bound(*fb, elems.len(), 0);
                let end = abs_bound(*ub, elems.len(), elems.len());
                let st = skip_take(start, end);
                proof {
                    assert(st.0 + st.1 <= elems@.len());
                }
                let mut slice: Vec<Value> = Vec::new();
                let mut t: usize = 0;
                while t < st.1
                    invariant
                        t <= st.1,
                        slice@.len() == t,
                        st.0 + st.1 <= elems@.len(),
                        elems@.len() <= usize::MAX,
                        forall|j: int| 0 <= j < t ==> slice@[j] == elems@[st.0 + j],
                    decreases st.1 - t,
                {
                    slice.push(elems[st.0 + t].dup());
                    t += 1;
                }
                proof {
                    lemma_models_of(slice@);
                    assert(models_of(slice@) =~= em.subrange(st.0 as int, st.0 + st.1));
                }
                let slice_val = Value::Arr(Rc::new(slice));
                proof {
                    assert(slice_val@ == Node::Arr(em.subrange(st.0 as int, st.0 + st.1)));
                    assert(pairsm[k as int].0 == Ok::<Option<isize>, ErrM>(*fb));
                    assert(pairsm[k as int].1 == Ok::<Option<isize>, ErrM>(*ub));
                    assert(spec_abs_bound(bound_int(*fb), em.len() as int, 0) == start as int);
                    assert(spec_abs_bound(bound_int(*ub), em.len() as int, em.len() as int)
                        == end as int);
                    assert(spec_skip_take(start as int, end as int) == (st.0 as int, st.1 as int));
                }
                let ys: Vec<Value> = match take_first(
                    Part::update(path, from, slice_val, f),
                ) {
                    Ok(Some(y)) => match y {
                        Value::Arr(yrc) => unshare_arr(yrc),
                        y2 => {
                            proof {
                                assert(spec_first_update(pm, from as int, slice_val@, f) == Ok::<
                                    Option<Node>,
                                    ErrM,
                                >(Some(y2@)));
                                assert(spec_range_update(em, pairsm, k as int, opt, pm,
                                    from as int, f) == Err::<Seq<Node>, ErrM>(ErrM::Type(
                                    y2@,
                                    Kind::Arr,
                                )));
                            }
                            return Err(Error::Type(y2, Kind::Arr));
                        },
                    },
                    Ok(None) => Vec::new(),
                    Err(e) => {
                        proof {
                            assert(spec_first_update(pm, from as int, slice_val@, f) == Err::<
                                Option<Node>,
                                ErrM,
                            >(e@));
                            assert(spec_range_update(em, pairsm, k as int, opt, pm, from as int,
                                f) == Err::<Seq<Node>, ErrM>(e@));
                        }
                        return Err(e);
                    },
                };
                let ghost ysm = models_of(ys@);
                let yn = ys.len();
                let mut rebuilt: Vec<Value> = Vec::new();
                let mut t2: usize = 0;
                while t2 < st.0
                    invariant
                        t2 <= st.0,
                        rebuilt@.len() == t2,
                        st.0 + st.1 <= elems@.len(),
                        elems@.len() <= usize::MAX,
                        forall|j: int| 0 <= j < t2 ==> rebuilt@[j] == elems@[j],
                    decreases st.0 - t2,
                {
                    rebuilt.push(elems[t2].dup());
                    t2 += 1;
                }
                let mut t3: usize = 0;
                while t3 < ys.len()
                    invariant
                        t3 <= ys@.len(),
                        ys@.len() == yn,
                        rebuilt@.len() == st.0 + t3,
                        st.0 + st.1 <= elems@.len(),
                        elems@.len() <= usize::MAX,
                        forall|j: int| 0 <= j < st.0 ==> rebuilt@[j] == elems@[j],
                        forall|j: int|
                            0 <= j < t3 ==> #[trigger] rebuilt@[st.0 + j] == ys@[j],
                    decreases ys.len() - t3,
                {
                    rebuilt.push(ys[t3].dup());
                    t3 += 1;
                }
                let mut t4: usize = st.0 + st.1;
                while t4 < elems.len()
                    invariant
                        st.0 + st.1 <= t4 <= elems@.len(),
                        ys@.len() == yn,
                        elems@.len() <= usize::MAX,
                        rebuilt@.len() == st.0 + yn + t4 - (st.0 + st.1),
                        forall|j: int| 0 <= j < st.0 ==> rebuilt@[j] == elems@[j],
                        forall|j: int|
                            0 <= j < yn ==> #[trigger] rebuilt@[st.0 + j] == ys@[j],
                        forall|j: int|
                            0 <= j < t4 - (st.0 + st.1) ==> #[trigger] rebuilt@[st.0 + yn + j]
                                == elems@[st.0 + st.1 + j],
                    decreases elems.len() - t4,
                {
                    rebuilt.push(elems[t4].dup());
                    t4 += 1;
                }
                proof {
                    lemma_models_of(rebuilt@);
                    lemma_models_of(ys@);
                    assert(rebuilt@.len() == st.0 + yn + (elems@.len() - st.0 - st.1));
                    assert(em.len() == elems@.len());
                    assert forall|j: int| 0 <= j < rebuilt@.len() implies #[trigger] rebuilt@[j]
                        == (if j < st.0 as int {
                        elems@[j]
                    } else if j < st.0 + yn {
                        ys@[j - st.0]
                    } else {
                        elems@[j - yn + st.1 as int]
                    }) by {
                        if st.0 as int <= j < st.0 + yn {
                            assert(rebuilt@[st.0 + (j - st.0)] == ys@[j - st.0]);
                        } else if j >= st.0 + yn {
                            assert(rebuilt@[st.0 + yn + (j - st.0 - yn)] == elems@[st.0 + st.1 + (
                            j - st.0 - yn)]);
                        }
                    }
                    assert(models_of(rebuilt@) =~= em.take(st.0 as int) + ysm + em.skip(
                        st.0 + st.1,
                    ));
                    assert(em.take(st.0 as int) + ysm + em.skip(st.0 + st.1) =~= (em.take(
                        st.0 as int,
                    ) + ysm) + em.skip(st.0 + st.1));
                    assert(spec_range_update(em, pairsm, k as int, opt, pm, from as int, f)
                        == spec_range_update(models_of(rebuilt@), pairsm, k as int + 1, opt, pm,
                        from as int, f));
                }
                elems = rebuilt;
            },
        }
        k += 1;
    }
    Ok(Value::Arr(Rc::new(elems)))
}

/// The transformer that hands every located value back unchanged: the
/// identity rewrite.
pub struct Keep;

impl Transformer for Keep {
    open spec fn apply_spec(&self, v: Node) -> Seq<ResM> {
        seq![Ok(v)]
    }

    fn apply(&self, v: Value) -> (r: Vec<Result<Value, Error>>) {
        let out: Vec<Result<Value, Error>> = vec![Ok(v)];
        proof {
            assert(results_model(out@) =~= self.apply_spec(out@[0]->Ok_0@));
        }
        out
    }
}

/// The transformer that yields nothing for every located value:
/// update with it deletes each location.
pub struct Discard;

impl Transformer for Discard {
    open spec fn apply_spec(&self, v: Node) -> Seq<ResM> {
        Seq::empty()
    }

    fn apply(&self, v: Value) -> (r: Vec<Result<Value, Error>>) {
        let out: Vec<Result<Value, Error>> = Vec::new();
        proof {
            assert(results_model(out@) =~= self.apply_spec(v@));
        }
        out
    }
}

/// The transformer that replaces every located value with one fixed
/// value.
pub struct SetTo(pub Value);

impl Transformer for SetTo {
    open spec fn apply_spec(&self, v: Node) -> Seq<ResM> {
        seq![Ok(self.0@)]
    }

    fn apply(&self, v: Value) -> (r: Vec<Result<Value, Error>>) {
        let out: Vec<Result<Value, Error>> = vec![Ok(self.0.dup())];
        proof {
            assert(results_model(out@) =~= self.apply_spec(v@));
        }
        out
    }
}

} // verus!
