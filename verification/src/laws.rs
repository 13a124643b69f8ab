//! The engine's laws: properties of collect and update that hold for
//! every input, stated and proved over the model semantics.

use vstd::prelude::*;

use crate::bounds::spec_abs_index;
use crate::model::{
    node_obj_find, node_obj_get, spec_collect_steps, spec_index_one,
    spec_opt_collect, spec_part_collect, spec_path_collect, spec_prod, spec_rel_bounds, PartM,
};
use crate::update::{spec_arr_update, spec_obj_update, spec_range_update, spec_step, Transformer};
use crate::val::{ErrM, Kind, Node, Opt};

verus! {

/// Collecting along the empty path yields exactly the root value, for
/// any value.
pub proof fn lemma_collect_empty_path(v: Node)
    ensures
        spec_path_collect(Seq::empty(), v) == Ok::<Seq<Node>, ErrM>(seq![v]),
{
    assert(spec_collect_steps(Seq::empty(), seq![v]) == Ok::<Seq<Node>, ErrM>(seq![v]));
}

/// A whole-container range on a sequence collects exactly its
/// elements, in order.
pub proof fn lemma_whole_range_on_array(a: Seq<Node>)
    ensures
        spec_part_collect(PartM::Range(None, None), Node::Arr(a)).len() == a.len(),
        forall|i: int|
            0 <= i < a.len() ==> spec_part_collect(PartM::Range(None, None), Node::Arr(a))[i]
                == Ok::<Node, ErrM>(a[i]),
{
}

/// A whole-container range on a mapping collects exactly its values,
/// in insertion order.
pub proof fn lemma_whole_range_on_mapping(o: Seq<(Seq<char>, Node)>)
    ensures
        spec_part_collect(PartM::Range(None, None), Node::Obj(o)).len() == o.len(),
        forall|i: int|
            0 <= i < o.len() ==> spec_part_collect(PartM::Range(None, None), Node::Obj(o))[i]
                == Ok::<Node, ErrM>(o[i].1),
{
}

/// Reading a missing mapping key yields `Null`, never an error, and
/// either policy keeps that branch.
pub proof fn lemma_missing_key_reads_null(o: Seq<(Seq<char>, Node)>, s: Seq<char>, opt: Opt)
    requires
        node_obj_get(o, s) is None,
    ensures
        spec_part_collect(PartM::Index(seq![Node::Str(s)]), Node::Obj(o)) == seq![
            Ok::<Node, ErrM>(Node::Null),
        ],
        spec_opt_collect(opt, seq![Ok::<Node, ErrM>(Node::Null)]) == Ok::<Seq<Node>, ErrM>(
            seq![Node::Null],
        ),
{
    let idxs = seq![Node::Str(s)];
    assert(spec_index_one(Node::Obj(o), idxs[0]) == Ok::<Node, ErrM>(Node::Null));
    assert(spec_part_collect(PartM::Index(idxs), Node::Obj(o)) =~= seq![
        Ok::<Node, ErrM>(Node::Null),
    ]);
    let one = seq![Ok::<Node, ErrM>(Node::Null)];
    assert(one.skip(1).len() == 0);
    assert(spec_opt_collect(opt, one.skip(1)) == Ok::<Seq<Node>, ErrM>(Seq::empty()));
    assert(seq![Node::Null] + Seq::<Node>::empty() =~= seq![Node::Null]);
}

/// An out-of-range array index in an update fails with
/// `IndexOutOfBounds` under `Essential`, and leaves the array
/// unchanged while still succeeding under `Optional`.
pub proof fn lemma_out_of_range_array_update<T: Transformer>(
    elems: Seq<Node>,
    i: isize,
    path: Seq<(PartM, Opt)>,
    j: int,
    t: &T,
)
    requires
        0 <= j <= path.len(),
        spec_abs_index(i as int, elems.len() as int) is None,
    ensures
        spec_step(PartM::Index(seq![Node::Int(i)]), Opt::Essential, path, j, Node::Arr(elems), t)
            == Err::<Node, ErrM>(ErrM::IndexOutOfBounds(i)),
        spec_step(PartM::Index(seq![Node::Int(i)]), Opt::Optional, path, j, Node::Arr(elems), t)
            == Ok::<Node, ErrM>(Node::Arr(elems)),
{
    let idxs = seq![Node::Int(i)];
    assert(spec_arr_update(elems, idxs, 0, Opt::Essential, path, j, t) == Err::<
        Seq<Node>,
        ErrM,
    >(ErrM::IndexOutOfBounds(i)));
    assert(spec_arr_update(elems, idxs, 1, Opt::Optional, path, j, t) == Ok::<Seq<Node>, ErrM>(
        elems,
    ));
    assert(spec_arr_update(elems, idxs, 0, Opt::Optional, path, j, t) == Ok::<Seq<Node>, ErrM>(
        elems,
    ));
}

/// An update whose per-location transform yields no value deletes the
/// located mapping key.
pub proof fn lemma_empty_transform_deletes_key<T: Transformer>(
    entries: Seq<(Seq<char>, Node)>,
    s: Seq<char>,
    at: int,
    opt: Opt,
    path: Seq<(PartM, Opt)>,
    t: &T,
)
    requires
        node_obj_find(entries, s) == Some(at),
        0 <= at < entries.len(),
        t.apply_spec(entries[at].1).len() == 0,
    ensures
        spec_step(
            PartM::Index(seq![Node::Str(s)]),
            opt,
            path,
            path.len() as int,
            Node::Obj(entries),
            t,
        ) == Ok::<Node, ErrM>(Node::Obj(entries.remove(at))),
{
    let idxs = seq![Node::Str(s)];
    let j = path.len() as int;
    assert(spec_obj_update(entries.remove(at), idxs, 1, opt, path, j, t) == Ok::<
        Seq<(Seq<char>, Node)>,
        ErrM,
    >(entries.remove(at)));
    assert(spec_obj_update(entries, idxs, 0, opt, path, j, t) == Ok::<
        Seq<(Seq<char>, Node)>,
        ErrM,
    >(entries.remove(at)));
}

/// An update whose per-location transform yields no value removes the
/// located array element, shifting later elements down by one.
pub proof fn lemma_empty_transform_removes_element<T: Transformer>(
    elems: Seq<Node>,
    i: isize,
    u: int,
    opt: Opt,
    path: Seq<(PartM, Opt)>,
    t: &T,
)
    requires
        spec_abs_index(i as int, elems.len() as int) == Some(u),
        0 <= u < elems.len(),
        t.apply_spec(elems[u]).len() == 0,
    ensures
        spec_step(
            PartM::Index(seq![Node::Int(i)]),
            opt,
            path,
            path.len() as int,
            Node::Arr(elems),
            t,
        ) == Ok::<Node, ErrM>(Node::Arr(elems.remove(u))),
{
    let idxs = seq![Node::Int(i)];
    let j = path.len() as int;
    assert(spec_arr_update(elems.remove(u), idxs, 1, opt, path, j, t) == Ok::<Seq<Node>, ErrM>(
        elems.remove(u),
    ));
    assert(spec_arr_update(elems, idxs, 0, opt, path, j, t) == Ok::<Seq<Node>, ErrM>(
        elems.remove(u),
    ));
}

/// An update whose transform yields no value over a range splices an
/// empty sequence in, shrinking the array by the range's length.
pub proof fn lemma_empty_transform_splices_range<T: Transformer>(
    elems: Seq<Node>,
    pairs: Seq<(Result<Option<isize>, ErrM>, Result<Option<isize>, ErrM>)>,
    opt: Opt,
    path: Seq<(PartM, Opt)>,
    t: &T,
)
    requires
        pairs.len() == 1,
        pairs[0].0 is Ok,
        pairs[0].1 is Ok,
        t.apply_spec(
            Node::Arr(crate::model::spec_slice(elems, pairs[0].0->Ok_0, pairs[0].1->Ok_0)),
        ).len() == 0,
    ensures
        ({
            let from = crate::bounds::spec_abs_bound(
                crate::model::bound_int(pairs[0].0->Ok_0),
                elems.len() as int,
                0,
            );
            let until = crate::bounds::spec_abs_bound(
                crate::model::bound_int(pairs[0].1->Ok_0),
                elems.len() as int,
                elems.len() as int,
            );
            let st = crate::bounds::spec_skip_take(from, until);
            spec_range_update(elems, pairs, 0, opt, path, path.len() as int, t) == Ok::<
                Seq<Node>,
                ErrM,
            >(elems.take(st.0) + elems.skip(st.0 + st.1))
        }),
{
    let j = path.len() as int;
    let from = crate::bounds::spec_abs_bound(
        crate::model::bound_int(pairs[0].0->Ok_0),
        elems.len() as int,
        0,
    );
    let until = crate::bounds::spec_abs_bound(
        crate::model::bound_int(pairs[0].1->Ok_0),
        elems.len() as int,
        elems.len() as int,
    );
    let st = crate::bounds::spec_skip_take(from, until);
    let slice = elems.subrange(st.0, st.0 + st.1);
    assert(crate::model::spec_slice(elems, pairs[0].0->Ok_0, pairs[0].1->Ok_0) == slice);
    assert(crate::update::spec_update(path, j, Node::Arr(slice), t) == t.apply_spec(
        Node::Arr(slice),
    ));
    assert(crate::update::spec_first_update(path, j, Node::Arr(slice), t) == Ok::<
        Option<Node>,
        ErrM,
    >(None));
    let spliced = elems.take(st.0) + elems.skip(st.0 + st.1);
    assert(spec_range_update(spliced, pairs, 1, opt, path, j, t) == Ok::<Seq<Node>, ErrM>(
        spliced,
    ));
}

/// A range update demands that a present transform result be a
/// sequence: any other kind of result is a type error, whatever the
/// policy.
pub proof fn lemma_range_update_needs_sequence<T: Transformer>(
    elems: Seq<Node>,
    pairs: Seq<(Result<Option<isize>, ErrM>, Result<Option<isize>, ErrM>)>,
    slice: Seq<Node>,
    y: Node,
    opt: Opt,
    path: Seq<(PartM, Opt)>,
    j: int,
    t: &T,
)
    requires
        0 <= j <= path.len(),
        pairs.len() > 0,
        pairs[0].0 is Ok,
        pairs[0].1 is Ok,
        slice == crate::model::spec_slice(elems, pairs[0].0->Ok_0, pairs[0].1->Ok_0),
        t.apply_spec(Node::Arr(slice)).len() > 0,
        t.apply_spec(Node::Arr(slice))[0] == Ok::<Node, ErrM>(y),
        !(y is Arr),
        j == path.len(),
    ensures
        spec_range_update(elems, pairs, 0, opt, path, j, t) == Err::<Seq<Node>, ErrM>(
            ErrM::Type(y, Kind::Arr),
        ),
{
    let f = pairs[0].0->Ok_0;
    let u = pairs[0].1->Ok_0;
    let from = crate::bounds::spec_abs_bound(
        crate::model::bound_int(f),
        elems.len() as int,
        0,
    );
    let until = crate::bounds::spec_abs_bound(
        crate::model::bound_int(u),
        elems.len() as int,
        elems.len() as int,
    );
    let st = crate::bounds::spec_skip_take(from, until);
    assert(slice =~= elems.subrange(st.0, st.0 + st.1));
    assert(crate::update::spec_update(path, j, Node::Arr(slice), t) == t.apply_spec(
        Node::Arr(slice),
    ));
    assert(crate::update::spec_first_update(
        path,
        j,
        Node::Arr(elems.subrange(st.0, st.0 + st.1)),
        t,
    ) == Ok::<Option<Node>, ErrM>(Some(y)));
}

/// The paths on which an identity update is a round trip: every step
/// lands on a container, every index or bound resolves to an existing
/// location, and the same holds recursively at each located sub-value.
/// (Anywhere else an identity update still inserts, skips or fails, so
/// the round trip below is stated on exactly these paths.)
pub open spec fn keep_ok(path: Seq<(PartM, Opt)>, i: int, v: Node) -> bool
    decreases path.len() - i, 3int, 0int,
    when 0 <= i <= path.len()
{
    if i == path.len() {
        true
    } else {
        step_ok(path[i].0, path, i + 1, v)
    }
}

/// One step of `keep_ok`.
pub open spec fn step_ok(part: PartM, path: Seq<(PartM, Opt)>, j: int, v: Node) -> bool
    decreases path.len() - j + 1, 1int, 0int,
    when 0 <= j <= path.len()
{
    match part {
        PartM::Index(idxs) => match v {
            Node::Obj(entries) => obj_ok(entries, idxs, 0, path, j),
            Node::Arr(elems) => arr_ok(elems, idxs, 0, path, j),
            _ => false,
        },
        PartM::Range(None, None) => match v {
            Node::Arr(elems) => elems_ok(elems, 0, path, j),
            Node::Obj(entries) => entries_ok(entries, 0, path, j),
            _ => false,
        },
        PartM::Range(f, u) => match v {
            Node::Arr(elems) => range_ok(
                elems,
                spec_prod(spec_rel_bounds(f), spec_rel_bounds(u)),
                0,
                path,
                j,
            ),
            _ => false,
        },
    }
}

/// Every key from position `k` on is a string present in `entries`,
/// recursively round-trippable at its value.
pub open spec fn obj_ok(
    entries: Seq<(Seq<char>, Node)>,
    keys: Seq<Node>,
    k: int,
    path: Seq<(PartM, Opt)>,
    j: int,
) -> bool
    decreases path.len() - j + 1, 0int, keys.len() - k,
    when 0 <= j <= path.len() && 0 <= k <= keys.len()
{
    k == keys.len() || (match keys[k] {
        Node::Str(s) => match node_obj_find(entries, s) {
            Some(at) => keep_ok(path, j, entries[at].1) && obj_ok(entries, keys, k + 1, path, j),
            None => false,
        },
        _ => false,
    })
}

/// Every index from position `k` on resolves inside `elems`,
/// recursively round-trippable at its element.
pub open spec fn arr_ok(
    elems: Seq<Node>,
    idxs: Seq<Node>,
    k: int,
    path: Seq<(PartM, Opt)>,
    j: int,
) -> bool
    decreases path.len() - j + 1, 0int, idxs.len() - k,
    when 0 <= j <= path.len() && 0 <= k <= idxs.len()
{
    k == idxs.len() || (match node_as_int_law(idxs[k]) {
        Some(i) => match spec_abs_index(i as int, elems.len() as int) {
            Some(u) => keep_ok(path, j, elems[u]) && arr_ok(elems, idxs, k + 1, path, j),
            None => false,
        },
        None => false,
    })
}

/// The integer behind an index value, if it is one.
pub open spec fn node_as_int_law(n: Node) -> Option<isize> {
    match n {
        Node::Int(i) => Some(i),
        _ => None,
    }
}

/// Every element from `k` on is recursively round-trippable.
pub open spec fn elems_ok(elems: Seq<Node>, k: int, path: Seq<(PartM, Opt)>, j: int) -> bool
    decreases path.len() - j + 1, 0int, elems.len() - k,
    when 0 <= j <= path.len() && 0 <= k <= elems.len()
{
    k == elems.len() || (keep_ok(path, j, elems[k]) && elems_ok(elems, k + 1, path, j))
}

/// Every entry value from `k` on is recursively round-trippable.
pub open spec fn entries_ok(
    entries: Seq<(Seq<char>, Node)>,
    k: int,
    path: Seq<(PartM, Opt)>,
    j: int,
) -> bool
    decreases path.len() - j + 1, 0int, entries.len() - k,
    when 0 <= j <= path.len() && 0 <= k <= entries.len()
{
    k == entries.len() || (keep_ok(path, j, entries[k].1) && entries_ok(entries, k + 1, path, j))
}

/// Every bound pair from `k` on resolves, its slice recursively
/// round-trippable.
pub open spec fn range_ok(
    elems: Seq<Node>,
    pairs: Seq<(Result<Option<isize>, ErrM>, Result<Option<isize>, ErrM>)>,
    k: int,
    path: Seq<(PartM, Opt)>,
    j: int,
) -> bool
    decreases path.len() - j + 1, 0int, pairs.len() - k,
    when 0 <= j <= path.len() && 0 <= k <= pairs.len()
{
    k == pairs.len() || (match (pairs[k].0, pairs[k].1) {
        (Ok(f), Ok(u)) => keep_ok(path, j, Node::Arr(crate::model::spec_slice(elems, f, u)))
            && range_ok(elems, pairs, k + 1, path, j),
        _ => false,
    })
}

/// The position `node_obj_find` returns holds the key looked for.
proof fn lemma_node_find_props(entries: Seq<(Seq<char>, Node)>, s: Seq<char>)
    ensures
        match node_obj_find(entries, s) {
            Some(at) => 0 <= at < entries.len() && entries[at].0 == s,
            None => true,
        },
    decreases entries.len(),
{
    if entries.len() > 0 && entries[0].0 != s {
        lemma_node_find_props(entries.skip(1), s);
    }
}

/// Round trip: on a path where every location exists (`keep_ok`), an
/// update with the identity transformer returns exactly the unchanged
/// root.
pub proof fn lemma_identity_update_roundtrip(path: Seq<(PartM, Opt)>, i: int, v: Node)
    requires
        0 <= i <= path.len(),
        keep_ok(path, i, v),
    ensures
        crate::update::spec_update(path, i, v, &crate::update::Keep) == seq![
            Ok::<Node, ErrM>(v),
        ],
    decreases path.len() - i, 3int, 0int,
{
    let t = &crate::update::Keep;
    if i == path.len() {
        assert(crate::update::spec_update(path, i, v, t) =~= seq![Ok::<Node, ErrM>(v)]);
    } else {
        lemma_keep_step(path[i].0, path[i].1, path, i + 1, v);
        assert(crate::update::spec_update(path, i, v, t) =~= seq![Ok::<Node, ErrM>(v)]);
    }
}

proof fn lemma_keep_step(part: PartM, opt: Opt, path: Seq<(PartM, Opt)>, j: int, v: Node)
    requires
        0 <= j <= path.len(),
        step_ok(part, path, j, v),
    ensures
        spec_step(part, opt, path, j, v, &crate::update::Keep) == Ok::<Node, ErrM>(v),
    decreases path.len() - j + 1, 1int, 0int,
{
    match part {
        PartM::Index(idxs) => match v {
            Node::Obj(entries) => {
                lemma_keep_obj(entries, idxs, 0, opt, path, j);
            },
            Node::Arr(elems) => {
                lemma_keep_arr(elems, idxs, 0, opt, path, j);
            },
            _ => {},
        },
        PartM::Range(None, None) => match v {
            Node::Arr(elems) => {
                lemma_keep_elems(elems, 0, path, j);
                assert(elems.skip(0) =~= elems);
            },
            Node::Obj(entries) => {
                lemma_keep_entries(entries, 0, path, j);
                assert(entries.skip(0) =~= entries);
            },
            _ => {},
        },
        PartM::Range(f, u) => match v {
            Node::Arr(elems) => {
                lemma_keep_range(
                    elems,
                    spec_prod(spec_rel_bounds(f), spec_rel_bounds(u)),
                    0,
                    opt,
                    path,
                    j,
                );
            },
            _ => {},
        },
    }
}

proof fn lemma_keep_obj(
    entries: Seq<(Seq<char>, Node)>,
    keys: Seq<Node>,
    k: int,
    opt: Opt,
    path: Seq<(PartM, Opt)>,
    j: int,
)
    requires
        0 <= j <= path.len(),
        0 <= k <= keys.len(),
        obj_ok(entries, keys, k, path, j),
    ensures
        spec_obj_update(entries, keys, k, opt, path, j, &crate::update::Keep) == Ok::<
            Seq<(Seq<char>, Node)>,
            ErrM,
        >(entries),
    decreases path.len() - j + 1, 0int, keys.len() - k,
{
    let t = &crate::update::Keep;
    if k < keys.len() {
        match keys[k] {
            Node::Str(s) => {
                lemma_node_find_props(entries, s);
                let at = node_obj_find(entries, s)->0;
                lemma_identity_update_roundtrip(path, j, entries[at].1);
                assert(crate::update::spec_first_update(path, j, entries[at].1, t) == Ok::<
                    Option<Node>,
                    ErrM,
                >(Some(entries[at].1)));
                assert(entries.update(at, (s, entries[at].1)) =~= entries);
                lemma_keep_obj(entries, keys, k + 1, opt, path, j);
            },
            _ => {},
        }
    }
}

proof fn lemma_keep_arr(
    elems: Seq<Node>,
    idxs: Seq<Node>,
    k: int,
    opt: Opt,
    path: Seq<(PartM, Opt)>,
    j: int,
)
    requires
        0 <= j <= path.len(),
        0 <= k <= idxs.len(),
        arr_ok(elems, idxs, k, path, j),
    ensures
        spec_arr_update(elems, idxs, k, opt, path, j, &crate::update::Keep) == Ok::<
            Seq<Node>,
            ErrM,
        >(elems),
    decreases path.len() - j + 1, 0int, idxs.len() - k,
{
    let t = &crate::update::Keep;
    if k < idxs.len() {
        match node_as_int_law(idxs[k]) {
            Some(i) => match spec_abs_index(i as int, elems.len() as int) {
                Some(u) => {
                    lemma_identity_update_roundtrip(path, j, elems[u]);
                    assert(crate::update::spec_first_update(path, j, elems[u], t) == Ok::<
                        Option<Node>,
                        ErrM,
                    >(Some(elems[u])));
                    assert(elems.update(u, elems[u]) =~= elems);
                    lemma_keep_arr(elems, idxs, k + 1, opt, path, j);
                },
                None => {},
            },
            None => {},
        }
    }
}

proof fn lemma_keep_elems(elems: Seq<Node>, k: int, path: Seq<(PartM, Opt)>, j: int)
    requires
        0 <= j <= path.len(),
        0 <= k <= elems.len(),
        elems_ok(elems, k, path, j),
    ensures
        crate::update::spec_map_elems(elems, k, path, j, &crate::update::Keep) == Ok::<
            Seq<Node>,
            ErrM,
        >(elems.skip(k)),
    decreases path.len() - j + 1, 0int, elems.len() - k,
{
    let t = &crate::update::Keep;
    if k == elems.len() {
        assert(elems.skip(k) =~= Seq::<Node>::empty());
    } else {
        lemma_identity_update_roundtrip(path, j, elems[k]);
        assert(crate::update::spec_first_update(path, j, elems[k], t) == Ok::<
            Option<Node>,
            ErrM,
        >(Some(elems[k])));
        lemma_keep_elems(elems, k + 1, path, j);
        assert(seq![elems[k]] + elems.skip(k + 1) =~= elems.skip(k));
    }
}

proof fn lemma_keep_entries(
    entries: Seq<(Seq<char>, Node)>,
    k: int,
    path: Seq<(PartM, Opt)>,
    j: int,
)
    requires
        0 <= j <= path.len(),
        0 <= k <= entries.len(),
        entries_ok(entries, k, path, j),
    ensures
        crate::update::spec_map_entries(entries, k, path, j, &crate::update::Keep) == Ok::<
            Seq<(Seq<char>, Node)>,
            ErrM,
        >(entries.skip(k)),
    decreases path.len() - j + 1, 0int, entries.len() - k,
{
    let t = &crate::update::Keep;
    if k == entries.len() {
        assert(entries.skip(k) =~= Seq::<(Seq<char>, Node)>::empty());
    } else {
        lemma_identity_update_roundtrip(path, j, entries[k].1);
        assert(crate::update::spec_first_update(path, j, entries[k].1, t) == Ok::<
            Option<Node>,
            ErrM,
        >(Some(entries[k].1)));
        lemma_keep_entries(entries, k + 1, path, j);
        assert((entries[k].0, entries[k].1) == entries[k]);
        assert(seq![entries[k]] + entries.skip(k + 1) =~= entries.skip(k));
    }
}

proof fn lemma_keep_range(
    elems: Seq<Node>,
    pairs: Seq<(Result<Option<isize>, ErrM>, Result<Option<isize>, ErrM>)>,
    k: int,
    opt: Opt,
    path: Seq<(PartM, Opt)>,
    j: int,
)
    requires
        0 <= j <= path.len(),
        0 <= k <= pairs.len(),
        range_ok(elems, pairs, k, path, j),
    ensures
        spec_range_update(elems, pairs, k, opt, path, j, &crate::update::Keep) == Ok::<
            Seq<Node>,
            ErrM,
        >(elems),
    decreases path.len() - j + 1, 0int, pairs.len() - k,
{
    let t = &crate::update::Keep;
    if k < pairs.len() {
        match (pairs[k].0, pairs[k].1) {
            (Ok(f), Ok(u)) => {
                let slice = crate::model::spec_slice(elems, f, u);
                let from = crate::bounds::spec_abs_bound(
                    crate::model::bound_int(f),
                    elems.len() as int,
                    0,
                );
                let until = crate::bounds::spec_abs_bound(
                    crate::model::bound_int(u),
                    elems.len() as int,
                    elems.len() as int,
                );
                let st = crate::bounds::spec_skip_take(from, until);
                lemma_identity_update_roundtrip(path, j, Node::Arr(slice));
                assert(crate::update::spec_first_update(path, j, Node::Arr(slice), t) == Ok::<
                    Option<Node>,
                    ErrM,
                >(Some(Node::Arr(slice))));
                assert(slice =~= elems.subrange(st.0, st.0 + st.1));
                assert(elems.take(st.0) + slice + elems.skip(st.0 + st.1) =~= elems);
                lemma_keep_range(elems, pairs, k + 1, opt, path, j);
            },
            _ => {},
        }
    }
}

} // verus!
