//! Two-phase resolution: a path whose steps still hold raw
//! sub-expressions is turned into a path of concrete value lists by a
//! caller-supplied evaluator, before collect or update run.

use vstd::prelude::*;

use crate::model::{results_model, spec_opt_collect, PartM, ResM};
use crate::path::{Part, Path};
use crate::val::{models_of, ErrM, Error, Node, Opt, Value};

verus! {

/// The caller-supplied expression evaluator: runs one raw
/// sub-expression against the context it captured, yielding the
/// expression's values.  `run_spec` is the evaluator's mathematical
/// meaning, which its `run` must realize.
pub trait Evaluator<F> {
    /// What the evaluator yields on an expression, as a model.
    spec fn run_spec(&self, f: &F) -> Seq<ResM>;

    /// Yield the expression's values.
    fn run(&self, f: &F) -> (r: Vec<Result<Value, Error>>)
        ensures
            results_model(r@) == self.run_spec(f),
    ;
}

/// Materializing one expression: every yielded value is kept, the
/// first error aborts the whole resolution (policy plays no part
/// here).
pub open spec fn spec_eval_side<F, E: Evaluator<F>>(e: &E, side: Option<F>) -> Result<
    Option<Seq<Node>>,
    ErrM,
> {
    match side {
        Some(x) => match spec_opt_collect(Opt::Essential, e.run_spec(&x)) {
            Ok(vs) => Ok(Some(vs)),
            Err(er) => Err(er),
        },
        None => Ok(None),
    }
}

/// What resolving one step yields.
pub open spec fn spec_part_eval<F, E: Evaluator<F>>(e: &E, part: Part<F>) -> Result<PartM, ErrM> {
    match part {
        Part::Index(i) => match spec_opt_collect(Opt::Essential, e.run_spec(&i)) {
            Ok(vs) => Ok(PartM::Index(vs)),
            Err(er) => Err(er),
        },
        Part::Range(f, u) => match spec_eval_side(e, f) {
            Ok(fo) => match spec_eval_side(e, u) {
                Ok(uo) => Ok(PartM::Range(fo, uo)),
                Err(er) => Err(er),
            },
            Err(er) => Err(er),
        },
    }
}

/// What resolving a whole path yields: steps left to right, policies
/// kept, the first error aborting.
pub open spec fn spec_path_eval<F, E: Evaluator<F>>(e: &E, parts: Seq<(Part<F>, Opt)>) -> Result<
    Seq<(PartM, Opt)>,
    ErrM,
>
    decreases parts.len(),
{
    if parts.len() == 0 {
        Ok(Seq::empty())
    } else {
        match spec_part_eval(e, parts[0].0) {
            Ok(pm) => match spec_path_eval(e, parts.skip(1)) {
                Ok(rest) => Ok(seq![(pm, parts[0].1)] + rest),
                Err(er) => Err(er),
            },
            Err(er) => Err(er),
        }
    }
}

impl<F> Part<F> {
    /// Resolve this step's raw sub-expressions into concrete value
    /// lists through the evaluator.
    fn eval<E: Evaluator<F>>(&self, run: &E) -> (r: Result<Part<Vec<Value>>, Error>)
        ensures
            (match r {
                Ok(p) => Ok(p@),
                Err(e) => Err::<PartM, ErrM>(e@),
            }) == spec_part_eval(run, *self),
    {
        match self {
            Part::Index(i) => match Opt::Essential.collect(run.run(i)) {
                Ok(vs) => {
                    let out = Part::Index(vs);
                    proof {
                        assert(out@ == PartM::Index(models_of(vs@)));
                    }
                    Ok(out)
                },
                Err(e) => Err(e),
            },
            Part::Range(f, u) => {
                let fr = match f {
                    Some(x) => match Opt::Essential.collect(run.run(x)) {
                        Ok(vs) => Some(vs),
                        Err(e) => {
                            return Err(e);
                        },
                    },
                    None => None,
                };
                let ur = match u {
                    Some(x) => match Opt::Essential.collect(run.run(x)) {
                        Ok(vs) => Some(vs),
                        Err(e) => {
                            return Err(e);
                        },
                    },
                    None => None,
                };
                Ok(Part::Range(fr, ur))
            },
        }
    }
}

impl<F> Path<F> {
    /// Resolve every step of this path through the evaluator, keeping
    /// each step's policy; the first evaluation error aborts.
    pub fn eval<E: Evaluator<F>>(&self, run: &E) -> (r: Result<Path<Vec<Value>>, Error>)
        ensures
            (match r {
                Ok(p) => Ok(p@),
                Err(e) => Err::<Seq<(PartM, Opt)>, ErrM>(e@),
            }) == spec_path_eval(run, self.0@),
    {
        let ghost whole = self.0@;
        let mut out: Vec<(Part<Vec<Value>>, Opt)> = Vec::new();
        proof {
            assert(whole.skip(0) =~= whole);
            assert(crate::update::path_model(out@) + Seq::<(PartM, Opt)>::empty() =~= crate::update::path_model(out@));
        }
        let mut s: usize = 0;
        while s < self.0.len()
            invariant
                s <= self.0@.len(),
                whole == self.0@,
                spec_path_eval(run, whole) == (match spec_path_eval(run, whole.skip(s as int)) {
                    Ok(rest) => Ok::<Seq<(PartM, Opt)>, ErrM>(
                        crate::update::path_model(out@) + rest,
                    ),
                    Err(er) => Err::<Seq<(PartM, Opt)>, ErrM>(er),
                }),
            decreases self.0.len() - s,
        {
            let ghost rest = whole.skip(s as int);
            proof {
                assert(rest[0] == whole[s as int]);
                assert(rest.skip(1) =~= whole.skip(s as int + 1));
            }
            let pair = &self.0[s];
            match pair.0.eval(run) {
                Ok(p2) => {
                    let ghost prev = out@;
                    out.push((p2, pair.1));
                    proof {
                        assert forall|more: Seq<(PartM, Opt)>|
                            true implies crate::update::path_model(prev) + (seq![
                            (out@.last().0@, out@.last().1),
                        ] + more) == crate::update::path_model(out@) + more by {
                            assert(crate::update::path_model(prev) + (seq![
                                (out@.last().0@, out@.last().1),
                            ] + more) =~= crate::update::path_model(out@) + more);
                        }
                    }
                },
                Err(e) => {
                    return Err(e);
                },
            }
            s += 1;
        }
        proof {
            assert(whole.skip(whole.len() as int).len() == 0);
        }
        let outp = Path(out);
        proof {
            assert(outp@ =~= crate::update::path_model(out@));
        }
        Ok(outp)
    }
}

/// An evaluator whose expressions are already values: each resolves to
/// itself.  The simplest way to build a concrete path from literals.
pub struct SelfEval;

impl Evaluator<Value> for SelfEval {
    open spec fn run_spec(&self, f: &Value) -> Seq<ResM> {
        seq![Ok((*f)@)]
    }

    fn run(&self, f: &Value) -> (r: Vec<Result<Value, Error>>) {
        let out: Vec<Result<Value, Error>> = vec![Ok(f.dup())];
        proof {
            assert(results_model(out@) =~= self.run_spec(f));
        }
        out
    }
}

} // verus!
