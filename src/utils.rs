//! Collecting results while keeping every error.

use vstd::prelude::*;

verus! {

/// The successes among results, in order.
pub open spec fn oks<T, E>(s: Seq<Result<T, E>>) -> Seq<T>
    decreases s.len(),
{
    if s.len() == 0 {
        Seq::empty()
    } else {
        match s.last() {
            Ok(t) => oks(s.drop_last()).push(t),
            Err(_) => oks(s.drop_last()),
        }
    }
}

/// The errors among results, in order.
pub open spec fn errs<T, E>(s: Seq<Result<T, E>>) -> Seq<E>
    decreases s.len(),
{
    if s.len() == 0 {
        Seq::empty()
    } else {
        match s.last() {
            Ok(_) => errs(s.drop_last()),
            Err(e) => errs(s.drop_last()).push(e),
        }
    }
}

/// Splits results into successes and errors, then hands every error, in
/// order, to `error_combiner`: the successes where it accepts them, its
/// error where it does not.
pub fn collect_vec_combining_errors<T, E, F: FnOnce(Vec<E>) -> Result<(), E>>(
    results: Vec<Result<T, E>>,
    error_combiner: F,
) -> (r: Result<Vec<T>, E>)
    requires
        forall|es: Vec<E>| es@ == errs(results@) ==> #[trigger] error_combiner.requires((es,)),
    ensures
        exists|es: Vec<E>, c: Result<(), E>|
            es@ == errs(results@) && #[trigger] error_combiner.ensures((es,), c) && match c {
                Ok(_) => r is Ok && r->Ok_0@ == oks(results@),
                Err(e) => r is Err && r->Err_0 == e,
            },
{
    let ghost all = results@;
    let n = results.len();
    let mut rest = results;
    let mut success: Vec<T> = Vec::new();
    let mut errors: Vec<E> = Vec::new();
    let mut i: usize = 0;
    while rest.len() > 0
        invariant
            i <= all.len(),
            all.len() <= usize::MAX,
            rest@ == all.subrange(i as int, all.len() as int),
            success@ == oks(all.take(i as int)),
            errors@ == errs(all.take(i as int)),
        decreases rest@.len(),
    {
        let item = rest.remove(0);
        let ghost p = all.take(i as int + 1);
        assert(p.drop_last() =~= all.take(i as int));
        assert(p.last() == all[i as int]);
        match item {
            Ok(t) => success.push(t),
            Err(e) => errors.push(e),
        }
        i = i + 1;
        assert(rest@ =~= all.subrange(i as int, all.len() as int));
    }
    assert(all.take(i as int) =~= all);
    let ghost es = errors;
    let c = error_combiner(errors);
    assert(error_combiner.ensures((es,), c));
    match c {
        Ok(()) => Ok(success),
        Err(e) => Err(e),
    }
}

} // verus!
