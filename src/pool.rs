use vstd::prelude::*;

verus! {

/// Relies on rayon::current_num_threads: the size of the thread pool that the
/// caller runs in (or of the global pool). How large it is depends on how the
/// pool was built; a pool always has at least one thread, since a requested
/// count of zero falls back to a positive default.
#[verifier::external_body]
pub(crate) fn current_num_threads() -> (r: usize)
    ensures
        r >= 1,
{
    rayon::current_num_threads()
}

/// Relies on rayon::join_context: both closures run, exactly once each and
/// possibly in parallel, each told whether it runs on another thread than
/// the caller (`FnContext::migrated`); their results come back as a pair.
#[verifier::external_body]
pub(crate) fn join_context<A, B, RA, RB>(oper_a: A, oper_b: B) -> (r: (RA, RB)) where
    A: FnOnce(bool) -> RA + Send,
    B: FnOnce(bool) -> RB + Send,
    RA: Send,
    RB: Send,

    requires
        forall|moved: bool| oper_a.requires((moved,)),
        forall|moved: bool| oper_b.requires((moved,)),
    ensures
        exists|moved: bool| oper_a.ensures((moved,), r.0),
        exists|moved: bool| oper_b.ensures((moved,), r.1),
{
    rayon::join_context(|ctx| oper_a(ctx.migrated()), |ctx| oper_b(ctx.migrated()))
}

} // verus!
