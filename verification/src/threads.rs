use vstd::prelude::*;

verus! {

/// `num_cpus::get`: the number of logical cores that this process may use,
/// which the crate documents as never below one.
#[verifier::external_body]
fn available_cpus() -> (n: usize)
    ensures
        n >= 1,
{
    num_cpus::get()
}

/// The number of workers of a render: one where rendering in parallel is
/// switched off, else the number asked for, else one for each core.
pub open spec fn chosen_threads(parallel: bool, requested: Option<usize>, available: usize)
    -> usize {
    if !parallel {
        1
    } else {
        match requested {
            Some(n) => n,
            None => available,
        }
    }
}

/// The number of workers on a machine with `available` cores.
pub fn choose_thread_number(parallel: bool, requested: Option<usize>, available: usize) -> (n:
    usize)
    ensures
        n == chosen_threads(parallel, requested, available),
{
    if !parallel {
        1
    } else {
        match requested {
            Some(n) => n,
            None => available,
        }
    }
}

/// The number of workers on this machine. The cores are counted only where
/// the number depends on them.
pub fn thread_number(parallel: bool, requested: Option<usize>) -> (n: usize)
    ensures
        exists|available: usize|
            available >= 1 && n == #[trigger] chosen_threads(parallel, requested, available),
        requested != Some(0usize) ==> n >= 1,
{
    if parallel && requested.is_none() {
        let available = available_cpus();
        let n = choose_thread_number(parallel, requested, available);
        assert(n == chosen_threads(parallel, requested, available));
        n
    } else {
        let n = choose_thread_number(parallel, requested, 1);
        assert(n == chosen_threads(parallel, requested, 1));
        n
    }
}

} // verus!
