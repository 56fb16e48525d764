//! Replay of an append-only file image: entries are read from the front, one
//! after the other, until the first that is incomplete or invalid; what
//! follows it is a partial tail and is cut off.

use vstd::prelude::*;

verus! {

/// Where the entry that starts at an offset of an image ends, if a complete
/// and valid entry starts there.
pub type NextEntry = spec_fn(Seq<u8>, int) -> Option<int>;

/// Replays an image from `at`: folds `step` over the entries that `next`
/// finds, and returns the state reached and the offset at which it stopped.
pub open spec fn replay_from<S>(
    log: Seq<u8>,
    next: NextEntry,
    step: spec_fn(S, Seq<u8>) -> S,
    at: int,
    acc: S,
) -> (S, int)
    decreases log.len() - at,
{
    match next(log, at) {
        Some(end) => if at < end && end <= log.len() {
            replay_from(log, next, step, end, step(acc, log.subrange(at, end)))
        } else {
            (acc, at)
        },
        None => (acc, at),
    }
}

/// Whether `next` reads an entry from the bytes of that entry alone: an entry
/// that ends within `log` is found in `log` and in `log + ext` alike.
pub open spec fn next_is_local(next: NextEntry, log: Seq<u8>, ext: Seq<u8>) -> bool {
    &&& forall|a: int|
        0 <= a && (#[trigger] next(log, a)) is Some && a < next(log, a).unwrap() <= log.len()
            ==> next(log + ext, a) == next(log, a)
    &&& forall|a: int|
        0 <= a && (#[trigger] next(log + ext, a)) is Some && a < next(log + ext, a).unwrap()
            <= log.len() ==> next(log, a) == next(log + ext, a)
}

/// Replaying an image that was replayed to its end and then extended goes
/// through the old entries as before and continues at the old end.
pub proof fn lemma_replay_extend<S>(
    log: Seq<u8>,
    ext: Seq<u8>,
    next: NextEntry,
    step: spec_fn(S, Seq<u8>) -> S,
    at: int,
    acc: S,
)
    requires
        0 <= at <= log.len(),
        replay_from(log, next, step, at, acc).1 == log.len(),
        next_is_local(next, log, ext),
    ensures
        replay_from(log + ext, next, step, at, acc) == replay_from(
            log + ext,
            next,
            step,
            log.len() as int,
            replay_from(log, next, step, at, acc).0,
        ),
    decreases log.len() - at,
{
    if at < log.len() {
        let end = next(log, at).unwrap();
        assert(next(log, at) == Some(end));
        assert(at < end && end <= log.len());
        assert(next(log + ext, at) == Some(end));
        assert((log + ext).subrange(at, end) =~= log.subrange(at, end));
        lemma_replay_extend(log, ext, next, step, end, step(acc, log.subrange(at, end)));
    }
}

/// The offset at which a replay stops lies between its start and the end of
/// the image.
pub proof fn lemma_replay_end_in_bounds<S>(
    log: Seq<u8>,
    next: NextEntry,
    step: spec_fn(S, Seq<u8>) -> S,
    at: int,
    acc: S,
)
    requires
        0 <= at <= log.len(),
    ensures
        at <= replay_from(log, next, step, at, acc).1 <= log.len(),
    decreases log.len() - at,
{
    match next(log, at) {
        Some(end) => {
            if at < end && end <= log.len() {
                lemma_replay_end_in_bounds(
                    log,
                    next,
                    step,
                    end,
                    step(acc, log.subrange(at, end)),
                );
            }
        },
        None => {},
    }
}

/// Replaying the valid prefix of an image gives what replaying the whole
/// image gave, and reaches the end of the prefix.
pub proof fn lemma_replay_cut<S>(
    cut: Seq<u8>,
    rest: Seq<u8>,
    next: NextEntry,
    step: spec_fn(S, Seq<u8>) -> S,
    at: int,
    acc: S,
)
    requires
        0 <= at <= cut.len(),
        replay_from(cut + rest, next, step, at, acc).1 == cut.len(),
        next_is_local(next, cut, rest),
    ensures
        replay_from(cut, next, step, at, acc) == replay_from(cut + rest, next, step, at, acc),
    decreases cut.len() - at,
{
    let all = cut + rest;
    match next(all, at) {
        Some(end) => {
            if at < end && end <= all.len() {
                lemma_replay_end_in_bounds(all, next, step, end, step(acc, all.subrange(at, end)));
                assert(next(cut, at) == Some(end));
                assert(cut.subrange(at, end) =~= all.subrange(at, end));
                lemma_replay_cut(cut, rest, next, step, end, step(acc, all.subrange(at, end)));
            } else {
                match next(cut, at) {
                    Some(e) => {
                        if at < e && e <= cut.len() {
                            assert(next(all, at) == next(cut, at));
                        }
                    },
                    None => {},
                }
            }
        },
        None => {
            match next(cut, at) {
                Some(e) => {
                    if at < e && e <= cut.len() {
                        assert(next(all, at) == next(cut, at));
                    }
                },
                None => {},
            }
        },
    }
}

} // verus!
