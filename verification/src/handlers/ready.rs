//! The rotation of the bot's presence status.

use vstd::prelude::*;
use vstd::string::*;

verus! {

broadcast use vstd::string::group_string_axioms;

/// Seconds between two status changes (15 minutes).
pub const STATUS_INTERVAL_SECS: u64 = 900;

/// The kind of activity a status shows.
#[derive(Clone, Copy, Debug, PartialEq, Eq, Structural)]
pub enum ActivityKind {
    Playing,
    Watching,
    Listening,
}

/// The statuses the bot rotates through, in order.
pub open spec fn status_list() -> Seq<(ActivityKind, Seq<char>)> {
    seq![
        (ActivityKind::Playing, "hide & seek with Puck"@),
        (ActivityKind::Watching, "a Man becomes a Hero"@),
        (ActivityKind::Listening, "stories with Rem & Ram"@),
    ]
}

/// The statuses the bot rotates through, in order.
pub fn statuses() -> (r: Vec<(ActivityKind, String)>)
    ensures
        r@.len() == status_list().len(),
        forall|i: int|
            0 <= i < r@.len() ==> (#[trigger] r@[i]).0 == status_list()[i].0 && r@[i].1@
                == status_list()[i].1,
{
    let r = vec![
        (ActivityKind::Playing, String::from_str("hide & seek with Puck")),
        (ActivityKind::Watching, String::from_str("a Man becomes a Hero")),
        (ActivityKind::Listening, String::from_str("stories with Rem & Ram")),
    ];
    r
}

/// The status shown after status `index` of `count`: the next one, wrapping
/// back to the first after the last.
pub fn next_status_index(index: usize, count: usize) -> (r: usize)
    requires
        count > 0,
        index < count,
    ensures
        r == (index + 1) % (count as int),
        r < count,
{
    (index + 1) % count
}

/// The status shown after `k` changes from the first.
pub open spec fn status_after(k: nat, count: nat) -> nat
    decreases k,
{
    if k == 0 {
        0
    } else {
        (status_after((k - 1) as nat, count) + 1) % count
    }
}

/// The rotation shows the statuses in order: after `k` changes the status
/// shown is `k mod count`, so every status comes back every `count` changes.
pub proof fn lemma_rotation_cycles(k: nat, count: nat)
    requires
        count > 0,
    ensures
        status_after(k, count) == k % count,
    decreases k,
{
    if k == 0 {
        assert(0nat % count == 0) by (nonlinear_arith)
            requires
                count > 0,
        ;
    } else {
        lemma_rotation_cycles((k - 1) as nat, count);
        let p = (k - 1) as int;
        let c = count as int;
        assert(((p % c) + 1) % c == (p + 1) % c) by (nonlinear_arith)
            requires
                c > 0,
                p >= 0,
        ;
        assert(status_after(k, count) == (status_after((k - 1) as nat, count) + 1) % count);
        assert(p + 1 == k);
    }
}

} // verus!
