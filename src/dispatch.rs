//! The fan-out of finished messages to the destination channels.

use vstd::prelude::*;

verus! {

/// One send: `text` to the destination channel `channel`.
#[derive(Debug, PartialEq, Eq)]
pub struct Delivery {
    pub channel: u64,
    pub text: String,
}

/// The sends for one message: one per destination channel, in the order of
/// the channels.
pub open spec fn fan_out(targets: Seq<u64>, text: Seq<char>) -> Seq<(u64, Seq<char>)> {
    Seq::new(targets.len(), |k: int| (targets[k], text))
}

/// The sends for a run of messages, message after message.
pub open spec fn schedule(targets: Seq<u64>, msgs: Seq<Seq<char>>) -> Seq<(u64, Seq<char>)>
    decreases msgs.len(),
{
    if msgs.len() == 0 {
        Seq::empty()
    } else {
        schedule(targets, msgs.drop_last()) + fan_out(targets, msgs.last())
    }
}

/// The sends for `text`: one to each channel of `targets`, in order. The
/// result of a send plays no part: each one is made whatever became of the
/// others.
pub fn deliveries(targets: &Vec<u64>, text: &String) -> (r: Vec<Delivery>)
    ensures
        r@.map_values(|d: Delivery| (d.channel, d.text@)) == fan_out(targets@, text@),
{
    let mut r: Vec<Delivery> = Vec::new();
    let mut i: usize = 0;
    while i < targets.len()
        invariant
            i <= targets@.len(),
            r@.len() == i,
            forall|k: int| 0 <= k < i ==> (#[trigger] r@[k]).channel == targets@[k]
                && r@[k].text@ == text@,
        decreases targets@.len() - i,
    {
        r.push(Delivery { channel: targets[i], text: text.clone() });
        i = i + 1;
    }
    assert(r@.map_values(|d: Delivery| (d.channel, d.text@)) =~= fan_out(targets@, text@));
    r
}

proof fn lemma_schedule_index(targets: Seq<u64>, msgs: Seq<Seq<char>>, m: int, k: int)
    requires
        0 <= m < msgs.len(),
        0 <= k < targets.len(),
    ensures
        schedule(targets, msgs).len() == msgs.len() * targets.len(),
        m * targets.len() + k < schedule(targets, msgs).len(),
        schedule(targets, msgs)[m * targets.len() + k] == (targets[k], msgs[m]),
    decreases msgs.len(),
{
    let n = targets.len() as int;
    let prev = msgs.drop_last();
    if m < msgs.len() - 1 {
        lemma_schedule_index(targets, prev, m, k);
        assert(m * n + k < prev.len() * n) by (nonlinear_arith)
            requires
                m < prev.len(),
                0 <= k < n,
        ;
    } else {
        if prev.len() > 0 {
            lemma_schedule_index(targets, prev, 0, k);
        }
    }
    assert(schedule(targets, msgs).len() == msgs.len() * n) by (nonlinear_arith)
        requires
            schedule(targets, msgs).len() == schedule(targets, prev).len() + n,
            prev.len() == 0 ==> schedule(targets, prev).len() == 0,
            prev.len() > 0 ==> schedule(targets, prev).len() == prev.len() * n,
            msgs.len() == prev.len() + 1,
    ;
    assert(m * n + k < msgs.len() * n) by (nonlinear_arith)
        requires
            m < msgs.len(),
            0 <= k < n,
    ;
}

/// Messages go out in the order they came: for each destination channel,
/// the send of an earlier message comes before the send of a later one, and
/// every message reaches every channel.
pub proof fn lemma_order_kept(targets: Seq<u64>, msgs: Seq<Seq<char>>, a: int, b: int, k: int)
    requires
        0 <= a < b < msgs.len(),
        0 <= k < targets.len(),
    ensures
        a * targets.len() + k < b * targets.len() + k,
        schedule(targets, msgs)[a * targets.len() + k] == (targets[k], msgs[a]),
        schedule(targets, msgs)[b * targets.len() + k] == (targets[k], msgs[b]),
        b * targets.len() + k < schedule(targets, msgs).len(),
{
    lemma_schedule_index(targets, msgs, a, k);
    lemma_schedule_index(targets, msgs, b, k);
    assert(a * targets.len() < b * targets.len()) by (nonlinear_arith)
        requires
            a < b,
            targets.len() > 0,
    ;
}

} // verus!
