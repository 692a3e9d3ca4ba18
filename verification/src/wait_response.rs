use vstd::prelude::*;

use crate::FrameCount;

verus! {

/// The input sockets of a node as it waits on them, nested in groups: each
/// socket has a channel to the node upstream of it, or none.
pub enum ChannelTree {
    Socket { has_channel: bool },
    Group(Vec<ChannelTree>),
}

/// The number of sockets of `t` that have a channel.
pub open spec fn channel_count(t: ChannelTree) -> nat
    decreases t,
{
    match t {
        ChannelTree::Socket { has_channel } => if has_channel { 1 } else { 0 },
        ChannelTree::Group(v) => channel_count_of(v@),
    }
}

/// The number of sockets with a channel in a list of trees.
pub open spec fn channel_count_of(ts: Seq<ChannelTree>) -> nat
    decreases ts,
{
    if ts.len() == 0 {
        0
    } else {
        channel_count_of(ts.drop_last()) + channel_count(ts.last())
    }
}

/// What an upstream node answers on a channel.
#[derive(Clone, Copy, PartialEq, Eq, Structural, Debug)]
pub enum InputResponse {
    /// The node has computed the frame.
    Response { frame: FrameCount },
    /// The node could not compute.
    ProcessFailed,
    /// The type of the node's output, asked at connection time.
    TypeId,
    /// The node's shared memory, handed over at connection time.
    Shared,
}

/// A node waiting for its upstream nodes to answer a request for `frame`:
/// `pending` channels are still to answer, each once, in the order of the
/// sockets.
#[derive(Clone, Copy, PartialEq, Eq, Structural, Debug)]
pub struct Waiting {
    pub frame: FrameCount,
    pub pending: usize,
}

/// The outcome of one answer.
#[derive(Clone, Copy, PartialEq, Eq, Structural, Debug)]
pub enum WaitStep {
    /// More channels are to answer.
    Wait(Waiting),
    /// Every channel has answered for the frame.
    Done,
    /// The answer was not a response for the frame being waited for.
    Failed(InputResponse),
}

/// The number of sockets with a channel in `ts`, when it fits in a `usize`.
fn count_of(ts: &Vec<ChannelTree>) -> (r: Option<usize>)
    ensures
        r matches Some(n) ==> n == channel_count_of(ts@),
        r is None ==> channel_count_of(ts@) > usize::MAX,
    decreases ts@,
{
    let mut total: usize = 0;
    let mut i: usize = 0;
    while i < ts.len()
        invariant
            i <= ts@.len(),
            total == channel_count_of(ts@.take(i as int)),
        decreases ts@.len() - i,
    {
        assert(ts@.take(i + 1).drop_last() =~= ts@.take(i as int));
        let n = match count(&ts[i]) {
            Some(n) => n,
            None => {
                proof {
                    lemma_count_of_grows(ts@, i as int + 1);
                }
                return None;
            },
        };
        if n > usize::MAX - total {
            proof {
                lemma_count_of_grows(ts@, i as int + 1);
            }
            return None;
        }
        total = total + n;
        i = i + 1;
    }
    assert(ts@.take(i as int) =~= ts@);
    Some(total)
}

/// The count of a list is at least that of any prefix.
proof fn lemma_count_of_grows(ts: Seq<ChannelTree>, k: int)
    requires
        0 <= k <= ts.len(),
    ensures
        channel_count_of(ts.take(k)) <= channel_count_of(ts),
    decreases ts.len() - k,
{
    if k < ts.len() {
        lemma_count_of_grows(ts, k + 1);
        assert(ts.take(k + 1).drop_last() =~= ts.take(k));
    } else {
        assert(ts.take(k) =~= ts);
    }
}

/// The number of sockets of `t` with a channel, when it fits in a `usize`.
fn count(t: &ChannelTree) -> (r: Option<usize>)
    ensures
        r matches Some(n) ==> n == channel_count(*t),
        r is None ==> channel_count(*t) > usize::MAX,
    decreases *t,
{
    match t {
        ChannelTree::Socket { has_channel } => if *has_channel { Some(1) } else { Some(0) },
        ChannelTree::Group(v) => count_of(v),
    }
}

/// Start waiting on the channels of `t` for `frame`. Nothing is waited for
/// when no socket has a channel; `None` only where the channels outnumber a
/// `usize`.
pub fn start_waiting(t: &ChannelTree, frame: FrameCount) -> (r: Option<WaitStep>)
    ensures
        channel_count(*t) <= usize::MAX ==> r == Some(
            if channel_count(*t) == 0 {
                WaitStep::Done
            } else {
                WaitStep::Wait(Waiting { frame, pending: channel_count(*t) as usize })
            },
        ),
        channel_count(*t) > usize::MAX ==> r is None,
{
    match count(t) {
        Some(0) => Some(WaitStep::Done),
        Some(n) => Some(WaitStep::Wait(Waiting { frame, pending: n })),
        None => None,
    }
}

/// Take the answer of the next channel: a response for the frame being
/// waited for moves on, anything else fails.
pub fn wait_step(w: Waiting, response: InputResponse) -> (r: WaitStep)
    requires
        w.pending > 0,
    ensures
        r == (match response {
            InputResponse::Response { frame } => if frame == w.frame {
                if w.pending == 1 {
                    WaitStep::Done
                } else {
                    WaitStep::Wait(Waiting { frame: w.frame, pending: (w.pending - 1) as usize })
                }
            } else {
                WaitStep::Failed(response)
            },
            _ => WaitStep::Failed(response),
        }),
{
    match response {
        InputResponse::Response { frame } => if frame == w.frame {
            if w.pending == 1 {
                WaitStep::Done
            } else {
                WaitStep::Wait(Waiting { frame: w.frame, pending: w.pending - 1 })
            }
        } else {
            WaitStep::Failed(response)
        },
        _ => WaitStep::Failed(response),
    }
}

/// The outcome of taking `answers` one after another from `step`, as
/// `wait_step` takes each.
pub open spec fn after_answers(step: WaitStep, answers: Seq<InputResponse>) -> WaitStep
    decreases answers.len(),
{
    if answers.len() == 0 {
        step
    } else {
        match step {
            WaitStep::Wait(w) => {
                let next = match answers[0] {
                    InputResponse::Response { frame } => if frame == w.frame {
                        if w.pending <= 1 {
                            WaitStep::Done
                        } else {
                            WaitStep::Wait(Waiting { frame: w.frame, pending: (w.pending - 1) as usize })
                        }
                    } else {
                        WaitStep::Failed(answers[0])
                    },
                    _ => WaitStep::Failed(answers[0]),
                };
                after_answers(next, answers.drop_first())
            },
            _ => step,
        }
    }
}

/// A node waiting on `pending` channels for a frame is done once each of
/// them has answered with a response for that frame.
pub proof fn law_every_channel_answered(w: Waiting, answers: Seq<InputResponse>)
    requires
        w.pending > 0,
        answers.len() == w.pending,
        forall|i: int| 0 <= i < answers.len() ==> answers[i] == (InputResponse::Response { frame: w.frame }),
    ensures
        after_answers(WaitStep::Wait(w), answers) == WaitStep::Done,
    decreases answers.len(),
{
    assert(answers[0] == (InputResponse::Response { frame: w.frame }));
    if w.pending > 1 {
        let next = Waiting { frame: w.frame, pending: (w.pending - 1) as usize };
        assert forall|i: int| 0 <= i < answers.drop_first().len() implies answers.drop_first()[i]
            == (InputResponse::Response { frame: next.frame }) by {
            assert(answers.drop_first()[i] == answers[i + 1]);
        }
        law_every_channel_answered(next, answers.drop_first());
    } else {
        assert(answers.drop_first().len() == 0);
        assert(after_answers(WaitStep::Done, answers.drop_first()) == WaitStep::Done);
    }
}

/// The sockets of `t`, left to right, each as whether it has a channel.
pub open spec fn channel_flags(t: ChannelTree) -> Seq<bool>
    decreases t,
{
    match t {
        ChannelTree::Socket { has_channel } => seq![has_channel],
        ChannelTree::Group(v) => channel_flags_of(v@),
    }
}

/// The sockets of a list of trees, left to right, each as whether it has a
/// channel.
pub open spec fn channel_flags_of(ts: Seq<ChannelTree>) -> Seq<bool>
    decreases ts,
{
    if ts.len() == 0 {
        Seq::empty()
    } else {
        channel_flags_of(ts.drop_last()) + channel_flags(ts.last())
    }
}

/// A node waits once for each of its sockets that has a channel, however
/// the sockets are grouped: the count of a tree is the number of its
/// sockets, left to right, that have one.
pub proof fn law_count_is_sockets_with_channel(t: ChannelTree)
    ensures
        channel_count(t) == channel_flags(t).filter(|b: bool| b).len(),
    decreases t,
{
    match t {
        ChannelTree::Socket { has_channel } => {
            reveal_with_fuel(Seq::filter, 2);
            assert(seq![has_channel].drop_last() =~= Seq::<bool>::empty());
        },
        ChannelTree::Group(v) => {
            lemma_count_of_is_sockets_with_channel(v@);
        },
    }
}

/// The same for a list of trees.
pub proof fn lemma_count_of_is_sockets_with_channel(ts: Seq<ChannelTree>)
    ensures
        channel_count_of(ts) == channel_flags_of(ts).filter(|b: bool| b).len(),
    decreases ts,
{
    if ts.len() > 0 {
        lemma_count_of_is_sockets_with_channel(ts.drop_last());
        law_count_is_sockets_with_channel(ts.last());
        Seq::filter_distributes_over_add(channel_flags_of(ts.drop_last()), channel_flags(ts.last()), |b: bool| b);
    }
}

} // verus!
