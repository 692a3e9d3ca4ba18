use node_system::wait_response::{start_waiting, wait_step, ChannelTree, InputResponse, WaitStep, Waiting};

fn sockets() -> ChannelTree {
    ChannelTree::Group(vec![
        ChannelTree::Socket { has_channel: true },
        ChannelTree::Socket { has_channel: false },
        ChannelTree::Group(vec![ChannelTree::Socket { has_channel: true }]),
    ])
}

#[test]
fn wait_counts_the_channels() {
    assert_eq!(start_waiting(&sockets(), 4), Some(WaitStep::Wait(Waiting { frame: 4, pending: 2 })));
    assert_eq!(start_waiting(&ChannelTree::Socket { has_channel: false }, 4), Some(WaitStep::Done));
    assert_eq!(start_waiting(&ChannelTree::Group(vec![]), 0), Some(WaitStep::Done));
}

#[test]
fn wait_ends_when_every_channel_answered() {
    let w = Waiting { frame: 4, pending: 2 };
    let next = wait_step(w, InputResponse::Response { frame: 4 });
    assert_eq!(next, WaitStep::Wait(Waiting { frame: 4, pending: 1 }));
    if let WaitStep::Wait(w) = next {
        assert_eq!(wait_step(w, InputResponse::Response { frame: 4 }), WaitStep::Done);
    }
}

#[test]
fn wait_fails_on_another_answer() {
    let w = Waiting { frame: 4, pending: 2 };
    assert_eq!(
        wait_step(w, InputResponse::Response { frame: 3 }),
        WaitStep::Failed(InputResponse::Response { frame: 3 })
    );
    assert_eq!(wait_step(w, InputResponse::ProcessFailed), WaitStep::Failed(InputResponse::ProcessFailed));
    assert_eq!(wait_step(w, InputResponse::TypeId), WaitStep::Failed(InputResponse::TypeId));
    assert_eq!(wait_step(w, InputResponse::Shared), WaitStep::Failed(InputResponse::Shared));
}
