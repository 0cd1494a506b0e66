use json_vs_bin::relay::{
    hop_action, hop_count, HopAction, RecvOutcome, RelayChain, SendOutcome, DEFAULT_HOPS,
    TASK_CHANNEL_CAPACITY,
};

fn bytes(n: usize) -> Vec<u8> {
    (0..n).map(|i| (i % 251) as u8).collect()
}

#[test]
fn eight_hop_chain_returns_the_bytes_sent() {
    let mut chain = RelayChain::new(8, None);
    assert_eq!(chain.hops(), 8);
    assert_eq!(chain.send(vec![0x01, 0x02, 0x03]), SendOutcome::Sent);
    chain.drive();
    assert_eq!(chain.receive(), RecvOutcome::Message(vec![0x01, 0x02, 0x03]));
}

#[test]
fn round_trip_is_identity_for_each_chain_length() {
    for hops in [0usize, 1, 8, 64] {
        for bound in [None, Some(TASK_CHANNEL_CAPACITY), Some(3)] {
            let mut chain = RelayChain::new(hops, bound);
            for msg in [vec![], vec![7u8], bytes(1000)] {
                assert_eq!(chain.round_trip(msg.clone()), Some(msg));
            }
        }
    }
}

#[test]
fn sequential_round_trips_keep_order() {
    for hops in [1usize, 2, 8] {
        let mut chain = RelayChain::new(hops, Some(TASK_CHANNEL_CAPACITY));
        assert_eq!(chain.send(vec![1]), SendOutcome::Sent);
        chain.drive();
        assert_eq!(chain.receive(), RecvOutcome::Message(vec![1]));
        assert_eq!(chain.send(vec![2]), SendOutcome::Sent);
        chain.drive();
        assert_eq!(chain.receive(), RecvOutcome::Message(vec![2]));
        assert_eq!(chain.receive(), RecvOutcome::Empty);
    }
}

#[test]
fn unbounded_chain_keeps_fifo_order_of_many_messages() {
    let mut chain = RelayChain::new(5, None);
    for k in 0..10u8 {
        assert_eq!(chain.send(vec![k]), SendOutcome::Sent);
    }
    chain.drive();
    for k in 0..10u8 {
        assert_eq!(chain.receive(), RecvOutcome::Message(vec![k]));
    }
    assert_eq!(chain.receive(), RecvOutcome::Empty);
}

#[test]
fn zero_hops_connects_head_to_tail() {
    let mut chain = RelayChain::new(0, None);
    assert_eq!(chain.hops(), 0);
    assert_eq!(chain.send(vec![9, 8, 7]), SendOutcome::Sent);
    assert_eq!(chain.receive(), RecvOutcome::Message(vec![9, 8, 7]));
}

#[test]
fn nothing_arrives_before_the_hops_run() {
    let mut chain = RelayChain::new(3, None);
    assert_eq!(chain.send(vec![5]), SendOutcome::Sent);
    assert_eq!(chain.receive(), RecvOutcome::Empty);
    chain.drive();
    assert_eq!(chain.receive(), RecvOutcome::Message(vec![5]));
}

#[test]
fn closing_the_head_stops_every_hop() {
    let mut chain = RelayChain::new(8, None);
    assert_eq!(chain.round_trip(vec![1, 2]), Some(vec![1, 2]));
    chain.close_head();
    assert_eq!(chain.receive(), RecvOutcome::Empty);
    chain.drive();
    assert_eq!(chain.receive(), RecvOutcome::Closed);
    assert_eq!(chain.send(vec![3]), SendOutcome::Closed(vec![3]));
    assert_eq!(chain.round_trip(vec![4]), None);
}

#[test]
fn closing_the_head_delivers_what_is_in_flight_first() {
    let mut chain = RelayChain::new(4, None);
    assert_eq!(chain.send(vec![1]), SendOutcome::Sent);
    chain.close_head();
    chain.drive();
    assert_eq!(chain.receive(), RecvOutcome::Message(vec![1]));
    assert_eq!(chain.receive(), RecvOutcome::Closed);
}

#[test]
fn bounded_chain_holds_back_a_second_send() {
    let mut chain = RelayChain::new(4, Some(TASK_CHANNEL_CAPACITY));
    assert_eq!(chain.send(vec![1]), SendOutcome::Sent);
    assert_eq!(chain.send(vec![2]), SendOutcome::Full(vec![2]));
    chain.drive();
    assert_eq!(chain.send(vec![2]), SendOutcome::Sent);
    chain.drive();
    assert_eq!(chain.receive(), RecvOutcome::Message(vec![1]));
    chain.drive();
    assert_eq!(chain.receive(), RecvOutcome::Message(vec![2]));
    assert_eq!(chain.receive(), RecvOutcome::Empty);
}

#[test]
fn full_bounded_chain_refuses_until_the_tail_receives() {
    let hops = 2usize;
    let mut chain = RelayChain::new(hops, Some(1));
    for k in 0..=hops as u8 {
        assert_eq!(chain.send(vec![k]), SendOutcome::Sent);
        chain.drive();
    }
    assert_eq!(chain.send(vec![9]), SendOutcome::Full(vec![9]));
    chain.drive();
    assert_eq!(chain.send(vec![9]), SendOutcome::Full(vec![9]));
    assert_eq!(chain.receive(), RecvOutcome::Message(vec![0]));
    chain.drive();
    assert_eq!(chain.send(vec![9]), SendOutcome::Sent);
    for k in [1u8, 2, 9] {
        chain.drive();
        assert_eq!(chain.receive(), RecvOutcome::Message(vec![k]));
    }
}

#[test]
fn dropping_the_tail_tears_the_chain_down() {
    let mut chain = RelayChain::new(2, None);
    chain.close_tail();
    assert_eq!(chain.receive(), RecvOutcome::Closed);
    assert_eq!(chain.send(vec![1]), SendOutcome::Sent);
    chain.drive();
    assert_eq!(chain.send(vec![2]), SendOutcome::Sent);
    chain.drive();
    assert_eq!(chain.send(vec![3]), SendOutcome::Closed(vec![3]));
    assert_eq!(chain.round_trip(vec![4]), None);
}

#[test]
fn round_trip_returns_the_oldest_message_in_flight() {
    let mut chain = RelayChain::new(3, None);
    assert_eq!(chain.send(vec![1]), SendOutcome::Sent);
    assert_eq!(chain.round_trip(vec![2]), Some(vec![1]));
    assert_eq!(chain.receive(), RecvOutcome::Message(vec![2]));
}

#[test]
fn hop_count_falls_back_to_default() {
    assert_eq!(hop_count(Some(4)), 4);
    assert_eq!(hop_count(Some(1)), 1);
    assert_eq!(hop_count(None), DEFAULT_HOPS);
    assert_eq!(DEFAULT_HOPS, 8);
}

#[test]
fn hop_forwards_messages_and_exits_on_closure() {
    assert_eq!(hop_action(Some(vec![4, 5])), HopAction::Forward(vec![4, 5]));
    assert_eq!(hop_action(Some(vec![])), HopAction::Forward(vec![]));
    assert_eq!(hop_action(None), HopAction::Exit);
}
