use oso_consensus::{ConsensusMessage, Message};

#[test]
fn test_message_creation() {
    let msg = Message::new(
        "node_1".to_string(),
        1000,
        ConsensusMessage::Heartbeat { block_height: 5, round: 10 },
    );

    assert_eq!(msg.sender, "node_1");
    assert_eq!(msg.timestamp, 1000);
}
