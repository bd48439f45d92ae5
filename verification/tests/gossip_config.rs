use std::time::Duration;

use beacon_availability::gossip::config::{
    message_id, message_id_from_digest, message_id_input, GossipTopic, GossipsubConfig,
};
use beacon_availability::network::NetworkSpec;
use libp2p::gossipsub::{Config, Message, TopicHash, ValidationMode};

const NETWORK: NetworkSpec = NetworkSpec {
    slot_duration_ms: 12_000,
    seconds_per_slot: 12,
    maximum_gossip_clock_disparity: 500,
    fulu_fork_epoch: 10,
    max_message_size: 10_485_760,
};

fn message(topic: &str, data: &[u8]) -> Message {
    Message {
        source: None,
        data: data.to_vec(),
        sequence_number: None,
        topic: TopicHash::from_raw(topic),
    }
}

fn config() -> Config {
    GossipsubConfig::default(&NETWORK).config
}

fn hex(bytes: &[u8]) -> String {
    bytes.iter().map(|byte| format!("{byte:02x}")).collect()
}

#[test]
fn test_gossipsub_parameters() {
    let gossipsub_config = GossipsubConfig::default(&NETWORK);
    let config = &gossipsub_config.config;

    assert_eq!(config.max_transmit_size(), 10_485_760);
    assert_eq!(config.heartbeat_interval(), Duration::from_millis(700));
    assert_eq!(config.fanout_ttl(), Duration::from_secs(60));
    assert_eq!(config.mesh_n(), 8);
    assert_eq!(config.mesh_n_low(), 6);
    assert_eq!(config.mesh_n_high(), 12);
    assert_eq!(config.gossip_lazy(), 6);
    assert_eq!(config.history_length(), 12);
    assert_eq!(config.history_gossip(), 3);
    assert_eq!(config.max_messages_per_rpc(), Some(500));
    assert_eq!(config.duplicate_cache_time(), Duration::from_secs(32 * 12 * 2));
    assert!(config.validate_messages());
    assert!(matches!(config.validation_mode(), ValidationMode::Anonymous));
    assert!(config.allow_self_origin());
    assert!(!config.flood_publish());
    assert_eq!(config.idontwant_message_size_threshold(), 1000);
    assert!(gossipsub_config.topics.is_empty());
}

#[test]
fn history_length_can_be_chosen() {
    for history_length in [3, 4, 100] {
        let gossip = GossipsubConfig::with_history_length(&NETWORK, history_length);
        assert_eq!(gossip.config.history_length(), history_length);
        assert_eq!(gossip.config.history_gossip(), 3);
    }
}

#[test]
fn topics_are_replaced() {
    let mut gossip = GossipsubConfig::default(&NETWORK);
    let topic = |name: &str| GossipTopic {
        name: name.to_string(),
    };
    gossip.set_topics(vec![topic("a"), topic("b")]);
    assert_eq!(gossip.topics, vec![topic("a"), topic("b")]);
    gossip.set_topics(vec![topic("c")]);
    assert_eq!(gossip.topics, vec![topic("c")]);
}

#[test]
fn test_message_id_computation() {
    let id = config().message_id(&message("test_topic", b"test message"));
    assert_eq!(id.0.len(), 20);
    assert_eq!(hex(&id.0), "d63f11d9236ee83413cfa666813c70c4d6668876");
    assert_eq!(id.0, message_id(b"test_topic", b"test message"));
}

#[test]
fn test_message_id_caching() {
    let config = config();
    let first = config.message_id(&message("test_topic", b"data"));
    let second = config.message_id(&message("test_topic", b"data"));
    assert_eq!(first, second);
}

#[test]
fn test_message_id_edge_cases() {
    let config = config();
    let empty = config.message_id(&message("", b""));
    assert_eq!(hex(&empty.0), "ca888f40c3caca805b37a5434c75de5550616e07");
    let large = config.message_id(&message("topic", &vec![7; 1 << 20]));
    assert_eq!(large.0.len(), 20);
    let unicode = config.message_id(&message("t\u{f6}pic", b"x"));
    assert_eq!(unicode.0, message_id("t\u{f6}pic".as_bytes(), b"x"));
}

#[test]
fn test_message_uniqueness_and_collision_resistance() {
    let config = config();
    let ids = [
        config.message_id(&message("topic", b"data")),
        config.message_id(&message("topic", b"other")),
        config.message_id(&message("other", b"data")),
        config.message_id(&message("topicd", b"ata")),
        config.message_id(&message("", b"topicdata")),
    ];
    for (i, first) in ids.iter().enumerate() {
        for second in &ids[i + 1..] {
            assert_ne!(first, second);
        }
    }
}

#[test]
fn hashed_bytes_hold_domain_length_topic_and_data() {
    assert_eq!(
        message_id_input(b"ab", b"cd"),
        [&[1, 0, 0, 0, 2, 0, 0, 0, 0, 0, 0, 0][..], b"abcd"].concat()
    );
    assert_ne!(message_id_input(b"a", b"bc"), message_id_input(b"ab", b"c"));
    let mut digest = [0u8; 32];
    digest[19] = 1;
    digest[20] = 2;
    let mut expected = vec![0u8; 20];
    expected[19] = 1;
    assert_eq!(message_id_from_digest(&digest), expected);
}
