//! The parameters of the gossip protocol and the ids of its messages.
use std::time::Duration;

use libp2p::gossipsub::{Config, ConfigBuilder, ConfigBuilderError, MessageId, ValidationMode};
use sha2::{Digest, Sha256};

use vstd::prelude::*;

use crate::bytes::{append_bytes, append_little_endian, little_endian};
use crate::bytes::{lemma_little_endian_injective, lemma_little_endian_length};
use crate::network::{NetworkSpec, SLOTS_PER_EPOCH};

verus! {

broadcast use vstd::array::group_array_axioms;

/// The configuration of `libp2p`'s gossip protocol.
#[verifier::external_type_specification]
#[verifier::external_body]
pub struct ExConfig(Config);

/// Why a gossip configuration is refused.
#[verifier::external_type_specification]
#[verifier::external_body]
pub struct ExConfigBuilderError(ConfigBuilderError);

/// The bytes that precede a message with valid compression when it is hashed.
pub const MESSAGE_DOMAIN_VALID_SNAPPY: [u8; 4] = [1, 0, 0, 0];

/// How many bytes of a digest make up the id of a message.
pub const MESSAGE_ID_LENGTH: usize = 20;

/// Which fields of a message the protocol checks.
#[derive(Debug, Clone, Copy, PartialEq, Eq, Structural)]
pub enum MessageValidation {
    /// Author, sequence number and signature must be present and valid.
    Strict,
    /// Author, sequence number and signature are checked if present.
    Permissive,
    /// Author, sequence number and signature must be absent.
    Anonymous,
    /// Nothing is checked.
    Off,
}

/// The settings of a gossip configuration.
#[derive(Debug, Clone, Copy, PartialEq, Eq, Structural)]
pub struct GossipsubSettings {
    pub max_transmit_size: usize,
    pub heartbeat_interval_ms: u64,
    pub fanout_ttl_secs: u64,
    pub mesh_n: usize,
    pub mesh_n_low: usize,
    pub mesh_n_high: usize,
    pub gossip_lazy: usize,
    pub history_length: usize,
    pub history_gossip: usize,
    pub max_messages_per_rpc: Option<usize>,
    pub duplicate_cache_secs: u64,
    pub validate_messages: bool,
    pub validation_mode: MessageValidation,
    pub allow_self_origin: bool,
    pub flood_publish: bool,
    pub idontwant_message_size_threshold: usize,
}

/// The settings that a configuration holds, as its getters return them.
pub uninterp spec fn config_settings(config: Config) -> GossipsubSettings;

/// The id that a configuration gives to a message with this topic and these
/// data.
pub uninterp spec fn config_message_id(config: Config, topic: Seq<u8>, data: Seq<u8>) -> Seq<u8>;

/// The digest that SHA-256 gives.
pub uninterp spec fn sha256_digest(data: Seq<u8>) -> Seq<u8>;

/// Calls `sha2::Sha256::digest`. The contract claims that the 32 bytes of the
/// digest depend on the data alone; it leaves unsaid which digest that is.
#[verifier::external_body]
fn sha256(data: &[u8]) -> (digest: [u8; 32])
    ensures
        digest@ == sha256_digest(data@),
{
    Sha256::digest(data).into()
}

/// Calls `libp2p::gossipsub::ConfigBuilder`: sets every field of `settings` and
/// the function that computes message ids, and builds the configuration. The
/// contract claims that `build` refuses a history shorter than the part of it
/// that is gossiped and nothing else, that the configuration holds the settings,
/// and that it computes message ids with [`message_id`]. All other parameters
/// keep the builder's defaults.
#[verifier::external_body]
fn build_config(settings: &GossipsubSettings) -> (built: Result<Config, ConfigBuilderError>)
    requires
        settings.validate_messages,
    ensures
        built is Ok <==> settings.history_length >= settings.history_gossip,
        built matches Ok(config) ==> config_settings(config) == *settings,
        built matches Ok(config) ==> forall|topic: Seq<u8>, data: Seq<u8>| #[trigger]
            config_message_id(config, topic, data) == message_id_of(topic, data),
{
    ConfigBuilder::default().max_transmit_size(settings.max_transmit_size)
        .heartbeat_interval(Duration::from_millis(settings.heartbeat_interval_ms))
        .fanout_ttl(Duration::from_secs(settings.fanout_ttl_secs)).mesh_n(settings.mesh_n)
        .mesh_n_low(settings.mesh_n_low).mesh_n_high(settings.mesh_n_high)
        .gossip_lazy(settings.gossip_lazy).history_length(settings.history_length)
        .history_gossip(settings.history_gossip).max_messages_per_rpc(settings.max_messages_per_rpc)
        .duplicate_cache_time(Duration::from_secs(settings.duplicate_cache_secs))
        .validate_messages().validation_mode(match settings.validation_mode {
            MessageValidation::Strict => ValidationMode::Strict,
            MessageValidation::Permissive => ValidationMode::Permissive,
            MessageValidation::Anonymous => ValidationMode::Anonymous,
            MessageValidation::Off => ValidationMode::None })
        .allow_self_origin(settings.allow_self_origin).flood_publish(settings.flood_publish)
        .idontwant_message_size_threshold(settings.idontwant_message_size_threshold)
        .message_id_fn(|m| MessageId::from(message_id(m.topic.as_str().as_bytes(), &m.data))).build()
}

/// What is hashed to get the id of a message: the domain, the length of the
/// topic as a little-endian word, the topic and the data.
pub open spec fn message_id_preimage(topic: Seq<u8>, data: Seq<u8>) -> Seq<u8> {
    MESSAGE_DOMAIN_VALID_SNAPPY@ + little_endian(topic.len(), (usize::BITS / 8) as nat) + topic
        + data
}

/// The id of a message: the first 20 bytes of the digest.
pub open spec fn message_id_of(topic: Seq<u8>, data: Seq<u8>) -> Seq<u8> {
    sha256_digest(message_id_preimage(topic, data)).take(MESSAGE_ID_LENGTH as int)
}

/// The bytes that are hashed to get the id of a message.
pub fn message_id_input(topic: &[u8], data: &[u8]) -> (input: Vec<u8>)
    ensures
        input@ == message_id_preimage(topic@, data@),
{
    let mut input: Vec<u8> = Vec::new();
    append_bytes(&mut input, MESSAGE_DOMAIN_VALID_SNAPPY.as_slice());
    append_little_endian(&mut input, topic.len() as u64, (usize::BITS / 8) as usize);
    append_bytes(&mut input, topic);
    append_bytes(&mut input, data);
    assert(input@ =~= message_id_preimage(topic@, data@));
    input
}

/// The id that a digest stands for: its first 20 bytes.
pub fn message_id_from_digest(digest: &[u8; 32]) -> (id: Vec<u8>)
    ensures
        id@ == digest@.take(MESSAGE_ID_LENGTH as int),
{
    let mut id: Vec<u8> = Vec::new();
    let mut index: usize = 0;
    while index < MESSAGE_ID_LENGTH
        invariant
            index <= MESSAGE_ID_LENGTH,
            id@ == digest@.take(index as int),
        decreases MESSAGE_ID_LENGTH - index,
    {
        id.push(digest[index]);
        index = index + 1;
        assert(id@ =~= digest@.take(index as int));
    }
    id
}

/// The id of a message with a topic and data.
pub fn message_id(topic: &[u8], data: &[u8]) -> (id: Vec<u8>)
    ensures
        id@ == message_id_of(topic@, data@),
        id@.len() == MESSAGE_ID_LENGTH,
{
    let digest = sha256(message_id_input(topic, data).as_slice());
    message_id_from_digest(&digest)
}

/// A gossip topic, by its full name.
#[derive(Debug, Clone, PartialEq, Eq)]
pub struct GossipTopic {
    pub name: String,
}

/// A gossip configuration with the topics that a node follows.
#[derive(Debug)]
pub struct GossipsubConfig {
    pub config: Config,
    pub topics: Vec<GossipTopic>,
}

/// The settings of the beacon chain's gossip.
pub open spec fn beacon_settings(network: NetworkSpec, history_length: usize) -> GossipsubSettings {
    GossipsubSettings {
        max_transmit_size: network.max_message_size as usize,
        heartbeat_interval_ms: 700,
        fanout_ttl_secs: 60,
        mesh_n: 8,
        mesh_n_low: 6,
        mesh_n_high: 12,
        gossip_lazy: 6,
        history_length,
        history_gossip: 3,
        max_messages_per_rpc: Some(500),
        duplicate_cache_secs: (SLOTS_PER_EPOCH * network.seconds_per_slot * 2) as u64,
        validate_messages: true,
        validation_mode: MessageValidation::Anonymous,
        allow_self_origin: true,
        flood_publish: false,
        idontwant_message_size_threshold: 1000,
    }
}

/// Whether the settings of a network fit in machine words.
pub open spec fn settings_fit(network: NetworkSpec) -> bool {
    &&& network.max_message_size <= usize::MAX
    &&& SLOTS_PER_EPOCH * network.seconds_per_slot * 2 <= u64::MAX
}

impl GossipsubConfig {
    /// The configuration with a history of 12 heartbeats.
    pub fn default(network: &NetworkSpec) -> (gossip: GossipsubConfig)
        requires
            settings_fit(*network),
        ensures
            config_settings(gossip.config) == beacon_settings(*network, 12),
            forall|topic: Seq<u8>, data: Seq<u8>| #[trigger]
                config_message_id(gossip.config, topic, data) == message_id_of(topic, data),
            gossip.topics@.len() == 0,
    {
        Self::with_history_length(network, 12)
    }

    /// The configuration with a history of `history_length` heartbeats, of which
    /// three are gossiped. It follows no topic yet.
    pub fn with_history_length(network: &NetworkSpec, history_length: usize) -> (gossip:
        GossipsubConfig)
        requires
            settings_fit(*network),
            history_length >= 3,
        ensures
            config_settings(gossip.config) == beacon_settings(*network, history_length),
            forall|topic: Seq<u8>, data: Seq<u8>| #[trigger]
                config_message_id(gossip.config, topic, data) == message_id_of(topic, data),
            gossip.topics@.len() == 0,
    {
        let settings = GossipsubSettings {
            max_transmit_size: network.max_message_size as usize,
            heartbeat_interval_ms: 700,
            fanout_ttl_secs: 60,
            mesh_n: 8,
            mesh_n_low: 6,
            mesh_n_high: 12,
            gossip_lazy: 6,
            history_length,
            history_gossip: 3,
            max_messages_per_rpc: Some(500),
            duplicate_cache_secs: SLOTS_PER_EPOCH * network.seconds_per_slot * 2,
            validate_messages: true,
            validation_mode: MessageValidation::Anonymous,
            allow_self_origin: true,
            flood_publish: false,
            idontwant_message_size_threshold: 1000,
        };
        match build_config(&settings) {
            Ok(config) => GossipsubConfig { config, topics: Vec::new() },
            Err(_) => {
                assert(false);
                vstd::pervasive::unreached()
            },
        }
    }

    /// Follows `topics`, and no others.
    pub fn set_topics(&mut self, topics: Vec<GossipTopic>)
        ensures
            final(self).topics == topics,
            final(self).config == old(self).config,
    {
        self.topics = topics;
    }
}

/// A machine word fits in its bytes.
proof fn lemma_word_fits()
    ensures
        usize::MAX < vstd::arithmetic::power::pow(256, (usize::BITS / 8) as nat),
{
    reveal_with_fuel(vstd::arithmetic::power::pow, 9);
    assert(vstd::arithmetic::power::pow(256, 4) == 0x1_0000_0000);
    assert(vstd::arithmetic::power::pow(256, 8) == 0x1_0000_0000_0000_0000);
}

/// Messages that differ in topic or data are hashed from different bytes, so two
/// ids can only collide where SHA-256 does in its first 20 bytes.
pub proof fn different_messages_hash_different_bytes(
    topic: Seq<u8>,
    data: Seq<u8>,
    other_topic: Seq<u8>,
    other_data: Seq<u8>,
)
    requires
        topic.len() <= usize::MAX,
        other_topic.len() <= usize::MAX,
    ensures
        message_id_preimage(topic, data) == message_id_preimage(other_topic, other_data)
            <==> topic == other_topic && data == other_data,
{
    let word = (usize::BITS / 8) as nat;
    let left = message_id_preimage(topic, data);
    let right = message_id_preimage(other_topic, other_data);
    lemma_little_endian_length(topic.len(), word);
    lemma_little_endian_length(other_topic.len(), word);
    if left == right {
        let left_length = little_endian(topic.len(), word);
        let right_length = little_endian(other_topic.len(), word);
        assert(left.subrange(4, 4 + word as int) =~= left_length);
        assert(right.subrange(4, 4 + word as int) =~= right_length);
        lemma_word_fits();
        lemma_little_endian_injective(topic.len(), other_topic.len(), word);
        assert(topic.len() == other_topic.len());
        assert(left.subrange(4 + word as int, 4 + word as int + topic.len()) =~= topic);
        assert(right.subrange(4 + word as int, 4 + word as int + topic.len()) =~= other_topic);
        assert(left.skip(4 + word as int + topic.len()) =~= data);
        assert(right.skip(4 + word as int + topic.len()) =~= other_data);
    }
}

/// The id of a message is made of the first 20 bytes of the digest over the domain,
/// the length of the topic, the topic and the data, each in its place.
pub proof fn message_id_covers_topic_and_data(topic: Seq<u8>, data: Seq<u8>)
    ensures
        ({
            let word = (usize::BITS / 8) as int;
            let hashed = message_id_preimage(topic, data);
            &&& message_id_of(topic, data) == sha256_digest(hashed).take(20)
            &&& hashed.len() == 4 + word + topic.len() + data.len()
            &&& hashed.subrange(0, 4) == seq![1u8, 0u8, 0u8, 0u8]
            &&& hashed.subrange(4, 4 + word) == little_endian(topic.len(), word as nat)
            &&& hashed.subrange(4 + word, 4 + word + topic.len()) == topic
            &&& hashed.skip(4 + word + topic.len()) == data
        }),
{
    let word = (usize::BITS / 8) as nat;
    lemma_little_endian_length(topic.len(), word);
    let hashed = message_id_preimage(topic, data);
    assert(MESSAGE_DOMAIN_VALID_SNAPPY@ =~= seq![1u8, 0u8, 0u8, 0u8]);
    assert(hashed.subrange(0, 4) =~= seq![1u8, 0u8, 0u8, 0u8]);
    assert(hashed.subrange(4, 4 + word as int) =~= little_endian(topic.len(), word));
    assert(hashed.subrange(4 + word as int, 4 + word as int + topic.len()) =~= topic);
    assert(hashed.skip(4 + word as int + topic.len()) =~= data);
}

/// Of the settings only the size of messages, the time for which duplicates are
/// remembered, which is that of two epochs, and the history are chosen; the others
/// are fixed.
pub proof fn settings_follow_the_network(network: NetworkSpec, history_length: usize)
    requires
        settings_fit(network),
    ensures
        ({
            let settings = beacon_settings(network, history_length);
            &&& settings.max_transmit_size == network.max_message_size
            &&& settings.duplicate_cache_secs == 2 * SLOTS_PER_EPOCH * network.seconds_per_slot
            &&& settings.history_length == history_length
            &&& settings.history_gossip == 3
            &&& settings.heartbeat_interval_ms == 700
            &&& settings.fanout_ttl_secs == 60
            &&& settings.mesh_n_low == 6
            &&& settings.mesh_n == 8
            &&& settings.mesh_n_high == 12
            &&& settings.gossip_lazy == 6
            &&& settings.max_messages_per_rpc == Some(500usize)
            &&& settings.validate_messages
            &&& settings.validation_mode == MessageValidation::Anonymous
            &&& settings.allow_self_origin
            &&& !settings.flood_publish
            &&& settings.idontwant_message_size_threshold == 1000
        }),
{
}

} // verus!
