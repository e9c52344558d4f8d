use discovery::discovery::{Discovery, Outbound, DISCOVERY_PROTOCOL_NAME};
use discovery::note::{
    create_note, create_peer_info, signature_check, verify, NetworkPublicKeys, SignatureCheck,
    TrustStore, VerificationError,
};
use discovery::store::SeedPeers;
use discovery::types::{Address, AddressUpdate, FullNodePayload, Note, PeerId, PeerInfo};
use discovery::wire::{decode_info, encode_info};
use rand::{rngs::StdRng, Rng, SeedableRng};
use std::time::{SystemTime, UNIX_EPOCH};

const TEST_SEED: [u8; 32] = [0u8; 32];

/// Stands for the node's signer: a keyed checksum, enough to tell a note that
/// was signed with the right key from one that was not.
struct Signer {
    key: Vec<u8>,
}

fn keyed_sum(key: &[u8], msg: &[u8]) -> Vec<u8> {
    let mut h: u64 = 0xcbf2_9ce4_8422_2325;
    for b in key.iter().chain(msg.iter()) {
        h ^= *b as u64;
        h = h.wrapping_mul(0x0000_0100_0000_01b3);
    }
    h.to_le_bytes().to_vec()
}

impl Signer {
    fn sign(&self, msg: &[u8]) -> Vec<u8> {
        keyed_sum(&self.key, msg)
    }
}

fn check(c: &SignatureCheck) -> bool {
    keyed_sum(&c.public_key, &c.message) == c.signature
}

fn random_peer_id() -> PeerId {
    PeerId::new(rand::random::<u128>(), rand::random::<u128>())
}

fn addr(text: &str) -> Address {
    Address::new(text.as_bytes().to_vec())
}

fn now_secs() -> u64 {
    SystemTime::now().duration_since(UNIX_EPOCH).unwrap().as_secs()
}

fn gen_peer_info() -> PeerInfo {
    let mut peer_info = PeerInfo::new(0, vec![]);
    peer_info.epoch = 1;
    peer_info.addrs.push(addr("/ip4/127.0.0.1/tcp/9090"));
    peer_info
}

fn gen_full_node_payload() -> FullNodePayload {
    FullNodePayload { epoch: 1, dns_seed_addr: b"example.com"[..].into() }
}

fn get_addrs_from_note(note: &Note) -> Vec<Address> {
    let peer_info = decode_info(&note.signed_peer_info.payload).unwrap();
    let mut addrs = vec![];
    for addr in peer_info.addrs {
        addrs.push(addr.clone());
    }
    addrs
}

fn get_addrs_from_info(peer_info: &PeerInfo) -> Vec<Address> {
    peer_info.addrs.iter().map(|addr| addr.clone()).collect()
}

fn generate_network_pub_keys_and_signer(_peer_id: PeerId) -> (NetworkPublicKeys, Signer) {
    let mut rng = StdRng::from_seed(TEST_SEED);
    let signing_key: [u8; 32] = rng.gen();
    let identity_key: [u8; 32] = rng.gen();
    (
        NetworkPublicKeys {
            signing_public_key: signing_key.to_vec(),
            identity_public_key: identity_key.to_vec(),
        },
        Signer { key: signing_key.to_vec() },
    )
}

fn signed_note(
    signer: &Signer,
    peer_id: PeerId,
    peer_info: PeerInfo,
    payload: FullNodePayload,
) -> Note {
    let info_signature = signer.sign(&encode_info(&peer_info));
    let payload_signature = signer.sign(&discovery::wire::encode_payload(&payload));
    create_note(peer_id, &peer_info, info_signature, Some(&payload), payload_signature)
}

fn setup_discovery(
    peer_id: PeerId,
    addrs: Vec<Address>,
    seed_peer_id: PeerId,
    seed_peer_info: PeerInfo,
) -> (Discovery, Vec<AddressUpdate>) {
    let mut seeds = SeedPeers::new();
    seeds.insert(seed_peer_id, seed_peer_info);
    Discovery::new(peer_id, addrs, seeds, 180)
}

fn deliver(d: &mut Discovery, trust: &TrustStore, notes: &Vec<Note>, now: u64) -> Vec<AddressUpdate> {
    let oks: Vec<bool> = notes
        .iter()
        .map(|n| match signature_check(n, trust) {
            Some(c) => check(&c),
            None => false,
        })
        .collect();
    d.ingest_batch(notes, trust, &oks, now)
}

fn tick(d: &mut Discovery, signer: &Signer, now: u64) -> Vec<Outbound> {
    let signature = match d.tick_info(now) {
        Some(info) => signer.sign(&encode_info(&info)),
        None => vec![],
    };
    d.on_tick(now, signature)
}

fn expect_address_update(update: &AddressUpdate, expected_peer_id: PeerId, expected_addrs: &[Address]) {
    assert_eq!(expected_peer_id, update.peer_id);
    assert_eq!(expected_addrs, &update.addrs[..]);
}

#[test]
fn inbound() {
    let peer_id = random_peer_id();
    let addrs = vec![addr("/ip4/127.0.0.1/tcp/9090")];
    let (self_pub_keys, _self_signer) = generate_network_pub_keys_and_signer(peer_id);

    let seed_peer_info = gen_peer_info();
    let seed_peer_addrs = get_addrs_from_info(&seed_peer_info);
    let seed_peer_payload = gen_full_node_payload();
    let seed_peer_id = random_peer_id();
    let (seed_pub_keys, seed_signer) = generate_network_pub_keys_and_signer(seed_peer_id);
    let mut trusted_peers = TrustStore::new();
    trusted_peers.insert(seed_peer_id, seed_pub_keys);
    trusted_peers.insert(peer_id, self_pub_keys);

    let (mut discovery, startup) =
        setup_discovery(peer_id, addrs, seed_peer_id, seed_peer_info.clone());
    assert_eq!(1, startup.len());
    expect_address_update(&startup[0], seed_peer_id, &seed_peer_addrs[..]);

    let peer_id_other = random_peer_id();
    let addrs_other = vec![addr("/ip4/172.29.52.192/tcp/8080")];
    let seed_note = signed_note(
        &seed_signer,
        seed_peer_id,
        seed_peer_info.clone(),
        seed_peer_payload.clone(),
    );
    let (pub_keys_other, signer_other) = generate_network_pub_keys_and_signer(peer_id_other);
    trusted_peers.insert(peer_id_other, pub_keys_other);
    let note_other = {
        let peer_info = PeerInfo::new(0, addrs_other.clone());
        let full_node_payload = gen_full_node_payload();
        signed_note(&signer_other, peer_id_other, peer_info, full_node_payload)
    };
    let msg = vec![note_other.clone(), seed_note.clone()];
    let updates = deliver(&mut discovery, &trusted_peers, &msg, now_secs());
    assert_eq!(2, updates.len());
    expect_address_update(&updates[0], peer_id_other, &addrs_other[..]);

    let mut expected_seed_addrs = seed_peer_addrs.clone();
    expected_seed_addrs.extend_from_slice(&seed_peer_addrs[..]);
    expect_address_update(&updates[1], seed_peer_id, &expected_seed_addrs[..]);

    let new_seed_addrs = vec![addr("/ip4/127.0.0.1/tcp/8098")];
    let msg = {
        let seed_peer_info = create_peer_info(new_seed_addrs.clone(), now_secs());
        let seed_note = signed_note(&seed_signer, seed_peer_id, seed_peer_info, seed_peer_payload);
        vec![note_other, seed_note]
    };
    let updates = deliver(&mut discovery, &trusted_peers, &msg, now_secs());

    let mut expected_seed_addrs = new_seed_addrs.clone();
    expected_seed_addrs.extend_from_slice(&seed_peer_addrs[..]);
    assert_eq!(1, updates.len());
    expect_address_update(&updates[0], seed_peer_id, &expected_seed_addrs[..]);
}

#[test]
fn outbound() {
    let peer_id = random_peer_id();
    let addrs = vec![addr("/ip4/127.0.0.1/tcp/9090")];
    let (self_pub_keys, self_signer) = generate_network_pub_keys_and_signer(peer_id);

    let seed_peer_id = random_peer_id();
    let seed_peer_info = gen_peer_info();
    let (seed_pub_keys, _) = generate_network_pub_keys_and_signer(seed_peer_id);
    let mut trusted_peers = TrustStore::new();
    trusted_peers.insert(seed_peer_id, seed_pub_keys);
    trusted_peers.insert(peer_id, self_pub_keys);

    let (mut discovery, _startup) =
        setup_discovery(peer_id, addrs.clone(), seed_peer_id, seed_peer_info.clone());

    discovery.on_new_peer(seed_peer_id);
    let out = tick(&mut discovery, &self_signer, now_secs());

    assert_eq!(1, out.len());
    assert_eq!(out[0].peer_id, seed_peer_id);
    assert_eq!(DISCOVERY_PROTOCOL_NAME, "/libra/discovery/0.1.0");

    let msg = &out[0].notes;
    assert_eq!(1, msg.len());
    assert_eq!(peer_id, msg[0].peer_id);
    assert_eq!(addrs, get_addrs_from_note(&msg[0]));
    assert!(check(&signature_check(&msg[0], &trusted_peers).unwrap()));
}

#[test]
fn addr_update_includes_seed_addrs() {
    let peer_id = random_peer_id();
    let addrs = vec![addr("/ip4/127.0.0.1/tcp/9090")];
    let (self_pub_keys, _self_signer) = generate_network_pub_keys_and_signer(peer_id);

    let seed_peer_info = gen_peer_info();
    let mut seed_peer_addrs = get_addrs_from_info(&seed_peer_info);
    let seed_peer_payload = gen_full_node_payload();
    let seed_peer_id = random_peer_id();
    let (seed_pub_keys, seed_signer) = generate_network_pub_keys_and_signer(seed_peer_id);
    let mut trusted_peers = TrustStore::new();
    trusted_peers.insert(seed_peer_id, seed_pub_keys);
    trusted_peers.insert(peer_id, self_pub_keys);

    let (mut discovery, startup) = setup_discovery(peer_id, addrs, seed_peer_id, seed_peer_info);
    assert_eq!(1, startup.len());
    expect_address_update(&startup[0], seed_peer_id, &seed_peer_addrs[..]);

    let new_seed_addrs = vec![addr("/ip4/127.0.0.1/tcp/9091")];
    let new_seed_info = create_peer_info(new_seed_addrs.clone(), now_secs());
    let seed_note = signed_note(&seed_signer, seed_peer_id, new_seed_info, seed_peer_payload);
    let msg = vec![seed_note.clone()];
    let updates = deliver(&mut discovery, &trusted_peers, &msg, now_secs());

    let mut expected_seed_addrs = new_seed_addrs.clone();
    expected_seed_addrs.append(&mut seed_peer_addrs);
    assert_eq!(1, updates.len());
    expect_address_update(&updates[0], seed_peer_id, &expected_seed_addrs[..]);
}

#[test]
fn new_peer_and_seed_in_one_message() {
    let s = PeerId::new(0, 1);
    let g = PeerId::new(0, 2);
    let x = PeerId::new(0, 3);
    let (keys, signer) = generate_network_pub_keys_and_signer(g);
    let mut trust = TrustStore::new();
    trust.insert(g, keys.clone());
    trust.insert(x, keys);
    let (mut d, startup) =
        setup_discovery(s, vec![addr("/ip4/127.0.0.1/tcp/9090")], g, gen_peer_info());
    assert_eq!(startup, vec![AddressUpdate { peer_id: g, addrs: vec![addr("/ip4/127.0.0.1/tcp/9090")] }]);
    let note_x = signed_note(
        &signer,
        x,
        PeerInfo::new(1, vec![addr("/ip4/172.29.52.192/tcp/8080")]),
        gen_full_node_payload(),
    );
    let note_g = signed_note(&signer, g, gen_peer_info(), gen_full_node_payload());
    let updates = deliver(&mut d, &trust, &vec![note_x, note_g], 10);
    assert_eq!(
        updates,
        vec![
            AddressUpdate { peer_id: x, addrs: vec![addr("/ip4/172.29.52.192/tcp/8080")] },
            AddressUpdate {
                peer_id: g,
                addrs: vec![addr("/ip4/127.0.0.1/tcp/9090"), addr("/ip4/127.0.0.1/tcp/9090")],
            },
        ]
    );
    assert_eq!(d.knowledge().stored_epoch(g), Some(1));
    assert_eq!(d.knowledge().stored_epoch(x), Some(1));
    assert_eq!(d.knowledge().len(), 2);
}

#[test]
fn newer_note_replaces_reported_addresses() {
    let s = PeerId::new(0, 1);
    let g = PeerId::new(0, 2);
    let (keys, signer) = generate_network_pub_keys_and_signer(g);
    let mut trust = TrustStore::new();
    trust.insert(g, keys);
    let (mut d, _) = setup_discovery(s, vec![addr("/ip4/127.0.0.1/tcp/9090")], g, gen_peer_info());
    let first = signed_note(&signer, g, PeerInfo::new(5, vec![addr("/a")]), gen_full_node_payload());
    let second = signed_note(&signer, g, PeerInfo::new(6, vec![addr("/b")]), gen_full_node_payload());
    let u1 = deliver(&mut d, &trust, &vec![first.clone()], 10);
    let u2 = deliver(&mut d, &trust, &vec![second], 11);
    assert_eq!(u1, vec![AddressUpdate { peer_id: g, addrs: vec![addr("/a"), addr("/ip4/127.0.0.1/tcp/9090")] }]);
    assert_eq!(u2, vec![AddressUpdate { peer_id: g, addrs: vec![addr("/b"), addr("/ip4/127.0.0.1/tcp/9090")] }]);
    // The older note, delivered again, is stale; so is one of the same epoch.
    let u3 = deliver(&mut d, &trust, &vec![first], 12);
    assert!(u3.is_empty());
    let same = signed_note(&signer, g, PeerInfo::new(6, vec![addr("/c")]), gen_full_node_payload());
    assert!(deliver(&mut d, &trust, &vec![same], 13).is_empty());
    assert_eq!(d.knowledge().stored_epoch(g), Some(6));
}

#[test]
fn note_of_unknown_signer_waits_for_trust() {
    let s = PeerId::new(0, 1);
    let g = PeerId::new(0, 2);
    let x = PeerId::new(7, 7);
    let (keys, signer) = generate_network_pub_keys_and_signer(x);
    let mut trust = TrustStore::new();
    let (mut d, _) = setup_discovery(s, vec![], g, gen_peer_info());
    let note = signed_note(&signer, x, PeerInfo::new(3, vec![addr("/x")]), gen_full_node_payload());
    assert!(signature_check(&note, &trust).is_none());
    assert_eq!(verify(&note, &trust, true), Err(VerificationError::UnknownSigner));
    assert!(deliver(&mut d, &trust, &vec![note.clone()], 1).is_empty());
    assert_eq!(d.knowledge().stored_epoch(x), None);
    trust.insert(x, keys);
    assert!(trust.contains(x));
    let updates = deliver(&mut d, &trust, &vec![note], 2);
    assert_eq!(updates, vec![AddressUpdate { peer_id: x, addrs: vec![addr("/x")] }]);
}

#[test]
fn note_about_self_is_ignored() {
    let s = PeerId::new(0, 1);
    let g = PeerId::new(0, 2);
    let (keys, signer) = generate_network_pub_keys_and_signer(s);
    let mut trust = TrustStore::new();
    trust.insert(s, keys);
    let (mut d, _) = setup_discovery(s, vec![addr("/self")], g, gen_peer_info());
    let out = tick(&mut d, &signer, 100);
    assert!(out.is_empty());
    assert_eq!(d.knowledge().own_epoch(), Some(100));
    let forged = signed_note(&signer, s, PeerInfo::new(1000, vec![addr("/evil")]), gen_full_node_payload());
    assert!(deliver(&mut d, &trust, &vec![forged], 101).is_empty());
    assert_eq!(d.knowledge().own_epoch(), Some(100));
    assert_eq!(d.knowledge().stored_epoch(s), None);
    let snap = d.knowledge().snapshot_for_gossip(None);
    assert_eq!(snap.len(), 1);
    assert_eq!(get_addrs_from_note(&snap[0]), vec![addr("/self")]);
}

#[test]
fn bad_note_does_not_stop_the_batch() {
    let s = PeerId::new(0, 1);
    let g = PeerId::new(0, 2);
    let x = PeerId::new(0, 3);
    let (keys, signer) = generate_network_pub_keys_and_signer(x);
    let mut trust = TrustStore::new();
    trust.insert(x, keys.clone());
    trust.insert(g, keys);
    let (mut d, _) = setup_discovery(s, vec![], g, gen_peer_info());
    let mut forged = signed_note(&signer, g, PeerInfo::new(9, vec![addr("/g")]), gen_full_node_payload());
    forged.signed_peer_info.signature = vec![0, 1, 2];
    let mut broken = signed_note(&signer, g, PeerInfo::new(9, vec![addr("/g")]), gen_full_node_payload());
    broken.signed_peer_info.payload = vec![1, 2, 3];
    let good = signed_note(&signer, x, PeerInfo::new(2, vec![addr("/x")]), gen_full_node_payload());
    assert_eq!(verify(&forged, &trust, false), Err(VerificationError::BadSignature));
    assert_eq!(verify(&broken, &trust, true), Err(VerificationError::Malformed));
    assert_eq!(verify(&good, &trust, true), Ok(PeerInfo::new(2, vec![addr("/x")])));
    let updates = deliver(&mut d, &trust, &vec![forged, broken, good], 5);
    assert_eq!(updates, vec![AddressUpdate { peer_id: x, addrs: vec![addr("/x")] }]);
    assert_eq!(d.knowledge().stored_epoch(g), None);
}

#[test]
fn missing_signature_answer_counts_as_bad() {
    let s = PeerId::new(0, 1);
    let g = PeerId::new(0, 2);
    let (keys, signer) = generate_network_pub_keys_and_signer(g);
    let mut trust = TrustStore::new();
    trust.insert(g, keys);
    let (mut d, _) = setup_discovery(s, vec![], g, gen_peer_info());
    let note = signed_note(&signer, g, PeerInfo::new(9, vec![addr("/g")]), gen_full_node_payload());
    assert!(d.ingest_batch(&vec![note.clone()], &trust, &vec![], 5).is_empty());
    assert_eq!(d.ingest_batch(&vec![note], &trust, &vec![true], 5).len(), 1);
}

#[test]
fn tick_pushes_everything_to_every_neighbour() {
    let s = PeerId::new(0, 1);
    let g = PeerId::new(0, 2);
    let x = PeerId::new(0, 3);
    let (keys, signer) = generate_network_pub_keys_and_signer(g);
    let mut trust = TrustStore::new();
    trust.insert(g, keys);
    let (mut d, _) = setup_discovery(s, vec![addr("/self")], g, gen_peer_info());
    let note_g = signed_note(&signer, g, PeerInfo::new(4, vec![addr("/g")]), gen_full_node_payload());
    deliver(&mut d, &trust, &vec![note_g.clone()], 5);
    d.on_new_peer(g);
    d.on_new_peer(x);
    d.on_new_peer(g);
    let out = tick(&mut d, &signer, 50);
    assert_eq!(out.len(), 2);
    assert_eq!(out[0].peer_id, g);
    assert_eq!(out[1].peer_id, x);
    assert_eq!(out[0].notes, out[1].notes);
    assert_eq!(out[0].notes.len(), 2);
    assert_eq!(out[0].notes[0].peer_id, s);
    assert_eq!(decode_info(&out[0].notes[0].signed_peer_info.payload), Some(PeerInfo::new(50, vec![addr("/self")])));
    assert_eq!(out[0].notes[0].signed_full_node_payload, None);
    assert_eq!(out[0].notes[1], note_g);
    d.on_lost_peer(g);
    let out = tick(&mut d, &signer, 50);
    assert_eq!(out.len(), 1);
    assert_eq!(out[0].peer_id, x);
    // The time did not move on: the epoch does.
    assert_eq!(d.knowledge().own_epoch(), Some(51));
    let out = tick(&mut d, &signer, 40);
    assert_eq!(decode_info(&out[0].notes[0].signed_peer_info.payload).unwrap().epoch, 52);
}

#[test]
fn shut_down_engine_does_nothing() {
    let s = PeerId::new(0, 1);
    let g = PeerId::new(0, 2);
    let (keys, signer) = generate_network_pub_keys_and_signer(g);
    let mut trust = TrustStore::new();
    trust.insert(g, keys);
    let (mut d, _) = setup_discovery(s, vec![addr("/self")], g, gen_peer_info());
    d.on_new_peer(g);
    assert!(d.is_running());
    d.shut_down();
    assert!(!d.is_running());
    assert!(d.tick_info(5).is_none());
    assert!(tick(&mut d, &signer, 5).is_empty());
    assert_eq!(d.knowledge().own_epoch(), None);
    let note = signed_note(&signer, g, PeerInfo::new(9, vec![addr("/g")]), gen_full_node_payload());
    assert!(d.ingest(note.clone(), &trust, true, 5).is_none());
    assert!(deliver(&mut d, &trust, &vec![note], 5).is_empty());
    assert!(d.evict(1000).is_empty());
    assert_eq!(d.knowledge().len(), 0);
}

#[test]
fn engine_evicts_after_time_to_live() {
    let s = PeerId::new(0, 1);
    let g = PeerId::new(0, 2);
    let (keys, signer) = generate_network_pub_keys_and_signer(g);
    let mut trust = TrustStore::new();
    trust.insert(g, keys);
    let (mut d, _) = setup_discovery(s, vec![addr("/self")], g, gen_peer_info());
    let note = signed_note(&signer, g, PeerInfo::new(9, vec![addr("/g")]), gen_full_node_payload());
    assert!(d.ingest(note, &trust, true, 100).is_some());
    assert!(d.evict(280).is_empty());
    assert_eq!(d.evict(281), vec![g]);
    assert_eq!(d.knowledge().len(), 0);
}
