//! A plain Noise_XX_25519_ChaChaPoly_BLAKE2s, written from the definition of the
//! protocol, talks to the library: both must agree on every byte.

use blake2::{Blake2s256, Digest};
use chacha20poly1305::aead::{Aead, Payload};
use chacha20poly1305::{ChaCha20Poly1305, Key, KeyInit, Nonce};
use rand::RngCore;
use syncmob::net::session::{
    frame, frame_len, handshake_initiator, handshake_responder, received, Handshaked, SecureChannel,
};
use syncmob::proto::Message;
use syncmob::security::{sas_code, Identity};
use syncmob::util::{IpAddr, SocketAddr};
use x25519_dalek::{PublicKey, StaticSecret};

const PROTOCOL_NAME: &str = "Noise_XX_25519_ChaChaPoly_BLAKE2s";
const PROLOGUE: &[u8] = b"SyncMob/1";

// ---- primitives ---------------------------------------------------------

fn hash(parts: &[&[u8]]) -> [u8; 32] {
    let mut h = Blake2s256::new();
    for p in parts {
        h.update(p);
    }
    h.finalize().into()
}

/// BLAKE2s has a 64 byte block.
const BLOCK: usize = 64;

/// HMAC-BLAKE2s-256, written out by hand (RFC 2104).
fn hmac(key: &[u8], data: &[u8]) -> [u8; 32] {
    let mut k = [0u8; BLOCK];
    if key.len() > BLOCK {
        k[..32].copy_from_slice(&hash(&[key]));
    } else {
        k[..key.len()].copy_from_slice(key);
    }
    let mut ipad = [0x36u8; BLOCK];
    let mut opad = [0x5cu8; BLOCK];
    for i in 0..BLOCK {
        ipad[i] ^= k[i];
        opad[i] ^= k[i];
    }
    let inner = hash(&[&ipad, data]);
    hash(&[&opad, &inner])
}

/// HKDF as Noise defines it: two outputs, chained HMACs.
fn hkdf2(ck: &[u8], ikm: &[u8]) -> ([u8; 32], [u8; 32]) {
    let temp = hmac(ck, ikm);
    let o1 = hmac(&temp, &[1u8]);
    let mut second = o1.to_vec();
    second.push(2u8);
    let o2 = hmac(&temp, &second);
    (o1, o2)
}

fn dh(private: &[u8; 32], public: &[u8; 32]) -> [u8; 32] {
    let s = StaticSecret::from(*private);
    s.diffie_hellman(&PublicKey::from(*public)).to_bytes()
}

// ---- CipherState --------------------------------------------------------

struct CipherState {
    k: Option<[u8; 32]>,
    n: u64,
}

impl CipherState {
    fn new() -> Self {
        Self { k: None, n: 0 }
    }
    fn initialize_key(&mut self, key: Option<[u8; 32]>) {
        self.k = key;
        self.n = 0;
    }
    /// 96-bit nonce: 32 zero bits, then the counter little-endian.
    fn nonce(&self) -> Nonce {
        let mut b = [0u8; 12];
        b[4..].copy_from_slice(&self.n.to_le_bytes());
        *Nonce::from_slice(&b)
    }
    fn encrypt_with_ad(&mut self, ad: &[u8], pt: &[u8]) -> Vec<u8> {
        let Some(k) = self.k else {
            return pt.to_vec();
        };
        let c = ChaCha20Poly1305::new(Key::from_slice(&k));
        let ct = c
            .encrypt(&self.nonce(), Payload { msg: pt, aad: ad })
            .expect("encrypt");
        self.n += 1;
        ct
    }
    fn decrypt_with_ad(&mut self, ad: &[u8], ct: &[u8]) -> Result<Vec<u8>, String> {
        let Some(k) = self.k else {
            return Ok(ct.to_vec());
        };
        let c = ChaCha20Poly1305::new(Key::from_slice(&k));
        let pt = c
            .decrypt(&self.nonce(), Payload { msg: ct, aad: ad })
            .map_err(|_| "decryption failed".to_string())?;
        self.n += 1;
        Ok(pt)
    }
}

// ---- SymmetricState -----------------------------------------------------

struct SymmetricState {
    h: [u8; 32],
    ck: [u8; 32],
    cipher: CipherState,
}

impl SymmetricState {
    fn new(protocol_name: &str) -> Self {
        let name = protocol_name.as_bytes();
        // The name is 33 bytes, i.e. longer than HASHLEN, so it is hashed.
        let h: [u8; 32] = if name.len() <= 32 {
            let mut p = [0u8; 32];
            p[..name.len()].copy_from_slice(name);
            p
        } else {
            hash(&[name])
        };
        Self {
            h,
            ck: h,
            cipher: CipherState::new(),
        }
    }
    fn mix_hash(&mut self, data: &[u8]) {
        self.h = hash(&[&self.h, data]);
    }
    fn mix_key(&mut self, input: &[u8]) {
        let (ck, temp_k) = hkdf2(&self.ck, input);
        self.ck = ck;
        self.cipher.initialize_key(Some(temp_k));
    }
    fn encrypt_and_hash(&mut self, pt: &[u8]) -> Vec<u8> {
        let ct = self.cipher.encrypt_with_ad(&self.h, pt);
        self.mix_hash(&ct);
        ct
    }
    fn decrypt_and_hash(&mut self, ct: &[u8]) -> Result<Vec<u8>, String> {
        let pt = self.cipher.decrypt_with_ad(&self.h, ct)?;
        self.mix_hash(ct);
        Ok(pt)
    }
    fn split(&self) -> (CipherState, CipherState) {
        let (t1, t2) = hkdf2(&self.ck, &[]);
        let mut c1 = CipherState::new();
        c1.initialize_key(Some(t1));
        let mut c2 = CipherState::new();
        c2.initialize_key(Some(t2));
        (c1, c2)
    }
}

// ---- HandshakeState (XX only) ------------------------------------------

struct NoiseXX {
    initiator: bool,
    sym: SymmetricState,
    s_priv: [u8; 32],
    s_pub: [u8; 32],
    e_priv: Option<[u8; 32]>,
    e_pub: Option<[u8; 32]>,
    re: Option<[u8; 32]>,
    rs: Option<[u8; 32]>,
    step: usize,
}

struct Transport {
    send: CipherState,
    recv: CipherState,
}

impl NoiseXX {
    fn new(initiator: bool, s_priv: [u8; 32], s_pub: [u8; 32]) -> Self {
        let mut sym = SymmetricState::new(PROTOCOL_NAME);
        sym.mix_hash(PROLOGUE);
        Self {
            initiator,
            sym,
            s_priv,
            s_pub,
            e_priv: None,
            e_pub: None,
            re: None,
            rs: None,
            step: 0,
        }
    }

    fn gen_ephemeral(&mut self) {
        // Deterministic-free: a fresh random scalar each handshake.
        let secret = random_secret();
        let pubk = PublicKey::from(&secret);
        self.e_priv = Some(secret.to_bytes());
        self.e_pub = Some(pubk.to_bytes());
    }

    fn write_message(&mut self, payload: &[u8]) -> Vec<u8> {
        let mut out = Vec::new();
        if self.initiator && self.step == 0 {
            // -> e
            self.gen_ephemeral();
            let e_pub = self.e_pub.unwrap();
            self.sym.mix_hash(&e_pub);
            out.extend_from_slice(&e_pub);
            out.extend_from_slice(&self.sym.encrypt_and_hash(payload));
        } else if !self.initiator && self.step == 1 {
            // <- e, ee, s, es
            self.gen_ephemeral();
            let e_pub = self.e_pub.unwrap();
            self.sym.mix_hash(&e_pub);
            out.extend_from_slice(&e_pub);
            let ee = dh(&self.e_priv.unwrap(), &self.re.unwrap());
            self.sym.mix_key(&ee);
            let s_pub = self.s_pub;
            out.extend_from_slice(&self.sym.encrypt_and_hash(&s_pub));
            // responder's `es` is DH(s, re)
            let es = dh(&self.s_priv, &self.re.unwrap());
            self.sym.mix_key(&es);
            out.extend_from_slice(&self.sym.encrypt_and_hash(payload));
        } else if self.initiator && self.step == 2 {
            // -> s, se
            let s_pub = self.s_pub;
            out.extend_from_slice(&self.sym.encrypt_and_hash(&s_pub));
            // initiator's `se` is DH(s, re)
            let se = dh(&self.s_priv, &self.re.unwrap());
            self.sym.mix_key(&se);
            out.extend_from_slice(&self.sym.encrypt_and_hash(payload));
        } else {
            panic!("write_message called out of order (step {})", self.step);
        }
        self.step += 1;
        out
    }

    fn read_message(&mut self, msg: &[u8]) -> Result<Vec<u8>, String> {
        let payload;
        if !self.initiator && self.step == 0 {
            // -> e
            if msg.len() < 32 {
                return Err("short message 1".into());
            }
            let mut re = [0u8; 32];
            re.copy_from_slice(&msg[..32]);
            self.sym.mix_hash(&re);
            self.re = Some(re);
            payload = self.sym.decrypt_and_hash(&msg[32..])?;
        } else if self.initiator && self.step == 1 {
            // <- e, ee, s, es
            if msg.len() < 32 + 48 {
                return Err("short message 2".into());
            }
            let mut re = [0u8; 32];
            re.copy_from_slice(&msg[..32]);
            self.sym.mix_hash(&re);
            self.re = Some(re);
            let ee = dh(&self.e_priv.unwrap(), &re);
            self.sym.mix_key(&ee);
            let rs_bytes = self.sym.decrypt_and_hash(&msg[32..80])?;
            let mut rs = [0u8; 32];
            rs.copy_from_slice(&rs_bytes);
            self.rs = Some(rs);
            // initiator's `es` is DH(e, rs)
            let es = dh(&self.e_priv.unwrap(), &rs);
            self.sym.mix_key(&es);
            payload = self.sym.decrypt_and_hash(&msg[80..])?;
        } else if !self.initiator && self.step == 2 {
            // -> s, se
            if msg.len() < 48 {
                return Err("short message 3".into());
            }
            let rs_bytes = self.sym.decrypt_and_hash(&msg[..48])?;
            let mut rs = [0u8; 32];
            rs.copy_from_slice(&rs_bytes);
            self.rs = Some(rs);
            // responder's `se` is DH(e, rs)
            let se = dh(&self.e_priv.unwrap(), &rs);
            self.sym.mix_key(&se);
            payload = self.sym.decrypt_and_hash(&msg[48..])?;
        } else {
            return Err(format!(
                "read_message called out of order (step {})",
                self.step
            ));
        }
        self.step += 1;
        Ok(payload)
    }

    fn handshake_hash(&self) -> [u8; 32] {
        self.sym.h
    }

    fn split(&self) -> Transport {
        let (c1, c2) = self.sym.split();
        if self.initiator {
            Transport { send: c1, recv: c2 }
        } else {
            Transport { send: c2, recv: c1 }
        }
    }
}

/// Fresh X25519 secret from the OS CSPRNG.
fn random_secret() -> StaticSecret {
    let mut b = [0u8; 32];
    rand::rng().fill_bytes(&mut b);
    StaticSecret::from(b)
}

// ---- tests --------------------------------------------------------------

fn nowhere() -> SocketAddr {
    SocketAddr { ip: IpAddr::V4(0), port: 0 }
}

/// A message without a body, from a plaintext.
fn plain(pt: &[u8]) -> Message {
    received(pt, Err("no body".to_string())).unwrap()
}

/// A message without a body, from a frame.
fn read_channel(ch: &mut SecureChannel, ct: &[u8]) -> Message {
    plain(&ch.recv(ct).unwrap())
}

/// The reference as the initiator, the library as the responder.
fn reference_initiates(server: &Identity) -> (NoiseXX, [u8; 32], Handshaked) {
    let secret = random_secret();
    let public = PublicKey::from(&secret).to_bytes();
    let mut i = NoiseXX::new(true, secret.to_bytes(), public);
    let mut r = handshake_responder(server).unwrap();
    r.read_hs(&i.write_message(&[])).unwrap();
    let m2 = r.write_hs().unwrap();
    i.read_message(&m2[4..]).unwrap();
    r.read_hs(&i.write_message(&[])).unwrap();
    (i, public, r.finish(nowhere()).unwrap())
}

/// The reference talks to itself: sanity check before it is pointed at the
/// library.
#[test]
fn reference_talks_to_itself() {
    let a_priv = random_secret();
    let a_pub = PublicKey::from(&a_priv);
    let b_priv = random_secret();
    let b_pub = PublicKey::from(&b_priv);

    let mut i = NoiseXX::new(true, a_priv.to_bytes(), a_pub.to_bytes());
    let mut r = NoiseXX::new(false, b_priv.to_bytes(), b_pub.to_bytes());

    let m1 = i.write_message(&[]);
    assert_eq!(m1.len(), 32, "message 1 is a bare ephemeral key");
    r.read_message(&m1).unwrap();

    let m2 = r.write_message(&[]);
    assert_eq!(m2.len(), 96, "message 2 is e + encrypted s + tag");
    i.read_message(&m2).unwrap();

    let m3 = i.write_message(&[]);
    assert_eq!(m3.len(), 64, "message 3 is encrypted s + tag");
    r.read_message(&m3).unwrap();

    assert_eq!(i.handshake_hash(), r.handshake_hash());
    assert_eq!(i.rs.unwrap(), b_pub.to_bytes());
    assert_eq!(r.rs.unwrap(), a_pub.to_bytes());

    let mut it = i.split();
    let mut rt = r.split();
    let ct = it.send.encrypt_with_ad(&[], b"ping");
    assert_eq!(rt.recv.decrypt_with_ad(&[], &ct).unwrap(), b"ping");
    let ct = rt.send.encrypt_with_ad(&[], b"pong");
    assert_eq!(it.recv.decrypt_with_ad(&[], &ct).unwrap(), b"pong");
}

/// The reference as the *initiator* against the library as responder.
#[test]
fn reference_initiator_interoperates_with_snow() {
    let server = Identity::generate().unwrap();
    let (i, our_pub, mut hs) = reference_initiates(&server);
    let mut transport = i.split();

    // Speak the real application protocol across the reference transport.
    let ping = Message::Ping.encode().unwrap();
    let ct = transport.send.encrypt_with_ad(&[], &ping);
    let wire = frame(&ct);
    assert_eq!(frame_len(&wire[..4]).unwrap(), ct.len());
    let seen = read_channel(&mut hs.channel, &wire[4..]);
    let reply = hs.channel.send(&Message::Pong).unwrap();
    let pt = transport.recv.decrypt_with_ad(&[], &reply[4..]).unwrap();
    assert!(matches!(plain(&pt), Message::Pong));

    assert_eq!(
        i.handshake_hash().to_vec(),
        hs.handshake_hash,
        "handshake hashes must match, otherwise the pairing codes differ"
    );
    assert_eq!(i.rs.unwrap().to_vec(), server.public_key());
    assert_eq!(hs.remote_static, our_pub.to_vec());
    assert!(format!("{seen:?}").contains("Ping"));
}

/// The reference as the *responder* against the library as initiator.
#[test]
fn reference_responder_interoperates_with_snow() {
    let secret = random_secret();
    let our_pub = PublicKey::from(&secret).to_bytes();
    let client = Identity::generate().unwrap();
    let mut i = handshake_initiator(&client).unwrap();
    let mut r = NoiseXX::new(false, secret.to_bytes(), our_pub);
    r.read_message(&i.write_hs().unwrap()[4..]).unwrap();
    i.read_hs(&r.write_message(&[])).unwrap();
    r.read_message(&i.write_hs().unwrap()[4..]).unwrap();
    let mut hs = i.finish(nowhere()).unwrap();

    let mut transport = r.split();
    let ct = hs.channel.send(&Message::Ping).unwrap();
    let pt = transport.recv.decrypt_with_ad(&[], &ct[4..]).unwrap();
    assert!(matches!(plain(&pt), Message::Ping));
    let pong = Message::Pong.encode().unwrap();
    let ct = transport.send.encrypt_with_ad(&[], &pong);
    let reply = read_channel(&mut hs.channel, &ct);

    assert_eq!(r.handshake_hash().to_vec(), hs.handshake_hash);
    assert_eq!(r.rs.unwrap().to_vec(), client.public_key());
    assert_eq!(hs.remote_static, our_pub.to_vec());
    assert!(format!("{reply:?}").contains("Pong"));
}

/// The pairing code the two sides show must be identical, whoever computed the
/// handshake hash.
#[test]
fn pairing_code_matches_across_implementations() {
    let server = Identity::generate().unwrap();
    let (i, _, hs) = reference_initiates(&server);
    assert_eq!(sas_code(&i.handshake_hash()), sas_code(&hs.handshake_hash));
}
