use suruga::prf::{hmac_sha256, key_block_bytes, master_secret, tls_prf, verify_data};
use suruga::sha256::{sha256_digest, Sha256};

fn hex(s: &str) -> Vec<u8> {
    (0..s.len()).step_by(2).map(|i| u8::from_str_radix(&s[i..i + 2], 16).unwrap()).collect()
}

#[test]
fn sha256_vectors() {
    assert_eq!(
        sha256_digest(b""),
        hex("e3b0c44298fc1c149afbf4c8996fb92427ae41e4649b934ca495991b7852b855")
    );
    assert_eq!(
        sha256_digest(b"abc"),
        hex("ba7816bf8f01cfea414140de5dae2223b00361a396177a9cb410ff61f20015ad")
    );
    assert_eq!(
        sha256_digest(b"abcdbcdecdefdefgefghfghighijhijkijkljklmklmnlmnomnopnopq"),
        hex("248d6a61d20638b8e5c026930c3e6039a33ce45964ff2167f6ecedd419db06c1")
    );
    assert_eq!(
        sha256_digest(&[b'a'; 1000]),
        hex("41edece42d63e8d9bf515a9ba6932e1c20cbc9f5a5d134645adb5db1b9737ea3")
    );
}

#[test]
fn sha256_streaming_matches_one_shot() {
    let msg: Vec<u8> = (0..300u32).map(|i| (i * 7 + 3) as u8).collect();
    let whole = sha256_digest(&msg);
    for split in [0, 1, 55, 56, 63, 64, 65, 128, 299, 300] {
        let mut s = Sha256::new();
        s.update(&msg[..split]);
        s.update(&msg[split..]);
        assert_eq!(s.finalize(), whole);
    }
    let mut s = Sha256::new();
    for b in msg.iter() {
        s.update(&[*b]);
    }
    assert_eq!(s.finalize(), whole);
}

#[test]
fn hmac_vectors() {
    assert_eq!(
        hmac_sha256(&[0x0b; 20], b"Hi There"),
        hex("b0344c61d8db38535ca8afceaf0bf12b881dc200c9833da726e9376c2e32cff7")
    );
    assert_eq!(
        hmac_sha256(b"Jefe", b"what do ya want for nothing?"),
        hex("5bdcc146bf60754e6a042426089575c75a003f089d2739839dec58b964ec3843")
    );
    // a key longer than a block is hashed first
    assert_eq!(
        hmac_sha256(&[0xaa; 131], b"Test Using Larger Than Block-Size Key - Hash Key First"),
        hex("60e431591ee0b67f0d8a26aacbf5b77f8e0bc6213728c5140546040f0ee37f54")
    );
}

#[test]
fn prf_vector() {
    let secret = hex("9bbe436ba940f017b17652849a71db35");
    let seed = hex("a0ba9f936cda311827a6f796ffd5198c");
    let out = tls_prf(&secret, b"test label", &seed, 100);
    assert_eq!(
        out,
        hex("e3f229ba727be17b8d122620557cd453c2aab21d07c3d495329b52d4e61edb5a\
             6b301791e90d35c9c9a46b4e14baf9af0fa022f7077def17abfd3797c0564bab\
             4fbc91666e9def9b97fce34f796789baa48082d122ee42c5a72e5a5110fff701\
             87347b66")
    );
    // the same inputs give the same bytes; fewer bytes are a prefix
    assert_eq!(tls_prf(&secret, b"test label", &seed, 100), out);
    assert_eq!(tls_prf(&secret, b"test label", &seed, 12), out[..12].to_vec());
    assert_eq!(tls_prf(&secret, b"test label", &seed, 0), Vec::<u8>::new());
}

#[test]
fn key_schedule_uses_the_labels() {
    let pms = [0x11u8; 32];
    let cr = [0u8; 32];
    let sr = [0u8; 32];
    let mut seed = cr.to_vec();
    seed.extend_from_slice(&sr);
    let ms = master_secret(&pms, &cr, &sr);
    assert_eq!(ms, tls_prf(&pms, b"master secret", &seed, 48));
    assert_eq!(ms.len(), 48);
    let kb = key_block_bytes(&ms, &sr, &cr);
    assert_eq!(kb, tls_prf(&ms, b"key expansion", &seed, 64));
    let transcript = b"\x01\x00\x00\x00";
    let digest = sha256_digest(transcript);
    assert_eq!(
        verify_data(&ms, true, transcript),
        tls_prf(&ms, b"client finished", &digest, 12)
    );
    assert_eq!(
        verify_data(&ms, false, transcript),
        tls_prf(&ms, b"server finished", &digest, 12)
    );
}
