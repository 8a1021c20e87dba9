use suruga::aead::{open, seal};
use suruga::alert::TlsErrorKind;
use suruga::chacha20::{chacha20_block_bytes, chacha20_xor_bytes};
use suruga::poly1305::poly1305_tag;

fn hex(s: &str) -> Vec<u8> {
    (0..s.len()).step_by(2).map(|i| u8::from_str_radix(&s[i..i + 2], 16).unwrap()).collect()
}

const SUNSCREEN: &[u8] = b"Ladies and Gentlemen of the class of '99: If I could offer you only one tip for the future, sunscreen would be it.";

#[test]
fn chacha20_block_vector() {
    let key: Vec<u8> = (0..32).collect();
    let nonce = hex("000000090000004a00000000");
    assert_eq!(
        chacha20_block_bytes(&key, 1, &nonce),
        hex("10f1e7e4d13b5915500fdd1fa32071c4c7d1f4c733c068030422aa9ac3d46c4e\
             d2826446079faa0914c2d705d98b02a2b5129cd1de164eb9cbd083e8a2503c4e")
    );
}

#[test]
fn chacha20_encryption_vector() {
    let key: Vec<u8> = (0..32).collect();
    let nonce = hex("000000000000004a00000000");
    let ct = chacha20_xor_bytes(&key, 1, &nonce, SUNSCREEN);
    assert_eq!(
        ct,
        hex("6e2e359a2568f98041ba0728dd0d6981e97e7aec1d4360c20a27afccfd9fae0b\
             f91b65c5524733ab8f593dabcd62b3571639d624e65152ab8f530c359f0861d8\
             07ca0dbf500d6a6156a38e088a22b65e52bc514d16ccf806818ce91ab7793736\
             5af90bbf74a35be6b40b8eedf2785e42874d")
    );
    assert_eq!(chacha20_xor_bytes(&key, 1, &nonce, &ct), SUNSCREEN.to_vec());
}

#[test]
fn poly1305_vector() {
    let key = hex("85d6be7857556d337f4452fe42d506a80103808afb0db2fd4abff6af4149f51b");
    assert_eq!(
        poly1305_tag(&key, b"Cryptographic Forum Research Group"),
        hex("a8061dc1305136c6c22b8baf0c0127a9")
    );
}

fn aead_inputs() -> (Vec<u8>, Vec<u8>, Vec<u8>) {
    let key: Vec<u8> = (0x80..0xa0).collect();
    let nonce = hex("070000004041424344454647");
    let aad = hex("50515253c0c1c2c3c4c5c6c7");
    (key, nonce, aad)
}

#[test]
fn aead_vector() {
    let (key, nonce, aad) = aead_inputs();
    let sealed = seal(&key, &nonce, &aad, SUNSCREEN);
    assert_eq!(
        sealed,
        hex("d31a8d34648e60db7b86afbc53ef7ec2a4aded51296e08fea9e2b5a736ee62d6\
             3dbea45e8ca9671282fafb69da92728b1a71de0a9e060b2905d6a5b67ecd3b36\
             92ddbd7f2d778b8c9803aee328091b58fab324e4fad675945585808b4831d7bc\
             3ff4def08e4b7a9de576d26586cec64b61161ae10b594f09e26a7e902ecbd060\
             0691")
    );
    assert_eq!(open(&key, &nonce, &aad, &sealed), Ok(SUNSCREEN.to_vec()));
}

#[test]
fn aead_empty_message() {
    let (key, nonce, _) = aead_inputs();
    let sealed = seal(&key, &nonce, &[], &[]);
    assert_eq!(sealed, hex("a0784d7a4716f3feb4f64e7f4b39bf04"));
    assert_eq!(open(&key, &nonce, &[], &sealed), Ok(vec![]));
}

#[test]
fn aead_refuses_any_single_bit_change() {
    let (key, nonce, aad) = aead_inputs();
    let msg = b"hello, record layer";
    let sealed = seal(&key, &nonce, &aad, msg);
    for i in 0..sealed.len() {
        for bit in 0..8 {
            let mut m = sealed.clone();
            m[i] ^= 1 << bit;
            assert_eq!(open(&key, &nonce, &aad, &m), Err(TlsErrorKind::BadRecordMac));
        }
    }
    for i in 0..aad.len() {
        let mut a = aad.clone();
        a[i] ^= 0x01;
        assert_eq!(open(&key, &nonce, &a, &sealed), Err(TlsErrorKind::BadRecordMac));
    }
    for i in 0..nonce.len() {
        let mut n = nonce.clone();
        n[i] ^= 0x80;
        assert_eq!(open(&key, &n, &aad, &sealed), Err(TlsErrorKind::BadRecordMac));
    }
    for i in 0..key.len() {
        let mut k = key.clone();
        k[i] ^= 0x04;
        assert_eq!(open(&k, &nonce, &aad, &sealed), Err(TlsErrorKind::BadRecordMac));
    }
    assert_eq!(open(&key, &nonce, &aad, &sealed[..15]), Err(TlsErrorKind::BadRecordMac));
}
