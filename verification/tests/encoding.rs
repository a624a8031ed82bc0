use certified_assets::encoding::{certificate_header, to_base64, witness_to_cbor};
use certified_assets::tree::Witness;

#[test]
fn base64_of_the_usual_examples() {
    assert_eq!(to_base64(b""), "");
    assert_eq!(to_base64(b"f"), "Zg==");
    assert_eq!(to_base64(b"fo"), "Zm8=");
    assert_eq!(to_base64(b"foo"), "Zm9v");
    assert_eq!(to_base64(b"foob"), "Zm9vYg==");
    assert_eq!(to_base64(b"fooba"), "Zm9vYmE=");
    assert_eq!(to_base64(b"foobar"), "Zm9vYmFy");
}

#[test]
fn base64_uses_all_its_characters() {
    assert_eq!(to_base64(&[0x00, 0x10, 0x83]), "ABCD");
    assert_eq!(to_base64(&[0xfb, 0xff, 0xbf]), "+/+/");
    assert_eq!(to_base64(&[0xff, 0xff, 0xff]), "////");
    assert_eq!(to_base64(&[0xff]), "/w==");
    assert_eq!(to_base64(&[0xff, 0xff]), "//8=");
    let all: Vec<u8> = (0..=255u8).collect();
    let text = to_base64(&all);
    assert_eq!(text.len(), 344);
    assert!(text.starts_with("AAECAwQFBgcICQoLDA0ODxAREhMUFRYXGBkaGxwdHh8gISIjJCUmJygpKissLS4v"));
    assert!(text.ends_with("8PHy8/T19vf4+fr7/P3+/w=="));
    for c in "ABCDEFGHIJKLMNOPQRSTUVWXYZabcdefghijklmnopqrstuvwxyz0123456789+/".chars() {
        assert!(text.contains(c));
    }
}

#[test]
fn trees_in_cbor() {
    let tag = [0xd9u8, 0xd9, 0xf7];
    let doc = |body: &[u8]| [&tag[..], body].concat();
    assert_eq!(witness_to_cbor(&Witness::Empty), doc(&[0x81, 0x00]));
    assert_eq!(
        witness_to_cbor(&Witness::Leaf(b"hi".to_vec())),
        doc(&[0x82, 0x03, 0x42, b'h', b'i'])
    );
    assert_eq!(witness_to_cbor(&Witness::Leaf(vec![])), doc(&[0x82, 0x03, 0x40]));
    let mut pruned = vec![0x82, 0x04, 0x58, 0x20];
    pruned.extend_from_slice(&[7u8; 32]);
    assert_eq!(witness_to_cbor(&Witness::Pruned([7u8; 32])), doc(&pruned));
    assert_eq!(
        witness_to_cbor(&Witness::Fork(Box::new(Witness::Empty), Box::new(Witness::Empty))),
        doc(&[0x83, 0x01, 0x81, 0x00, 0x81, 0x00])
    );
    assert_eq!(
        witness_to_cbor(&Witness::Labeled(b"a".to_vec(), Box::new(Witness::Leaf(b"b".to_vec())))),
        doc(&[0x83, 0x02, 0x41, b'a', 0x82, 0x03, 0x41, b'b'])
    );
}

#[test]
fn byte_strings_in_cbor_have_heads_that_grow_with_their_length() {
    let head = |n: usize| {
        let bytes = witness_to_cbor(&Witness::Leaf(vec![0xaa; n]));
        assert_eq!(bytes[..5], [0xd9, 0xd9, 0xf7, 0x82, 0x03]);
        assert!(bytes[bytes.len() - n..].iter().all(|b| *b == 0xaa));
        bytes[5..bytes.len() - n].to_vec()
    };
    assert_eq!(head(0), vec![0x40]);
    assert_eq!(head(23), vec![0x57]);
    assert_eq!(head(24), vec![0x58, 24]);
    assert_eq!(head(255), vec![0x58, 255]);
    assert_eq!(head(256), vec![0x59, 1, 0]);
    assert_eq!(head(65535), vec![0x59, 255, 255]);
    assert_eq!(head(65536), vec![0x5a, 0, 1, 0, 0]);
    assert_eq!(head(0x0123_4567), vec![0x5a, 0x01, 0x23, 0x45, 0x67]);
}

#[test]
fn header_carries_certificate_and_tree() {
    let (name, value) = certificate_header(b"foobar", &Witness::Empty);
    assert_eq!(name, "IC-Certificate");
    assert_eq!(value, "certificate=:Zm9vYmFy:, tree=:2dn3gQA=:");
    let (_, value) = certificate_header(b"", &Witness::Leaf(b"hi".to_vec()));
    assert_eq!(value, "certificate=::, tree=:2dn3ggNCaGk=:");
}
