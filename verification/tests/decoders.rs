use cbor_diag::{parse_diag, ByteString, DataItem, IntegerWidth};
use data_encoding::{
    Encoding, BASE32, BASE32HEX, BASE64, BASE64URL_NOPAD, HEXLOWER_PERMISSIVE,
};

fn skipping_layout(encoding: &Encoding) -> Encoding {
    let mut specification = encoding.specification();
    specification.ignore = "\t\n\u{b}\r ".to_string();
    specification.encoding().unwrap()
}

fn bodies(alphabet: &[u8], longest: usize) -> Vec<Vec<u8>> {
    let mut all: Vec<Vec<u8>> = vec![vec![]];
    let mut last: Vec<Vec<u8>> = vec![vec![]];
    for _ in 0..longest {
        let mut next = Vec::new();
        for body in &last {
            for symbol in alphabet {
                let mut longer = body.clone();
                longer.push(*symbol);
                next.push(longer);
            }
        }
        all.extend(next.iter().cloned());
        last = next;
    }
    all
}

fn parsed(prefix: &str, body: &[u8]) -> Option<Vec<u8>> {
    let text = format!("{}'{}'", prefix, String::from_utf8(body.to_vec()).unwrap());
    match parse_diag(&text) {
        Ok(DataItem::ByteString(ByteString { data, bitwidth })) => {
            assert_eq!(bitwidth, IntegerWidth::Unknown);
            Some(data)
        }
        Ok(other) => panic!("{}: {:?}", text, other),
        Err(_) => None,
    }
}

#[test]
fn base16_bodies_agree_with_a_decoder_that_skips_layout() {
    let decoder = skipping_layout(&HEXLOWER_PERMISSIVE);
    for body in bodies(b"0aF9 \n", 6) {
        assert_eq!(parsed("h", &body), decoder.decode(&body).ok(), "{:?}", body);
    }
}

#[test]
fn base32_bodies_agree_with_a_decoder_that_skips_layout() {
    let decoder = skipping_layout(&BASE32);
    for body in bodies(b"A7= ", 8) {
        assert_eq!(parsed("b32", &body), decoder.decode(&body).ok(), "{:?}", body);
    }
}

#[test]
fn base32hex_bodies_agree_with_a_decoder_that_skips_layout() {
    let decoder = skipping_layout(&BASE32HEX);
    for body in bodies(b"0V=\t", 8) {
        assert_eq!(parsed("h32", &body), decoder.decode(&body).ok(), "{:?}", body);
    }
}

#[test]
fn base64_bodies_agree_with_decoders_that_skip_layout() {
    let unpadded = skipping_layout(&BASE64URL_NOPAD);
    let padded = skipping_layout(&BASE64);
    let in_url = |b: &u8| b.is_ascii_alphanumeric() || b"-_\t\n\x0b\r ".contains(b);
    let in_padded = |b: &u8| b.is_ascii_alphanumeric() || b"+/=\t\n\x0b\r ".contains(b);
    for body in bodies(b"AQ-+= ", 6) {
        let first = if body.iter().all(in_url) { unpadded.decode(&body).ok() } else { None };
        let second = if body.iter().all(in_padded) { padded.decode(&body).ok() } else { None };
        assert_eq!(parsed("b64", &body), first.or(second), "{:?}", body);
    }
}

#[test]
fn long_bodies_with_layout_everywhere() {
    let data: Vec<u8> = (0..=255u8).collect();
    for (prefix, encoding) in [
        ("h", &HEXLOWER_PERMISSIVE),
        ("b32", &BASE32),
        ("h32", &BASE32HEX),
        ("b64", &BASE64URL_NOPAD),
        ("b64", &BASE64),
    ] {
        let plain = encoding.encode(&data);
        let mut spaced = String::new();
        for (k, symbol) in plain.chars().enumerate() {
            spaced.push_str(["", " ", "\n\t", "\r", "\u{b} "][k % 5]);
            spaced.push(symbol);
        }
        assert_eq!(parsed(prefix, plain.as_bytes()), Some(data.clone()), "{}", prefix);
        assert_eq!(parsed(prefix, spaced.as_bytes()), Some(data.clone()), "{}", prefix);
    }
}
