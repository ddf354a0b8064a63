use betac_parser::encoding::{encode, encode_cold, encode_warm};
use betac_parser::keyword::{keyword_table, pool_index};
use betac_parser::{Entry, Parser, TokenKind};

fn corpus() -> Vec<Vec<u8>> {
    let mut out = Vec::new();
    let mut seed: u32 = 12345;
    for len in 0..=16usize {
        for _ in 0..20 {
            let mut v = Vec::new();
            for _ in 0..len {
                seed = seed.wrapping_mul(1103515245).wrapping_add(12345);
                v.push((seed >> 16) as u8);
            }
            out.push(v);
        }
        out.push(vec![0xff; len]);
        out.push(vec![0; len]);
    }
    out
}

#[test]
fn fast_and_portable_paths_agree() {
    for v in corpus() {
        assert_eq!(encode_warm(&v), encode_cold(&v), "{:?}", v);
        assert_eq!(encode(&v), encode_cold(&v));
    }
}

#[test]
fn encode_exact_values() {
    assert_eq!(encode(&[]), 0);
    assert_eq!(encode(&[0x01]), 0x01);
    assert_eq!(encode(&[0x01, 0x02]), 0x0201);
    assert_eq!(encode(&[0x01, 0x02, 0x03]), 0x030201);
    assert_eq!(encode(b"abcd"), 0x6463_6261);
    assert_eq!(encode(&[0xff; 16]), u128::MAX);
    let v: Vec<u8> = (1..=16).collect();
    assert_eq!(encode(&v), u128::from_le_bytes(v.clone().try_into().unwrap()));
    let w: Vec<u8> = (1..=11).collect();
    let mut buf = [0u8; 16];
    buf[..11].copy_from_slice(&w);
    assert_eq!(encode_warm(&w), u128::from_le_bytes(buf));
}

#[test]
fn encode_distinguishes_equal_lengths() {
    let c = corpus();
    for a in &c {
        for b in &c {
            if a.len() == b.len() && a != b {
                assert_ne!(encode(a), encode(b));
            }
        }
    }
}

#[test]
fn entry_round_trip() {
    let e = Entry::new(b"mport ", TokenKind::Import);
    assert_eq!(e.len, 6);
    assert_eq!(e.kind(), TokenKind::Import);
    assert_eq!(e.reconstruct(), b"mport ".to_vec());
    assert_eq!(Entry::new(b"", TokenKind::Any).reconstruct(), Vec::<u8>::new());
}

#[test]
fn bucket_selector() {
    let leads = b"idcoetplfwsmabuT";
    for (i, b) in leads.iter().enumerate() {
        assert_eq!(pool_index(*b), Some(i));
    }
    assert_eq!(pool_index(b'x'), None);
    assert_eq!(pool_index(b'I'), None);
    assert_eq!(pool_index(b' '), None);
}

#[test]
fn table_find_first_match() {
    let t = keyword_table();
    let e = t.find(pool_index(b'e'), b"xtend{").map(|e| e.kind());
    assert_eq!(e, None);
    let e = t.find(pool_index(b'e'), b"xtern\"").map(|e| e.kind());
    assert_eq!(e, Some(TokenKind::ExternKw));
    assert_eq!(t.find(None, b"f ").map(|e| e.kind()), None);
    assert_eq!(t.find(Some(99), b"f ").map(|e| e.kind()), None);
    assert_eq!(t.find(pool_index(b'i'), b"f").map(|e| e.kind()), None);
}

#[test]
fn matches_reports_length_after_lead() {
    let mut p = Parser::new(b"import x");
    assert_eq!(p.bump(), Some(b'i'));
    assert_eq!(betac_parser::keyword::matches(b'i', &p), Some((TokenKind::Import, 5)));
    assert_eq!(p.as_slice(), b"mport x");
    let q = Parser::new(b"mportx ");
    assert_eq!(betac_parser::keyword::matches(b'i', &q), None);
    assert_eq!(betac_parser::keyword::matches(b'z', &q), None);
}
