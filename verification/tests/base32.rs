use base32::decode;
use base32::encode;

#[test]
fn invalid_chars() {
    assert_eq!(decode("ABCDEFG,".as_bytes()), None)
}

#[test]
fn invalid_len() {
    assert_eq!(decode("ABCD".as_bytes()), None)
}

#[test]
fn empty_input_asymmetry() {
    assert_eq!(encode(&[]), Vec::<u8>::new());
    assert_eq!(decode(&[]), None);
}

#[test]
fn known_vector_zeros() {
    assert_eq!(encode(&[0, 0, 0, 0, 0]), b"AAAAAAAA".to_vec());
    assert_eq!(decode(b"AAAAAAAA"), Some(vec![0, 0, 0, 0, 0]));
}

#[test]
fn known_vector_single_byte() {
    assert_eq!(encode(&[0xFF]), b"74======".to_vec());
    assert_eq!(decode(b"74======"), Some(vec![0xFF]));
}

#[test]
fn known_vectors_rfc4648() {
    assert_eq!(encode(b"f"), b"MY======".to_vec());
    assert_eq!(encode(b"fo"), b"MZXQ====".to_vec());
    assert_eq!(encode(b"foo"), b"MZXW6===".to_vec());
    assert_eq!(encode(b"foob"), b"MZXW6YQ=".to_vec());
    assert_eq!(encode(b"fooba"), b"MZXW6YTB".to_vec());
    assert_eq!(encode(b"foobar"), b"MZXW6YTBOI======".to_vec());
}

#[test]
fn decode_vectors_rfc4648() {
    assert_eq!(decode(b"MY======"), Some(b"f".to_vec()));
    assert_eq!(decode(b"MZXQ===="), Some(b"fo".to_vec()));
    assert_eq!(decode(b"MZXW6==="), Some(b"foo".to_vec()));
    assert_eq!(decode(b"MZXW6YQ="), Some(b"foob".to_vec()));
    assert_eq!(decode(b"MZXW6YTB"), Some(b"fooba".to_vec()));
    assert_eq!(decode(b"MZXW6YTBOI======"), Some(b"foobar".to_vec()));
}

#[test]
fn round_trip_every_tail_length() {
    let data: Vec<u8> = vec![13, 250, 0, 99, 128, 7, 255, 1, 64, 33, 200, 91];
    for len in 1..=data.len() {
        let sample = data[..len].to_vec();
        assert_eq!(decode(&encode(&sample)), Some(sample));
    }
}

#[test]
fn encoded_length_is_a_multiple_of_eight() {
    for len in 1..=11usize {
        let sample = vec![0xAB; len];
        let text = encode(&sample);
        assert_eq!(text.len() % 8, 0);
        assert_eq!(text.len(), 8 * ((len + 4) / 5));
    }
}

#[test]
fn rejects_lengths_that_are_not_multiples_of_eight() {
    assert_eq!(decode(b"A"), None);
    assert_eq!(decode(b"AAAAAAA"), None);
    assert_eq!(decode(b"AAAAAAAAA"), None);
}

#[test]
fn rejects_bytes_outside_the_alphabet() {
    assert_eq!(decode(b"aaaaaaaa"), None);
    assert_eq!(decode(b"0AAAAAAA"), None);
    assert_eq!(decode(b"1AAAAAAA"), None);
    assert_eq!(decode(b"8AAAAAAA"), None);
    assert_eq!(decode(b"AAAA AAA"), None);
}

#[test]
fn padding_ends_the_symbol_stream() {
    // Bytes after the first `=` are never examined: this laxness is part of
    // the decoder's contract, not an accident.
    assert_eq!(decode(b"AA======"), Some(vec![0]));
    assert_eq!(decode(b"AA====,,"), Some(vec![0]));
    assert_eq!(decode(b"MY====!="), Some(b"f".to_vec()));
}

#[test]
fn rejection_is_idempotent() {
    let inputs: [&[u8]; 4] = [b"ABCDEFG,", b"ABCD", b"", b"MZXW6YTB"];
    for input in inputs {
        assert_eq!(decode(input), decode(input));
    }
}
