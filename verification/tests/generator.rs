use fsgen::{
    generate_bit, generate_byte, generate_file_content, generate_file_name, GenByteResult,
    GenError, Probability, RngConfig,
};
use rand::SeedableRng;
use rand_xorshift::XorShiftRng;

fn half() -> Probability {
    Probability { numerator: 1, denominator: 2 }
}

#[test]
fn test_generate_file_name_bittrain() {
    let conf: RngConfig = RngConfig::BitTrain { probability: half(), seed: None, length: 12 };
    assert!(
        generate_file_name(&conf).is_err(),
        "Created file name with bittrein generator"
    );
}

#[test]
fn test_generate_file_name_cycle() {
    let test_val: String = "teeeeeest".to_string();
    let conf: RngConfig = RngConfig::CycleGen {
        value: test_val.clone().into_bytes(),
        length: test_val.len(),
    };
    let test_test: String = generate_file_name(&conf).unwrap();
    assert_eq!(test_val, test_test, "Test values not equal");
}

#[test]
fn test_generate_file_name_range() {
    let conf: RngConfig = RngConfig::RangeGen {
        value: vec![vec![1, 2, 3], vec![4, 5, 6], vec![7, 8, 9]],
        seed: None,
        length: 12,
    };
    assert!(
        generate_file_name(&conf).is_err(),
        "Created file name with range generator"
    );
}

#[test]
fn test_generate_file_name_string() {
    let test_val: String = "teeeeeest".to_string();
    let conf: RngConfig = RngConfig::StringGen { value: test_val.clone() };
    let test_test: String = generate_file_name(&conf).unwrap();
    assert_eq!(test_val, test_test, "Test values not equal");
}

#[test]
fn test_generate_bit() {
    let test_byte: u8 = (1 << 7) + (1 << 6) + (1 << 5);
    let test_bit: bool = false;
    let first_byte_shift: usize = 4;
    let first_bit_change: bool = false;
    let second_byte_shift: usize = 3;
    let second_bit_change: bool = true;
    let init_val: GenByteResult = GenByteResult { byte: test_byte, bit: test_bit };
    let intermediate_val: GenByteResult =
        generate_bit(init_val, (first_byte_shift, first_bit_change));
    assert_eq!(intermediate_val.byte, test_byte);
    assert_eq!(intermediate_val.bit, test_bit);
    let final_val: GenByteResult =
        generate_bit(intermediate_val, (second_byte_shift, second_bit_change));
    assert_eq!(final_val.byte, test_byte + (1 << (7 - second_byte_shift)));
    assert_eq!(final_val.bit, !test_bit);
}

#[test]
fn test_generate_byte_1() {
    let rand_seed: [u8; 16] = [1; 16];
    let mut rand_gen: XorShiftRng = XorShiftRng::from_seed(rand_seed);
    let result = generate_byte(1, 1, &mut rand_gen, false);
    assert_eq!(result.byte, 170);
    assert!(!result.bit);
}

#[test]
fn test_generate_byte_0() {
    let rand_seed: [u8; 16] = [1; 16];
    let mut rand_gen: XorShiftRng = XorShiftRng::from_seed(rand_seed);
    let result = generate_byte(0, 1, &mut rand_gen, true);
    assert_eq!(result.byte, 255);
    assert!(result.bit);
}

#[test]
fn cyclic_content_repeats_source() {
    let conf = RngConfig::CycleGen { value: vec![1, 2, 3], length: 7 };
    let out = generate_file_content(&conf).unwrap();
    assert_eq!(out, vec![1, 2, 3, 1, 2, 3, 1]);
}

#[test]
fn cyclic_content_zero_length() {
    let conf = RngConfig::CycleGen { value: vec![], length: 0 };
    assert_eq!(generate_file_content(&conf).unwrap(), Vec::<u8>::new());
}

#[test]
fn cyclic_empty_source_rejected() {
    let conf = RngConfig::CycleGen { value: vec![], length: 3 };
    assert_eq!(generate_file_content(&conf).unwrap_err(), GenError::InvalidRule);
    let name_conf = RngConfig::CycleGen { value: vec![], length: 3 };
    assert_eq!(generate_file_name(&name_conf).unwrap_err(), GenError::InvalidRule);
}

#[test]
fn cyclic_name_invalid_utf8_rejected() {
    let conf = RngConfig::CycleGen { value: vec![0xff], length: 1 };
    assert_eq!(generate_file_name(&conf).unwrap_err(), GenError::EncodingError);
}

#[test]
fn string_content_is_utf8_bytes() {
    let conf = RngConfig::StringGen { value: "hi".to_string() };
    assert_eq!(generate_file_content(&conf).unwrap(), vec![104, 105]);
}

#[test]
fn weighted_output_is_whole_choices_truncated() {
    let choices: Vec<Vec<u8>> = vec![vec![1, 2, 3], vec![4, 5]];
    let conf = RngConfig::RangeGen { value: choices.clone(), seed: Some(vec![9, 9]), length: 11 };
    let out = generate_file_content(&conf).unwrap();
    assert_eq!(out.len(), 11);
    // The output must be a truncated concatenation of whole choices. The two
    // choices start with distinct bytes, so a greedy scan is unambiguous.
    let mut pos: usize = 0;
    while pos < out.len() {
        let chunk = choices
            .iter()
            .find(|c| c[0] == out[pos])
            .expect("chunk does not start like any choice");
        let end = (pos + chunk.len()).min(out.len());
        assert_eq!(&out[pos..end], &chunk[..end - pos]);
        if end < out.len() {
            assert_eq!(end - pos, chunk.len(), "only the final chunk may be cut");
        }
        pos = end;
    }
}

#[test]
fn weighted_same_seed_reproduces_output() {
    let conf = RngConfig::RangeGen {
        value: vec![vec![1, 2, 3], vec![4, 5, 6], vec![7, 8, 9]],
        seed: Some(vec![1, 2, 3, 4, 5, 6]),
        length: 20,
    };
    let first = generate_file_content(&conf).unwrap();
    let second = generate_file_content(&conf).unwrap();
    assert_eq!(first, second);
    assert_eq!(first.len(), 20);
}

#[test]
fn weighted_empty_choice_set_rejected() {
    let conf = RngConfig::RangeGen { value: vec![], seed: None, length: 4 };
    assert_eq!(generate_file_content(&conf).unwrap_err(), GenError::InvalidRule);
}

#[test]
fn weighted_empty_choice_element_rejected() {
    let conf = RngConfig::RangeGen { value: vec![vec![1], vec![]], seed: None, length: 4 };
    assert_eq!(generate_file_content(&conf).unwrap_err(), GenError::InvalidRule);
}

#[test]
fn weighted_zero_length_is_empty() {
    let conf = RngConfig::RangeGen { value: vec![vec![], vec![1]], seed: Some(vec![3]), length: 0 };
    assert_eq!(generate_file_content(&conf).unwrap(), Vec::<u8>::new());
}

#[test]
fn bittrain_same_seed_reproduces_output() {
    let conf = RngConfig::BitTrain {
        probability: Probability { numerator: 3, denominator: 7 },
        seed: Some(vec![42, 43, 44]),
        length: 33,
    };
    let first = generate_file_content(&conf).unwrap();
    let second = generate_file_content(&conf).unwrap();
    assert_eq!(first, second);
    assert_eq!(first.len(), 33);
}

#[test]
fn bittrain_zero_probability_bytes_uniform() {
    let conf = RngConfig::BitTrain {
        probability: Probability { numerator: 0, denominator: 5 },
        seed: Some(vec![8]),
        length: 16,
    };
    let out = generate_file_content(&conf).unwrap();
    assert_eq!(out.len(), 16);
    assert!(out[0] == 0 || out[0] == 255);
    assert!(out.iter().all(|&b| b == out[0]));
}

#[test]
fn bittrain_one_probability_bits_alternate() {
    let conf = RngConfig::BitTrain {
        probability: Probability { numerator: 4, denominator: 4 },
        seed: None,
        length: 16,
    };
    let out = generate_file_content(&conf).unwrap();
    assert_eq!(out.len(), 16);
    assert!(out[0] == 85 || out[0] == 170);
    assert!(out.iter().all(|&b| b == out[0]));
    // Strict alternation across every bit, byte boundaries included.
    let bit = |k: usize| -> bool { out[k / 8] & (1u8 << (7 - (k % 8))) != 0 };
    for k in 0..out.len() * 8 - 1 {
        assert_ne!(bit(k + 1), bit(k));
    }
}

#[test]
fn bittrain_invalid_probability_rejected() {
    let conf = RngConfig::BitTrain {
        probability: Probability { numerator: 3, denominator: 2 },
        seed: None,
        length: 4,
    };
    assert_eq!(generate_file_content(&conf).unwrap_err(), GenError::InvalidRule);
    let conf = RngConfig::BitTrain {
        probability: Probability { numerator: 0, denominator: 0 },
        seed: None,
        length: 4,
    };
    assert_eq!(generate_file_content(&conf).unwrap_err(), GenError::InvalidRule);
}

#[test]
fn bittrain_seed_padding_truncates_and_pads() {
    // A short seed is zero-padded to 16 bytes and a long one truncated, so a
    // 16-byte seed extended with extra bytes draws the same stream.
    let long = RngConfig::BitTrain {
        probability: half(),
        seed: Some(vec![5, 6, 7, 8, 9, 10, 11, 12, 13, 14, 15, 16, 17, 18, 19, 20, 99, 100]),
        length: 24,
    };
    let exact = RngConfig::BitTrain {
        probability: half(),
        seed: Some(vec![5, 6, 7, 8, 9, 10, 11, 12, 13, 14, 15, 16, 17, 18, 19, 20]),
        length: 24,
    };
    assert_eq!(
        generate_file_content(&long).unwrap(),
        generate_file_content(&exact).unwrap()
    );
}

#[test]
fn weighted_without_seed_still_aligns() {
    let choices: Vec<Vec<u8>> = vec![vec![1, 2, 3], vec![4, 5]];
    let conf = RngConfig::RangeGen { value: choices.clone(), seed: None, length: 6 };
    let out = generate_file_content(&conf).unwrap();
    assert_eq!(out.len(), 6);
    let mut pos: usize = 0;
    while pos < out.len() {
        let chunk = choices
            .iter()
            .find(|c| c[0] == out[pos])
            .expect("chunk does not start like any choice");
        let end = (pos + chunk.len()).min(out.len());
        assert_eq!(&out[pos..end], &chunk[..end - pos]);
        pos = end;
    }
}

#[test]
fn generate_byte_same_rng_state_reproduces() {
    let mut first_gen: XorShiftRng = XorShiftRng::from_seed([7; 16]);
    let mut second_gen: XorShiftRng = XorShiftRng::from_seed([7; 16]);
    let first = generate_byte(1, 2, &mut first_gen, false);
    let second = generate_byte(1, 2, &mut second_gen, false);
    assert_eq!(first.byte, second.byte);
    assert_eq!(first.bit, second.bit);
}
