use evm_loader::codec::RLPField;
use evm_loader::word::{zpad, U256};

fn data_of(f: &RLPField) -> Vec<u8> {
    match f {
        RLPField::Data { data } => data.clone(),
        _ => panic!("not a byte string"),
    }
}

#[test]
fn it_works() {
    assert_eq!(2 + 2, 4);
}

#[test]
fn unpack_short_string() {
    let (f, n) = RLPField::unpack(&[0x83, b'c', b'a', b't', 0x01]).unwrap();
    assert_eq!(n, 4);
    assert_eq!(data_of(&f), b"cat".to_vec());
}

#[test]
fn unpack_inline_integer_and_empty() {
    match RLPField::unpack(&[0x05]).unwrap() {
        (RLPField::Integer { value }, 1) => assert_eq!(value, 5),
        _ => panic!("expected an integer"),
    }
    let (f, n) = RLPField::unpack(&[0x80]).unwrap();
    assert_eq!(n, 1);
    assert_eq!(data_of(&f), Vec::<u8>::new());
}

#[test]
fn unpack_lists() {
    let (f, n) = RLPField::unpack(&[0xc0]).unwrap();
    assert_eq!(n, 1);
    match f {
        RLPField::List { list } => assert!(list.is_empty()),
        _ => panic!("expected a list"),
    }
    // [ "cat", [ 1 ] ]
    let input = [0xc6, 0x83, b'c', b'a', b't', 0xc1, 0x01];
    let (f, n) = RLPField::unpack(&input).unwrap();
    assert_eq!(n, 7);
    match f {
        RLPField::List { list } => {
            assert_eq!(list.len(), 2);
            assert_eq!(data_of(&list[0]), b"cat".to_vec());
            match &list[1] {
                RLPField::List { list } => {
                    assert_eq!(list.len(), 1);
                    assert!(matches!(list[0], RLPField::Integer { value: 1 }));
                }
                _ => panic!("expected a nested list"),
            }
        }
        _ => panic!("expected a list"),
    }
}

#[test]
fn unpack_long_string() {
    let mut input = vec![0xb8, 60];
    input.extend(std::iter::repeat(7u8).take(60));
    let (f, n) = RLPField::unpack(&input).unwrap();
    assert_eq!(n, 62);
    assert_eq!(data_of(&f), vec![7u8; 60]);
    // Length of length over two bytes.
    let mut input = vec![0xb9, 0x01, 0x00];
    input.extend(std::iter::repeat(1u8).take(256));
    let (f, n) = RLPField::unpack(&input).unwrap();
    assert_eq!(n, 259);
    assert_eq!(data_of(&f).len(), 256);
}

#[test]
fn unpack_truncated_fails() {
    assert!(RLPField::unpack(&[]).is_none());
    assert!(RLPField::unpack(&[0x83, b'c', b'a']).is_none());
    assert!(RLPField::unpack(&[0xb8]).is_none());
    assert!(RLPField::unpack(&[0xb8, 60, 1, 2]).is_none());
    assert!(RLPField::unpack(&[0xc3, 0x01, 0x02]).is_none());
    assert!(RLPField::unpack(&[0xc2, 0x83, 0x01]).is_none());
    assert!(RLPField::unpack(&[0xff, 0xff, 0xff, 0xff, 0xff, 0xff, 0xff, 0xff, 0xff]).is_none());
}

#[test]
fn pack_is_inverse_of_unpack() {
    let inputs: Vec<Vec<u8>> = vec![
        vec![0x83, b'c', b'a', b't'],
        vec![0x80],
        vec![0x7f],
        vec![0xc6, 0x83, b'c', b'a', b't', 0xc1, 0x01],
        {
            let mut v = vec![0xb8, 60];
            v.extend(std::iter::repeat(7u8).take(60));
            v
        },
    ];
    for input in inputs {
        let (f, n) = RLPField::unpack(&input).unwrap();
        assert_eq!(n, input.len());
        assert_eq!(f.pack(), input);
    }
}

#[test]
fn pack_long_list() {
    let list: Vec<RLPField> = (0..30).map(|_| RLPField::Data { data: vec![0x90, 0x91] }).collect();
    let packed = RLPField::List { list }.pack();
    assert_eq!(&packed[..2], &[0xf8, 90]);
    assert_eq!(packed.len(), 92);
}

#[test]
fn word_values() {
    let n = U256::secp256k1_order();
    let one = U256::from_u64(1);
    let zero = U256::zero();
    assert!(zero.is_zero());
    assert!(!one.is_zero());
    assert!(n.ge(&one));
    assert!(!one.ge(&n));
    assert!(n.ge(&n));
    assert_eq!(U256::from_u64(0x1234).minimal_bytes(), vec![0x12, 0x34]);
    assert_eq!(zero.minimal_bytes(), Vec::<u8>::new());
    assert_eq!(U256::from_big_endian(&[1, 2]).to_big_endian(), zpad(&[1, 2], 32));
}

#[test]
fn zpad_pads_at_the_front() {
    assert_eq!(zpad(&[1, 2], 4), vec![0, 0, 1, 2]);
    assert_eq!(zpad(&[1, 2, 3], 2), vec![1, 2, 3]);
    assert_eq!(zpad(&[], 3), vec![0, 0, 0]);
}
