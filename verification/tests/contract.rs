use elrond_wasm::address::{Address, StorageKey};
use elrond_wasm::contract::{CallData, ContractIOApi};

#[test]
fn an_address_is_its_thirty_two_bytes() {
    let mut bytes = [0u8; 32];
    bytes[0] = 1;
    bytes[31] = 9;
    let address = Address::from(bytes);
    assert_eq!(address.as_bytes(), &bytes);
    let key: StorageKey = bytes.into();
    assert_eq!(key.as_bytes(), &bytes);
}

#[test]
fn exact_number_of_arguments_is_accepted() {
    let mut io = CallData::new(vec![vec![1], vec![2]]);
    assert_eq!(io.get_num_arguments(), 2);
    assert!(io.check_num_arguments(2));
    assert!(io.results().is_empty());
    assert_eq!(io.error(), &None);
}

#[test]
fn one_more_argument_names_a_callback() {
    let mut io = CallData::new(vec![vec![1], vec![2], b"done".to_vec()]);
    assert!(io.check_num_arguments(2));
    assert_eq!(io.results(), &vec![b"done".to_vec()]);
    assert_eq!(io.error(), &None);
}

#[test]
fn any_other_number_is_refused() {
    let mut io = CallData::new(vec![vec![1]]);
    assert!(!io.check_num_arguments(2));
    assert!(io.results().is_empty());
    assert_eq!(io.error(), &Some(b"wrong number of arguments".to_vec()));
    let mut io = CallData::new(vec![vec![1], vec![2], vec![3], vec![4]]);
    assert!(!io.check_num_arguments(2));
    assert_eq!(io.error(), &Some(b"wrong number of arguments".to_vec()));
    let mut io = CallData::new(vec![]);
    assert!(!io.check_num_arguments(-1));
    assert!(io.check_num_arguments(0));
}

#[test]
fn an_argument_as_an_address() {
    let io = CallData::new(vec![vec![7; 32], vec![1, 2]]);
    let address: Address = io.get_argument_address(0);
    assert_eq!(address.as_bytes(), &[7u8; 32]);
    let mut short = [0u8; 32];
    short[0] = 1;
    short[1] = 2;
    assert_eq!(io.get_argument_bytes32(1), short);
    assert_eq!(io.get_argument_vec(1), vec![1, 2]);
}

#[test]
fn signal_error_hands_on_the_bytes_of_the_message() {
    let mut io = CallData::new(vec![]);
    io.signal_error("no");
    assert_eq!(io.error(), &Some(b"no".to_vec()));
    io.finish_vec(&vec![1, 2, 3]);
    assert_eq!(io.results(), &vec![vec![1, 2, 3]]);
}

#[test]
fn numbers_cross_as_their_bytes() {
    let mut io = CallData::new(vec![vec![1, 0x2c], vec![]]);
    assert_eq!(io.get_argument_big_uint(0), vec![1, 0x2c]);
    assert_eq!(io.get_argument_big_int(0), vec![1, 0x2c]);
    assert_eq!(io.get_argument_big_int(1), Vec::<u8>::new());
    assert_eq!(io.get_argument_big_int(2), Vec::<u8>::new());
    assert_eq!(io.get_argument_big_uint(-1), Vec::<u8>::new());
    io.finish_big_uint(&vec![5]);
    io.finish_big_int(&vec![255, 127]);
    io.finish_bytes32(&[3u8; 32]);
    assert_eq!(io.results(), &vec![vec![5], vec![255, 127], vec![3u8; 32]]);
    assert_eq!(io.error(), &None);
}

#[test]
fn arguments_as_native_integers() {
    let io = CallData::new(vec![
        vec![],
        vec![1],
        vec![127],
        vec![128],
        vec![255],
        vec![0, 128],
        vec![255, 127],
        vec![0x7f, 0xff, 0xff, 0xff, 0xff, 0xff, 0xff, 0xff],
        vec![0x80, 0, 0, 0, 0, 0, 0, 0],
        vec![0xff; 8],
        vec![0, 0, 0, 0, 0, 0, 0, 0, 1],
        vec![0x80, 0, 0, 0, 0, 0, 1],
    ]);
    let expected: [i64; 12] = [
        0,
        1,
        127,
        -128,
        -1,
        128,
        -129,
        i64::MAX,
        i64::MIN,
        -1,
        0,
        -(1 << 55) + 1,
    ];
    for (index, value) in expected.iter().enumerate() {
        assert_eq!(io.get_argument_i64(index as i32), *value);
    }
    assert_eq!(io.get_argument_i64(12), 0);
    assert_eq!(io.get_argument_i64(-1), 0);
}

#[test]
fn logs_are_kept_in_order() {
    let mut io = CallData::new(vec![]);
    io.write_log(&[[1u8; 32], [2u8; 32]], b"first");
    io.write_log(&[], b"");
    let logs = io.logs();
    assert_eq!(logs.len(), 2);
    assert_eq!(logs[0].topics, vec![[1u8; 32], [2u8; 32]]);
    assert_eq!(logs[0].data, b"first".to_vec());
    assert!(logs[1].topics.is_empty());
    assert!(logs[1].data.is_empty());
    assert!(io.results().is_empty());
    assert_eq!(io.error(), &None);
}

#[test]
fn a_call_in_memory_is_never_paid() {
    let io = CallData::new(vec![vec![1]]);
    assert!(io.check_not_payable());
}
