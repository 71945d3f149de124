#[derive(Debug, PartialEq, Eq)]
enum TestEnum {
    A,
    B,
    C,
    D,
    E,
    F,
    G,
    H,
}

impl From<usize> for TestEnum {
    fn from(value: usize) -> Self {
        match value {
            0 => TestEnum::A,
            1 => TestEnum::B,
            2 => TestEnum::C,
            3 => TestEnum::D,
            4 => TestEnum::E,
            5 => TestEnum::F,
            6 => TestEnum::G,
            7 => TestEnum::H,
            _ => panic!("no variant {}", value),
        }
    }
}

#[test]
fn test_num_enum_macro() {
    assert_eq!(TestEnum::from(0), TestEnum::A);
    assert_eq!(TestEnum::from(1), TestEnum::B);
    assert_eq!(TestEnum::from(2), TestEnum::C);
    assert_eq!(TestEnum::from(3), TestEnum::D);
    assert_eq!(TestEnum::from(4), TestEnum::E);
}
