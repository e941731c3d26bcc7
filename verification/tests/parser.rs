use bitspec::parser::{
    binary, bit_range, condition, fixed_repeat, full_word, hexadecimal, index, literal, range,
    repeat, single_bit, variable_repeat, word, word_range, BitRange, Condition, Repeat, Word,
    WordRange,
};

#[test]
fn test_repeat() {
    let data = ";12";
    let (_, r) = repeat(data).unwrap();
    assert_eq!(r, Repeat::Fixed(12));

    let data = ";6";
    let (_, r) = repeat(data).unwrap();
    assert_eq!(r, Repeat::Fixed(6));

    let data = ";(4[])<49";
    let (_, r) = repeat(data).unwrap();
    let word = Word {
        index: 4,
        bit_range: BitRange::WholeWord,
    };

    let expected = Repeat::Variable {
        word,
        condition: Condition::Lt,
        limit: 49,
    };
    assert_eq!(r, expected);

    let data = ";(4[])";
    assert!(repeat(data).is_err());
}

#[test]
fn test_variable_repeat() {
    let data = "(4[])<=48";
    let (_, r) = variable_repeat(data).unwrap();
    let word = Word {
        index: 4,
        bit_range: BitRange::WholeWord,
    };

    let expected = Repeat::Variable {
        word,
        condition: Condition::Lte,
        limit: 48,
    };
    assert_eq!(r, expected);

    let data = "(4[0..7])<49";
    let (_, r) = variable_repeat(data).unwrap();
    let word = Word {
        index: 4,
        bit_range: BitRange::Range(0, 7),
    };

    let expected = Repeat::Variable {
        word,
        condition: Condition::Lt,
        limit: 49,
    };
    assert_eq!(r, expected);
}
#[test]
fn test_fixed_repeat() {
    let data = "48";
    let (_, r) = fixed_repeat(data).unwrap();
    assert_eq!(r, Repeat::Fixed(48));
}

#[test]
fn test_condition() {
    let data = "<";
    let (_, r) = condition(data).unwrap();
    assert_eq!(r, Condition::Lt);

    let data = "<=";
    let (_, r) = condition(data).unwrap();
    assert_eq!(r, Condition::Lte);

    let data = "";
    assert!(condition(data).is_err());

    let data = "==";
    assert!(condition(data).is_err());
}

#[test]
fn test_word_range() {
    let data = "3[4..7]..6[0..5]";

    let (_, r) = word_range(data).unwrap();

    let expected = WordRange {
        start: Word {
            index: 3,
            bit_range: BitRange::Range(4, 7),
        },
        end: Some(Word {
            index: 6,
            bit_range: BitRange::Range(0, 5),
        }),
    };
    assert_eq!(r, expected);

    let data = "4[]..7[]";
    let (_, r) = word_range(data).unwrap();
    let expected = WordRange {
        start: Word {
            index: 4,
            bit_range: BitRange::WholeWord,
        },
        end: Some(Word {
            index: 7,
            bit_range: BitRange::WholeWord,
        }),
    };
    assert_eq!(r, expected);

    let data = "[]..5[]";
    let (_, r) = word_range(data).unwrap();
    let expected = WordRange {
        start: Word {
            index: 0,
            bit_range: BitRange::WholeWord,
        },
        end: Some(Word {
            index: 5,
            bit_range: BitRange::WholeWord,
        }),
    };
    assert_eq!(r, expected);

    let data = "[]";
    let (_, r) = word_range(data).unwrap();
    let expected = WordRange {
        start: Word {
            index: 0,
            bit_range: BitRange::WholeWord,
        },
        end: None,
    };
    assert_eq!(r, expected);

    let data = "[]..6[0..5]";
    let (_, r) = word_range(data).unwrap();
    let expected = WordRange {
        start: Word {
            index: 0,
            bit_range: BitRange::WholeWord,
        },
        end: Some(Word {
            index: 6,
            bit_range: BitRange::Range(0, 5),
        }),
    };
    assert_eq!(r, expected);
}

// A second `..` after a bare bit range starts the end word.
#[test]
fn test_word_range_special_cases() {
    let data = "3..5..4[]";
    let (_, r) = word_range(data).unwrap();
    let expected = WordRange {
        start: Word {
            index: 0,
            bit_range: BitRange::Range(3, 5),
        },
        end: Some(Word {
            index: 4,
            bit_range: BitRange::WholeWord,
        }),
    };
    assert_eq!(r, expected);
}

#[test]
fn test_word() {
    let data = "3[2..6]";
    let (_, r) = word(data).unwrap();
    assert_eq!(
        r,
        Word {
            index: 3,
            bit_range: BitRange::Range(2, 6)
        }
    );

    let data = "4[]";
    let (_, r) = word(data).unwrap();
    assert_eq!(
        r,
        Word {
            index: 4,
            bit_range: BitRange::WholeWord
        }
    );

    let data = "[]";
    let (_, r) = word(data).unwrap();
    assert_eq!(
        r,
        Word {
            index: 0,
            bit_range: BitRange::WholeWord
        }
    );

    let data = "3[]";
    let (_, r) = word(data).unwrap();
    assert_eq!(
        r,
        Word {
            index: 3,
            bit_range: BitRange::WholeWord
        }
    );

    let data = "7";
    let (_, r) = word(data).unwrap();
    assert_eq!(
        r,
        Word {
            index: 0,
            bit_range: BitRange::Single(7)
        }
    )
}

#[test]
fn test_full_word() {
    let data = "3[4..6]";
    let (_, r) = full_word(data).unwrap();

    let expected_word = Word {
        index: 3,
        bit_range: BitRange::Range(4, 6),
    };

    assert_eq!(r, expected_word);

    let data = "9[]";
    let (_, r) = full_word(data).unwrap();
    let expected_word = Word {
        index: 9,
        bit_range: BitRange::WholeWord,
    };
    assert_eq!(r, expected_word);

    let data = "[3..7]";
    let (_, r) = full_word(data).unwrap();
    let expected_word = Word {
        index: 0,
        bit_range: BitRange::Range(3, 7),
    };
    assert_eq!(r, expected_word);

    let data = "[]";
    let (_, r) = full_word(data).unwrap();
    let expected_word = Word {
        index: 0,
        bit_range: BitRange::WholeWord,
    };
    assert_eq!(r, expected_word);
}

#[test]
fn test_bit_range() {
    let data = "4..6";
    let (_, r) = bit_range(data).unwrap();
    assert_eq!(r, BitRange::Range(4, 6));

    let data = "7";
    let (_, r) = bit_range(data).unwrap();
    assert_eq!(r, BitRange::Single(7));
}

#[test]
fn test_single_bit() {
    let data = "2";
    let (_, r) = single_bit(data).unwrap();
    assert_eq!(r, BitRange::Single(2));
}

#[test]
fn test_range() {
    let data = "2..45";
    let (_, r) = range(data).unwrap();
    assert_eq!(r, BitRange::Range(2, 45));
}

#[test]
fn test_index() {
    let data = "34";
    let (_, i) = index(data).unwrap();
    assert_eq!(i, 34);

    let data = "7";
    let (_, i) = index(data).unwrap();
    assert_eq!(i, 7);

    let data = "48";
    let (_, i) = index(data).unwrap();
    assert_eq!(i, 48);
}

#[test]
fn test_literal() {
    let data = "0xABCD";
    let (_, r) = literal(data).unwrap();
    assert_eq!(r, "ABCD");

    let data = "0b1011_1100";
    let (_, r) = literal(data).unwrap();
    assert_eq!(r, "1011_1100");

    let data = "0b1011_11b0";
    assert!(literal(data).is_err());

    let data = "0Xab_zc";
    assert!(literal(data).is_err());
}

#[test]
fn test_hexadecimal() {
    let data = "0x45B7";
    let (_, hex) = hexadecimal(data).unwrap();
    assert_eq!(hex, "45B7");

    let data = "0X45_B7";
    let (_, hex) = hexadecimal(data).unwrap();
    assert_eq!(hex, "45_B7");
}

#[test]
fn test_binary() {
    let data = "0b10001100";
    let (_, bin) = binary(data).unwrap();
    assert_eq!(bin, "10001100");

    let data = "0b1000_1100";
    let (_, bin) = binary(data).unwrap();
    assert_eq!(bin, "1000_1100");

    let data = "0b1100_AB";
    assert!(binary(data).is_err());
}
