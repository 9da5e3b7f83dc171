use coordinates::number::{is_digit_char, is_literal, is_sign_char, is_valid_literal};

fn std_accepts(text: &str) -> bool {
    text.parse::<f64>().is_ok()
}

#[test]
fn literals_that_are_numbers() {
    for text in [
        "0", "48", "23.796", "5.", ".5", "+1", "-1", "1e5", "1E5", "1e+5", "1e-5", "1.5e10",
        ".5e1", "5.e1", "-.5", "+5.", "007", "1e007", "0.0000000000000000000000001",
        "123456789012345678901234567890", "1e400", "1e-400",
    ] {
        assert!(is_valid_literal(text), "{:?}", text);
        assert!(std_accepts(text), "{:?}", text);
    }
}

#[test]
fn literals_that_name_no_finite_number() {
    for text in [
        "inf", "INF", "Inf", "iNf", "infinity", "INFINITY", "Infinity", "+inf", "-inf", "nan",
        "NaN", "NAN", "-nan", "+NaN", "-Infinity",
    ] {
        assert!(is_valid_literal(text), "{:?}", text);
        assert!(std_accepts(text), "{:?}", text);
    }
}

#[test]
fn texts_that_are_no_literal() {
    for text in [
        "", "+", "-", ".", "+.", "e", "e5", ".e5", "1e", "1e+", "1e-", "1e+-5", "1.2.3", "1..2",
        "..1", "1e5.0", "1e5e5", "--1", "+-1", "1 ", " 1", "1_000", "0x10", "1f", "1d", "infi",
        "infinit", "infinityy", "na", "nann", "in", "i", "n", "1inf", "inf1", "++inf", "48°",
        "４８", "1,5", "١٢٣", "1e٥", "ınf", "İnf", "ℯ", "1\u{0}", "\u{0}",
    ] {
        assert!(!is_valid_literal(text), "{:?}", text);
        assert!(!std_accepts(text), "{:?}", text);
    }
}

#[test]
fn is_valid_literal_accepts_what_the_float_parser_accepts() {
    let alphabet: Vec<char> = "0 9+-.eEiInNfFaAtTyYx".chars().collect();
    let n = alphabet.len();
    let mut checked = 0;
    for len in 0..=4usize {
        let mut index = vec![0usize; len];
        loop {
            let text: String = index.iter().map(|&i| alphabet[i]).collect();
            assert_eq!(is_valid_literal(&text), std_accepts(&text), "{:?}", text);
            checked += 1;
            let mut place = 0;
            while place < len {
                index[place] += 1;
                if index[place] < n {
                    break;
                }
                index[place] = 0;
                place += 1;
            }
            if place == len {
                break;
            }
        }
    }
    assert!(checked > 200_000);
}

#[test]
fn is_valid_literal_accepts_what_the_float_parser_accepts_around_long_words() {
    let stems = ["infinity", "Infinity", "INFINITY", "infinit", "nan", "inf", "1e10", "12.5e-3"];
    let extras = ["", "+", "-", "0", ".", "e", "y", " ", "i", "é"];
    for stem in stems {
        for before in extras {
            for after in extras {
                let text = format!("{}{}{}", before, stem, after);
                assert_eq!(is_valid_literal(&text), std_accepts(&text), "{:?}", text);
                for cut in 1..stem.len() {
                    let text = format!("{}{}{}", &stem[..cut], after, &stem[cut..]);
                    assert_eq!(is_valid_literal(&text), std_accepts(&text), "{:?}", text);
                }
            }
        }
    }
}

#[test]
fn is_literal_reads_a_part_of_the_text() {
    let chars: Vec<char> = "x23.796''".chars().collect();
    assert!(is_literal(&chars, 1, 7));
    assert!(!is_literal(&chars, 0, 7));
    assert!(!is_literal(&chars, 1, 8));
    assert!(!is_literal(&chars, 3, 3));
    assert!(is_literal(&chars, 3, 5));
}

#[test]
fn digits_and_signs() {
    for c in '0'..='9' {
        assert!(is_digit_char(c));
    }
    assert!(!is_digit_char('/'));
    assert!(!is_digit_char(':'));
    assert!(!is_digit_char('٣'));
    assert!(is_sign_char('+'));
    assert!(is_sign_char('-'));
    assert!(!is_sign_char('−'));
}
