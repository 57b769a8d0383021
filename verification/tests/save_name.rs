use costume_save::save_name::{
    compose_save_name, find_last, read_integer, read_j2000_timestamp, to_simulated_save_name,
    JAN_1_2000_UNIX_TIME,
};

fn is_unicode_white_space(c: char) -> bool {
    matches!(
        c as u32,
        0x0009..=0x000D
            | 0x0020
            | 0x0085
            | 0x00A0
            | 0x1680
            | 0x2000..=0x200A
            | 0x2028
            | 0x2029
            | 0x202F
            | 0x205F
            | 0x3000
    )
}

#[test]
fn save_name_with_a_timestamp() {
    assert_eq!(
        to_simulated_save_name("Costume_123456_96313200", "Bob", "Hero"),
        "BobHero 2003-01-19 17:40:00"
    );
}

#[test]
fn save_name_with_a_timestamp_and_an_extension() {
    assert_eq!(
        to_simulated_save_name("Costume_123456_96313200.jpg", "Bob", "Hero"),
        "BobHero 2003-01-19 17:40:00"
    );
}

#[test]
fn save_name_without_a_timestamp() {
    assert_eq!(to_simulated_save_name("Costume_Bob_Hero.jpg", "Bob", "Hero"), "BobHero");
    assert_eq!(to_simulated_save_name("screenshot", "Bob", "Hero"), "BobHero");
    assert_eq!(to_simulated_save_name("", "Bob", "Hero"), "BobHero");
    assert_eq!(to_simulated_save_name("Costume_12x.jpg", "Bob", "Hero"), "BobHero");
    assert_eq!(to_simulated_save_name("Costume_.jpg", "Bob", "Hero"), "BobHero");
}

#[test]
fn save_name_at_the_start_of_the_epoch() {
    assert_eq!(to_simulated_save_name("Costume_0.jpg", "a", "b"), "ab 2000-01-01 00:00:00");
    assert_eq!(to_simulated_save_name("0", "a", "b"), "ab 2000-01-01 00:00:00");
    assert_eq!(to_simulated_save_name("Costume_+1", "a", "b"), "ab 2000-01-01 00:00:01");
    assert_eq!(to_simulated_save_name("Costume_-1", "a", "b"), "ab 1999-12-31 23:59:59");
    assert_eq!(
        to_simulated_save_name("Costume_-946684800.jpg", "a", "b"),
        "ab 1970-01-01 00:00:00"
    );
    assert_eq!(
        to_simulated_save_name("Costume_0086399.jpg", "a", "b"),
        "ab 2000-01-01 23:59:59"
    );
}

#[test]
fn save_name_in_a_leap_year() {
    // 2004-02-29 12:34:56 is 1520 days, 12 hours, 34 minutes and 56 seconds after the epoch.
    let seconds: i64 = 1520 * 86_400 + 12 * 3_600 + 34 * 60 + 56;
    assert_eq!(
        to_simulated_save_name(&format!("Costume_x_{}.jpg", seconds), "Bob", "Hero"),
        "BobHero 2004-02-29 12:34:56"
    );
}

#[test]
fn save_name_of_a_moment_that_cannot_be_represented() {
    assert_eq!(
        to_simulated_save_name("Costume_9223372036854775807.jpg", "Bob", "Hero"),
        "BobHero"
    );
    assert_eq!(
        to_simulated_save_name("Costume_9223372035908090000.jpg", "Bob", "Hero"),
        "BobHero"
    );
    assert_eq!(
        to_simulated_save_name("Costume_-9223372036854775808.jpg", "Bob", "Hero"),
        "BobHero"
    );
    assert_eq!(
        to_simulated_save_name("Costume_99999999999999999999999.jpg", "Bob", "Hero"),
        "BobHero"
    );
}

#[test]
fn save_name_far_from_the_epoch() {
    // Ten thousand years of 365.2425 days after 2000-01-01 is 12000-01-01.
    let seconds: i64 = 3_652_425 * 86_400;
    assert_eq!(
        to_simulated_save_name(&format!("Costume_{}", seconds), "Bob", "Hero"),
        "BobHero +12000-01-01 00:00:00"
    );
}

#[test]
fn save_name_is_trimmed_at_its_end_only() {
    assert_eq!(to_simulated_save_name("none", " Bob ", " Hero \t\n"), " Bob  Hero");
    assert_eq!(to_simulated_save_name("none", "", ""), "");
    assert_eq!(to_simulated_save_name("none", "  ", "  "), "");
    assert_eq!(to_simulated_save_name("x_0", " ", " "), "   2000-01-01 00:00:00");
}

#[test]
fn composed_name_is_the_parts_and_one_space() {
    assert_eq!(compose_save_name("Bob", "Hero", "now"), "BobHero now");
    assert_eq!(compose_save_name("Bob", "Hero", ""), "BobHero");
    assert_eq!(compose_save_name("", "", "now"), " now");
    assert_eq!(compose_save_name("Bob", "Hero", "now  "), "BobHero now");
    assert_eq!(compose_save_name("Zoë", "Ωmega", "später"), "ZoëΩmega später");
}

#[test]
fn composed_name_loses_every_kind_of_white_space_at_its_end() {
    assert_eq!(compose_save_name("Bob", "Hero\u{3000}", ""), "BobHero");
    assert_eq!(compose_save_name("Bob", "Hero\u{00A0}\u{2003}", "\u{0085}"), "BobHero");
    assert_eq!(compose_save_name("Bob", "Hero\u{200B}", ""), "BobHero\u{200B}");
    assert_eq!(compose_save_name("Bob", "Hero\u{180E}", ""), "BobHero\u{180E}");
    assert_eq!(compose_save_name("Bob", "Hero\u{FEFF}", ""), "BobHero\u{FEFF}");
}

#[test]
fn composed_name_is_trimmed_of_white_space_and_of_nothing_else() {
    for code in 0..=0x10FFFFu32 {
        if let Some(c) = char::from_u32(code) {
            let mut character_name = String::from("x");
            character_name.push(c);
            let name = compose_save_name("", &character_name, "");
            if is_unicode_white_space(c) {
                assert_eq!(name, "x", "U+{:04X}", code);
            } else {
                assert_eq!(name, character_name, "U+{:04X}", code);
            }
        }
    }
}

#[test]
fn last_byte_is_found_from_the_end() {
    assert_eq!(find_last(b"a_b_c", b'_'), Some(3));
    assert_eq!(find_last(b"_", b'_'), Some(0));
    assert_eq!(find_last(b"abc", b'_'), None);
    assert_eq!(find_last(b"", b'_'), None);
    assert_eq!(find_last(b"a.b.c", b'.'), Some(3));
}

#[test]
fn integer_is_a_sign_and_digits() {
    assert_eq!(read_integer(b"0"), Some(0));
    assert_eq!(read_integer(b"96313200"), Some(96_313_200));
    assert_eq!(read_integer(b"+42"), Some(42));
    assert_eq!(read_integer(b"-42"), Some(-42));
    assert_eq!(read_integer(b"-0"), Some(0));
    assert_eq!(read_integer(b"000000000000000000000000000123"), Some(123));
    assert_eq!(read_integer(b""), None);
    assert_eq!(read_integer(b"+"), None);
    assert_eq!(read_integer(b"-"), None);
    assert_eq!(read_integer(b"+-1"), None);
    assert_eq!(read_integer(b"--1"), None);
    assert_eq!(read_integer(b" 1"), None);
    assert_eq!(read_integer(b"1 "), None);
    assert_eq!(read_integer(b"1_000"), None);
    assert_eq!(read_integer(b"12a"), None);
    assert_eq!(read_integer(b"0x10"), None);
    assert_eq!(read_integer("١٢٣".as_bytes()), None);
}

#[test]
fn integer_at_the_limits() {
    assert_eq!(read_integer(b"9223372036854775807"), Some(i64::MAX));
    assert_eq!(read_integer(b"+9223372036854775807"), Some(i64::MAX));
    assert_eq!(read_integer(b"9223372036854775808"), None);
    assert_eq!(read_integer(b"-9223372036854775808"), Some(i64::MIN));
    assert_eq!(read_integer(b"-9223372036854775809"), None);
    assert_eq!(read_integer(b"-9223372036854775807"), Some(i64::MIN + 1));
    assert_eq!(read_integer(b"18446744073709551616"), None);
    assert_eq!(read_integer(b"92233720368547758070"), None);
    assert_eq!(read_integer(b"99999999999999999999999999999999999999999"), None);
    assert_eq!(read_integer(b"00009223372036854775807"), Some(i64::MAX));
}

#[test]
fn integer_is_read_as_the_standard_library_reads_it() {
    let alphabet: [&str; 7] = ["", "+", "-", "0", "7", "9", "a"];
    let mut texts: Vec<String> = vec![String::new()];
    for _ in 0..4 {
        let mut longer: Vec<String> = Vec::new();
        for text in &texts {
            for piece in alphabet.iter() {
                longer.push(format!("{}{}", text, piece));
            }
        }
        texts = longer;
    }
    for text in &texts {
        assert_eq!(read_integer(text.as_bytes()), text.parse::<i64>().ok(), "{:?}", text);
    }
    for exponent in 0..70u32 {
        for delta in [-1i128, 0, 1] {
            for sign in [-1i128, 1] {
                let value: i128 = sign * ((1i128 << exponent) + delta);
                let text = value.to_string();
                assert_eq!(read_integer(text.as_bytes()), text.parse::<i64>().ok(), "{:?}", text);
            }
        }
    }
}

#[test]
fn timestamp_is_the_last_component_of_the_stem() {
    assert_eq!(read_j2000_timestamp(b"Costume_123456_96313200"), Some(96_313_200));
    assert_eq!(read_j2000_timestamp(b"Costume_123456_96313200.jpg"), Some(96_313_200));
    assert_eq!(read_j2000_timestamp(b"96313200.jpg"), Some(96_313_200));
    assert_eq!(read_j2000_timestamp(b"Costume_1_2_3.tar.gz"), None);
    assert_eq!(read_j2000_timestamp(b"Costume_1.5"), Some(1));
    assert_eq!(read_j2000_timestamp(b"Costume.v2_7"), None);
    assert_eq!(read_j2000_timestamp(b"Costume_7."), Some(7));
    assert_eq!(read_j2000_timestamp(b".hidden_12"), Some(12));
    assert_eq!(read_j2000_timestamp(b".12"), None);
    assert_eq!(read_j2000_timestamp(b"_12"), Some(12));
    assert_eq!(read_j2000_timestamp(b"12_"), None);
    assert_eq!(read_j2000_timestamp(b"Costume_12_.jpg"), None);
    assert_eq!(read_j2000_timestamp(b""), None);
    assert_eq!(read_j2000_timestamp("Kostüm_Zoë_42.jpg".as_bytes()), Some(42));
}

#[test]
fn timestamp_follows_the_stem_as_paths_give_it() {
    for name in [
        "Costume_123456_96313200.jpg",
        "Costume_1_2_3.tar.gz",
        ".hidden_12",
        "a.b_5.c",
        "plain",
        "trailing_7.",
        "..._3",
        "x_-4.JPG",
    ] {
        let stem = std::path::Path::new(name).file_stem().and_then(|stem| stem.to_str());
        let expected = stem.and_then(|stem| stem.split('_').last()).and_then(|last| last.parse::<i64>().ok());
        assert_eq!(read_j2000_timestamp(name.as_bytes()), expected, "{:?}", name);
    }
}

#[test]
fn epoch_of_file_names_is_the_first_second_of_2000() {
    assert_eq!(JAN_1_2000_UNIX_TIME, 946_684_800);
    assert_eq!(JAN_1_2000_UNIX_TIME, (30 * 365 + 7) * 86_400);
}
