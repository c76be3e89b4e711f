use building_automation::error::Error;
use building_automation::identifier::{
    category_of_key, is_occupancy, light_state_of, location_key_of, parse_move_id_of,
    state_token_of, Category, LightState, MoveId,
};
use building_automation::text::{
    chars_of, contains_in, find_in, matches_at, parse_index_in, push_all, push_decimal,
    push_padded_decimal, push_signed_decimal, push_str, remove_char, same_chars, skip_prefixes,
    slice_of, string_of,
};

fn chars(s: &str) -> Vec<char> {
    s.chars().collect()
}

fn text(v: &Vec<char>) -> String {
    v.iter().collect()
}

#[test]
fn characters_round_trip() {
    assert_eq!(chars_of("häuser"), chars("häuser"));
    assert_eq!(string_of(&chars("häuser")), "häuser");
    assert_eq!(chars_of(""), Vec::<char>::new());
    assert_eq!(slice_of(&chars("abcdef"), 2, 4), chars("cd"));
    assert_eq!(slice_of(&chars("abcdef"), 6, 6), chars(""));
}

#[test]
fn find_names_the_leftmost_occurrence() {
    assert_eq!(find_in(&chars("abcabc"), &chars("bc")), Some(1));
    assert_eq!(find_in(&chars("abcabc"), &chars("abcabc")), Some(0));
    assert_eq!(find_in(&chars("abcabc"), &chars("cb")), None);
    assert_eq!(find_in(&chars("abc"), &chars("abcd")), None);
    assert_eq!(find_in(&chars("abc"), &chars("")), Some(0));
    assert_eq!(find_in(&chars(""), &chars("")), Some(0));
    assert_eq!(find_in(&chars("aab"), &chars("ab")), Some(1));
    assert!(contains_in(&chars("xxsubxx"), &chars("sub")));
    assert!(!contains_in(&chars("xxsu"), &chars("sub")));
}

#[test]
fn matching_stays_inside_the_text() {
    assert!(matches_at(&chars("abc"), &chars("bc"), 1));
    assert!(!matches_at(&chars("abc"), &chars("bc"), 2));
    assert!(!matches_at(&chars("abc"), &chars("bc"), 7));
    assert!(matches_at(&chars("abc"), &chars(""), 3));
    assert!(!matches_at(&chars("abc"), &chars(""), 4));
    assert!(same_chars(&chars("abc"), &chars("abc")));
    assert!(!same_chars(&chars("abc"), &chars("abd")));
    assert!(!same_chars(&chars("abc"), &chars("ab")));
}

#[test]
fn characters_are_removed_everywhere() {
    assert_eq!(remove_char(&chars(",a,,b,"), ','), chars("ab"));
    assert_eq!(remove_char(&chars("ab"), ','), chars("ab"));
    assert_eq!(remove_char(&chars(""), ','), chars(""));
}

#[test]
fn leading_copies_are_skipped() {
    assert_eq!(skip_prefixes(&chars("ababx"), &chars("ab")), 4);
    assert_eq!(skip_prefixes(&chars("xabab"), &chars("ab")), 0);
    assert_eq!(skip_prefixes(&chars("abab"), &chars("")), 0);
    assert_eq!(skip_prefixes(&chars("aaa"), &chars("a")), 3);
}

#[test]
fn decimal_indices_are_read_as_the_standard_library_reads_them() {
    for s in ["0", "7", "007", "+5", "18446744073709551615", "18446744073709551616", "", "+",
        "-5", "++5", "5+", "1 ", " 1", "12a", "٣", "99999999999999999999999"]
    {
        let v = chars(s);
        assert_eq!(parse_index_in(&v, 0, v.len()), s.parse::<usize>().ok(), "{}", s);
    }
    assert_eq!(parse_index_in(&chars("ab12cd"), 2, 4), Some(12));
    assert_eq!(parse_index_in(&chars("ab12cd"), 2, 5), None);
}

#[test]
fn numbers_are_written_in_decimal() {
    for n in [0u128, 7, 10, 99, 100, 12345, u64::MAX as u128, u128::MAX] {
        let mut out = chars("n=");
        push_decimal(&mut out, n);
        assert_eq!(text(&out), format!("n={}", n));
    }
    for n in [0i64, -1, 1, -10, 42, i64::MAX, i64::MIN, i32::MIN as i64] {
        let mut out = Vec::new();
        push_signed_decimal(&mut out, n);
        assert_eq!(text(&out), format!("{}", n));
    }
    let mut out = Vec::new();
    push_padded_decimal(&mut out, 42, 6);
    push_str(&mut out, "|");
    push_padded_decimal(&mut out, 1_234_567, 6);
    push_str(&mut out, "|");
    push_padded_decimal(&mut out, 9, 0);
    push_all(&mut out, &chars("end"));
    assert_eq!(text(&out), "000042|234567|end");
}

#[test]
fn location_is_what_stands_between_the_markers() {
    let key = |id: &str| location_key_of(&chars(id)).map(|k| text(&k));
    assert_eq!(key("Sensor_RwnD0_no._0_of_type_SensorType_0"), Some("RwnD0".to_string()));
    assert_eq!(
        key("Message_of_5_Sensor_RwnD0_RwD1_sub_no._1_of_type_SensorType_0"),
        Some("RwnD0_RwD1_sub".to_string())
    );
    assert_eq!(key("Sensor__no."), Some("".to_string()));
    assert_eq!(key("Sensor_a_no._b_no._c"), Some("a".to_string()));
    assert_eq!(key("Sensor_Sensor_a_no._b"), Some("Sensor_a".to_string()));
    assert_eq!(key("_no._Sensor_a"), None);
    assert_eq!(key("Sensor_a"), None);
    assert_eq!(key("a_no._0"), None);
    assert_eq!(key(""), None);
}

#[test]
fn category_and_type_are_read_from_the_identifier() {
    assert_eq!(category_of_key(&chars("RwnD0_RwD1_sub")), Category::SubRoom);
    assert_eq!(category_of_key(&chars("subway")), Category::SubRoom);
    assert_eq!(category_of_key(&chars("RwnD0")), Category::Room);
    assert_eq!(category_of_key(&chars("su_b")), Category::Room);
    assert!(is_occupancy(&chars("Sensor_a_no._0_of_type_SensorType_1")));
    assert!(is_occupancy(&chars("Sensor_a_no._0_of_type_SensorType_10")));
    assert!(!is_occupancy(&chars("Sensor_a_no._0_of_type_SensorType_0")));
}

#[test]
fn state_is_what_follows_the_first_separator() {
    let token = |p: &str| state_token_of(&chars(p)).map(|t| text(&t));
    assert_eq!(token("X:On"), Some("On".to_string()));
    assert_eq!(token("X:On,"), Some("On".to_string()));
    assert_eq!(token("a,b:O,n"), Some("On".to_string()));
    assert_eq!(token("X:a:b"), Some("a:b".to_string()));
    assert_eq!(token(":"), Some("".to_string()));
    assert_eq!(token("On"), None);
    assert_eq!(light_state_of(&chars("On")), Some(LightState::On));
    assert_eq!(light_state_of(&chars("Dim")), Some(LightState::Dim));
    assert_eq!(light_state_of(&chars("Off")), Some(LightState::Off));
    assert_eq!(light_state_of(&chars("on")), None);
    assert_eq!(light_state_of(&chars("")), None);
    assert_eq!(light_state_of(&chars("true")), None);
}

#[test]
fn move_identifiers_name_entity_and_step() {
    let parse = |id: &str| parse_move_id_of(&chars(id));
    assert_eq!(parse("Movable_object_3_move_no.7"), Some(MoveId { entity: 3, step: 7 }));
    assert_eq!(parse("Movable_object_12_.0"), Some(MoveId { entity: 12, step: 0 }));
    assert_eq!(parse("Movable_object_12_.1_0"), Some(MoveId { entity: 12, step: 10 }));
    assert_eq!(
        parse("Movable_object_Movable_object_4_x.2"),
        Some(MoveId { entity: 4, step: 2 })
    );
    assert_eq!(parse("Movable_object_+4_x.+2"), Some(MoveId { entity: 4, step: 2 }));
    assert_eq!(parse("3_move_no.7"), None);
    assert_eq!(parse("Movable_object_3.7"), None);
    assert_eq!(parse("Movable_object_3_move_no7"), None);
    assert_eq!(parse("Movable_object_x_move_no.7"), None);
    assert_eq!(parse("Movable_object_3_move_no.x"), None);
    assert_eq!(parse("Movable_object_3_move_no."), None);
    assert_eq!(parse("Movable_object__move_no.1"), None);
    assert_eq!(parse("Movable_object_3_a.b.1"), None);
    assert_eq!(parse("Movable_object_99999999999999999999999_x.1"), None);
    assert_eq!(parse(""), None);
}

#[test]
fn faults_describe_themselves() {
    assert_eq!(
        Error::MalformedIdentifier { position: 0 }.describe(),
        "malformed identifier in the event at position 0"
    );
    assert_eq!(
        Error::MalformedIdentifier { position: 1234 }.describe(),
        "malformed identifier in the event at position 1234"
    );
}
