use sky_wayland::keymap::{char_to_keysym, name_to_keysym, parse_chord};

#[test]
fn maps_ascii_and_unicode_characters() {
    assert_eq!(char_to_keysym('A'), 'A' as u32);
    assert_eq!(char_to_keysym('\n'), 0xff0d);
    assert_eq!(char_to_keysym('λ'), 0x0100_0000 + 'λ' as u32);
}

#[test]
fn supports_documented_lowercase_modifier_aliases() {
    assert_eq!(parse_chord("super+d").unwrap(), vec![0xffeb, 'd' as u32]);
    assert_eq!(parse_chord("ctrl + a").unwrap(), vec![0xffe3, 'a' as u32]);
}

#[test]
fn rejects_unknown_names_and_empty_chords() {
    assert!(name_to_keysym("NotARealKey").is_err());
    assert!(parse_chord(" + ").is_err());
}

#[test]
fn maps_control_characters_to_keys() {
    assert_eq!(char_to_keysym('\r'), 0xff0d);
    assert_eq!(char_to_keysym('\t'), 0xff09);
    assert_eq!(char_to_keysym('\u{8}'), 0xff08);
    assert_eq!(char_to_keysym('\u{1b}'), 0xff1b);
    assert_eq!(char_to_keysym('é'), 0xe9);
}

#[test]
fn spacing_in_a_chord_does_not_matter() {
    assert_eq!(
        parse_chord("Control_L+Shift_L+T").unwrap(),
        parse_chord("  Control_L +Shift_L  +  T ").unwrap()
    );
    assert_eq!(parse_chord("F5").unwrap(), vec![0xffc2]);
}

#[test]
fn names_of_keys_keep_their_case_where_it_matters() {
    assert_eq!(name_to_keysym("Return").unwrap(), 0xff0d);
    assert_eq!(name_to_keysym("é").unwrap(), 0xe9);
    let error = name_to_keysym("NotARealKey").unwrap_err();
    assert_eq!(error.message, "unsupported key name: NotARealKey");
}
