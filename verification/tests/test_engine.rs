use utf8_rune::internal::{unwrap_indent, DEFAULT_INDENT};
use utf8_rune::pointer;
use utf8_rune::{
    continuation_bytes_location, get_rune_cutoff_at_index, next_valid_cutoff,
    previous_valid_cutoff, split_at_first_rune, ByteType, Error, Rune, RuneParts, Runes,
};

fn leading_ones(byte: u8) -> usize {
    let mut count = 0;
    let mut bit = 0x80u8;
    while bit != 0 && byte & bit != 0 {
        count += 1;
        bit >>= 1;
    }
    count
}

#[test]
fn classifies_every_byte_by_its_leading_bits() {
    for value in 0..=255u8 {
        let ty = ByteType::new(value);
        let ones = leading_ones(value);
        assert_eq!(ones as u32, value.leading_ones());
        let expected = if value < 127 {
            ByteType::Ascii(value)
        } else if ones == 0 {
            ByteType::One(value)
        } else if ones == 1 {
            ByteType::Continuation(value)
        } else if ones == 2 {
            ByteType::Two(value)
        } else if ones == 3 {
            ByteType::Three(value)
        } else {
            ByteType::FourOrMore(value)
        };
        assert_eq!(ty, expected);
        assert_eq!(ty.byte(), value);
        assert_eq!(ty, ByteType::new(value));
        assert_eq!(ty, ByteType::from(value));
        assert_eq!(ty, ByteType::from(&value));
    }
}

#[test]
fn length_of_each_category() {
    assert_eq!(ByteType::Absent.len(), 0);
    assert_eq!(ByteType::new(b'a').len(), 1);
    assert_eq!(ByteType::new(0x7F).len(), 1);
    assert_eq!(ByteType::new(0x80).len(), 1);
    assert_eq!(ByteType::new(0xC3).len(), 2);
    assert_eq!(ByteType::new(0xE2).len(), 3);
    assert_eq!(ByteType::new(0xF0).len(), 4);
    assert_eq!(ByteType::new(0xF8).len(), 5);
    assert_eq!(ByteType::new(0xFC).len(), 6);
    assert_eq!(ByteType::new(0xFE).len(), 7);
    assert_eq!(ByteType::new(0xFF).len(), 8);
}

#[test]
fn names_and_predicates_of_each_category() {
    let all = [
        (ByteType::Absent, "None", 0u8, false, false, false),
        (ByteType::new(b'g'), "Ascii", b'g', true, false, false),
        (ByteType::new(0x7F), "One", 0x7F, false, false, true),
        (ByteType::new(0xC3), "Two", 0xC3, false, false, true),
        (ByteType::new(0xE4), "Three", 0xE4, false, false, true),
        (ByteType::new(0xF0), "FourOrMore", 0xF0, false, false, true),
        (ByteType::new(0x80), "Continuation", 0x80, false, true, false),
    ];
    for (ty, name, byte, ascii, continuation, delta) in all {
        assert_eq!(ty.name(), name);
        assert_eq!(ty.byte(), byte);
        assert_eq!(ty.is_ascii(), ascii);
        assert_eq!(ty.is_continuation(), continuation);
        assert_eq!(ty.has_rune_delta(), delta);
    }
}

#[test]
fn wider_numbers_are_classified_by_their_lowest_byte() {
    assert_eq!(ByteType::from(0x12F0u16), ByteType::FourOrMore(0xF0));
    assert_eq!(ByteType::from(0x1234_56E2u32), ByteType::Three(0xE2));
    assert_eq!(ByteType::from(0x1234_5678_9ABC_DE80u64), ByteType::Continuation(0x80));
    assert_eq!(ByteType::from(0x161usize), ByteType::Ascii(0x61));
}

#[test]
fn joiner_draws_in_the_code_point_behind_it() {
    let bytes = [0x61, 0xE2, 0x80, 0x8D, 0xC3, 0xA3];
    assert_eq!(continuation_bytes_location(&bytes, 1), Some((5, ByteType::Two(0xC3))));
    assert_eq!(continuation_bytes_location(&bytes, 0), None);
    assert_eq!(continuation_bytes_location(&bytes, 2), None);
}

#[test]
fn joiner_at_the_end_draws_in_itself_only() {
    let bytes = [0xE2, 0x80, 0x8D];
    assert_eq!(continuation_bytes_location(&bytes, 0), Some((3, ByteType::Absent)));
}

#[test]
fn selector_draws_in_the_markers_behind_it() {
    let bytes = [0xEF, 0xB8, 0x8F, 0xEF, 0xB8, 0x8F, 0xE2, 0x80, 0x8D, 0xC3, 0xA3];
    assert_eq!(continuation_bytes_location(&bytes, 0), Some((11, ByteType::Three(0xEF))));
    assert_eq!(continuation_bytes_location(&bytes, 3), Some((8, ByteType::Three(0xE2))));
    assert_eq!(continuation_bytes_location(&bytes, 6), Some((5, ByteType::Two(0xC3))));
    let alone = [0x61, 0xEF, 0xB8, 0x8F];
    assert_eq!(continuation_bytes_location(&alone, 1), Some((3, ByteType::Absent)));
    let followed = [0xEF, 0xB8, 0x8F, 0x61];
    assert_eq!(continuation_bytes_location(&followed, 0), Some((3, ByteType::Ascii(0x61))));
}

#[test]
fn no_marker_without_room_for_three_bytes() {
    let bytes = [0x61, 0xE2, 0x80];
    assert_eq!(continuation_bytes_location(&bytes, 1), None);
    assert_eq!(continuation_bytes_location(&bytes, 3), None);
    assert_eq!(continuation_bytes_location(&bytes, usize::MAX), None);
    assert_eq!(continuation_bytes_location(&[], 0), None);
}

#[test]
fn index_beyond_the_buffer_is_invalid() {
    let bytes = "abc".as_bytes();
    assert_eq!(get_rune_cutoff_at_index(bytes, 4), Err(Error::InvalidIndex(4, bytes)));
    assert_eq!(
        get_rune_cutoff_at_index(bytes, usize::MAX),
        Err(Error::InvalidIndex(usize::MAX, bytes))
    );
    assert_eq!(get_rune_cutoff_at_index(&[], 1), Err(Error::InvalidIndex(1, &[])));
}

#[test]
fn rune_at_the_end_of_the_buffer_is_empty() {
    assert_eq!(get_rune_cutoff_at_index("abc".as_bytes(), 3), Ok(3));
    assert_eq!(get_rune_cutoff_at_index(&[], 0), Ok(0));
}

#[test]
fn ascii_byte_is_a_rune_of_its_own() {
    let bytes = "abcdefghijklmnopqrstu".as_bytes();
    for index in 0..bytes.len() {
        assert_eq!(get_rune_cutoff_at_index(bytes, index), Ok(index + 1));
    }
    let mixed = "a👌🏽é❤️‍🔥z".as_bytes();
    for index in 0..mixed.len() {
        if mixed[index] < 127 {
            assert_eq!(get_rune_cutoff_at_index(mixed, index), Ok(index + 1));
        }
    }
}

#[test]
fn lone_byte_without_leading_ones_is_one_byte_long() {
    let bytes = [0x7F, 0x61];
    assert_eq!(get_rune_cutoff_at_index(&bytes, 0), Ok(1));
    assert_eq!(get_rune_cutoff_at_index(&bytes, 1), Ok(2));
}

#[test]
fn continuation_byte_fails_with_both_boundaries() {
    let bytes = "❤️🦅".as_bytes();
    assert_eq!(bytes.len(), 10);
    assert_eq!(
        get_rune_cutoff_at_index(bytes, 4),
        Err(Error::UnexpectedContinuationByte(0xB8, 4, Some(0), Some(6), bytes))
    );
    assert_eq!(previous_valid_cutoff(bytes, 4), Some(0));
    assert_eq!(next_valid_cutoff(bytes, 4), Some(6));
}

#[test]
fn declared_length_may_reach_past_the_buffer() {
    assert_eq!(get_rune_cutoff_at_index(&[0xF0, 0x9F], 0), Ok(4));
    assert_eq!(get_rune_cutoff_at_index(&[0xFF, 0x61], 0), Ok(8));
    let parts = RuneParts::from_raw_parts(&[0xF0, 0x9F]);
    assert_eq!(parts.indexes(), vec![0, 4]);
    assert_eq!(parts.rune_at_index(0).unwrap().as_bytes(), &[0xF0, 0x9F]);
}

#[test]
fn one_stray_continuation_byte_is_taken_in() {
    let bytes = [0xC3, 0xA3, 0xA3];
    assert_eq!(get_rune_cutoff_at_index(&bytes, 0), Ok(3));
}

#[test]
fn skin_tone_modifiers_are_taken_in() {
    for last in [0xBBu8, 0xBC, 0xBD, 0xBE, 0xBF] {
        let bytes = [0xF0, 0x9F, 0x91, 0x8C, 0xF0, 0x9F, 0x8F, last, 0x61];
        assert_eq!(get_rune_cutoff_at_index(&bytes, 0), Ok(8));
    }
    for last in [0xBAu8, 0xC0] {
        let bytes = [0xF0, 0x9F, 0x91, 0x8C, 0xF0, 0x9F, 0x8F, last, 0x61];
        assert_eq!(get_rune_cutoff_at_index(&bytes, 0), Ok(4));
    }
    let short = [0xF0, 0x9F, 0x91, 0x8C, 0xF0, 0x9F, 0x8F];
    assert_eq!(get_rune_cutoff_at_index(&short, 0), Ok(4));
}

#[test]
fn joined_family_is_one_rune() {
    let bytes = "👩🏻‍🚒👌🏿".as_bytes();
    assert_eq!(bytes.len(), 23);
    assert_eq!(get_rune_cutoff_at_index(bytes, 0), Ok(15));
    assert_eq!(get_rune_cutoff_at_index(bytes, 15), Ok(23));
}

#[test]
fn short_code_point_behind_a_joined_modifier_is_cut_short() {
    let bytes = "👩🏻‍❤".as_bytes();
    assert_eq!(bytes.len(), 14);
    assert_eq!(get_rune_cutoff_at_index(bytes, 0), Ok(13));
    assert_eq!(RuneParts::new("👩🏻‍❤").indexes(), vec![0, 13]);
}

#[test]
fn selector_compound_is_one_rune() {
    let bytes = [0xE2, 0x98, 0xA0, 0xEF, 0xB8, 0x8F];
    assert_eq!(get_rune_cutoff_at_index(&bytes, 0), Ok(6));
    assert_eq!(split_at_first_rune(&bytes), 6);
}

#[test]
fn emoji_before_ascii_is_four_bytes() {
    let bytes = "😀smiley".as_bytes();
    assert_eq!(bytes.len(), 10);
    assert_eq!(get_rune_cutoff_at_index(bytes, 0), Ok(4));
}

#[test]
fn empty_buffer_has_no_boundaries() {
    assert_eq!(split_at_first_rune(&[]), 0);
    for index in [0usize, 1, 5, usize::MAX] {
        assert_eq!(previous_valid_cutoff(&[], index), None);
        assert_eq!(next_valid_cutoff(&[], index), None);
    }
}

#[test]
fn next_boundary_may_lie_beyond_a_broken_buffer() {
    let bytes = [0x80, 0xE2, 0x80, 0x8D, 0xF0];
    assert_eq!(next_valid_cutoff(&bytes, 0), Some(8));
    assert_eq!(next_valid_cutoff(&bytes, 1), Some(8));
    assert_eq!(next_valid_cutoff(&bytes, 2), Some(4));
    assert_eq!(next_valid_cutoff(&bytes, 4), Some(4));
    assert_eq!(next_valid_cutoff(&bytes, 5), None);
    assert_eq!(previous_valid_cutoff(&bytes, 0), None);
    assert_eq!(
        get_rune_cutoff_at_index(&bytes, 0),
        Err(Error::UnexpectedContinuationByte(0x80, 0, None, Some(8), &bytes))
    );
}

#[test]
fn previous_boundary_from_beyond_the_end_is_the_last_one() {
    let bytes = "falcão🦅".as_bytes();
    assert_eq!(previous_valid_cutoff(bytes, 11), Some(7));
    assert_eq!(previous_valid_cutoff(bytes, 1000), Some(7));
    assert_eq!(previous_valid_cutoff(bytes, usize::MAX), Some(7));
    assert_eq!(next_valid_cutoff(bytes, 11), None);
    assert_eq!(next_valid_cutoff(bytes, usize::MAX), None);
}

#[test]
fn previous_boundary_steps_back_over_a_marker() {
    let bytes = "👨‍❤".as_bytes();
    assert_eq!(bytes.len(), 10);
    let expected = [0usize, 0, 0, 0, 0, 0, 0, 7, 7, 7, 7, 7];
    for (index, found) in expected.iter().enumerate() {
        assert_eq!(previous_valid_cutoff(bytes, index), Some(*found));
    }
    let alone = [0x61, 0xEF, 0xB8, 0x8F];
    assert_eq!(previous_valid_cutoff(&alone, 0), None);
    assert_eq!(previous_valid_cutoff(&alone, 3), Some(1));
}

fn texts() -> Vec<&'static str> {
    vec![
        "",
        "abc",
        "falcão🦅",
        "skull☠️skull",
        "a👌🏽é❤️‍🔥z",
        "👌👌🏻👌🏼👌🏽👌🏾👌🏿",
        "👩🏻‍🚒👌🏿🧑🏽‍🚒👨‍🚒🌶️🎹💔🔥❤️‍🔥❤️‍🩹",
        "👩🏻‍❤",
    ]
}

#[test]
fn runes_tile_the_buffer() {
    for text in texts() {
        let parts = RuneParts::new(text);
        let bytes = parts.as_bytes();
        let cuts = parts.indexes();
        assert_eq!(cuts[0], 0);
        for pair in cuts.windows(2) {
            assert!(pair[0] < pair[1]);
            assert!(pair[0] < bytes.len());
            assert_eq!(get_rune_cutoff_at_index(bytes, pair[0]), Ok(pair[1]));
        }
        let last = *cuts.last().unwrap();
        assert!(last <= bytes.len());
        assert!(last == bytes.len() || get_rune_cutoff_at_index(bytes, last).is_err());
        for position in 0..last {
            let holding = cuts.windows(2).filter(|pair| pair[0] <= position && position < pair[1]);
            assert_eq!(holding.count(), 1);
        }
    }
    assert_eq!(RuneParts::new("a👌🏽é❤️‍🔥z").indexes(), vec![0, 1, 9, 11, 24, 25]);
}

#[test]
fn recovered_boundaries_begin_a_rune() {
    for text in texts() {
        let bytes = text.as_bytes();
        for index in 0..bytes.len() + 2 {
            if let Err(Error::UnexpectedContinuationByte(byte, at, previous, next, buffer)) =
                get_rune_cutoff_at_index(bytes, index)
            {
                assert_eq!(byte, bytes[index]);
                assert_eq!(at, index);
                assert_eq!(buffer, bytes);
                assert_eq!(previous, previous_valid_cutoff(bytes, index));
                assert_eq!(next, next_valid_cutoff(bytes, index));
                if let Some(found) = previous {
                    assert!(found <= index);
                    assert!(get_rune_cutoff_at_index(bytes, found).is_ok());
                }
                if let Some(found) = next {
                    assert!(found >= index && found < bytes.len());
                    assert!(get_rune_cutoff_at_index(bytes, found).is_ok());
                }
            }
        }
    }
}

#[test]
fn errors_hand_out_their_boundaries() {
    let bytes = "abc".as_bytes();
    let invalid = Error::InvalidIndex(7, bytes);
    assert_eq!(invalid.previous_valid_cutoff(), None);
    assert_eq!(invalid.next_valid_cutoff(), None);
    let decode = Error::Utf8Error(1, bytes, String::from("invalid"));
    assert_eq!(decode.previous_valid_cutoff(), None);
    assert_eq!(decode.next_valid_cutoff(), None);
    let unexpected = Error::UnexpectedContinuationByte(0x80, 2, Some(1), None, bytes);
    assert_eq!(unexpected.previous_valid_cutoff(), Some(1));
    assert_eq!(unexpected.next_valid_cutoff(), None);
    let unexpected = Error::UnexpectedContinuationByte(0x80, 2, None, Some(3), bytes);
    assert_eq!(unexpected.previous_valid_cutoff(), None);
    assert_eq!(unexpected.next_valid_cutoff(), Some(3));
}

#[test]
fn buffers_are_made_and_read() {
    assert_eq!(pointer::create(3), vec![0u8, 0, 0]);
    assert_eq!(pointer::create(0), Vec::<u8>::new());
    assert_eq!(pointer::copy(b"bytes"), b"bytes".to_vec());
    assert_eq!(pointer::from_slice(b"bytes"), (b"bytes".to_vec(), 5));
    assert_eq!(pointer::from_display("ão"), (vec![0xC3, 0xA3, 0x6F], 3));
    assert_eq!(pointer::get_byte_at_index(b"bytes", 2), b't');
    assert_eq!(pointer::get_byte_slice_of(b"UNICODE", 2, 3), b"ICO");
}

#[test]
fn text_is_decoded_only_where_it_is_valid_and_inside() {
    assert_eq!(pointer::get_valid_utf8_str_of(b"UNICODE", 2, 3), Some("ICO"));
    assert_eq!(pointer::is_valid_utf8_str_of(b"UNICODE", 2, 3), true);
    assert_eq!(pointer::get_valid_utf8_str_of(b"UNICODE", 2, 0), Some(""));
    assert_eq!(pointer::get_valid_utf8_str_of(b"UNICODE", 7, 0), Some(""));
    assert_eq!(pointer::get_valid_utf8_str_of(b"UNICODE", 5, 3), None);
    assert_eq!(pointer::get_valid_utf8_str_of(b"UNICODE", 8, 0), None);
    assert_eq!(pointer::is_valid_utf8_str_of(b"UNICODE", usize::MAX, 2), false);
    assert_eq!(pointer::is_valid_utf8_str_of(b"UNICODE", 2, usize::MAX), false);
    let heart = "❤️".as_bytes();
    assert_eq!(pointer::get_valid_utf8_str_of(heart, 0, 6), Some("❤️"));
    assert_eq!(pointer::get_valid_utf8_str_of(heart, 0, 3), Some("❤"));
    assert_eq!(pointer::is_valid_utf8_str_of(heart, 0, 2), false);
    assert_eq!(pointer::is_valid_utf8_str_of(heart, 1, 2), false);
    assert_eq!(pointer::is_valid_utf8_str_of(&[0xC0, 0x80], 0, 2), false);
    assert_eq!(pointer::is_valid_utf8_str_of(&[0xED, 0xA0, 0x80], 0, 3), false);
    assert_eq!(pointer::is_valid_utf8_str_of(&[0xF4, 0x90, 0x80, 0x80], 0, 4), false);
}

#[test]
fn text_of_a_buffer_is_its_longest_valid_prefix() {
    assert_eq!(pointer::get_valid_utf8_prefix_of(b"abc"), "abc");
    assert_eq!(pointer::get_valid_utf8_prefix_of(&[0x61, 0x62, 0xF0, 0x9F]), "ab");
    assert_eq!(pointer::get_valid_utf8_prefix_of(&[0x80, 0x61]), "");
    assert_eq!(pointer::get_valid_utf8_prefix_of(&[]), "");
    let parts = RuneParts::from_raw_parts(&[0xC3, 0xA3, 0x6F, 0xC3]);
    assert_eq!(parts.as_str(), "ão");
    assert_eq!(parts.len(), 4);
    assert!(!parts.is_empty());
}

#[test]
fn rune_of_an_empty_text_is_empty() {
    let rune = Rune::new("");
    assert_eq!(rune.len(), 0);
    assert_eq!(rune.as_str(), "");
    assert_eq!(rune, Rune::empty());
    assert_eq!(rune, Rune::default());
    assert!(Rune::new("a") < Rune::new("b"));
    assert_eq!(Rune::new("❤️🦅").clone(), Rune::new("❤️"));
}

#[test]
fn rune_is_cut_at_an_index() {
    let bytes = "falcão🦅".as_bytes();
    assert_eq!(Rune::from_ptr_cutoff(bytes, 4).unwrap().as_str(), "ã");
    assert_eq!(Rune::from_ptr_cutoff(bytes, 11).unwrap().as_str(), "");
    assert_eq!(
        Rune::from_ptr_cutoff(bytes, 5),
        Err(Error::UnexpectedContinuationByte(0xA3, 5, Some(4), Some(6), bytes))
    );
    assert_eq!(Rune::from_ptr_cutoff(bytes, 12), Err(Error::InvalidIndex(12, bytes)));
}

#[test]
fn parts_hand_out_their_runes() {
    let parts = RuneParts::new("falcão🦅");
    assert_eq!(parts.rune(), Some(Rune::new("f")));
    assert_eq!(parts.clone(), parts);
    assert_eq!(RuneParts::allocate("falcão🦅"), Ok(parts.clone()));
    let runes = parts.runes().unwrap();
    let texts: Vec<&str> = runes.iter().map(|rune| rune.as_str()).collect();
    assert_eq!(texts, vec!["f", "a", "l", "c", "ã", "o", "🦅"]);
    let broken = RuneParts::from_raw_parts(&[0x80, 0x61]);
    assert_eq!(broken.rune(), None);
    assert_eq!(broken.indexes(), vec![0]);
    assert_eq!(broken.runes(), Ok(vec![]));
    assert!(RuneParts::new("").is_empty());
    assert_eq!(RuneParts::new("").indexes(), vec![0]);
}

#[test]
fn runes_count_and_index_themselves() {
    let runes = Runes::new("falcão🦅");
    assert_eq!(runes.len(), 7);
    assert!(!runes.is_empty());
    assert_eq!(runes.as_str(), "falcão🦅");
    assert_eq!(runes.as_bytes(), "falcão🦅".as_bytes());
    assert_eq!(runes.indexes(), vec![0, 1, 2, 3, 4, 6, 7]);
    assert_eq!(
        runes.rune_indexes(),
        vec![(0, 1), (1, 1), (2, 1), (3, 1), (4, 2), (6, 1), (7, 4)]
    );
    assert_eq!(runes.get(4), Some(Rune::new("ã")));
    assert_eq!(runes.get(6), Some(Rune::new("🦅")));
    assert_eq!(runes.get(7), None);
    assert_eq!(runes.to_vec().len(), 7);
    assert_eq!(Runes::allocate("falcão🦅"), Ok(runes.clone()));
    assert_eq!(RuneParts::new("falcão🦅").into_runes(), runes);
}

#[test]
fn empty_runes_hold_nothing() {
    let runes = Runes::empty().unwrap();
    assert!(runes.is_empty());
    assert_eq!(runes.len(), 0);
    assert_eq!(runes.indexes(), Vec::<usize>::new());
    assert_eq!(runes.rune_indexes(), vec![]);
    assert_eq!(runes.get(0), None);
    assert_eq!(runes.to_vec(), vec![]);
    assert_eq!(runes, Runes::default());
    assert_eq!(runes, Runes::new(""));
}

#[test]
fn indentation_defaults_to_four() {
    assert_eq!(DEFAULT_INDENT, 4);
    assert_eq!(unwrap_indent(None), 4);
    assert_eq!(unwrap_indent(Some(0)), 0);
    assert_eq!(unwrap_indent(Some(9)), 9);
}
