use res_patcher::error::{ConfigError, Error};
use res_patcher::patch_info::{field_name, PatchInfo};
use res_patcher::signature::Signature;
use res_patcher::table::Items;

fn items_of(pairs: &[(&str, &str)]) -> Items {
    let mut items = Items::new();
    for (key, value) in pairs {
        items.insert(key.to_string(), value.to_string());
    }
    items
}

fn chain_items() -> Items {
    items_of(&[
        ("details", ""),
        ("checkfile", "swkotor.exe"),
        ("modfile", "swkotor.exe"),
        ("undofile", "swkotora.undo1"),
        ("sig", "3D20030000EFEFEFEFEFEF58020000"),
        ("sigwild", "000001111110000"),
        ("xoffset", "1"),
        ("yoffset", "11"),
        ("occur", "1"),
        ("p1modfile", "swkotor.exe"),
        ("p1undofile", "swkotora.undo2"),
        (
            "p1sig",
            "3D00040000B329EFEFEFEFEFEFEFEFEF3D00050000EFEF3D40060000",
        ),
        ("p1sigwild", "0000000111111111000001100000"),
        ("p1xoffset", "1"),
        ("p1occur", "1"),
        ("p1setx", "0"),
        ("p2modfile", "swkotor.exe"),
        ("p2undofile", "swkotora.undo3"),
        (
            "p2sig",
            "3D00040000B329EFEFEFEFEFEFEFEFEF3D00050000EFEF3D40060000",
        ),
        ("p2sigwild", "0000000111111111000001100000"),
        ("p2xoffset", "17"),
        ("p2occur", "1"),
        ("p2setx", "0"),
        ("p3modfile", "swkotor.exe"),
        ("p3undofile", "swkotora.undo4"),
        (
            "p3sig",
            "3D00040000B329EFEFEFEFEFEFEFEFEF3D00050000EFEF3D40060000",
        ),
        ("p3sigwild", "0000000111111111000001100000"),
        ("p3xoffset", "24"),
        ("p3occur", "1"),
        ("p3setx", "0"),
        ("p4modfile", "swkotor.exe"),
        ("p4undofile", "swkotorc.undom1"),
        ("p4sig", "800200007515813DD8D17800E001"),
        ("p4sigwild", "00000000000000"),
        ("p4xoffset", "0"),
        ("p4yoffset", "12"),
        ("p4occur", "1"),
        ("p5modfile", "swkotor.exe"),
        ("p5undofile", "swkotorc.undom2"),
        ("p5sig", "80020000C7442410E001"),
        ("p5sigwild", "0000000000"),
        ("p5xoffset", "0"),
        ("p5yoffset", "8"),
        ("p5occur", "1"),
    ])
}

fn minimal(extra: &[(&str, &str)]) -> Items {
    let mut items = items_of(&[
        ("sig", "8002"),
        ("sigwild", "00"),
        ("modfile", "a.exe"),
        ("occur", "1"),
    ]);
    for (key, value) in extra {
        items.insert(key.to_string(), value.to_string());
    }
    items
}

fn missing(section: &str, field: &'static str) -> Error {
    Error::ConfigError(ConfigError::MissingRequiredField {
        section: section.to_string(),
        field,
    })
}

fn field_parse(section: &str, field: &'static str, msg: &str) -> Error {
    Error::ConfigError(ConfigError::FieldParseError {
        section: section.to_string(),
        field,
        msg: msg.to_string(),
    })
}

#[test]
fn patch_info_parse_multiple_patches() {
    let section = "test";
    let items = chain_items();

    PatchInfo::from_items(section, &items, None).unwrap();
    PatchInfo::from_items(section, &items, Some(1)).unwrap();
    PatchInfo::from_items(section, &items, Some(2)).unwrap();
    PatchInfo::from_items(section, &items, Some(3)).unwrap();
    PatchInfo::from_items(section, &items, Some(4)).unwrap();
    PatchInfo::from_items(section, &items, Some(5)).unwrap();
}

#[test]
fn apply_test() {
    let info = PatchInfo {
        signature: Signature::from_string("test", "80020000C701E0010000", "0000110000").unwrap(),
        xoffset: Some(0),
        yoffset: Some(6),
        occur: 2,
        ..Default::default()
    };

    let mut data = [
        0x00, 0x00, 0x00, 0x00, 0x00, 0x00, 0x00, 0x00, 0x00, 0x00, 0x00, 0x00, 0x00, 0x00, 0x00,
        0x00, 0x00, 0x00, 0x00, 0x00, 0x80, 0x02, 0x00, 0x00, 0xC7, 0x01, 0xE0, 0x01, 0x00, 0x00,
        0x00, 0x00, 0x00, 0x00, 0x00, 0x00, 0x00, 0x00, 0x00, 0x00, 0x00, 0x00, 0x00, 0x00, 0x00,
        0x00, 0x00, 0x00, 0x00, 0x00, 0x80, 0x02, 0x00, 0x00, 0xC7, 0x01, 0xE0, 0x01, 0x00, 0x00,
    ];

    assert!(info.apply_patch(&mut data, 1920, 1080).unwrap());

    assert_eq!(
        data.as_slice(),
        [
            0x00, 0x00, 0x00, 0x00, 0x00, 0x00, 0x00, 0x00, 0x00, 0x00, 0x00, 0x00, 0x00, 0x00,
            0x00, 0x00, 0x00, 0x00, 0x00, 0x00, 0x80, 0x07, 0x00, 0x00, 0xC7, 0x01, 0x38, 0x04,
            0x00, 0x00, 0x00, 0x00, 0x00, 0x00, 0x00, 0x00, 0x00, 0x00, 0x00, 0x00, 0x00, 0x00,
            0x00, 0x00, 0x00, 0x00, 0x00, 0x00, 0x00, 0x00, 0x80, 0x07, 0x00, 0x00, 0xC7, 0x01,
            0x38, 0x04, 0x00, 0x00,
        ]
    );
}

#[test]
fn from_items_reads_every_field() {
    let items = chain_items();
    let first = PatchInfo::from_items("test", &items, None).unwrap();
    assert_eq!(first.modfile, "swkotor.exe");
    assert_eq!(first.undofile.as_deref(), Some("swkotora.undo1"));
    assert_eq!(first.signature.pattern.len(), 15);
    assert_eq!(first.signature.pattern[0], Some(0x3D));
    assert_eq!(first.signature.pattern[5], None);
    assert_eq!(first.xoffset, Some(1));
    assert_eq!(first.yoffset, Some(11));
    assert_eq!(first.occur, 1);
    assert_eq!(first.setx, None);
    assert_eq!(first.sety, None);

    let third = PatchInfo::from_items("test", &items, Some(2)).unwrap();
    assert_eq!(third.undofile.as_deref(), Some("swkotora.undo3"));
    assert_eq!(third.xoffset, Some(17));
    assert_eq!(third.yoffset, None);
    assert_eq!(third.setx, Some(0));
    assert_eq!(third.signature.pattern.len(), 28);
}

#[test]
fn field_name_puts_the_index_between_p_and_the_name() {
    assert_eq!(field_name(None, "sig"), "sig");
    assert_eq!(field_name(Some(0), "sig"), "p0sig");
    assert_eq!(field_name(Some(7), "occur"), "p7occur");
    assert_eq!(field_name(Some(42), "modfile"), "p42modfile");
    assert_eq!(field_name(Some(100), "x"), "p100x");
    assert_eq!(field_name(Some(255), "sigwild"), "p255sigwild");
}

#[test]
fn required_fields_are_missed_in_order() {
    let none = items_of(&[]);
    assert_eq!(
        PatchInfo::from_items("A", &none, None).unwrap_err(),
        missing("A", "sig")
    );
    let sig = items_of(&[("sig", "80")]);
    assert_eq!(
        PatchInfo::from_items("A", &sig, None).unwrap_err(),
        missing("A", "sigwild")
    );
    let wild = items_of(&[("sig", "80"), ("sigwild", "0")]);
    assert_eq!(
        PatchInfo::from_items("A", &wild, None).unwrap_err(),
        missing("A", "modfile")
    );
    let modfile = items_of(&[("sig", "80"), ("sigwild", "0"), ("modfile", "m")]);
    assert_eq!(
        PatchInfo::from_items("A", &modfile, None).unwrap_err(),
        missing("A", "occur")
    );
}

#[test]
fn missing_field_of_a_later_patch_names_the_bare_field() {
    let items = minimal(&[("p3sig", "80")]);
    assert_eq!(
        PatchInfo::from_items("A", &items, Some(3)).unwrap_err(),
        missing("A", "sigwild")
    );
    assert_eq!(
        PatchInfo::from_items("A", &items, Some(2)).unwrap_err(),
        missing("A", "sig")
    );
}

#[test]
fn occur_that_is_no_number_is_a_field_parse_error() {
    let bad = minimal(&[("occur", "two")]);
    assert_eq!(
        PatchInfo::from_items("A", &bad, None).unwrap_err(),
        field_parse("A", "occur", "invalid digit found in string")
    );
    let empty = minimal(&[("occur", "")]);
    assert_eq!(
        PatchInfo::from_items("A", &empty, None).unwrap_err(),
        field_parse("A", "occur", "cannot parse integer from empty string")
    );
    let large = minimal(&[("occur", "4294967296")]);
    assert_eq!(
        PatchInfo::from_items("A", &large, None).unwrap_err(),
        field_parse("A", "occur", "number too large to fit in target type")
    );
    let largest = minimal(&[("occur", "4294967295")]);
    assert_eq!(
        PatchInfo::from_items("A", &largest, None).unwrap().occur,
        4294967295
    );
}

#[test]
fn optional_numbers_that_do_not_parse_are_absent() {
    let items = minimal(&[
        ("xoffset", "-1"),
        ("yoffset", "18446744073709551616"),
        ("setx", "65536"),
        ("sety", "1 "),
    ]);
    let info = PatchInfo::from_items("A", &items, None).unwrap();
    assert_eq!(info.xoffset, None);
    assert_eq!(info.yoffset, None);
    assert_eq!(info.setx, None);
    assert_eq!(info.sety, None);
    assert_eq!(info.undofile, None);

    let items = minimal(&[
        ("xoffset", "+12"),
        ("yoffset", "18446744073709551615"),
        ("setx", "65535"),
        ("sety", "007"),
    ]);
    let info = PatchInfo::from_items("A", &items, None).unwrap();
    assert_eq!(info.xoffset, Some(12));
    assert_eq!(info.yoffset, Some(u64::MAX));
    assert_eq!(info.setx, Some(65535));
    assert_eq!(info.sety, Some(7));
}

#[test]
fn signature_fault_is_passed_on() {
    let items = minimal(&[("sig", "80"), ("sigwild", "00")]);
    assert_eq!(
        PatchInfo::from_items("A", &items, None).unwrap_err(),
        field_parse("A", "sigwild", "sigwild length does not match sig")
    );
}

fn patch(sig: &str, wild: &str, x: Option<u64>, y: Option<u64>, occur: u32) -> PatchInfo {
    PatchInfo {
        signature: Signature::from_string("t", sig, wild).unwrap(),
        xoffset: x,
        yoffset: y,
        occur,
        ..Default::default()
    }
}

#[test]
fn second_occurrence_missing_leaves_the_first_patched() {
    let info = patch("80020000C701E0010000", "0000110000", Some(0), Some(6), 2);
    let mut data = [
        0x00, 0x00, 0x80, 0x02, 0x00, 0x00, 0xC7, 0x01, 0xE0, 0x01, 0x00, 0x00, 0x00,
    ];
    assert_eq!(info.apply_patch(&mut data, 1920, 1080), Ok(false));
    assert_eq!(
        data,
        [0x00, 0x00, 0x80, 0x07, 0x00, 0x00, 0xC7, 0x01, 0x38, 0x04, 0x00, 0x00, 0x00]
    );
}

#[test]
fn values_are_written_low_byte_first() {
    let info = patch("AA", "0", Some(1), Some(3), 1);
    let mut data = [0xAA, 0, 0, 0, 0];
    assert_eq!(info.apply_patch(&mut data, 0x1234, 0xFF01), Ok(true));
    assert_eq!(data, [0xAA, 0x34, 0x12, 0x01, 0xFF]);
}

#[test]
fn zero_occurrences_change_nothing() {
    let info = patch("AA", "0", Some(0), None, 0);
    let mut data = [0xAA, 0xAA];
    assert_eq!(info.apply_patch(&mut data, 1, 2), Ok(true));
    assert_eq!(data, [0xAA, 0xAA]);
}

#[test]
fn no_offsets_only_count_the_occurrences() {
    let info = patch("AA", "0", None, None, 2);
    let mut two = [0xAA, 0x00, 0xAA];
    assert_eq!(info.apply_patch(&mut two, 1, 2), Ok(true));
    assert_eq!(two, [0xAA, 0x00, 0xAA]);
    let mut one = [0x00, 0xAA, 0x00];
    assert_eq!(info.apply_patch(&mut one, 1, 2), Ok(false));
}

#[test]
fn search_resumes_behind_the_match() {
    let info = patch("AAAA", "00", None, None, 2);
    let mut overlapping = [0xAA, 0xAA, 0xAA];
    assert_eq!(info.apply_patch(&mut overlapping, 1, 2), Ok(false));
    let mut apart = [0xAA, 0xAA, 0xAA, 0xAA];
    assert_eq!(info.apply_patch(&mut apart, 1, 2), Ok(true));
}

#[test]
fn write_outside_the_buffer_is_an_error() {
    let info = patch("AA", "0", Some(2), None, 1);
    let mut data = [0x00, 0xAA, 0x00, 0x00];
    assert_eq!(
        info.apply_patch(&mut data, 0x0102, 0),
        Err(Error::PatchError { iteration: 0 })
    );
    assert_eq!(data, [0x00, 0xAA, 0x00, 0x00]);

    let mut fits = [0x00, 0xAA, 0x00, 0x00, 0x00];
    assert_eq!(info.apply_patch(&mut fits, 0x0102, 0), Ok(true));
    assert_eq!(fits, [0x00, 0xAA, 0x00, 0x02, 0x01]);
}

#[test]
fn write_outside_the_buffer_at_a_later_occurrence_keeps_the_earlier_ones() {
    let info = patch("AA", "0", Some(1), Some(3), 2);
    let mut data = [0xAA, 0, 0, 0, 0, 0xAA, 0, 0, 0];
    assert_eq!(
        info.apply_patch(&mut data, 0x0102, 0x0304),
        Err(Error::PatchError { iteration: 1 })
    );
    assert_eq!(data, [0xAA, 0x02, 0x01, 0x04, 0x03, 0xAA, 0x02, 0x01, 0]);
}

#[test]
fn huge_offset_is_an_error_and_does_not_wrap() {
    let info = patch("AA", "0", Some(u64::MAX), None, 1);
    let mut data = [0xAA, 0, 0];
    assert_eq!(
        info.apply_patch(&mut data, 1, 1),
        Err(Error::PatchError { iteration: 0 })
    );
    assert_eq!(data, [0xAA, 0, 0]);
}

#[test]
fn rescan_finds_nothing_once_every_occurrence_is_patched() {
    let info = patch("80020000C701E0010000", "0000110000", Some(0), Some(6), 1);
    let mut data = [
        0x00, 0x80, 0x02, 0x00, 0x00, 0xC7, 0x01, 0xE0, 0x01, 0x00, 0x00,
    ];
    assert_eq!(info.apply_patch(&mut data, 1920, 1080), Ok(true));
    assert_eq!(info.signature.try_find(&data), None);
    assert_eq!(info.apply_patch(&mut data, 1920, 1080), Ok(false));
}

#[test]
fn rescan_finds_the_occurrence_that_was_left() {
    let info = patch("80020000C701E0010000", "0000110000", Some(0), Some(6), 1);
    let mut data = [
        0x80, 0x02, 0x00, 0x00, 0xC7, 0x01, 0xE0, 0x01, 0x00, 0x00, 0xFF, 0x80, 0x02, 0x00, 0x00,
        0x11, 0x22, 0xE0, 0x01, 0x00, 0x00,
    ];
    assert_eq!(info.apply_patch(&mut data, 1920, 1080), Ok(true));
    assert_eq!(info.signature.try_find(&data), Some(11));
}

#[test]
fn rescan_finds_a_match_again_when_only_wildcards_were_written() {
    let info = patch("80FFFF", "011", Some(1), None, 1);
    let mut data = [0x80, 0x00, 0x00];
    assert_eq!(info.apply_patch(&mut data, 0x0102, 0), Ok(true));
    assert_eq!(data, [0x80, 0x02, 0x01]);
    assert_eq!(info.signature.try_find(&data), Some(0));
}

#[test]
fn undo_file_is_the_named_one_or_built_from_the_path() {
    let mut info = patch("AA", "0", None, None, 1);
    assert_eq!(info.undo_file_name("dir/game.exe", 0), "dir/game.exe.undo0");
    assert_eq!(info.undo_file_name("game.exe", 12), "game.exe.undo12");
    assert_eq!(info.undo_file_name("", 100), ".undo100");
    info.undofile = Some("kept.undo".to_string());
    assert_eq!(info.undo_file_name("dir/game.exe", 3), "kept.undo");
}

#[test]
fn write_behind_the_match_can_make_a_new_match() {
    let info = patch("AA", "0", Some(0), None, 1);
    let mut data = [0xAA, 0x00];
    assert_eq!(info.apply_patch(&mut data, 0xAA00, 0), Ok(true));
    assert_eq!(data, [0x00, 0xAA]);
    assert_eq!(info.signature.try_find(&data), Some(1));
}
