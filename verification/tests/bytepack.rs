use tabletool::bytepack::{Date, TimeOfDay};
use tabletool::bytepack::{BytePacker, ByteUnpacker, Pack, PackerField, PackerFormat, Unpack};

#[test]
fn pack_unpack_format() {
    let format = PackerFormat::new(vec![
        PackerField::new("name", String::PACK_BYTES),
        PackerField::new("age", u8::PACK_BYTES),
        PackerField::new("adress", String::PACK_BYTES),
        PackerField::new("cat_names", Vec::<String>::PACK_BYTES),
    ]);

    let mut bytes = BytePacker::new(format.fixed_byte_count());
    let mut packer = bytes.fields(&format, 0);

    packer.pack("name", &"Peter".to_owned());
    packer.pack("age", &32_u8);
    packer.pack("adress", &"Peterweg 26".to_owned());
    packer.pack(
        "cat_names",
        &vec![
            "Pusheen".to_owned(),
            "Plusheen".to_owned(),
            "Gloobert".to_owned(),
        ],
    );

    let bytes = bytes.finish();

    let unpacker = ByteUnpacker::new(&bytes);
    let unpacker = unpacker.fields(&format, 0);

    let name = unpacker.unpack::<String>("name").unwrap();
    let age = unpacker.unpack::<u8>("age").unwrap();
    let adress = unpacker.unpack::<String>("adress").unwrap();
    let cat_names = unpacker.unpack::<Vec<String>>("cat_names").unwrap();

    assert_eq!(name, "Peter");
    assert_eq!(age, 32_u8);
    assert_eq!(adress, "Peterweg 26");
    assert_eq!(cat_names.len(), 3);
    assert_eq!(cat_names[0], "Pusheen");
    assert_eq!(cat_names[1], "Plusheen");
    assert_eq!(cat_names[2], "Gloobert");
}

#[test]
fn pack_unpack_no_format() {
    let value = vec!["hey".to_owned(), "123".to_owned(), "foobar".to_owned()];

    let mut packer = BytePacker::new(Vec::<String>::PACK_BYTES);

    value.pack(0, &mut packer);

    let bytes = packer.finish();

    let unpacker = ByteUnpacker::new(&bytes);

    let result = Vec::<String>::unpack(0, &unpacker);

    assert_eq!(Some(value), result);
}

use tabletool::bytepack::{PackPointer, Timestamp, Ulid};

fn packed<T: Pack>(value: &T) -> Vec<u8> {
    BytePacker::pack_value(value)
}

fn unpacked<'b, T: Unpack<'b>>(bytes: &'b [u8]) -> Option<T> {
    T::unpack(0, &ByteUnpacker::new(bytes))
}

#[test]
fn numbers_are_big_endian() {
    assert_eq!(packed(&0x12_u8), vec![0x12]);
    assert_eq!(packed(&0x1234_u16), vec![0x12, 0x34]);
    assert_eq!(packed(&0x0102_0304_u32), vec![1, 2, 3, 4]);
    assert_eq!(packed(&0x0102_0304_0506_0708_u64), vec![1, 2, 3, 4, 5, 6, 7, 8]);
    assert_eq!(
        packed(&0x0102_0304_0506_0708_090a_0b0c_0d0e_0f10_u128),
        vec![1, 2, 3, 4, 5, 6, 7, 8, 9, 10, 11, 12, 13, 14, 15, 16]
    );
    assert_eq!(packed(&-1_i8), vec![0xff]);
    assert_eq!(packed(&-2_i16), vec![0xff, 0xfe]);
    assert_eq!(packed(&i32::MIN), vec![0x80, 0, 0, 0]);
    assert_eq!(packed(&-1_i64), vec![0xff; 8]);
    assert_eq!(packed(&i128::MAX)[0], 0x7f);
}

#[test]
fn pack_bytes_match_the_width() {
    assert_eq!(u8::PACK_BYTES, 1);
    assert_eq!(i16::PACK_BYTES, 2);
    assert_eq!(u32::PACK_BYTES, 4);
    assert_eq!(i64::PACK_BYTES, 8);
    assert_eq!(u128::PACK_BYTES, 16);
    assert_eq!(bool::PACK_BYTES, 1);
    assert_eq!(String::PACK_BYTES, 8);
    assert_eq!(Option::<u8>::PACK_BYTES, 8);
    assert_eq!(Vec::<u8>::PACK_BYTES, 8);
    assert_eq!(PackPointer::PACK_BYTES, 8);
    assert_eq!(Ulid::PACK_BYTES, 16);
    assert_eq!(Timestamp::PACK_BYTES, 8);
    assert_eq!(<(u8, u32)>::PACK_BYTES, 5);
}

#[test]
fn numbers_round_trip() {
    for v in [u8::MIN, 1, 127, 128, u8::MAX] {
        assert_eq!(unpacked::<u8>(&packed(&v)), Some(v));
    }
    for v in [u16::MIN, 1, 0x1234, u16::MAX] {
        assert_eq!(unpacked::<u16>(&packed(&v)), Some(v));
    }
    for v in [u32::MIN, 1, 0xdead_beef, u32::MAX] {
        assert_eq!(unpacked::<u32>(&packed(&v)), Some(v));
    }
    for v in [u64::MIN, 1, 0xdead_beef_0011_2233, u64::MAX] {
        assert_eq!(unpacked::<u64>(&packed(&v)), Some(v));
    }
    for v in [u128::MIN, 1, u128::MAX / 3, u128::MAX] {
        assert_eq!(unpacked::<u128>(&packed(&v)), Some(v));
    }
    for v in [i8::MIN, -1, 0, 1, i8::MAX] {
        assert_eq!(unpacked::<i8>(&packed(&v)), Some(v));
    }
    for v in [i16::MIN, -1, 0, 1, i16::MAX] {
        assert_eq!(unpacked::<i16>(&packed(&v)), Some(v));
    }
    for v in [i32::MIN, -1, 0, 1, i32::MAX] {
        assert_eq!(unpacked::<i32>(&packed(&v)), Some(v));
    }
    for v in [i64::MIN, -1, 0, 1, i64::MAX] {
        assert_eq!(unpacked::<i64>(&packed(&v)), Some(v));
    }
    for v in [i128::MIN, -1, 0, 1, i128::MAX] {
        assert_eq!(unpacked::<i128>(&packed(&v)), Some(v));
    }
}

#[test]
fn booleans_are_strictly_zero_or_one() {
    assert_eq!(packed(&true), vec![1]);
    assert_eq!(packed(&false), vec![0]);
    assert_eq!(unpacked::<bool>(&[1]), Some(true));
    assert_eq!(unpacked::<bool>(&[0]), Some(false));
    assert_eq!(unpacked::<bool>(&[2]), None);
    assert_eq!(unpacked::<bool>(&[0xff]), None);
}

#[test]
fn reading_beyond_the_buffer_gives_nothing() {
    assert_eq!(unpacked::<u32>(&[1, 2, 3]), None);
    assert_eq!(unpacked::<bool>(&[]), None);
    assert_eq!(u8::unpack(1, &ByteUnpacker::new(&[7])), None);
    assert_eq!(u8::unpack(u32::MAX, &ByteUnpacker::new(&[7])), None);
    assert_eq!(unpacked::<String>(&[0, 0, 0, 8, 0, 0, 0, 1]), None);
    assert_eq!(ByteUnpacker::new(&[0, 0, 0, 9, 0, 0, 0, 0]).read_indirect(0), None);
}

#[test]
fn text_is_a_pointer_to_its_bytes() {
    let bytes = packed(&"Ann".to_owned());
    assert_eq!(bytes, vec![0, 0, 0, 8, 0, 0, 0, 3, b'A', b'n', b'n']);
    assert_eq!(unpacked::<String>(&bytes), Some("Ann".to_owned()));
    assert_eq!(unpacked::<&str>(&bytes), Some("Ann"));
    assert_eq!(unpacked::<&[u8]>(&bytes), Some(&b"Ann"[..]));
    let empty = packed(&String::new());
    assert_eq!(empty, vec![0, 0, 0, 8, 0, 0, 0, 0]);
    assert_eq!(unpacked::<String>(&empty), Some(String::new()));
    let umlaut = "Grüße, 世界".to_owned();
    assert_eq!(unpacked::<String>(&packed(&umlaut)), Some(umlaut));
}

#[test]
fn str_and_bytes_pack_like_text() {
    let mut packer = BytePacker::new(8);
    "Ann".pack(0, &mut packer);
    assert_eq!(packer.finish(), packed(&"Ann".to_owned()));
    let mut packer = BytePacker::new(8);
    b"Ann"[..].pack(0, &mut packer);
    assert_eq!(packer.finish(), packed(&"Ann".to_owned()));
}

#[test]
fn text_that_is_no_utf8_is_refused() {
    let bytes = vec![0, 0, 0, 8, 0, 0, 0, 2, 0xc3, 0x28];
    assert_eq!(unpacked::<String>(&bytes), None);
    assert_eq!(unpacked::<&str>(&bytes), None);
    assert_eq!(unpacked::<&[u8]>(&bytes), Some(&[0xc3_u8, 0x28][..]));
}

#[test]
fn nothing_is_the_null_pointer() {
    assert_eq!(packed(&None::<u32>), vec![0; 8]);
    assert_eq!(packed(&None::<String>), vec![0; 8]);
    assert_eq!(unpacked::<Option<u32>>(&[0; 8]), Some(None));
    assert_eq!(PackPointer::null(), PackPointer { offset: 0, len: 0 });
}

#[test]
fn something_is_packed_behind_a_pointer() {
    let bytes = packed(&Some(0x0102_0304_u32));
    assert_eq!(bytes, vec![0, 0, 0, 8, 0, 0, 0, 4, 1, 2, 3, 4]);
    assert_eq!(unpacked::<Option<u32>>(&bytes), Some(Some(0x0102_0304)));
    let nested = Some(Some("x".to_owned()));
    assert_eq!(unpacked::<Option<Option<String>>>(&packed(&nested)), Some(nested));
    let inner_none: Option<Option<u8>> = Some(None);
    assert_eq!(unpacked::<Option<Option<u8>>>(&packed(&inner_none)), Some(inner_none));
}

#[test]
fn a_tag_is_not_taken_for_nothing() {
    // Offset zero with a length that is not zero is a tag, not the null pointer:
    // as an optional value it is something, read at offset zero.
    let bytes = vec![0, 0, 0, 0, b'b', b'o', b'o', b'l'];
    assert_eq!(unpacked::<Option<u8>>(&bytes), Some(Some(0)));
    assert_eq!(unpacked::<PackPointer>(&bytes).unwrap().inline_tag(), Some(*b"bool"));
    assert_eq!(PackPointer::inline(*b"text"), PackPointer { offset: 0, len: 0x7465_7874 });
    assert_eq!(PackPointer { offset: 8, len: 4 }.inline_tag(), None);
}

#[test]
fn sequences_round_trip() {
    let numbers = vec![1_u16, 2, 3];
    let bytes = packed(&numbers);
    assert_eq!(bytes, vec![0, 0, 0, 8, 0, 0, 0, 6, 0, 1, 0, 2, 0, 3]);
    assert_eq!(unpacked::<Vec<u16>>(&bytes), Some(numbers));
    let empty: Vec<u64> = vec![];
    assert_eq!(unpacked::<Vec<u64>>(&packed(&empty)), Some(empty));
    let nested = vec![vec!["a".to_owned()], vec![], vec!["b".to_owned(), "c".to_owned()]];
    assert_eq!(unpacked::<Vec<Vec<String>>>(&packed(&nested)), Some(nested));
    let optional = vec![Some(1_i32), None, Some(-3)];
    assert_eq!(unpacked::<Vec<Option<i32>>>(&packed(&optional)), Some(optional));
}

#[test]
fn a_sequence_fails_as_a_whole() {
    // Three booleans, the second of which is no boolean.
    let bytes = vec![0, 0, 0, 8, 0, 0, 0, 3, 1, 7, 0];
    assert_eq!(unpacked::<Vec<bool>>(&bytes), None);
    // Slots that lie beyond the buffer.
    let bytes = vec![0, 0, 0, 8, 0, 0, 0, 3, 1];
    assert_eq!(unpacked::<Vec<bool>>(&bytes), None);
}

#[test]
fn pairs_lie_side_by_side() {
    let bytes = packed(&(0x0102_u16, 0x0304_0506_u32));
    assert_eq!(bytes, vec![1, 2, 3, 4, 5, 6]);
    assert_eq!(unpacked::<(u16, u32)>(&bytes), Some((0x0102, 0x0304_0506)));
    let pair = ("Ann".to_owned(), 7_u8);
    let bytes = packed(&pair);
    assert_eq!(&bytes[..9], &[0, 0, 0, 9, 0, 0, 0, 3, 7]);
    assert_eq!(u8::unpack(8, &ByteUnpacker::new(&bytes)), Some(7));
    assert_eq!(unpacked::<(String, u8)>(&bytes), Some(pair));
}

#[test]
fn offsets_do_not_depend_on_values() {
    for (name, age) in [("", 0_u8), ("Ann", 7), ("A much longer name", 255)] {
        let bytes = packed(&(name.to_owned(), age));
        assert_eq!(u8::unpack(String::PACK_BYTES, &ByteUnpacker::new(&bytes)), Some(age));
        assert_eq!(String::unpack(0, &ByteUnpacker::new(&bytes)), Some(name.to_owned()));
    }
}

#[test]
fn format_offsets_are_running_sums() {
    let format = PackerFormat::new(vec![
        PackerField::new("a", 4),
        PackerField::new("b", 1),
        PackerField::new("c", 16),
        PackerField::new("b", 8),
    ]);
    assert_eq!(format.fixed_byte_count(), 29);
    let offsets: Vec<u32> = format.fields().iter().map(|f| f.pointer.offset).collect();
    assert_eq!(offsets, vec![0, 4, 5, 21]);
    let lens: Vec<u32> = format.fields().iter().map(|f| f.pointer.len).collect();
    assert_eq!(lens, vec![4, 1, 16, 8]);
    // The first field of a name is the one that is found.
    assert_eq!(format.field("b").unwrap().pointer, PackPointer { offset: 4, len: 1 });
    assert!(format.field("d").is_none());
    let empty = PackerFormat::new(vec![]);
    assert_eq!(empty.fixed_byte_count(), 0);
}

#[test]
fn format_of_given_slots() {
    let format = PackerFormat::new(vec![PackerField::new("a", 4)]);
    let copy = PackerFormat::new_ptrs(format.fields().to_vec(), 4);
    assert_eq!(copy, format);
}

#[test]
fn unknown_fields_are_passed_over() {
    let format = PackerFormat::new(vec![PackerField::new("a", 1)]);
    let mut bytes = BytePacker::new(format.fixed_byte_count());
    let mut packer = bytes.fields(&format, 0);
    packer.pack("b", &7_u8);
    assert_eq!(bytes.finish(), vec![0]);
    let bytes = [9_u8];
    let unpacker = ByteUnpacker::new(&bytes);
    let fields = unpacker.fields(&format, 0);
    assert_eq!(fields.unpack::<u8>("a"), Some(9));
    assert_eq!(fields.unpack::<u8>("b"), None);
}

#[test]
fn packer_primitives() {
    let mut packer = BytePacker::new(2);
    packer.pack_bytes(1, &[9]);
    let ptr = packer.push_dynamic(&[1, 2, 3]);
    assert_eq!(ptr, PackPointer { offset: 2, len: 3 });
    let ptr = packer.reserve_dynamic_bytes(2);
    assert_eq!(ptr, PackPointer { offset: 5, len: 2 });
    assert_eq!(packer.finish(), vec![0, 9, 1, 2, 3, 0, 0]);

    let mut packer = BytePacker::new(8);
    packer.pack_bytes_indirect(0, &[5, 6]);
    assert_eq!(packer.finish(), vec![0, 0, 0, 8, 0, 0, 0, 2, 5, 6]);

    let mut packer = BytePacker::new(8);
    packer.pack_indirect(0, &0x0a0b_u16);
    assert_eq!(packer.finish(), vec![0, 0, 0, 8, 0, 0, 0, 2, 0x0a, 0x0b]);
}

#[test]
fn unpacker_primitives() {
    let bytes = [0, 0, 0, 8, 0, 0, 0, 2, 5, 6];
    let unpacker = ByteUnpacker::new(&bytes);
    assert_eq!(unpacker.len(), 10);
    assert_eq!(unpacker.read_bytes(PackPointer { offset: 8, len: 2 }), &[5, 6]);
    assert_eq!(unpacker.read_indirect(0), Some(&[5_u8, 6][..]));
    assert_eq!(PackPointer::unpack(0, &unpacker), Some(PackPointer { offset: 8, len: 2 }));
    assert_eq!(PackPointer::unpack(4, &unpacker), None);
}

#[test]
fn pointers_round_trip() {
    let ptr = PackPointer { offset: 0x0102_0304, len: 0x0506_0708 };
    assert_eq!(packed(&ptr), vec![1, 2, 3, 4, 5, 6, 7, 8]);
    assert_eq!(unpacked::<PackPointer>(&packed(&ptr)), Some(ptr));
}

#[test]
fn identifiers_pack_as_their_number() {
    let id = Ulid(0x0102_0304_0506_0708_090a_0b0c_0d0e_0f10);
    assert_eq!(packed(&id), packed(&id.0));
    assert_eq!(unpacked::<Ulid>(&packed(&id)), Some(id));
}

#[test]
fn timestamps_pack_as_their_seconds() {
    let time = Timestamp(1_431_648_000);
    assert_eq!(packed(&time), packed(&1_431_648_000_i64));
    assert_eq!(unpacked::<Timestamp>(&packed(&time)), Some(time));
    assert_eq!(Timestamp::from_secs(-1), Some(Timestamp(-1)));
    assert_eq!(Timestamp(5).secs(), 5);
}

#[test]
fn timestamps_without_a_date_are_refused() {
    assert_eq!(Timestamp::from_secs(i64::MAX), None);
    assert_eq!(Timestamp::from_secs(i64::MIN), None);
    assert_eq!(unpacked::<Timestamp>(&packed(&i64::MAX)), None);
}

#[test]
fn dates_pack_as_days() {
    assert_eq!(Date::PACK_BYTES, 4);
    let day = Date::from_epoch_days(13036).unwrap();
    assert_eq!(day.to_epoch_days(), 13036);
    let bytes = BytePacker::pack_value(&day);
    assert_eq!(bytes, 13036i32.to_be_bytes().to_vec());
    assert_eq!(Date::unpack(0, &ByteUnpacker::new(&bytes)), Some(day));
    let early = Date::from_epoch_days(-719_162).unwrap();
    let bytes = BytePacker::pack_value(&early);
    assert_eq!(Date::unpack(0, &ByteUnpacker::new(&bytes)), Some(early));
    assert_eq!(Date::from_epoch_days(100_000_000), None);
    assert_eq!(Date::from_epoch_days(-100_000_000), None);
    assert_eq!(Date::unpack(0, &ByteUnpacker::new(&100_000_000i32.to_be_bytes())), None);
    assert_eq!(Date::unpack(0, &ByteUnpacker::new(&[0, 0, 0])), None);
}

#[test]
fn times_of_day_pack_as_seconds() {
    assert_eq!(TimeOfDay::PACK_BYTES, 4);
    let noon = TimeOfDay::from_secs(43_200).unwrap();
    assert_eq!(noon.secs(), 43_200);
    let bytes = BytePacker::pack_value(&noon);
    assert_eq!(bytes, vec![0, 0, 0xa8, 0xc0]);
    assert_eq!(TimeOfDay::unpack(0, &ByteUnpacker::new(&bytes)), Some(noon));
    assert_eq!(TimeOfDay::from_secs(86_399), Some(TimeOfDay(86_399)));
    assert_eq!(TimeOfDay::from_secs(86_400), None);
    assert_eq!(TimeOfDay::unpack(0, &ByteUnpacker::new(&86_400u32.to_be_bytes())), None);
    assert_eq!(TimeOfDay::unpack(0, &ByteUnpacker::new(&86_399u32.to_be_bytes())), Some(TimeOfDay(86_399)));
}

#[test]
fn the_first_and_the_last_instant_with_a_date() {
    let first: i64 = -8_334_601_228_800;
    let last: i64 = 8_210_266_876_799;
    assert_eq!(Timestamp::from_secs(first), Some(Timestamp(first)));
    assert_eq!(Timestamp::from_secs(first - 1), None);
    assert_eq!(Timestamp::from_secs(last), Some(Timestamp(last)));
    assert_eq!(Timestamp::from_secs(last + 1), None);
    assert_eq!(Timestamp::from_secs(i64::MIN), None);
    assert_eq!(Timestamp::from_secs(i64::MAX), None);
    for secs in [first, -1, 0, 1, 86_399, 86_400, last] {
        let bytes = BytePacker::pack_value(&Timestamp(secs));
        assert_eq!(Timestamp::unpack(0, &ByteUnpacker::new(&bytes)), Some(Timestamp(secs)));
    }
}

#[test]
fn the_first_and_the_last_day_with_a_date() {
    let first: i32 = -96_465_292;
    let last: i32 = 95_026_236;
    assert_eq!(Date::from_epoch_days(first), Some(Date(first)));
    assert_eq!(Date::from_epoch_days(first - 1), None);
    assert_eq!(Date::from_epoch_days(last), Some(Date(last)));
    assert_eq!(Date::from_epoch_days(last + 1), None);
    assert_eq!(Date::from_epoch_days(i32::MIN), None);
    assert_eq!(Date::from_epoch_days(i32::MAX), None);
    for days in [first, -1, 0, 1, last] {
        let bytes = BytePacker::pack_value(&Date(days));
        assert_eq!(Date::unpack(0, &ByteUnpacker::new(&bytes)), Some(Date(days)));
    }
}
