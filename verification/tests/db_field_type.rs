use tabletool::bytepack::{BytePacker, ByteUnpacker, Pack, PackerField, PackerFormat, Unpack};
use tabletool::db::{FieldType, NumberFieldType, Table, TableCreateErr, TableField};

#[test]
fn field_type_pack_unpack() {
    let fields = vec![
        FieldType::Number(NumberFieldType::U8),
        FieldType::Text,
        FieldType::Record {
            table_name: "user".into(),
        },
        FieldType::List {
            ty: Box::new(FieldType::List {
                ty: Box::new(FieldType::Record {
                    table_name: "pet".into(),
                }),
            }),
        },
    ];

    let format = PackerFormat::new(
        vec![TableField::new(
            "fields",
            FieldType::List {
                ty: Box::new(FieldType::Number(NumberFieldType::U8)),
            },
        )]
        .into_iter()
        .map(Into::into)
        .collect(),
    );

    let mut bytes = BytePacker::new(format.fixed_byte_count());
    let mut packer = bytes.fields(&format, 0);

    packer.pack("fields", &fields);

    let bytes = bytes.finish();

    let unpacker = ByteUnpacker::new(&bytes);
    let unpacker = unpacker.fields(&format, 0);

    let fields_unpack = unpacker.unpack::<Vec<FieldType>>("fields").unwrap();

    assert_eq!(fields_unpack, fields);
}

#[test]
fn table_pack_unpack() {
    let table = Table::new(
        vec![TableField::new("name", FieldType::Text)],
        Some("name".into()),
    )
    .unwrap();

    let mut packer = BytePacker::new(Table::PACK_BYTES);
    table.pack(0, &mut packer);

    let bytes = packer.finish();

    let unpacker = ByteUnpacker::new(&bytes);

    let result = Table::unpack(0, &unpacker);

    assert_eq!(Some(table), result);
}

#[test]
fn field_type_tags_are_written_as_text() {
    let bytes = BytePacker::pack_value(&FieldType::Number(NumberFieldType::U16));
    assert_eq!(bytes, vec![0, 0, 0, 0, b'u', b'1', b'6', b' ']);
    let bytes = BytePacker::pack_value(&FieldType::Text);
    assert_eq!(bytes, vec![0, 0, 0, 0, b't', b'e', b'x', b't']);
    let bytes = BytePacker::pack_value(&FieldType::DateTime);
    assert_eq!(bytes, vec![0, 0, 0, 0, b'd', b'a', b't', b'i']);
}

#[test]
fn field_type_record_is_tag_and_name() {
    let ty = FieldType::Record { table_name: "pet".into() };
    let bytes = BytePacker::pack_value(&ty);
    assert_eq!(
        bytes,
        vec![0, 0, 0, 8, 0, 0, 0, 7, b'r', b'c', b'r', b'd', b'p', b'e', b't']
    );
    assert_eq!(FieldType::unpack(0, &ByteUnpacker::new(&bytes)), Some(ty));
}

#[test]
fn field_type_optional_nests() {
    let ty = FieldType::Optional { ty: Box::new(FieldType::Number(NumberFieldType::I64)) };
    let bytes = BytePacker::pack_value(&ty);
    assert_eq!(
        bytes,
        vec![
            0, 0, 0, 8, 0, 0, 0, 12, b'o', b'p', b't', b'i', 0, 0, 0, 0, b'i', b'6', b'4', b' '
        ]
    );
    assert_eq!(FieldType::unpack(0, &ByteUnpacker::new(&bytes)), Some(ty));
}

#[test]
fn field_type_unknown_tag_is_refused() {
    let bytes = vec![0, 0, 0, 0, b'n', b'o', b'p', b'e'];
    assert_eq!(FieldType::unpack(0, &ByteUnpacker::new(&bytes)), None);
}

#[test]
fn field_type_cyclic_pointer_is_refused() {
    // A list whose element type is stored where the list itself is.
    let bytes = vec![
        0, 0, 0, 8, 0, 0, 0, 12, b'l', b'i', b's', b't', 0, 0, 0, 8, 0, 0, 0, 12,
    ];
    assert_eq!(FieldType::unpack(0, &ByteUnpacker::new(&bytes)), None);
}

#[test]
fn field_type_byte_counts() {
    assert_eq!(FieldType::Number(NumberFieldType::U8).byte_count(), 1);
    assert_eq!(FieldType::Number(NumberFieldType::I16).byte_count(), 2);
    assert_eq!(FieldType::Number(NumberFieldType::U32).byte_count(), 4);
    assert_eq!(FieldType::Number(NumberFieldType::I64).byte_count(), 8);
    assert_eq!(FieldType::Number(NumberFieldType::U128).byte_count(), 16);
    assert_eq!(FieldType::DateTime.byte_count(), 8);
    assert_eq!(FieldType::Text.byte_count(), 8);
    assert_eq!(FieldType::Record { table_name: "a".into() }.byte_count(), 16);
    assert_eq!(FieldType::List { ty: Box::new(FieldType::Text) }.byte_count(), 8);
    assert_eq!(FieldType::Optional { ty: Box::new(FieldType::Text) }.byte_count(), 8);
}

#[test]
fn table_refuses_duplicate_field_names() {
    let out = Table::new(
        vec![
            TableField::new("name", FieldType::Text),
            TableField::new("name", FieldType::DateTime),
        ],
        None,
    );
    assert_eq!(out, Err(TableCreateErr::DuplicateFieldName));
}

#[test]
fn table_refuses_unknown_display_field() {
    let out = Table::new(vec![TableField::new("name", FieldType::Text)], Some("title".into()));
    assert_eq!(out, Err(TableCreateErr::MainDisplayFieldNameInvalid));
}

#[test]
fn table_finds_fields_and_lays_them_out() {
    let table = Table::new(
        vec![
            TableField::new("name", FieldType::Text),
            TableField::new("age", FieldType::Number(NumberFieldType::U8)),
            TableField::new("owner", FieldType::Record { table_name: "user".into() }),
        ],
        Some("name".into()),
    )
    .unwrap();
    assert_eq!(table.field("age").map(|f| f.name()), Some("age"));
    assert_eq!(table.field("nope"), None);
    assert_eq!(table.main_display_field(), Some("name"));
    assert_eq!(table.fields().len(), 3);
    let format = table.packer_format();
    assert_eq!(format.fixed_byte_count(), 25);
    assert_eq!(format.field("name").unwrap().pointer.offset, 0);
    assert_eq!(format.field("age").unwrap().pointer.offset, 8);
    assert_eq!(format.field("owner").unwrap().pointer.offset, 9);
    assert_eq!(format.field("owner").unwrap().pointer.len, 16);
    let field: PackerField = TableField::new("age", FieldType::Number(NumberFieldType::U8)).into();
    assert_eq!(field.size, 1);
}

#[test]
fn types_are_shown_by_name() {
    assert_eq!(FieldType::Number(NumberFieldType::U8).to_text(), "u8");
    assert_eq!(FieldType::Number(NumberFieldType::I128).to_text(), "i128");
    assert_eq!(FieldType::DateTime.to_text(), "datetime");
    assert_eq!(FieldType::Text.to_text(), "Text");
    assert_eq!(FieldType::Record { table_name: "user".into() }.to_text(), "record<user>");
    let nested = FieldType::List {
        ty: Box::new(FieldType::Optional { ty: Box::new(FieldType::Number(NumberFieldType::I32)) }),
    };
    assert_eq!(nested.to_text(), "list<option<i32>>");
}
