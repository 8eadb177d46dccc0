use hftlive::engine::OrderLatencyRow;
use hftlive::latency_data::read_latency_npy;
use hftlive::npy::{write_npy, Field, NpyDTyped, NpyError, NpyHeader};
use hftlive::npy_header::{parse_npy_header, read_npy_header};

fn field(name: &str, ty: &str) -> Field {
    Field { name: name.to_string(), ty: ty.to_string() }
}

fn event_fields() -> Vec<Field> {
    vec![field("ev", "<u8"), field("exch_ts", "<i8"), field("px", "<f8")]
}

fn file_with_header(text: &str) -> Vec<u8> {
    let mut bytes = b"\x93NUMPY\x01\x00".to_vec();
    bytes.extend_from_slice(&(text.len() as u16).to_le_bytes());
    bytes.extend_from_slice(text.as_bytes());
    bytes
}

#[test]
fn padded_header_reads_back_as_the_header() {
    let header = NpyHeader { descr: event_fields(), fortran_order: false, shape: vec![3] };
    let text = header.to_string_padding();

    assert_eq!(parse_npy_header(text.as_bytes()), Ok(header));
}

#[test]
fn header_in_fortran_order_with_two_dimensions_reads_back() {
    let header = NpyHeader { descr: vec![field("a", "<i4")], fortran_order: true, shape: vec![2, 10] };
    let text = header.to_string_padding();

    assert_eq!(parse_npy_header(text.as_bytes()), Ok(header));
}

#[test]
fn header_keys_may_come_in_any_order_with_spacing_and_trailing_commas() {
    let text = " {'shape' : ( 4 , ) ,'fortran_order':False,\n 'descr':[ ( 'a' , '<i8' , ) , ] , }  \n";

    let header = parse_npy_header(text.as_bytes()).unwrap();

    assert_eq!(header.descr, vec![field("a", "<i8")]);
    assert!(!header.fortran_order);
    assert_eq!(header.shape, vec![4]);
}

#[test]
fn a_missing_key_keeps_its_default_and_a_repeated_key_keeps_its_last_value() {
    let text = "{'shape': (1,), 'shape': (7, 8)}";

    let header = parse_npy_header(text.as_bytes()).unwrap();

    assert!(header.descr.is_empty());
    assert!(!header.fortran_order);
    assert_eq!(header.shape, vec![7, 8]);
}

#[test]
fn empty_dictionary_gives_the_default_header() {
    let header = parse_npy_header(b"{}").unwrap();

    assert_eq!(header, NpyHeader { descr: vec![], fortran_order: false, shape: vec![] });
}

#[test]
fn header_text_outside_the_grammar_is_invalid() {
    for text in [
        "",
        "{",
        "{'descr': [], 'unknown': 1}",
        "{'fortran_order': 0}",
        "{'shape': (1,)} x",
        "{'descr': [('a')]}",
        "{'shape': (18446744073709551616,)}",
        "{'descr': [('a', \"<i8\")]}",
    ] {
        assert_eq!(parse_npy_header(text.as_bytes()), Err(NpyError::InvalidHeader), "{text}");
    }
}

#[test]
fn header_bytes_that_are_not_utf8_are_invalid() {
    assert_eq!(parse_npy_header(&[b'{', 0xff, b'}']), Err(NpyError::InvalidHeader));
}

#[test]
fn a_written_file_is_read_back_with_its_data_offset() {
    let data = [7u8; 48];
    let mut out = Vec::new();
    write_npy(&mut out, event_fields(), 2, &data);

    let (offset, header) = read_npy_header(&out, &event_fields()).unwrap();

    assert_eq!(offset % 64, 0);
    assert_eq!(offset + data.len(), out.len());
    assert_eq!(header, NpyHeader { descr: event_fields(), fortran_order: false, shape: vec![2] });
    assert_eq!(&out[offset..], &data[..]);
}

#[test]
fn field_names_may_differ_but_types_must_agree() {
    let mut out = Vec::new();
    write_npy(&mut out, event_fields(), 1, &[0u8; 24]);
    let renamed = vec![field("a", "<u8"), field("b", "<i8"), field("c", "<f8")];
    let retyped = vec![field("ev", "<u8"), field("exch_ts", "<f8"), field("px", "<f8")];

    assert!(read_npy_header(&out, &renamed).is_ok());
    assert_eq!(
        read_npy_header(&out, &retyped),
        Err(NpyError::DtypeMismatch { expected: field("exch_ts", "<f8"), found: field("exch_ts", "<i8") })
    );
    assert_eq!(read_npy_header(&out, &event_fields()[..2].to_vec()), Err(NpyError::FieldCountMismatch));
}

#[test]
fn read_rejects_fortran_order_and_more_than_one_dimension() {
    let fortran = NpyHeader { descr: event_fields(), fortran_order: true, shape: vec![1] };
    let two_dims = NpyHeader { descr: event_fields(), fortran_order: false, shape: vec![1, 1] };

    let fortran_file = file_with_header(&fortran.to_string_padding());
    let two_dims_file = file_with_header(&two_dims.to_string_padding());

    assert_eq!(read_npy_header(&fortran_file, &event_fields()), Err(NpyError::FortranOrder));
    assert_eq!(read_npy_header(&two_dims_file, &event_fields()), Err(NpyError::NotOneDimensional));
}

#[test]
fn read_rejects_data_that_does_not_start_on_a_cache_line() {
    let file = file_with_header("{'descr': [('ev', '<u8')], 'fortran_order': False, 'shape': (1,)}\n");

    assert_eq!(read_npy_header(&file, &vec![field("ev", "<u8")]), Err(NpyError::Misaligned));
}

#[test]
fn read_rejects_a_header_that_is_not_a_dictionary() {
    let file = file_with_header("not a dictionary");

    assert_eq!(read_npy_header(&file, &event_fields()), Err(NpyError::InvalidHeader));
}

#[test]
fn read_rejects_a_bad_magic_and_an_unsupported_version() {
    let mut out = Vec::new();
    write_npy(&mut out, event_fields(), 0, &[]);
    let mut bad_magic = out.clone();
    bad_magic[1] = b'X';
    let mut version_two = out.clone();
    version_two[6] = 2;

    assert_eq!(read_npy_header(&bad_magic, &event_fields()), Err(NpyError::BadMagic));
    assert_eq!(read_npy_header(&version_two, &event_fields()), Err(NpyError::UnsupportedVersion));
}

fn latency_bytes(rows: &[[i64; 4]]) -> Vec<u8> {
    let mut bytes = Vec::new();
    for row in rows {
        for value in row {
            bytes.extend_from_slice(&value.to_le_bytes());
        }
    }
    bytes
}

#[test]
fn latency_rows_are_read_back_from_a_written_file() {
    let values = [[100, 110, 130, 0], [200, -5, 240, 0]];
    let mut out = Vec::new();
    write_npy(&mut out, OrderLatencyRow::descr(), values.len(), &latency_bytes(&values));

    let rows = read_latency_npy(&out).unwrap();

    assert_eq!(
        rows,
        vec![
            OrderLatencyRow { req_ts: 100, exch_ts: 110, resp_ts: 130, _padding: 0 },
            OrderLatencyRow { req_ts: 200, exch_ts: -5, resp_ts: 240, _padding: 0 },
        ]
    );
}

#[test]
fn latency_rows_need_the_latency_field_types() {
    let mut out = Vec::new();
    write_npy(&mut out, vec![field("req_ts", "<f8"), field("exch_ts", "<i8"), field("resp_ts", "<i8"), field("_padding", "<i8")], 0, &[]);

    assert!(matches!(read_latency_npy(&out), Err(NpyError::DtypeMismatch { .. })));
}

#[test]
fn a_partial_last_record_is_not_read() {
    let mut out = Vec::new();
    let mut bytes = latency_bytes(&[[1, 2, 3, 0]]);
    bytes.extend_from_slice(&[9u8; 7]);
    write_npy(&mut out, OrderLatencyRow::descr(), 1, &bytes);

    assert_eq!(read_latency_npy(&out).unwrap(), vec![OrderLatencyRow { req_ts: 1, exch_ts: 2, resp_ts: 3, _padding: 0 }]);
}
