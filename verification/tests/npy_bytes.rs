use std::io::{self, Write};

use npyz::{DType, DTypeError, TypeStr, TypeWrite, WriterBuilder};

use z_n_gauge::arrays::DynArray;
use z_n_gauge::experiment::backup::backup::{BackUp, BackupData};
use z_n_gauge::experiment::backup::layout::{backup_dtype, RecordLayout};
use z_n_gauge::experiment::backup::npy::{
    backup_from_npy_bytes, header_text_is_ok, npy_header_is_callable, read_npy_header, save_edges_from_npy_bytes,
};
use z_n_gauge::experiment::backup::serializer::BackupWriter;
use z_n_gauge::experiment::experiment::Experiment;
use z_n_gauge::measurements::backup::backup_fragments::RunInfo;
use z_n_gauge::measurements::measurement_types::save_edges::SaveEdges;

fn to_dtype(layout: &RecordLayout) -> DType {
    match layout {
        RecordLayout::Plain(t) => DType::Plain(t.descr.parse::<TypeStr>().unwrap()),
        RecordLayout::Array(n, inner) => DType::Array(*n, Box::new(to_dtype(inner))),
        RecordLayout::Record(fields) => DType::Record(
            fields.iter().map(|f| npyz::Field { name: f.name.clone(), dtype: to_dtype(&f.layout) }).collect(),
        ),
    }
}

struct RawRow(Vec<u8>);
struct RawWriter;

impl TypeWrite for RawWriter {
    type Value = RawRow;
    fn write_one<W: Write>(&self, mut writer: W, value: &RawRow) -> io::Result<()> {
        writer.write_all(&value.0)
    }
}

impl npyz::Serialize for RawRow {
    type TypeWriter = RawWriter;
    fn writer(_dtype: &DType) -> Result<RawWriter, DTypeError> {
        Ok(RawWriter)
    }
}

fn npy_file(layout: &RecordLayout, rows: Vec<Vec<u8>>) -> Vec<u8> {
    let mut buffer = io::Cursor::new(Vec::new());
    {
        let mut writer = npyz::WriteOptions::new()
            .dtype(to_dtype(layout))
            .writer(&mut buffer)
            .begin_1d()
            .unwrap();
        for row in rows {
            writer.push(&RawRow(row)).unwrap();
        }
        writer.finish().unwrap();
    }
    buffer.into_inner()
}

fn run_info() -> RunInfo {
    RunInfo { recordings: 2, recording_skip: 3, recordings_until_backup: 2, backup_number: 4, recording_time: 77, run_id: 5 }
}

fn sample_backup() -> BackUp {
    let e = Experiment::<3>::new([1, 1, 1, 2], 9, 8, 7);
    BackUp {
        reboot_seed: e.to_seed(),
        backup_data: BackupData { recorded_data: DynArray { shape: vec![2, 3], data: vec![6, 5, 4, 3, 2, 1] } },
        run_info: run_info(),
    }
}

#[test]
fn backup_read_from_npy_bytes() {
    let backup = sample_backup();
    let layout = backup_dtype(&backup);
    let mut row = Vec::new();
    BackupWriter {}.write_one(&mut row, &backup);
    let bytes = npy_file(&layout, vec![row.clone()]);
    let (_, off, rows) = read_npy_header(&bytes).unwrap();
    assert_eq!(rows, 1);
    assert_eq!(off + row.len(), bytes.len());
    assert_eq!(backup_from_npy_bytes(&bytes), Some(backup.clone()));
    // The first of two rows is read.
    let two = npy_file(&layout, vec![row.clone(), row.clone()]);
    assert_eq!(backup_from_npy_bytes(&two), Some(backup));
}

#[test]
fn unreadable_npy_bytes_give_none() {
    let backup = sample_backup();
    let layout = backup_dtype(&backup);
    let mut row = Vec::new();
    BackupWriter {}.write_one(&mut row, &backup);
    let bytes = npy_file(&layout, vec![row]);
    assert!(backup_from_npy_bytes(&bytes[..bytes.len() - 1]).is_none());
    assert!(backup_from_npy_bytes(&bytes[..20]).is_none());
    assert!(backup_from_npy_bytes(b"not an npy file at all").is_none());
    assert!(read_npy_header(b"not an npy file at all").is_none());
    let empty = npy_file(&layout, vec![]);
    assert!(backup_from_npy_bytes(&empty).is_none());
    // A backup file is no edge-recording file: the data field is named otherwise.
    let full = npy_file(&layout, vec![{
        let mut r = Vec::new();
        BackupWriter {}.write_one(&mut r, &backup);
        r
    }]);
    assert!(save_edges_from_npy_bytes(&full).is_none());
}

#[test]
fn save_edges_read_from_npy_bytes() {
    let e = Experiment::<3>::new([1, 1, 1, 1], 1, 2, 3);
    let backup = SaveEdges::new(&e, DynArray { shape: vec![1, 4, 1, 1, 1, 1], data: vec![0, 1, 2, 1] }, run_info());
    let mut row = Vec::new();
    backup.write_record(&mut row);
    let bytes = npy_file(&backup.generate_dtype(), vec![row]);
    assert_eq!(save_edges_from_npy_bytes(&bytes), Some(backup));
    assert!(backup_from_npy_bytes(&bytes).is_none());
}

fn raw_npy(text: &str, data: &[u8]) -> Vec<u8> {
    let mut bytes = vec![0x93, b'N', b'U', b'M', b'P', b'Y', 1, 0];
    bytes.push((text.len() % 256) as u8);
    bytes.push((text.len() / 256) as u8);
    bytes.extend_from_slice(text.as_bytes());
    bytes.extend_from_slice(data);
    bytes
}

#[test]
fn npy_headers_npyz_cannot_take_are_refused() {
    // Dimensions whose product overflows a u64.
    let big = raw_npy("{'descr': '|u1', 'fortran_order': False, 'shape': (4294967296, 4294967297), }\n", &[]);
    assert!(!npy_header_is_callable(&big));
    assert!(read_npy_header(&big).is_none());
    assert!(backup_from_npy_bytes(&big).is_none());
    // The same dimensions written as a sum are refused too.
    let sum = raw_npy("{'descr': '|u1', 'fortran_order': False, 'shape': (4294967296+1, 4294967297), }\n", &[]);
    assert!(!npy_header_is_callable(&sum));
    // A header length beyond the bytes.
    let mut short = raw_npy("{'descr': '|u1', 'fortran_order': False, 'shape': (1,), }\n", &[]);
    short[8] = 255;
    short[9] = 255;
    assert!(!npy_header_is_callable(&short));
    // Deep nesting.
    let deep = raw_npy("{'descr': [[[[[[[[[[[('a', '|u1')]]]]]]]]]]], 'fortran_order': False, 'shape': (1,), }\n", &[0]);
    assert!(!npy_header_is_callable(&deep));
    // Bytes that are no npy file at all are passed on (npyz refuses them).
    assert!(npy_header_is_callable(b"plain text"));
    // A small, well-formed header is accepted and read.
    let fine = raw_npy("{'descr': '|u1', 'fortran_order': False, 'shape': (2, 3), }\n", &[1, 2, 3, 4, 5, 6]);
    assert!(npy_header_is_callable(&fine));
    let (_, off, rows) = read_npy_header(&fine).unwrap();
    assert_eq!(rows, 6);
    assert_eq!(off, fine.len() - 6);
}

#[test]
fn header_text_rules() {
    assert!(header_text_is_ok(b"{'shape': (3, 4), 'x': '(9999999999999999999999)'}"));
    assert!(!header_text_is_ok(b"{'shape': (0x10, 4)}"));
    assert!(!header_text_is_ok(b"{'shape': (1_0, 4)}"));
    assert!(!header_text_is_ok(b"{'sh\\ape': (1, 4)}"));
    assert!(!header_text_is_ok(b"{'shape': (18446744073709551616,)}"));
    assert!(header_text_is_ok(b"{'shape': (0, 18446744073709551615, 1)}"));
    assert!(!header_text_is_ok(b"{'shape': (2, 9223372036854775808)}"));
}
