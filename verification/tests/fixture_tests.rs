use gemma4_fixture::checksum::checksum;
use gemma4_fixture::fixture::{Fixture, FixtureError, InputError};

/// A safetensors file holding `(name, dtype, shape, bytes)` tensors, laid out in order.
fn safetensors_file(tensors: &[(&str, &str, &[usize], Vec<u8>)]) -> Vec<u8> {
    let mut header = String::from("{");
    let mut data = Vec::new();
    for (i, (name, dtype, shape, bytes)) in tensors.iter().enumerate() {
        if i > 0 {
            header.push(',');
        }
        let shape: Vec<String> = shape.iter().map(|d| d.to_string()).collect();
        header.push_str(&format!(
            "\"{name}\":{{\"dtype\":\"{dtype}\",\"shape\":[{}],\"data_offsets\":[{},{}]}}",
            shape.join(","),
            data.len(),
            data.len() + bytes.len()
        ));
        data.extend_from_slice(bytes);
    }
    header.push('}');
    let mut file = (header.len() as u64).to_le_bytes().to_vec();
    file.extend_from_slice(header.as_bytes());
    file.extend_from_slice(&data);
    file
}

fn f32_bytes(values: &[f32]) -> Vec<u8> {
    values.iter().flat_map(|v| v.to_le_bytes()).collect()
}

fn sample_fixture() -> Fixture {
    let input = [1u8, 2, 3, 4, 5];
    let stored = i64::from(checksum(&input, 0)) | (1i64 << 40);
    let file = safetensors_file(&[
        ("run0.sliding_project_qkv.expected.q", "F32", &[2], f32_bytes(&[1.5, -2.0])),
        ("run0.sliding_project_qkv.check.x", "I64", &[1], stored.to_le_bytes().to_vec()),
        ("run1.decoder_feedforward.expected", "F32", &[1], f32_bytes(&[0.25])),
    ]);
    Fixture::from_safetensors(&file).unwrap()
}

#[test]
fn expectations_are_found_by_run_test_and_label() {
    let fixture = sample_fixture();
    let q = fixture.expect(0, "sliding_project_qkv", "expected.q").unwrap();
    assert_eq!(*q, f32_bytes(&[1.5, -2.0]));
    let ff = fixture.expect(1, "decoder_feedforward", "expected").unwrap();
    assert_eq!(*ff, f32_bytes(&[0.25]));
    assert!(fixture.expect(1, "sliding_project_qkv", "expected.q").is_none());
}

#[test]
fn checksums_keep_the_low_32_bits() {
    let fixture = sample_fixture();
    assert_eq!(fixture.checksum(0, "sliding_project_qkv", "x"), Some(checksum(&[1, 2, 3, 4, 5], 0)));
    assert_eq!(fixture.checksum(0, "sliding_project_qkv", "y"), None);
    assert_eq!(fixture.checksum(0, "sliding_project_qkv", "expected.q"), None);
}

#[test]
fn matching_input_is_confirmed() {
    let fixture = sample_fixture();
    assert!(fixture.verify_input(0, "sliding_project_qkv", "x", &[1, 2, 3, 4, 5]).is_ok());
}

#[test]
fn diverged_input_is_reported() {
    let fixture = sample_fixture();
    match fixture.verify_input(0, "sliding_project_qkv", "x", &[1, 2, 3, 4, 6]) {
        Err(InputError::Mismatch { expected, actual }) => {
            assert_eq!(expected, checksum(&[1, 2, 3, 4, 5], 0));
            assert_eq!(actual, checksum(&[1, 2, 3, 4, 6], 0));
        }
        other => panic!("unexpected {other:?}"),
    }
}

#[test]
fn missing_checksum_is_reported() {
    let fixture = sample_fixture();
    match fixture.verify_input(2, "decoder_feedforward", "residual", &[]) {
        Err(InputError::MissingChecksum(key)) => assert_eq!(key, "run2.decoder_feedforward.check.residual"),
        other => panic!("unexpected {other:?}"),
    }
}

#[test]
fn every_expectation_is_tested() {
    assert!(sample_fixture().orphan_expectations().is_empty());
}

#[test]
fn orphan_expectations_are_listed() {
    let file = safetensors_file(&[
        ("run0.full_attention.expected", "F32", &[1], f32_bytes(&[1.0])),
        ("run0.sliding_attention_output.expected", "F32", &[1], f32_bytes(&[1.0])),
        ("run0.full_attention.check.x", "I64", &[1], 7i64.to_le_bytes().to_vec()),
    ]);
    let fixture = Fixture::from_safetensors(&file).unwrap();
    assert_eq!(fixture.orphan_expectations(), vec!["run0.full_attention.expected".to_string()]);
}

#[test]
fn unexpected_dtype_is_rejected() {
    let file = safetensors_file(&[
        ("run0.sliding_project_qkv.expected.q", "F32", &[1], f32_bytes(&[1.0])),
        ("run0.bad", "BF16", &[1], vec![0, 0]),
    ]);
    match Fixture::from_safetensors(&file) {
        Err(FixtureError::UnexpectedDtype(name)) => assert_eq!(name, "run0.bad"),
        other => panic!("unexpected {:?}", other.err()),
    }
}

#[test]
fn empty_checksum_is_rejected() {
    let file = safetensors_file(&[("run0.sliding_project_qkv.check.x", "I64", &[0], vec![])]);
    match Fixture::from_safetensors(&file) {
        Err(FixtureError::ShortChecksum(name)) => assert_eq!(name, "run0.sliding_project_qkv.check.x"),
        other => panic!("unexpected {:?}", other.err()),
    }
}

#[test]
fn non_safetensors_bytes_are_rejected() {
    assert!(matches!(Fixture::from_safetensors(b"not a safetensors file"), Err(FixtureError::Malformed(_))));
    assert!(matches!(Fixture::from_safetensors(&[]), Err(FixtureError::Malformed(_))));
}

#[test]
fn empty_fixture_has_nothing() {
    let fixture = Fixture::from_safetensors(&safetensors_file(&[])).unwrap();
    assert!(fixture.expect(0, "sliding_project_qkv", "expected.q").is_none());
    assert!(fixture.orphan_expectations().is_empty());
}

/// A file whose header declares eight byte tensors of 2^61 - 1 elements each, so that its
/// last data offset is 2^64 - 8.
fn file_with_offsets_near_two_to_the_64() -> Vec<u8> {
    let size: u64 = (1u64 << 61) - 1;
    let mut entries = Vec::new();
    for k in 0..8u64 {
        entries.push(format!(
            "\"t{k}\":{{\"dtype\":\"U8\",\"shape\":[{size}],\"data_offsets\":[{},{}]}}",
            k * size,
            (k + 1) * size
        ));
    }
    let header = format!("{{{}}}", entries.join(","));
    let mut file = (header.len() as u64).to_le_bytes().to_vec();
    file.extend_from_slice(header.as_bytes());
    file
}

#[test]
fn offsets_near_two_to_the_64_are_rejected() {
    assert!(matches!(
        Fixture::from_safetensors(&file_with_offsets_near_two_to_the_64()),
        Err(FixtureError::DataEndOverflow)
    ));
}

#[test]
fn long_digit_runs_inside_names_are_fine() {
    let name = "run0.sliding_project_qkv.expected.q1234567890123456789012345";
    let file = safetensors_file(&[(name, "F32", &[1], f32_bytes(&[3.0]))]);
    let fixture = Fixture::from_safetensors(&file).unwrap();
    let q = fixture
        .expect(0, "sliding_project_qkv", "expected.q1234567890123456789012345")
        .unwrap();
    assert_eq!(*q, f32_bytes(&[3.0]));
}

#[test]
fn escaped_quotes_do_not_end_names() {
    let name = "run0.sliding_project_qkv.a\\\"12345678901234567890";
    let file = safetensors_file(&[(name, "F32", &[1], f32_bytes(&[1.0]))]);
    let fixture = Fixture::from_safetensors(&file).unwrap();
    assert!(fixture.expect(0, "sliding_project_qkv", "a\"12345678901234567890").is_some());
}

/// A file with the single tensor entry `entry` (a JSON object or array) named `name`,
/// followed by `data`.
fn file_with_entry(name: &str, entry: &str, data: &[u8]) -> Vec<u8> {
    let header = format!("{{\"{name}\":{entry}}}");
    let mut file = (header.len() as u64).to_le_bytes().to_vec();
    file.extend_from_slice(header.as_bytes());
    file.extend_from_slice(data);
    file
}

#[test]
fn huge_dimensions_of_empty_tensors_are_fine() {
    let entry = "{\"dtype\":\"F32\",\"shape\":[0,10000000000000000000],\"data_offsets\":[0,0]}";
    let fixture =
        Fixture::from_safetensors(&file_with_entry("run0.decoder_feedforward.expected", entry, &[]))
            .unwrap();
    assert_eq!(*fixture.expect(0, "decoder_feedforward", "expected").unwrap(), Vec::<u8>::new());
}

#[test]
fn unknown_fields_with_huge_numbers_are_fine() {
    let entry = "{\"dtype\":\"F32\",\"shape\":[1],\"data_offsets\":[0,4],\"extra\":12345678901234567890}";
    let data = f32_bytes(&[2.5]);
    let fixture =
        Fixture::from_safetensors(&file_with_entry("run0.decoder_feedforward.expected", entry, &data))
            .unwrap();
    assert_eq!(*fixture.expect(0, "decoder_feedforward", "expected").unwrap(), data);
}

#[test]
fn tensor_entries_written_as_arrays_are_read() {
    let entry = "[\"F32\",[1],[0,4]]";
    let data = f32_bytes(&[-1.0]);
    let fixture =
        Fixture::from_safetensors(&file_with_entry("run0.decoder_feedforward.expected", entry, &data))
            .unwrap();
    assert_eq!(*fixture.expect(0, "decoder_feedforward", "expected").unwrap(), data);
}

#[test]
fn offsets_past_u64_are_malformed() {
    let entry = "{\"dtype\":\"U8\",\"shape\":[1],\"data_offsets\":[0,100000000000000000000]}";
    assert!(matches!(
        Fixture::from_safetensors(&file_with_entry("t", entry, &[0])),
        Err(FixtureError::Malformed(_))
    ));
}
