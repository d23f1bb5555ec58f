use gemma4_fixture::header::header_overflows;

fn with_header(header: &str) -> Vec<u8> {
    let mut file = (header.len() as u64).to_le_bytes().to_vec();
    file.extend_from_slice(header.as_bytes());
    file
}

/// A header declaring `count` chained byte tensors of 2^61 - 1 elements each.
fn chained_header(count: u64) -> String {
    let size: u64 = (1u64 << 61) - 1;
    let entries: Vec<String> = (0..count)
        .map(|k| {
            format!(
                "\"t{k}\":{{\"dtype\":\"U8\",\"shape\":[{size}],\"data_offsets\":[{},{}]}}",
                k * size,
                (k + 1) * size
            )
        })
        .collect();
    format!("{{{}}}", entries.join(","))
}

#[test]
fn data_ending_near_two_to_the_64_overflows() {
    assert!(header_overflows(&with_header(&chained_header(8))));
}

#[test]
fn data_ending_below_the_limit_does_not_overflow() {
    assert!(!header_overflows(&with_header(&chained_header(7))));
    assert!(!header_overflows(&with_header("{}")));
}

#[test]
fn invalid_headers_do_not_overflow() {
    assert!(!header_overflows(&with_header("{\"t\":{\"dtype\":\"U8\",\"shape\":[2],\"data_offsets\":[0,18446744073709551615]}}")));
    assert!(!header_overflows(&with_header("not json")));
}

#[test]
fn headers_longer_than_the_file_do_not_overflow() {
    let mut file = with_header(&chained_header(8));
    file.pop();
    assert!(!header_overflows(&file));
}

#[test]
fn short_files_have_no_header() {
    assert!(!header_overflows(b"1234567"));
    assert!(!header_overflows(&[]));
}
