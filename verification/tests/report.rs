use gguf::dump::{exit_code_for, format_shape, print_text, truncate, ReportOptions};
use gguf::dump_json::print_json;
use gguf::lookup::{ids_by_token, merges_containing, token_by_id};
use gguf::sizes::{human_size, megabytes, with_commas};
use gguf::types::Piece;
use gguf::{GgufError, GgufFile, Json};

fn put_str(buf: &mut Vec<u8>, s: &str) {
    buf.extend_from_slice(&(s.len() as u64).to_le_bytes());
    buf.extend_from_slice(s.as_bytes());
}

fn pair(key: &str, ty: i32, value: &[u8]) -> Vec<u8> {
    let mut b = Vec::new();
    put_str(&mut b, key);
    b.extend_from_slice(&ty.to_le_bytes());
    b.extend_from_slice(value);
    b
}

fn text(key: &str, s: &str) -> Vec<u8> {
    let mut v = Vec::new();
    put_str(&mut v, s);
    pair(key, 8, &v)
}

fn number(key: &str, n: u32) -> Vec<u8> {
    pair(key, 4, &n.to_le_bytes())
}

fn strings(key: &str, items: &[&str]) -> Vec<u8> {
    let mut v = 8i32.to_le_bytes().to_vec();
    v.extend_from_slice(&(items.len() as i64).to_le_bytes());
    for s in items {
        put_str(&mut v, s);
    }
    pair(key, 9, &v)
}

fn file(kvs: &[Vec<u8>], tensors: &[(String, Vec<i64>, i32, u64)]) -> GgufFile {
    let mut buf = Vec::new();
    buf.extend_from_slice(&0x46554747u32.to_le_bytes());
    buf.extend_from_slice(&3u32.to_le_bytes());
    buf.extend_from_slice(&(tensors.len() as i64).to_le_bytes());
    buf.extend_from_slice(&(kvs.len() as i64).to_le_bytes());
    for kv in kvs {
        buf.extend_from_slice(kv);
    }
    for (name, dims, dtype, offset) in tensors {
        put_str(&mut buf, name);
        buf.extend_from_slice(&(dims.len() as u32).to_le_bytes());
        for d in dims {
            buf.extend_from_slice(&d.to_le_bytes());
        }
        buf.extend_from_slice(&dtype.to_le_bytes());
        buf.extend_from_slice(&offset.to_le_bytes());
    }
    buf.resize(buf.len() + 2048, 0);
    GgufFile::from_buffer(&buf).unwrap()
}

fn sample() -> GgufFile {
    file(
        &[
            text("general.architecture", "llama"),
            text("general.name", "TestModel"),
            number("llama.block_count", 32),
            number("general.alignment", 32),
        ],
        &[
            ("token_embd.weight".to_string(), vec![128, 4096], 30, 0),
            ("output.weight".to_string(), vec![4096], 0, 1048576),
        ],
    )
}

fn options() -> ReportOptions {
    ReportOptions {
        tensors_all: false,
        max_kv: 200,
        keys: Vec::new(),
        summary_only: false,
        quiet: false,
    }
}

fn shown(f: &GgufFile, o: &ReportOptions) -> Vec<String> {
    print_text(f, "test.gguf", o)
        .into_iter()
        .map(|line| {
            line.into_iter()
                .map(|p| match p {
                    Piece::Text(s) => s,
                    Piece::Number(b) => format!("{}", f64::from_bits(b)),
                })
                .collect()
        })
        .collect()
}

fn member<'a>(j: &'a Json, key: &str) -> &'a Json {
    match j {
        Json::Object(m) => &m.iter().find(|(k, _)| k == key).unwrap().1,
        other => panic!("{other:?}"),
    }
}

fn keys(j: &Json) -> Vec<&str> {
    match j {
        Json::Object(m) => m.iter().map(|(k, _)| k.as_str()).collect(),
        other => panic!("{other:?}"),
    }
}

#[test]
fn report_has_its_lines() {
    let lines = shown(&sample(), &options());
    assert_eq!(lines[0], "GGUF File: test.gguf");
    assert_eq!(lines[1], "=====================");
    assert_eq!(lines[3], "Version:         3");
    assert_eq!(lines[4], "Tensors:         2");
    assert_eq!(lines[5], "KV pairs:        4");
    assert_eq!(lines[6], "Alignment:       32");
    assert_eq!(lines[8], "Architecture:    llama");
    assert_eq!(lines[9], "Model name:      TestModel");
    assert_eq!(lines[11], "Key-Value Metadata (showing 4 of 4):");
    assert_eq!(
        lines[14],
        format!("  {:<38} uint32 U32(32)", "llama.block_count")
    );
    assert_eq!(lines[17], "Tensors (showing first 2 of 2):");
    assert_eq!(
        lines[18],
        format!("  {:<40} {:<24} {:<14} {:>16} {:>18}", "NAME", "SHAPE", "TYPE", "OFFSET", "SIZE")
    );
    assert_eq!(
        lines[19],
        format!(
            "  {:<40} {:<24} BF16 {:>16} {:>18}",
            "token_embd.weight", "[128, 4096]", "0", "1,048,576"
        )
    );
    assert_eq!(
        lines[20],
        format!(
            "  {:<40} {:<24} F32 {:>16} {:>18}",
            "output.weight", "[4096]", "1,048,576", "16,384"
        )
    );
    assert_eq!(lines.len(), 21);
}

#[test]
fn short_reports_are_the_summary() {
    let quiet = shown(&sample(), &ReportOptions { quiet: true, ..options() });
    assert_eq!(quiet.len(), 10);
    let summary = shown(&sample(), &ReportOptions { summary_only: true, ..options() });
    assert_eq!(quiet, summary);
}

#[test]
fn pairs_are_chosen_by_key() {
    let o = ReportOptions {
        keys: vec!["general.architecture".to_string(), "llama.block_count".to_string()],
        max_kv: 1,
        ..options()
    };
    let lines = shown(&sample(), &o);
    assert!(lines[12].contains("general.architecture") && lines[12].ends_with("llama\""));
    assert!(lines[13].contains("llama.block_count"));
    assert!(!lines.iter().any(|l| l.contains("general.name")));
    let o = ReportOptions { keys: vec!["nothing".to_string()], ..options() };
    assert_eq!(shown(&sample(), &o)[12], "  (no matching keys)");
}

#[test]
fn long_lists_are_cut() {
    let kvs: Vec<Vec<u8>> = (0..5).map(|i| number(&format!("k{i}"), i)).collect();
    let tensors: Vec<_> = (0..60)
        .map(|i| (format!("t{i:02}"), vec![4], 0, 0))
        .collect();
    let f = file(&kvs, &tensors);
    let lines = shown(&f, &ReportOptions { max_kv: 2, ..options() });
    assert!(lines.iter().any(|l| l == "  ... (3 more keys)"));
    assert!(lines.iter().any(|l| l == "Tensors (showing first 50 of 60):"));
    assert!(!lines.iter().any(|l| l.contains("t59")));
    let lines = shown(&f, &ReportOptions { tensors_all: true, ..options() });
    assert!(lines.iter().any(|l| l == "Tensors (showing first 60 of 60):"));
    assert!(lines.iter().any(|l| l.contains("t59")));
}

#[test]
fn json_report_has_its_members() {
    let j = print_json(&sample(), "test.gguf", &Vec::new());
    assert_eq!(
        keys(&j),
        [
            "file",
            "size",
            "header",
            "alignment",
            "data_offset",
            "architecture",
            "model_name",
            "kv",
            "tensors"
        ]
    );
    assert_eq!(member(&j, "file"), &Json::String("test.gguf".to_string()));
    let header = member(&j, "header");
    assert_eq!(member(header, "magic"), &Json::String("46554747".to_string()));
    assert_eq!(member(header, "version"), &Json::U64(3));
    assert_eq!(member(&j, "architecture"), &Json::String("llama".to_string()));
    let kv = member(&j, "kv");
    assert_eq!(member(member(kv, "llama.block_count"), "value"), &Json::U64(32));
    assert_eq!(
        member(member(kv, "llama.block_count"), "type"),
        &Json::String("uint32".to_string())
    );
    match member(&j, "tensors") {
        Json::Array(ts) => {
            assert_eq!(ts.len(), 2);
            assert_eq!(member(&ts[0], "dtype"), &Json::String("BF16".to_string()));
            assert_eq!(
                member(&ts[0], "shape"),
                &Json::Array(vec![Json::U64(128), Json::U64(4096)])
            );
            assert_eq!(member(&ts[0], "num_elements"), &Json::U64(128 * 4096));
        }
        other => panic!("{other:?}"),
    }
}

#[test]
fn json_report_is_chosen_by_key() {
    let j = print_json(&sample(), "x", &vec!["llama.block_count".to_string()]);
    assert_eq!(keys(member(&j, "kv")), ["llama.block_count"]);
}

#[test]
fn json_report_cuts_long_arrays() {
    let mut v = 4i32.to_le_bytes().to_vec();
    v.extend_from_slice(&1500i64.to_le_bytes());
    for i in 0..1500u32 {
        v.extend_from_slice(&i.to_le_bytes());
    }
    let f = file(&[pair("big.array", 9, &v)], &[]);
    let j = print_json(&f, "x", &Vec::new());
    let value = member(member(member(&j, "kv"), "big.array"), "value");
    assert_eq!(member(value, "truncated"), &Json::Bool(true));
    assert_eq!(member(value, "total"), &Json::U64(1500));
    assert_eq!(member(value, "count"), &Json::U64(1500));
    match member(value, "value") {
        Json::Array(items) => assert_eq!(items.len(), 1000),
        other => panic!("{other:?}"),
    }
}

#[test]
fn exit_codes_of_a_report() {
    assert_eq!(exit_code_for(&GgufError::Io("x".into())), 1);
    assert_eq!(exit_code_for(&GgufError::InvalidMagic(1)), 2);
    assert_eq!(exit_code_for(&GgufError::UnsupportedVersion(99)), 3);
    assert_eq!(exit_code_for(&GgufError::InvalidGgufType(77)), 4);
}

#[test]
fn cells_are_formatted() {
    assert_eq!(truncate("abcdef", 6), "abcdef");
    assert_eq!(truncate("abcdefg", 6), "abcde…");
    assert_eq!(truncate("中文字", 2), "中…");
    assert_eq!(truncate("ab", 0), "…");
    assert_eq!(format_shape(&vec![]), "()");
    assert_eq!(format_shape(&vec![2, 3]), "[2, 3]");
}

#[test]
fn sizes_are_readable() {
    assert_eq!(with_commas(0), "0");
    assert_eq!(with_commas(999), "999");
    assert_eq!(with_commas(1000), "1,000");
    assert_eq!(with_commas(760992), "760,992");
    assert_eq!(with_commas(u64::MAX), "18,446,744,073,709,551,615");
    assert_eq!(with_commas(1234567).replace(',', ""), "1234567");
    assert_eq!(human_size(1023, 2), "1023 B");
    assert_eq!(human_size(1024, 2), "1.00 KB");
    assert_eq!(human_size(760992, 2), "743.16 KB");
    assert_eq!(human_size(54236512, 2), "51.72 MB");
    assert_eq!(human_size(u64::MAX, 1), "16384.0 PB");
    assert_eq!(megabytes(54236512), "51.7");
}

#[test]
fn vocabulary_is_looked_up() {
    let f = file(
        &[
            strings("tokenizer.ggml.tokens", &["a", "b", "ab", "a"]),
            strings("tokenizer.ggml.merges", &["a b", "b a", "c d"]),
        ],
        &[],
    );
    assert_eq!(token_by_id(&f, 2), Some("ab".to_string()));
    assert_eq!(token_by_id(&f, 4), None);
    assert_eq!(ids_by_token(&f, "a"), vec![0, 3]);
    assert!(ids_by_token(&f, "zz").is_empty());
    assert_eq!(
        merges_containing(&f, "a"),
        vec![(0, "a b".to_string()), (1, "b a".to_string())]
    );
    assert!(merges_containing(&sample(), "a").is_empty());
}

#[test]
fn errors_say_what_is_wrong() {
    let cases = vec![
        (GgufError::Io("gone".into()), "I/O error: gone"),
        (
            GgufError::InvalidMagic(0x58585858),
            "invalid GGUF magic number: 0x58585858 (expected 0x46554747)",
        ),
        (GgufError::UnsupportedVersion(99), "unsupported GGUF version: 99 (expected 3)"),
        (
            GgufError::OutOfBounds { offset: 8, required: 4, file_size: 10 },
            "read out of bounds at offset 8: need 4 bytes but only 2 remain (file size 10)",
        ),
        (GgufError::InvalidGgufType(-1), "invalid gguf_type value: -1"),
    ];
    for (e, text) in cases {
        assert_eq!(e.to_string(), text);
    }
}
