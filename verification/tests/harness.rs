use treelite_rs::harness::backend::Backend;
use treelite_rs::harness::golden::{input_shape, InputShapeError};
use treelite_rs::harness::memory::{page_size_bytes, parse_leading_u64, sample_rss, SampleError, SampleMethod};
use treelite_rs::harness::manifest::{default_backend, manifest_drift, Manifest, ManifestDrift};
use treelite_rs::harness::memory::{active_allocator, active_sample_method, render_memory_markdown, MemRow, SizeOfRow};
use treelite_rs::harness::nan::normalize_nan_tokens;
use treelite_rs::harness::report::{band_family, BandFamily};
use treelite_rs::harness::rows::{merge_existing_rows, parse_existing_rows};

#[test]
fn non_ascii_bytes_are_preserved_byte_for_byte() {
    let input = r#"{"os": "Café — 日本", "x": NaN}"#;
    let out = normalize_nan_tokens(input);
    assert_eq!(out, r#"{"os": "Café — 日本", "x": null}"#);
    let expected_non_nan = r#"{"os": "Café — 日本", "x": "#;
    assert_eq!(out.as_bytes()[..expected_non_nan.len()], expected_non_nan.as_bytes()[..],);
}

#[test]
fn standalone_nan_replaced_but_identifier_substrings_untouched() {
    let out = normalize_nan_tokens(r#"[NaN, "NaNny"]"#);
    assert_eq!(out, r#"[null, "NaNny"]"#);
}

#[test]
fn nan_at_edges_and_after_identifiers() {
    assert_eq!(normalize_nan_tokens("NaN"), "null");
    assert_eq!(normalize_nan_tokens("xNaN NaN_ [NaN]"), "xNaN NaN_ [null]");
    assert_eq!(normalize_nan_tokens("éNaN"), "énull");
    assert_eq!(normalize_nan_tokens("NaNNaN"), "NaNNaN");
    assert_eq!(normalize_nan_tokens(""), "");
}

#[test]
fn statm_sampler_reads_a_positive_rss() {
    let statm = "1234 567 89 10 0 300 0\n";
    let s = sample_rss(SampleMethod::Statm, statm).expect("statm sample");
    assert!(s.peak_rss_bytes > 0, "rss = {}", s.peak_rss_bytes);
    assert_eq!(s.peak_rss_bytes, 567 * page_size_bytes());
    assert_eq!(s.bytes_allocated, None);
    assert_eq!(s.method, SampleMethod::Statm);
}

#[test]
fn statm_errors_are_typed() {
    assert_eq!(sample_rss(SampleMethod::Statm, "1234").unwrap_err(), SampleError::NoResidentField);
    assert_eq!(sample_rss(SampleMethod::Statm, "1234 x").unwrap_err(), SampleError::BadResidentField);
    assert_eq!(sample_rss(SampleMethod::Jemalloc, "1 2").unwrap_err(), SampleError::JemallocUnavailable);
}

#[test]
fn sample_method_labels_name_their_source() {
    assert_eq!(SampleMethod::Jemalloc.label(), "tikv_jemalloc_ctl epoch+stats (resident/allocated)");
    assert_eq!(SampleMethod::Statm.label(), "/proc/self/statm field 2 × page size (RSS only)");
}

#[test]
fn leading_u64_of_report_cells() {
    assert_eq!(parse_leading_u64("12345 (12.06 KiB)"), Some(12345));
    assert_eq!(parse_leading_u64("  42"), Some(42));
    assert_eq!(parse_leading_u64("n/a (statm path)"), None);
    assert_eq!(parse_leading_u64(""), None);
}

#[test]
fn manifest_backend_defaults_to_scalar_cpu() {
    assert_eq!(default_backend(), "scalar-cpu");
    assert_ne!(Backend::ScalarCpu, Backend::CubeclCpu);
}

fn mem_row(model: &str, allocator: &str, rss: u64, allocated: Option<u64>) -> MemRow {
    MemRow {
        model: model.to_string(),
        allocator: allocator.to_string(),
        peak_rss_bytes: rss,
        bytes_allocated: allocated,
        method: "m".to_string(),
    }
}

const REPORT: &str = "# Memory Efficiency Report (MEM-03)\n\
\n\
| Model | Allocator | peak resident (RSS) | bytes allocated | measurement method |\n\
|-------|-----------|---------------------|-----------------|--------------------|\n\
| binary (v5) | system (default malloc) | 12582912 (12.00 MiB) | n/a (statm path) | /proc/self/statm |\n\
| xgb_3format (XGBoost JSON) | jemalloc | 2048 (2.00 KiB) | 1024 (1.00 KiB) | jemalloc stats |\r\n\
\n\
| Metric | Bytes | Budget | Within budget? |\n\
|--------|-------|--------|----------------|\n\
| `size_of::<Model>()` | 248 | 512 | yes |\n";

#[test]
fn report_rows_are_read_back_from_the_main_table_only() {
    let rows = parse_existing_rows(REPORT);
    assert_eq!(rows.len(), 2);
    assert_eq!(rows[0].model, "binary (v5)");
    assert_eq!(rows[0].allocator, "system (default malloc)");
    assert_eq!(rows[0].peak_rss_bytes, 12582912);
    assert_eq!(rows[0].bytes_allocated, None);
    assert_eq!(rows[0].method, "/proc/self/statm");
    assert_eq!(rows[1].model, "xgb_3format (XGBoost JSON)");
    assert_eq!(rows[1].allocator, "jemalloc");
    assert_eq!(rows[1].peak_rss_bytes, 2048);
    assert_eq!(rows[1].bytes_allocated, Some(1024));
    assert_eq!(rows[1].method, "jemalloc stats");
}

#[test]
fn garbled_or_empty_report_gives_no_rows() {
    assert!(parse_existing_rows("").is_empty());
    assert!(parse_existing_rows("no table here\n| a | b |\n").is_empty());
    assert!(parse_existing_rows("| --- | b | 1 | 2 | c |").is_empty());
    assert_eq!(parse_existing_rows("|| m | a | 7 | x | k ||").len(), 1);
}

#[test]
fn merge_replaces_the_current_allocator_and_groups_by_allocator() {
    let existing = vec![
        mem_row("b", "system", 1, None),
        mem_row("a", "mimalloc", 2, None),
        mem_row("z", "jemalloc", 3, Some(9)),
        mem_row("a", "system", 4, None),
    ];
    let fresh = vec![mem_row("b", "jemalloc", 5, Some(1)), mem_row("a", "jemalloc", 6, Some(2))];
    let merged = merge_existing_rows(existing, "jemalloc", fresh);
    let keys: Vec<(String, String, u64)> =
        merged.iter().map(|r| (r.allocator.clone(), r.model.clone(), r.peak_rss_bytes)).collect();
    assert_eq!(
        keys,
        vec![
            ("jemalloc".to_string(), "a".to_string(), 6),
            ("jemalloc".to_string(), "b".to_string(), 5),
            ("mimalloc".to_string(), "a".to_string(), 2),
            ("system".to_string(), "a".to_string(), 4),
            ("system".to_string(), "b".to_string(), 1),
        ]
    );
}

#[test]
fn merge_keeps_equal_keys_in_arrival_order() {
    let existing = vec![mem_row("m", "x", 1, None), mem_row("m", "x", 2, None)];
    let fresh = vec![mem_row("m", "x", 3, None)];
    let merged = merge_existing_rows(existing, "y", fresh);
    let rss: Vec<u64> = merged.iter().map(|r| r.peak_rss_bytes).collect();
    assert_eq!(rss, vec![1, 2, 3]);
    let merged = merge_existing_rows(Vec::new(), "x", Vec::new());
    assert!(merged.is_empty());
}

fn manifest(os: &str, arch: &str, backend: &str, rustc: Option<&str>) -> Manifest {
    Manifest {
        treelite: "4.7.0".to_string(),
        xgboost: None,
        os: os.to_string(),
        arch: arch.to_string(),
        libc: serde_json::Value::Null,
        python: None,
        backend: backend.to_string(),
        rustc: rustc.map(|s| s.to_string()),
        cubecl: None,
        seed: None,
        sha256: None,
        numpy: None,
        scipy: None,
        lightgbm: None,
        scikit_learn: None,
        model: None,
        preset: None,
        input_dtype: None,
        kind: None,
        layout: None,
    }
}

#[test]
fn matching_environment_has_no_drift() {
    let m = manifest("Linux-6.8.0-x86_64-with-glibc2.39", "X86_64", "scalar-cpu", Some("rustc 1.x"));
    let d = manifest_drift(&m, "linux", "x86_64", Some("rustc 1.x"));
    assert_eq!(d, ManifestDrift { os: false, arch: false, backend: false, rustc: false });
    assert_eq!(default_backend(), "scalar-cpu");
}

#[test]
fn each_drift_is_reported() {
    let m = manifest("Darwin-23.0-arm64", "arm64", "rocm", Some("rustc 1.80"));
    let d = manifest_drift(&m, "linux", "x86_64", Some("rustc 1.81"));
    assert_eq!(d, ManifestDrift { os: true, arch: true, backend: true, rustc: true });
    let d = manifest_drift(&m, "darwin", "ARM64", None);
    assert_eq!(d, ManifestDrift { os: false, arch: false, backend: true, rustc: false });
}

#[test]
fn predicted_band_families_follow_the_table() {
    assert_eq!(band_family("identity"), BandFamily::NoTranscendental);
    assert_eq!(band_family("signed_square"), BandFamily::NoTranscendental);
    assert_eq!(band_family("sigmoid"), BandFamily::SingleExp);
    assert_eq!(band_family("multiclass_ova"), BandFamily::SingleExp);
    assert_eq!(band_family("exponential"), BandFamily::UnboundedExp);
    assert_eq!(band_family("exponential_standard_ratio"), BandFamily::BoundedExp2);
    assert_eq!(band_family("logarithm_one_plus_exp"), BandFamily::TwoTranscendentals);
    assert_eq!(band_family("softmax"), BandFamily::PerClassExp);
    assert_eq!(band_family("some_future_postproc"), BandFamily::Unclaimed);
}

#[test]
fn golden_input_must_be_a_non_empty_rectangle() {
    assert_eq!(input_shape(&[3, 3, 3]), Ok((3, 3)));
    assert_eq!(input_shape(&[0]), Ok((1, 0)));
    assert_eq!(input_shape(&[]), Err(InputShapeError::NoRows));
    assert_eq!(input_shape(&[3, 3, 2, 4]), Err(InputShapeError::RaggedRow { row: 2, got: 2, expected: 3 }));
}

#[test]
fn this_build_samples_the_system_allocator_by_statm() {
    assert_eq!(active_allocator(), "system (default malloc)");
    assert_eq!(active_sample_method(), SampleMethod::Statm);
}

#[test]
fn a_written_row_reads_back() {
    let line = format!(
        "| {} | {} | {} | {} | {} |",
        "lgbm_numerical (v5, LightGBM-derived)", "mimalloc", "4096 (4.00 KiB)", "n/a (statm path)", "statm"
    );
    let rows = parse_existing_rows(&line);
    assert_eq!(rows.len(), 1);
    assert_eq!(rows[0].model, "lgbm_numerical (v5, LightGBM-derived)");
    assert_eq!(rows[0].allocator, "mimalloc");
    assert_eq!(rows[0].peak_rss_bytes, 4096);
    assert_eq!(rows[0].bytes_allocated, None);
    assert_eq!(rows[0].method, "statm");
}

#[test]
fn memory_report_renders_rows_provenance_and_budget() {
    let rows = vec![mem_row("binary (v5)", "system (default malloc)", 2048, None)];
    let rss = vec!["2.00 KiB".to_string()];
    let allocated = vec![String::new()];
    let m = manifest("linux", "x86_64", "scalar-cpu", None);
    let size_of = SizeOfRow { size_of_model_bytes: 480, budget_bytes: 512 };
    let md = render_memory_markdown(&rows, &rss, &allocated, size_of, &m);
    let lines: Vec<&str> = md.lines().collect();
    assert_eq!(lines[0], "# Memory Efficiency Report (MEM-03)");
    assert_eq!(lines[1], "");
    assert_eq!(
        lines[2],
        "Regenerated on: treelite 4.7.0 / unknown rustc / captured-on linux x86_64 (provenance from the run Manifest, D-10)"
    );
    assert!(lines[3].ends_with("**Observational — NOT a CI gate (D-10).**"));
    assert_eq!(
        lines[7],
        "| binary (v5) | system (default malloc) | 2048 (2.00 KiB) | n/a (statm path) | m |"
    );
    assert!(md.contains("| `size_of::<Model>()` | 480 | 512 | yes |\n"));
    assert!(md.contains("## Attestation (D-11 green floor)\n"));
    assert!(md.ends_with("the abi3 wheel pulls ZERO allocator deps.\n"));
}

#[test]
fn memory_report_flags_a_size_over_budget() {
    let m = manifest("linux", "aarch64", "scalar-cpu", Some("rustc 1.80.0"));
    let size_of = SizeOfRow { size_of_model_bytes: 1000, budget_bytes: 0 };
    let md = render_memory_markdown(&[], &[], &[], size_of, &m);
    assert!(md.contains("/ rustc 1.80.0 / captured-on linux aarch64 "));
    assert!(md.contains("| `size_of::<Model>()` | 1000 | 0 | NO — investigate (Pitfall 2) |\n"));
    let table_end = md.find("|--------------------|\n").unwrap() + "|--------------------|\n".len();
    assert!(md[table_end..].starts_with("\n## `size_of::<Model>()` (MEM-02 structural-size attestation)"));
}

#[test]
fn rendered_report_rows_read_back() {
    let rows = vec![
        mem_row("binary (v5)", "jemalloc", 3_145_728, Some(1024)),
        mem_row("large_margin (v5)", "system (default malloc)", 2048, None),
    ];
    let rss = vec!["3.00 MiB".to_string(), "2.00 KiB".to_string()];
    let allocated = vec!["1.00 KiB".to_string(), "ignored".to_string()];
    let m = manifest("linux", "x86_64", "scalar-cpu", Some("rustc 1.80.0"));
    let size_of = SizeOfRow { size_of_model_bytes: 480, budget_bytes: 512 };
    let md = render_memory_markdown(&rows, &rss, &allocated, size_of, &m);
    assert!(md.contains("| binary (v5) | jemalloc | 3145728 (3.00 MiB) | 1024 (1.00 KiB) | m |\n"));
    assert!(md.contains("| 2048 (2.00 KiB) | n/a (statm path) |"));
    let back = parse_existing_rows(&md);
    assert_eq!(back.len(), 2);
    for (got, want) in back.iter().zip(rows.iter()) {
        assert_eq!(got.model, want.model);
        assert_eq!(got.allocator, want.allocator);
        assert_eq!(got.peak_rss_bytes, want.peak_rss_bytes);
        assert_eq!(got.bytes_allocated, want.bytes_allocated);
        assert_eq!(got.method, want.method);
    }
}
