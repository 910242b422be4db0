use playdsp::dispatch::{
    backend_for_tag, output_file_name, plan_batch, plan_jobs, written_outputs, Backend,
    JobOutcome,
};

fn strings(v: &[&str]) -> Vec<String> {
    v.iter().map(|s| s.to_string()).collect()
}

#[test]
fn output_name_pattern() {
    assert_eq!(
        output_file_name("../audio/result", "take1", "2024_05_01_13_07", "rs"),
        "../audio/result/take1_processed_2024_05_01_13_07_rs.wav"
    );
}

#[test]
fn backends_by_tag() {
    assert_eq!(backend_for_tag("rs"), Some(Backend::Host));
    assert_eq!(backend_for_tag("cpp"), Some(Backend::Native));
    assert_eq!(backend_for_tag("wav"), None);
    assert_eq!(backend_for_tag(""), None);
}

#[test]
fn plan_is_cross_product_with_stamp_per_file() {
    let files = strings(&["src/a.wav", "src/b.wav"]);
    let programs = strings(&["p/rust_process_audio.rs", "p/cpp_process_audio.cpp"]);
    let stamps = strings(&["2024_01_01_00_00", "2024_01_01_00_01"]);
    let jobs = plan_jobs("out", &files, &programs, &stamps);
    assert_eq!(jobs.len(), 2);
    assert_eq!(jobs[0].len(), 2);
    assert_eq!(jobs[0][0].input, "src/a.wav");
    assert_eq!(jobs[0][0].tag, "rs");
    assert_eq!(jobs[0][0].output, "out/a_processed_2024_01_01_00_00_rs.wav");
    assert_eq!(jobs[0][1].output, "out/a_processed_2024_01_01_00_00_cpp.wav");
    assert_eq!(jobs[1][0].output, "out/b_processed_2024_01_01_00_01_rs.wav");
    assert_eq!(jobs[1][1].program, "p/cpp_process_audio.cpp");
    assert_eq!(jobs[1][1].tag, "cpp");
}

#[test]
fn program_without_extension_has_empty_tag() {
    let jobs = plan_jobs("o", &strings(&["x.wav"]), &strings(&["bin/tool"]), &strings(&["s"]));
    assert_eq!(jobs[0][0].tag, "");
    assert_eq!(jobs[0][0].output, "o/x_processed_s_.wav");
}

#[test]
fn one_failure_leaves_three_outputs() {
    let files = strings(&["a.wav", "b.wav"]);
    let programs = strings(&["rust_process_audio.rs", "cpp_process_audio.cpp"]);
    let stamps = strings(&["t1", "t2"]);
    let jobs = plan_jobs("r", &files, &programs, &stamps);
    let outcomes = vec![
        vec![JobOutcome::Written, JobOutcome::MissingBackend],
        vec![JobOutcome::Written, JobOutcome::Written],
    ];
    assert_eq!(
        written_outputs(&jobs, &outcomes),
        strings(&["r/a_processed_t1_rs.wav", "r/b_processed_t2_rs.wav", "r/b_processed_t2_cpp.wav"])
    );
    let failed = vec![
        vec![JobOutcome::Failed, JobOutcome::Written],
        vec![JobOutcome::Written, JobOutcome::Written],
    ];
    assert_eq!(written_outputs(&jobs, &failed).len(), 3);
}

#[test]
fn batch_stamps_are_shared_per_file() {
    let files = strings(&["in/a.wav", "in/b.wav"]);
    let programs = strings(&["rust_process_audio.rs", "cpp_process_audio.cpp"]);
    let jobs = plan_batch("res", &files, &programs);
    for row in &jobs {
        let first = row[0].output.strip_prefix("res/").unwrap().to_string();
        let stamp_rs = first.split("_processed_").nth(1).unwrap().strip_suffix("_rs.wav").unwrap().to_string();
        assert!(stamp_rs.len() >= 16);
        assert!(stamp_rs.chars().all(|c| c.is_ascii_digit() || c == '_' || c == '+' || c == '-'));
        assert!(row[1].output.ends_with(&format!("_processed_{}_cpp.wav", stamp_rs)));
    }
    assert!(jobs[0][0].output.starts_with("res/a_processed_"));
}
