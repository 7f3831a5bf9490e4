use name_cp::copy_files;
use name_cp::decide_copy;
use name_cp::duration_millis;
use name_cp::is_close;
use name_cp::Args;
use name_cp::CopyEnv;
use name_cp::CopyOutcome;
use name_cp::FileEntry;

fn args() -> Args {
    Args {
        dry: false,
        check: false,
        source: "/src".to_string(),
        target: "/tgt".to_string(),
        extensions: vec!["mkv".to_string()],
        rename: false,
        overwrite: false,
    }
}

fn entries(parent: &str, names: &[&str]) -> Vec<FileEntry> {
    names
        .iter()
        .map(|n| FileEntry {
            parent: parent.to_string(),
            name: n.to_string(),
        })
        .collect()
}

fn quiet_env() -> CopyEnv {
    CopyEnv {
        dur_src: 0,
        dur_tgt: 0,
        duration_answer: true,
        overwrite_answer: false,
    }
}

#[test]
fn is_close_compares_absolute_difference() {
    assert!(is_close(1000, 1500, 900));
    assert!(is_close(1500, 1000, 900));
    assert!(!is_close(1000, 2000, 900));
    assert!(!is_close(1000, 1900, 900));
    assert!(is_close(7, 7, 900));
}

#[test]
fn duration_millis_reads_ffprobe_style_strings() {
    assert_eq!(duration_millis(&"1288.459000".to_string()), Some(1288459));
    assert_eq!(duration_millis(&"0.0".to_string()), Some(0));
    assert_eq!(duration_millis(&"12".to_string()), Some(12000));
    assert_eq!(duration_millis(&"12.34".to_string()), Some(12340));
    assert_eq!(duration_millis(&"12.3456".to_string()), Some(12345));
    assert_eq!(duration_millis(&"3.".to_string()), Some(3000));
}

#[test]
fn duration_millis_rejects_other_shapes() {
    assert_eq!(duration_millis(&"".to_string()), None);
    assert_eq!(duration_millis(&".5".to_string()), None);
    assert_eq!(duration_millis(&"N/A".to_string()), None);
    assert_eq!(duration_millis(&"12a".to_string()), None);
    assert_eq!(duration_millis(&"1.2.3".to_string()), None);
    assert_eq!(duration_millis(&"-4".to_string()), None);
    assert_eq!(duration_millis(&"1234567890123456".to_string()), None);
    assert_eq!(
        duration_millis(&"123456789012345".to_string()),
        Some(123456789012345000)
    );
}

#[test]
fn copy_outcome_dry_run_only_reports() {
    let mut a = args();
    a.dry = true;
    a.overwrite = true;
    assert_eq!(decide_copy(&a, quiet_env()), CopyOutcome::Reported);
}

#[test]
fn copy_outcome_duration_mismatch_asks_and_declining_skips() {
    let mut a = args();
    a.check = true;
    a.overwrite = true;
    let mut e = quiet_env();
    e.dur_src = 1288459;
    e.dur_tgt = 1287000;
    e.duration_answer = false;
    assert_eq!(decide_copy(&a, e), CopyOutcome::SkippedDuration);
    e.duration_answer = true;
    assert_eq!(decide_copy(&a, e), CopyOutcome::Copied);
}

#[test]
fn copy_outcome_close_durations_do_not_ask() {
    let mut a = args();
    a.check = true;
    a.overwrite = true;
    let mut e = quiet_env();
    e.dur_src = 1288459;
    e.dur_tgt = 1288100;
    e.duration_answer = false;
    assert_eq!(decide_copy(&a, e), CopyOutcome::Copied);
}

#[test]
fn copy_outcome_unknown_duration_skips_the_check() {
    let mut a = args();
    a.check = true;
    a.overwrite = true;
    let mut e = quiet_env();
    e.dur_src = 0;
    e.dur_tgt = 999999;
    e.duration_answer = false;
    assert_eq!(decide_copy(&a, e), CopyOutcome::Copied);
}

#[test]
fn copy_outcome_overwrite_prompt() {
    let a = args();
    let mut e = quiet_env();
    e.overwrite_answer = false;
    assert_eq!(decide_copy(&a, e), CopyOutcome::SkippedOverwrite);
    e.overwrite_answer = true;
    assert_eq!(decide_copy(&a, e), CopyOutcome::Copied);
}

#[test]
fn copy_files_dry_run_touches_nothing() {
    let mut a = args();
    a.dry = true;
    let files = entries("/src", &["one.mkv", "two.mkv"]);
    let env = vec![quiet_env(); 2];
    let r = copy_files(&a, &files, &"/tgt".to_string(), &env);
    assert_eq!(
        r.outcomes,
        vec![CopyOutcome::Reported, CopyOutcome::Reported]
    );
    assert!(r.ops.is_empty());
}

#[test]
fn copy_files_emits_one_op_per_copied_file() {
    let mut a = args();
    a.overwrite = true;
    let files = entries("/src", &["one.mkv", "two.mkv"]);
    let env = vec![quiet_env(); 2];
    let r = copy_files(&a, &files, &"/tgt".to_string(), &env);
    assert_eq!(r.outcomes, vec![CopyOutcome::Copied, CopyOutcome::Copied]);
    assert_eq!(r.ops.len(), 2);
    assert_eq!(r.ops[0].from_folder, "/src");
    assert_eq!(r.ops[0].name, "one.mkv");
    assert_eq!(r.ops[0].dest_folder, "/tgt");
}

#[test]
fn copy_files_dry_run_reports_what_auto_overwrite_would_do() {
    let files = entries("/src", &["one.mkv", "two.mkv"]);
    let env = vec![quiet_env(); 2];
    let mut dry = args();
    dry.dry = true;
    let mut wet = args();
    wet.overwrite = true;
    let dry_run = copy_files(&dry, &files, &"/tgt".to_string(), &env);
    let wet_run = copy_files(&wet, &files, &"/tgt".to_string(), &env);
    assert!(dry_run.ops.is_empty());
    assert_eq!(dry_run.outcomes.len(), wet_run.ops.len());
    let copied: Vec<String> = wet_run.ops.iter().map(|o| o.name.clone()).collect();
    assert_eq!(copied, vec!["one.mkv".to_string(), "two.mkv".to_string()]);
}

#[test]
fn copy_files_skips_declined_files_and_continues() {
    let a = args();
    let files = entries("/src", &["one.mkv", "two.mkv", "three.mkv"]);
    let env = vec![
        CopyEnv {
            dur_src: 0,
            dur_tgt: 0,
            duration_answer: true,
            overwrite_answer: true,
        },
        CopyEnv {
            dur_src: 0,
            dur_tgt: 0,
            duration_answer: true,
            overwrite_answer: false,
        },
        CopyEnv {
            dur_src: 0,
            dur_tgt: 0,
            duration_answer: true,
            overwrite_answer: true,
        },
    ];
    let r = copy_files(&a, &files, &"/tgt".to_string(), &env);
    assert_eq!(
        r.outcomes,
        vec![
            CopyOutcome::Copied,
            CopyOutcome::SkippedOverwrite,
            CopyOutcome::Copied,
        ]
    );
    assert_eq!(r.ops.len(), 2);
    assert_eq!(r.ops[0].name, "one.mkv");
    assert_eq!(r.ops[1].name, "three.mkv");
}
