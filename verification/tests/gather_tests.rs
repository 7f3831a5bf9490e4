use name_cp::gather;
use name_cp::Args;

fn args_with(exts: &[&str]) -> Args {
    Args {
        dry: false,
        check: false,
        source: "/src".to_string(),
        target: "/tgt".to_string(),
        extensions: exts.iter().map(|s| s.to_string()).collect(),
        rename: false,
        overwrite: false,
    }
}

fn strings(names: &[&str]) -> Vec<String> {
    names.iter().map(|s| s.to_string()).collect()
}

#[test]
fn gather_filters_by_extension() {
    let a = args_with(&["mkv", "mp4"]);
    let parent = "/src".to_string();
    let names = strings(&["one.mkv", "notes.txt", "two.mp4", "three.avi"]);
    let r = gather(&a, &parent, names);
    let got: Vec<String> = r.iter().map(|e| e.name.clone()).collect();
    assert_eq!(got, strings(&["one.mkv", "two.mp4"]));
    for e in &r {
        assert_eq!(e.parent, "/src");
    }
}

#[test]
fn gather_extension_match_is_case_insensitive() {
    let a = args_with(&["mkv"]);
    let parent = "/src".to_string();
    let names = strings(&["Upper.MKV", "lower.mkv", "other.avi"]);
    let r = gather(&a, &parent, names);
    let got: Vec<String> = r.iter().map(|e| e.name.clone()).collect();
    assert_eq!(got, strings(&["lower.mkv", "Upper.MKV"]));
}

#[test]
fn gather_excludes_names_without_extension() {
    let a = args_with(&["mkv"]);
    let parent = "/src".to_string();
    let names = strings(&["README", ".hidden", "keep.mkv", "trailing."]);
    let r = gather(&a, &parent, names);
    let got: Vec<String> = r.iter().map(|e| e.name.clone()).collect();
    assert_eq!(got, strings(&["keep.mkv"]));
}

#[test]
fn gather_takes_the_last_dot_as_extension() {
    let a = args_with(&["gz"]);
    let parent = "/src".to_string();
    let names = strings(&["bundle.tar.gz", "bundle.gz.tar"]);
    let r = gather(&a, &parent, names);
    let got: Vec<String> = r.iter().map(|e| e.name.clone()).collect();
    assert_eq!(got, strings(&["bundle.tar.gz"]));
}

#[test]
fn gather_sorts_digit_runs_by_value() {
    let a = args_with(&["mp4"]);
    let parent = "/src".to_string();
    let names = strings(&["clip10.mp4", "clip2.mp4", "clip1.mp4"]);
    let r = gather(&a, &parent, names);
    let got: Vec<String> = r.iter().map(|e| e.name.clone()).collect();
    assert_eq!(got, strings(&["clip1.mp4", "clip2.mp4", "clip10.mp4"]));
}

#[test]
fn gather_sorts_episodes_naturally() {
    let a = args_with(&["mkv"]);
    let parent = "/shows".to_string();
    let names = strings(&[
        "Episode.11.mkv",
        "Episode.2.mkv",
        "Episode.1.mkv",
        "Episode.21.mkv",
    ]);
    let r = gather(&a, &parent, names);
    let got: Vec<String> = r.iter().map(|e| e.name.clone()).collect();
    assert_eq!(
        got,
        strings(&[
            "Episode.1.mkv",
            "Episode.2.mkv",
            "Episode.11.mkv",
            "Episode.21.mkv",
        ])
    );
}

#[test]
fn gather_empty_extension_set_keeps_nothing() {
    let a = args_with(&[]);
    let parent = "/src".to_string();
    let names = strings(&["one.mkv", "two.mp4"]);
    let r = gather(&a, &parent, names);
    assert!(r.is_empty());
}
