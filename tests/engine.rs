use filename_change::conflict::numbered_name;
use filename_change::controller::{AppController, ControllerAction, ControllerEvent};
use filename_change::exclusion::ExclusionSet;
use filename_change::path::{basename_of, target_path};
use filename_change::preview::{load_files, update_preview};
use filename_change::rename::{apply_changes, on_finished, on_progress, summarize, ApplyOutcome};
use filename_change::state::{AppState, FileEntry};
use filename_change::transform::{accept_replacement, transform_name};
use filename_change::widgets::{term_spans, HighlightedLabel, ProgressBar};

fn listing(paths: &[&str]) -> Option<Vec<String>> {
    Some(paths.iter().map(|p| p.to_string()).collect())
}

fn state_with(search: &str, replace: &str) -> AppState {
    let mut s = AppState::new();
    s.selected_dir = "/work".to_string();
    s.search_pattern = search.to_string();
    s.replace_pattern = replace.to_string();
    s
}

fn names(files: &[FileEntry]) -> Vec<String> {
    files.iter().map(|f| f.new_name.clone()).collect()
}

fn entry(path: &str, new_name: &str) -> FileEntry {
    FileEntry {
        original_path: path.to_string(),
        new_name: new_name.to_string(),
        search_pattern: String::new(),
        replace_pattern: String::new(),
        case_sensitive: false,
    }
}

#[test]
fn empty_search_keeps_every_name() {
    let mut s = state_with("", "x");
    update_preview(&mut s, &listing(&["/work/b.txt", "/work/sub/a.txt"]));
    assert_eq!(names(&s.files), vec!["a.txt", "b.txt"]);
    assert!(s.preview_files.is_empty());
    assert_eq!(s.status_message, "プレビュー更新 (変更 0 件)");
}

#[test]
fn literal_case_insensitive_replace() {
    let mut s = state_with("report", "doc");
    update_preview(
        &mut s,
        &listing(&["/work/Report.TXT", "/work/report_old.txt", "/work/image.png"]),
    );
    assert_eq!(names(&s.files), vec!["doc.TXT", "image.png", "doc_old.txt"]);
    assert_eq!(s.preview_files.len(), 2);
    assert_eq!(names(&s.preview_files), vec!["doc.TXT", "doc_old.txt"]);
    assert_eq!(s.status_message, "プレビュー更新 (変更 2 件)");
}

#[test]
fn transform_name_examples() {
    assert_eq!(transform_name("Report.TXT", "report", "doc", false, false), "doc.TXT");
    assert_eq!(transform_name("report_old.txt", "report", "doc", false, false), "doc_old.txt");
    assert_eq!(transform_name("image.png", "report", "doc", false, false), "image.png");
    assert_eq!(transform_name("Report.TXT", "report", "doc", true, false), "Report.TXT");
}

#[test]
fn literal_search_is_escaped() {
    assert_eq!(transform_name("a.b.c", ".", "-", true, false), "a-b-c");
    assert_eq!(transform_name("a+b", "a+", "x", true, false), "xb");
}

#[test]
fn regex_mode_and_verbatim_replacement() {
    assert_eq!(transform_name("img_001.png", "[0-9]+", "N", true, true), "img_N.png");
    assert_eq!(transform_name("abc.txt", "(b)", "$1$1", true, true), "a$1$1c.txt");
    assert_eq!(transform_name("abc.txt", "(", "x", true, true), "abc.txt");
}

#[test]
fn replacement_with_separator_is_refused() {
    assert_eq!(transform_name("a.txt", "a", "x/y", true, false), "a.txt");
    assert_eq!(transform_name("a.txt", "a", "x\\y", true, false), "a.txt");
    assert_eq!(accept_replacement("a.txt", "b.txt".to_string()), "b.txt");
    assert_eq!(accept_replacement("a.txt", "../b.txt".to_string()), "a.txt");
}

#[test]
fn exclusion_name_part_and_regex() {
    let set = ExclusionSet::compile(".tmp, re:old");
    assert!(set.is_excluded("/work/cache.tmp"));
    assert!(set.is_excluded("/work/old/notes.txt"));
    assert!(set.is_excluded("/work/OLDER.txt"));
    assert!(!set.is_excluded("/work/notes.txt"));
    assert_eq!(set.invalid(), 0);
}

#[test]
fn exclusion_name_part_looks_at_base_name_only() {
    let set = ExclusionSet::compile("tmp");
    assert!(!set.is_excluded("/tmp/notes.txt"));
    assert!(set.is_excluded("/work/TMPfile.txt"));
}

#[test]
fn exclusion_glob_and_path_part() {
    let set = ExclusionSet::compile("*.LOG , build/");
    assert!(set.is_excluded("/work/x.log"));
    assert!(set.is_excluded("/work/Build/a.txt"));
    assert!(!set.is_excluded("/work/building.txt"));
    assert!(!set.is_excluded("/work/a.txt"));
}

#[test]
fn exclusion_empty_list_excludes_nothing() {
    let set = ExclusionSet::compile(" , ,");
    assert!(!set.is_excluded("/work/a.txt"));
    let none = ExclusionSet::compile("");
    assert!(!none.is_excluded("/work/a.txt"));
}

#[test]
fn exclusion_invalid_patterns_are_counted() {
    let set = ExclusionSet::compile("re:(, [a, keep");
    assert_eq!(set.invalid(), 2);
    assert!(set.is_excluded("/work/keep.txt"));
    assert!(!set.is_excluded("/work/a.txt"));
    let mut s = state_with("", "");
    s.exclude_pattern = "re:(".to_string();
    load_files(&mut s, &listing(&["/work/a.txt"]));
    assert_eq!(s.status_message, "ファイル 1 件を読み込み (除外パターンのエラー 1 件)");
}

#[test]
fn load_sorts_by_base_name_and_excludes() {
    let mut s = state_with("", "");
    s.exclude_pattern = ".bak".to_string();
    load_files(
        &mut s,
        &listing(&["/d/b.txt", "/c/a.txt", "/e/B.txt", "/d/a.txt.bak"]),
    );
    let paths: Vec<String> = s.files.iter().map(|f| f.original_path.clone()).collect();
    assert_eq!(paths, vec!["/e/B.txt", "/c/a.txt", "/d/b.txt"]);
    assert_eq!(s.status_message, "ファイル 3 件を読み込み");
}

#[test]
fn load_missing_directory() {
    let mut s = state_with("a", "b");
    load_files(&mut s, &listing(&["/work/a.txt"]));
    assert_eq!(s.files.len(), 1);
    update_preview(&mut s, &None);
    assert!(s.files.is_empty());
    assert!(s.preview_files.is_empty());
    assert_eq!(s.status_message, "ディレクトリが見つかりません");
}

#[test]
fn duplicates_are_counted_without_auto_numbering() {
    let mut s = state_with("^[ab]", "dup");
    s.use_regex = true;
    update_preview(&mut s, &listing(&["/work/a.txt", "/work/b.txt"]));
    assert_eq!(names(&s.files), vec!["dup.txt", "dup.txt"]);
    assert_eq!(s.status_message, "プレビュー更新 (変更 2 件, 重複 1 件)");
}

#[test]
fn auto_numbering_second_duplicate() {
    let mut s = state_with("^[ab]", "dup");
    s.use_regex = true;
    s.auto_number_on_conflict = true;
    update_preview(&mut s, &listing(&["/work/a.txt", "/work/b.txt"]));
    assert_eq!(names(&s.files), vec!["dup.txt", "dup (2).txt"]);
    assert_eq!(names(&s.preview_files), vec!["dup.txt", "dup (2).txt"]);
    assert_eq!(s.status_message, "プレビュー更新 (変更 2 件, 連番付与 1 件)");
}

#[test]
fn auto_numbering_skips_existing_names() {
    let mut s = state_with("x.", "dup.");
    s.auto_number_on_conflict = true;
    update_preview(
        &mut s,
        &listing(&["/work/DUP.txt", "/work/dup (2).txt", "/work/x.txt", "/other/x.txt"]),
    );
    assert_eq!(
        names(&s.files),
        vec!["DUP.txt", "dup (2).txt", "dup (3).txt", "dup.txt"]
    );
    assert_eq!(s.status_message, "プレビュー更新 (変更 2 件, 連番付与 1 件)");
}

#[test]
fn numbered_name_forms() {
    assert_eq!(numbered_name("report.txt", 2), "report (2).txt");
    assert_eq!(numbered_name("a.tar.gz", 10), "a.tar (10).gz");
    assert_eq!(numbered_name("noext", 3), "noext (3)");
    assert_eq!(numbered_name(".bashrc", 2), " (2).bashrc");
}

#[test]
fn preview_twice_is_identical() {
    let l = listing(&["/work/a.txt", "/work/b.txt", "/work/ab.txt"]);
    let mut s = state_with("a", "b");
    s.auto_number_on_conflict = true;
    update_preview(&mut s, &l);
    let files1 = names(&s.files);
    let preview1 = names(&s.preview_files);
    let status1 = s.status_message.clone();
    update_preview(&mut s, &l);
    assert_eq!(names(&s.files), files1);
    assert_eq!(names(&s.preview_files), preview1);
    assert_eq!(s.status_message, status1);
}

#[test]
fn apply_refuses_shared_target() {
    let mut s = state_with("", "");
    s.files = vec![entry("/work/a.txt", "same.txt"), entry("/work/b.txt", "SAME.txt")];
    let out = apply_changes(&mut s, &vec![true, true], &vec![false, false]);
    assert!(matches!(out, ApplyOutcome::Refused { duplicates: 1, existing: 0 }));
    assert_eq!(s.status_message, "衝突を検出: 新名の重複 1 件、既存ファイルとの衝突 0 件");
    assert!(!s.conversion_in_progress);
}

#[test]
fn apply_refuses_overwriting_existing_file() {
    let mut s = state_with("", "");
    s.files = vec![entry("/work/a.txt", "b.txt"), entry("/work/c.txt", "C.TXT")];
    let out = apply_changes(&mut s, &vec![true, true], &vec![true, true]);
    assert!(matches!(out, ApplyOutcome::Refused { duplicates: 0, existing: 1 }));
    assert_eq!(s.status_message, "衝突を検出: 新名の重複 0 件、既存ファイルとの衝突 1 件");
}

#[test]
fn apply_starts_run() {
    let mut s = state_with("", "");
    s.files = vec![
        entry("/work/a.txt", "x.txt"),
        entry("/work/b.txt", "b.txt"),
        entry("/work/gone.txt", "y.txt"),
    ];
    match apply_changes(&mut s, &vec![true, true, false], &vec![false, false, false]) {
        ApplyOutcome::Started(jobs) => {
            assert_eq!(jobs.len(), 1);
            assert_eq!(jobs[0].from, "/work/a.txt");
            assert_eq!(jobs[0].to, "/work/x.txt");
        }
        _ => panic!("the run should start"),
    }
    assert!(s.conversion_in_progress);
    assert_eq!(s.conversion_total, 1);
    assert_eq!(s.conversion_done, 0);
    let again = apply_changes(&mut s, &vec![true, true, false], &vec![false, false, false]);
    assert!(matches!(again, ApplyOutcome::Busy));
}

#[test]
fn apply_with_nothing_to_rename() {
    let mut s = state_with("", "");
    s.files = vec![entry("/work/a.txt", "a.txt")];
    let out = apply_changes(&mut s, &vec![true], &vec![true]);
    assert!(matches!(out, ApplyOutcome::NothingToRename));
    assert_eq!(s.status_message, "変更対象のファイルはありません。");
}

#[test]
fn progress_reaches_total_and_summary() {
    let mut s = state_with("", "");
    s.conversion_in_progress = true;
    s.conversion_total = 4;
    for n in [2usize, 1, 4, 3] {
        on_progress(&mut s, n);
    }
    assert_eq!(s.conversion_done, 4);
    on_progress(&mut s, 9);
    assert_eq!(s.conversion_done, 4);
    let (ok, failed) = summarize(&vec![true, true, true, true]);
    assert_eq!((ok, failed), (4, 0));
    assert_eq!(summarize(&vec![true, false, true]), (2, 1));
    on_finished(&mut s, ok, failed);
    assert_eq!(s.status_message, "リネーム 4 件、エラー 0 件");
    assert!(!s.conversion_in_progress);
}

#[test]
fn controller_routes_events() {
    let mut c = AppController;
    let mut s = state_with("", "");
    s.conversion_in_progress = true;
    s.conversion_total = 2;
    assert!(matches!(c.event(&mut s, ControllerEvent::PreviewRequest), ControllerAction::RefreshPreview));
    assert!(matches!(c.event(&mut s, ControllerEvent::RenamingProgress(1)), ControllerAction::Repaint));
    assert_eq!(s.conversion_done, 1);
    match c.event(&mut s, ControllerEvent::RenamingDone { succeeded: 1, failed: 1 }) {
        ControllerAction::Finished(msg) => assert_eq!(msg, "リネーム 1 件、エラー 1 件"),
        _ => panic!("the run should finish"),
    }
    assert!(!s.conversion_in_progress);
    let mut t = state_with("", "");
    t.case_sensitive = true;
    assert!(c.update(&s, &t));
    assert!(!c.update(&s, &s));
}

#[test]
fn widgets_texts() {
    let mut e = entry("/work/Report.TXT", "doc.TXT");
    e.search_pattern = "report".to_string();
    let original = HighlightedLabel::new(false);
    let replaced = HighlightedLabel::new(true);
    assert_eq!(original.text(&e), "Report.TXT");
    assert_eq!(replaced.text(&e), "doc.TXT");
    assert_eq!(original.highlight_term(&e), Some("report".to_string()));
    assert_eq!(replaced.highlight_term(&e), None);
    e.replace_pattern = "doc".to_string();
    assert_eq!(replaced.highlight_term(&e), Some("doc".to_string()));
    let mut s = state_with("", "");
    assert!(!ProgressBar.is_visible(&s));
    s.conversion_in_progress = true;
    s.conversion_total = 12;
    s.conversion_done = 3;
    assert!(ProgressBar.is_visible(&s));
    assert_eq!(ProgressBar.counts_label(&s), "(3/12)");
}

#[test]
fn path_helpers() {
    assert_eq!(basename_of("/work/sub/a.txt"), "a.txt");
    assert_eq!(basename_of("C:\\dir\\b.txt"), "b.txt");
    assert_eq!(basename_of("plain"), "plain");
    assert_eq!(target_path("/work/sub/a.txt", "b.txt"), "/work/sub/b.txt");
}

#[test]
fn new_state_is_ready() {
    let s = AppState::new();
    assert_eq!(s.status_message, "準備完了");
    assert!(s.files.is_empty());
    assert!(!s.conversion_in_progress);
}

#[test]
fn highlight_spans_are_literal_matches() {
    assert_eq!(term_spans("Report.TXT", &Some("report".to_string()), false), vec![(0, 6)]);
    assert_eq!(term_spans("Report.TXT", &Some("report".to_string()), true), vec![]);
    assert_eq!(term_spans("a.b.a", &Some(".".to_string()), true), vec![(1, 2), (3, 4)]);
    assert_eq!(term_spans("a.b.a", &None, true), vec![]);
}

#[test]
fn case_sensitive_targets_do_not_collide_by_case() {
    let mut s = state_with("", "");
    s.case_insensitive_targets = false;
    s.files = vec![entry("/work/a.txt", "same.txt"), entry("/work/b.txt", "SAME.txt")];
    let out = apply_changes(&mut s, &vec![true, true], &vec![false, false]);
    assert!(matches!(out, ApplyOutcome::Started(_)));
}

#[test]
fn case_change_only_is_not_an_overwrite() {
    let mut s = state_with("", "");
    s.files = vec![entry("/work/readme.TXT", "readme.txt")];
    let out = apply_changes(&mut s, &vec![true], &vec![true]);
    assert!(matches!(out, ApplyOutcome::Started(_)));
}

#[test]
fn auto_numbering_case_sensitive_targets() {
    let mut s = state_with("^[ab]", "Dup");
    s.use_regex = true;
    s.auto_number_on_conflict = true;
    s.case_insensitive_targets = false;
    update_preview(&mut s, &listing(&["/work/a.txt", "/work/b.txt", "/work/dup.txt"]));
    assert_eq!(names(&s.files), vec!["Dup.txt", "Dup (2).txt", "dup.txt"]);
}

#[test]
fn long_glob_is_handled_without_panic() {
    let huge: String = std::iter::repeat("[!a]").take(100_000).collect();
    let set = ExclusionSet::compile(&huge);
    assert!(set.invalid() <= 1);
    assert!(!set.is_excluded("/work/a.txt"));
}
