use housekeep::batch::{item_block, BatchError, BatchRun, Outcome, ScanError};
use housekeep::command::{git_pull, html_to_md, html_to_md_file, markdown_path, replace_first_exec, woff2_compress};
use housekeep::scan::{is_match, select, select_git_repos, select_ttf_files, DirectoryEntry, Selection};

fn dir(path: &str, has_git: bool) -> DirectoryEntry {
    DirectoryEntry { path: path.to_string(), is_dir: true, is_file: false, has_git, extension: None }
}

fn file(path: &str, ext: Option<&str>) -> DirectoryEntry {
    DirectoryEntry {
        path: path.to_string(),
        is_dir: false,
        is_file: true,
        has_git: false,
        extension: ext.map(|e| e.to_string()),
    }
}

fn strings(v: &[&str]) -> Vec<String> {
    v.iter().map(|s| s.to_string()).collect()
}

#[test]
fn markdown_path_replaces_extension() {
    assert_eq!(markdown_path("report.html"), "report.md");
}

#[test]
fn markdown_path_replaces_first_occurrence_only() {
    assert_eq!(markdown_path("archive.html.html"), "archive.md.html");
    assert_eq!(markdown_path("report.html.backup"), "report.md.backup");
}

#[test]
fn markdown_path_without_html_is_unchanged() {
    assert_eq!(markdown_path("notes.txt"), "notes.txt");
    assert_eq!(markdown_path(""), "");
    assert_eq!(markdown_path(".htm"), ".htm");
}

#[test]
fn replace_first_handles_edges() {
    assert_eq!(replace_first_exec("aaa", "a", "b"), "baa");
    assert_eq!(replace_first_exec("abc", "", "x"), "xabc");
    assert_eq!(replace_first_exec("ab", "abc", "x"), "ab");
    assert_eq!(replace_first_exec("xabc", "abc", ""), "x");
    assert_eq!(replace_first_exec("é.html", ".html", ".md"), "é.md");
}

#[test]
fn pandoc_command_line() {
    let inv = html_to_md_file("page.html");
    assert_eq!(inv.program, "pandoc");
    assert_eq!(inv.args, strings(&["page.html", "-f", "html", "-t", "commonmark", "-o", "page.md"]));
    assert_eq!(inv.cwd, None);
}

#[test]
fn conversions_follow_input_order() {
    let files = strings(&["f1.html", "f2.html", "f3.html"]);
    let plan = html_to_md(&files);
    assert_eq!(plan.len(), 3);
    let inputs: Vec<&str> = plan.iter().map(|i| i.args[0].as_str()).collect();
    assert_eq!(inputs, vec!["f1.html", "f2.html", "f3.html"]);
    let outputs: Vec<&str> = plan.iter().map(|i| i.args[6].as_str()).collect();
    assert_eq!(outputs, vec!["f1.md", "f2.md", "f3.md"]);
}

#[test]
fn conversions_of_no_files() {
    assert!(html_to_md(&Vec::new()).is_empty());
}

#[test]
fn git_and_font_command_lines() {
    let g = git_pull("repos/a");
    assert_eq!(g.program, "git");
    assert_eq!(g.args, strings(&["pull"]));
    assert_eq!(g.cwd, Some("repos/a".to_string()));
    let w = woff2_compress("fonts/x.ttf");
    assert_eq!(w.program, "fonttools");
    assert_eq!(w.args, strings(&["ttLib.woff2", "compress", "fonts/x.ttf"]));
    assert_eq!(w.cwd, None);
}

#[test]
fn selects_exactly_the_git_repositories() {
    let entries = vec![
        dir("r/a", true),
        dir("r/b", false),
        file("r/c", None),
        dir("r/d", true),
        dir("r/e", false),
    ];
    assert_eq!(select_git_repos(&entries), strings(&["r/a", "r/d"]));
    let mut reversed = entries.clone();
    reversed.reverse();
    let picked = select_git_repos(&reversed);
    assert_eq!(picked.len(), 2);
    assert_eq!(picked, strings(&["r/d", "r/a"]));
}

#[test]
fn a_file_named_git_is_no_repository() {
    let mut f = file("r/x", None);
    f.has_git = true;
    assert!(!is_match(&f, Selection::GitRepos));
}

#[test]
fn selects_exactly_the_ttf_files() {
    let entries = vec![
        file("f/a.ttf", Some("ttf")),
        file("f/b.TTF", Some("TTF")),
        file("f/c.otf", Some("otf")),
        file("f/README", None),
        dir("f/d.ttf", false),
        file("f/e.ttf", Some("ttf")),
    ];
    assert_eq!(select_ttf_files(&entries), strings(&["f/a.ttf", "f/e.ttf"]));
    assert_eq!(select(&entries, Selection::TtfFiles).len(), 2);
}

#[test]
fn empty_directory_selects_nothing() {
    assert!(select_git_repos(&Vec::new()).is_empty());
    assert!(select_ttf_files(&Vec::new()).is_empty());
}

#[test]
fn missing_root_fails_before_any_work() {
    let r = BatchRun::new(Selection::GitRepos, Err(ScanError::Missing));
    assert!(matches!(r, Err(BatchError::Scan(ScanError::Missing))));
    let r = BatchRun::new(Selection::TtfFiles, Err(ScanError::Unreadable));
    assert!(matches!(r, Err(BatchError::Scan(ScanError::Unreadable))));
}

fn git_run() -> BatchRun {
    let entries = vec![dir("r/a", true), dir("r/b", true), dir("r/c", true), dir("r/n", false)];
    match BatchRun::new(Selection::GitRepos, Ok(entries)) {
        Ok(b) => b,
        Err(_) => panic!("scan given as successful"),
    }
}

#[test]
fn run_hands_out_one_command_per_match() {
    let run = git_run();
    assert_eq!(run.len(), 3);
    assert_eq!(run.invocation(1).cwd, Some("r/b".to_string()));
    assert_eq!(run.invocation(1).args, strings(&["pull"]));
}

#[test]
fn git_block_holds_path_and_output() {
    let b = item_block(Selection::GitRepos, "r/a", b"Already up to date.\n".to_vec());
    assert_eq!(b, Some("Updating r/a\nAlready up to date.\n\n".to_string()));
    let b = item_block(Selection::GitRepos, "r/a", "héllo".as_bytes().to_vec());
    assert_eq!(b, Some("Updating r/a\nhéllo\n".to_string()));
}

#[test]
fn font_block_names_the_file() {
    let b = item_block(Selection::TtfFiles, "f/a.ttf", vec![0xff, 0x00]);
    assert_eq!(b, Some("Converted file f/a.ttf\n".to_string()));
}

#[test]
fn blocks_are_the_same_in_any_completion_order() {
    let outputs = ["one\n", "two\n", "three\n"];
    let mut first = git_run();
    let mut a = Vec::new();
    for i in [0usize, 1, 2] {
        a.push(first.record(i, Outcome::Ran(outputs[i].as_bytes().to_vec())).unwrap());
    }
    let mut second = git_run();
    let mut b = Vec::new();
    for i in [2usize, 0, 1] {
        b.push(second.record(i, Outcome::Ran(outputs[i].as_bytes().to_vec())).unwrap());
    }
    assert_eq!(a.len(), 3);
    assert_ne!(a, b);
    a.sort();
    b.sort();
    assert_eq!(a, b);
    assert!(a.contains(&"Updating r/c\nthree\n\n".to_string()));
    assert_eq!(first.finish(), Ok(3));
    assert_eq!(second.finish(), Ok(3));
}

#[test]
fn spawn_failure_stops_the_run() {
    let mut run = git_run();
    assert!(run.may_start());
    assert!(run.record(0, Outcome::Ran(b"done\n".to_vec())).is_some());
    assert_eq!(run.record(1, Outcome::SpawnFailed), None);
    assert!(!run.may_start());
    assert_eq!(run.record(2, Outcome::Ran(b"late\n".to_vec())), None);
    assert_eq!(run.finish(), Err(BatchError::Spawn));
}

#[test]
fn output_that_is_not_text_stops_the_run() {
    let mut run = git_run();
    assert_eq!(run.record(0, Outcome::Ran(vec![0xc3, 0x28])), None);
    assert!(!run.may_start());
    assert_eq!(run.finish(), Err(BatchError::Encoding));
}

#[test]
fn empty_run_finishes_with_nothing_printed() {
    let run = match BatchRun::new(Selection::TtfFiles, Ok(Vec::new())) {
        Ok(b) => b,
        Err(_) => panic!("scan given as successful"),
    };
    assert_eq!(run.len(), 0);
    assert_eq!(run.finish(), Ok(0));
}
